use qr_multi_scan::contrast::enhance_contrast;
use qr_multi_scan::raster::GrayImage;

fn gray(width: usize, height: usize, samples: Vec<u8>) -> GrayImage {
    GrayImage::from_raw(width, height, samples).unwrap()
}

#[test]
fn equalize_two_level_image() {
    // count at or below 0 is 1 of 2 samples: round(255 * 1/2) = 128
    let img = gray(2, 1, vec![0, 255]);
    let out = enhance_contrast(&img);
    assert_eq!(out.width, 2);
    assert_eq!(out.height, 1);
    assert_eq!(out.samples, vec![128, 255]);
}

#[test]
fn equalize_uniform_image() {
    // every sample shares one level: round(255 * 1) = 255 everywhere
    let img = gray(3, 2, vec![128; 6]);
    let out = enhance_contrast(&img);
    assert_eq!(out.samples, vec![255; 6]);
}

#[test]
fn equalize_zero_size_image() {
    let img = gray(0, 0, Vec::new());
    let out = enhance_contrast(&img);
    assert_eq!(out.width, 0);
    assert_eq!(out.height, 0);
    assert_eq!(out.samples.len(), 0);
}

#[test]
fn equalize_spreads_narrow_histogram() {
    // a narrow band of intensities must end up spanning up to 255
    let img = gray(4, 1, vec![120, 124, 126, 130]);
    let out = enhance_contrast(&img);
    assert_eq!(out.samples, vec![64, 128, 191, 255]);
}

#[test]
fn equalize_preserves_intensity_order() {
    let mut samples = Vec::new();
    let mut state: u32 = 7;
    for _ in 0..256 {
        state = state.wrapping_mul(1103515245).wrapping_add(12345);
        samples.push((state >> 16) as u8);
    }
    let img = gray(16, 16, samples.clone());
    let out = enhance_contrast(&img);
    for i in 0..samples.len() {
        for j in 0..samples.len() {
            if samples[i] <= samples[j] {
                assert!(out.samples[i] <= out.samples[j]);
            }
        }
    }
}

#[test]
fn equalize_stable_on_equalized_gradient() {
    // an even 16-level gradient is already equalized up to quantization:
    // a second pass reproduces the first exactly
    let samples: Vec<u8> = (0..16u32).map(|k| (k * 17) as u8).collect();
    let img = gray(4, 4, samples);
    let once = enhance_contrast(&img);
    let twice = enhance_contrast(&once);
    assert_eq!(once.samples, twice.samples);
}

#[test]
fn equalize_is_idempotent() {
    // the round-to-nearest remap reproduces itself exactly on any input
    let mut samples = Vec::new();
    let mut state: u32 = 311;
    for _ in 0..48 * 32 {
        state = state.wrapping_mul(1103515245).wrapping_add(12345);
        samples.push((state >> 16) as u8);
    }
    let img = gray(48, 32, samples);
    let once = enhance_contrast(&img);
    let twice = enhance_contrast(&once);
    assert_eq!(once.samples, twice.samples);
}

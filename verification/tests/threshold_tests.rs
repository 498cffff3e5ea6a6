use qr_multi_scan::threshold::adaptive_threshold;
use qr_multi_scan::raster::GrayImage;

fn gray(width: usize, height: usize, samples: Vec<u8>) -> GrayImage {
    GrayImage::from_raw(width, height, samples).unwrap()
}

#[test]
fn threshold_single_pixel() {
    // window is the pixel itself: 100 < 100 - 5 is false, so white
    let img = gray(1, 1, vec![100]);
    let out = adaptive_threshold(&img, 15);
    assert_eq!(out.samples, vec![255]);
}

#[test]
fn threshold_all_zero_image() {
    // mean 0 and the bias saturates: nothing is strictly below it
    let img = gray(8, 8, vec![0; 64]);
    let out = adaptive_threshold(&img, 15);
    assert_eq!(out.samples, vec![255; 64]);
}

#[test]
fn threshold_two_level_row() {
    // whole image fits one window: mean 127, so 0 < 122 and 255 >= 122
    let img = gray(2, 1, vec![0, 255]);
    let out = adaptive_threshold(&img, 15);
    assert_eq!(out.samples, vec![0, 255]);
}

#[test]
fn threshold_zero_size_image() {
    let img = gray(0, 0, Vec::new());
    let out = adaptive_threshold(&img, 15);
    assert_eq!(out.width, 0);
    assert_eq!(out.height, 0);
    assert_eq!(out.samples.len(), 0);
}

#[test]
fn threshold_output_is_binary() {
    let mut samples = Vec::new();
    let mut state: u32 = 99;
    for _ in 0..40 * 30 {
        state = state.wrapping_mul(1103515245).wrapping_add(12345);
        samples.push((state >> 16) as u8);
    }
    let img = gray(40, 30, samples);
    let out = adaptive_threshold(&img, 15);
    assert_eq!(out.samples.len(), 40 * 30);
    for &v in &out.samples {
        assert!(v == 0 || v == 255);
    }
}

#[test]
fn threshold_separates_dark_patch() {
    // a dark quadrant inside a bright 20x20 field ends black, the bright
    // area ends white
    let mut samples = vec![200u8; 400];
    for y in 5..10 {
        for x in 5..10 {
            samples[y * 20 + x] = 20;
        }
    }
    let img = gray(20, 20, samples);
    let out = adaptive_threshold(&img, 15);
    assert_eq!(out.samples[7 * 20 + 7], 0);
    assert_eq!(out.samples[0], 255);
    assert_eq!(out.samples[19 * 20 + 19], 255);
}

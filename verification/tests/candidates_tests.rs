use qr_multi_scan::candidates::{generate_candidates, Technique};
use qr_multi_scan::contrast::enhance_contrast;
use qr_multi_scan::raster::Rgba8Image;
use qr_multi_scan::threshold::adaptive_threshold;

fn rgba_uniform(width: usize, height: usize, value: u8) -> Rgba8Image {
    let mut samples = Vec::with_capacity(width * height * 4);
    for _ in 0..width * height {
        samples.push(value);
        samples.push(value);
        samples.push(value);
        samples.push(255);
    }
    Rgba8Image::from_raw(width, height, samples).unwrap()
}

#[test]
fn five_candidates_for_small_source() {
    let src = rgba_uniform(100, 100, 200);
    let cands = generate_candidates(&src);
    assert_eq!(cands.len(), 5);
    assert_eq!(cands[0].technique, Technique::Gray);
    assert_eq!(cands[1].technique, Technique::Enhanced);
    assert_eq!(cands[2].technique, Technique::Thresholded);
    assert_eq!(cands[3].technique, Technique::Upscaled);
    assert_eq!(cands[4].technique, Technique::UpscaledEnhanced);
}

#[test]
fn five_candidates_when_only_one_dimension_exceeds_400() {
    let src = rgba_uniform(500, 120, 128);
    let cands = generate_candidates(&src);
    assert_eq!(cands.len(), 5);
}

#[test]
fn five_candidates_at_exactly_400() {
    // the downscaled candidate appears only when both dimensions exceed 400
    let src = rgba_uniform(400, 400, 128);
    let cands = generate_candidates(&src);
    assert_eq!(cands.len(), 5);
}

#[test]
fn six_candidates_for_large_source() {
    let src = rgba_uniform(401, 401, 128);
    let cands = generate_candidates(&src);
    assert_eq!(cands.len(), 6);
    assert_eq!(cands[5].technique, Technique::Downscaled);
}

#[test]
fn scaled_dimensions_are_truncated() {
    // floor(401 * 1.5) = 601 and floor(401 * 0.8) = 320
    let src = rgba_uniform(401, 401, 128);
    let cands = generate_candidates(&src);
    assert_eq!(cands[3].image.width, 601);
    assert_eq!(cands[3].image.height, 601);
    assert_eq!(cands[5].image.width, 320);
    assert_eq!(cands[5].image.height, 320);
}

#[test]
fn grayscale_candidate_keeps_dimensions_and_intensity() {
    // equal RGB channels convert to the same single-channel intensity
    let src = rgba_uniform(12, 9, 77);
    let cands = generate_candidates(&src);
    assert_eq!(cands[0].image.width, 12);
    assert_eq!(cands[0].image.height, 9);
    assert_eq!(cands[0].image.samples, vec![77; 12 * 9]);
}

#[test]
fn enhanced_candidate_matches_direct_enhancement() {
    let src = rgba_uniform(30, 20, 90);
    let cands = generate_candidates(&src);
    let direct = enhance_contrast(&cands[0].image);
    assert_eq!(cands[1].image.samples, direct.samples);
    assert_eq!(cands[1].image.width, 30);
    assert_eq!(cands[1].image.height, 20);
}

#[test]
fn thresholded_candidate_matches_direct_threshold() {
    let src = rgba_uniform(30, 20, 90);
    let cands = generate_candidates(&src);
    let direct = adaptive_threshold(&cands[0].image, 15);
    assert_eq!(cands[2].image.samples, direct.samples);
}

#[test]
fn upscaled_candidate_of_uniform_source_stays_uniform() {
    let src = rgba_uniform(40, 40, 255);
    let cands = generate_candidates(&src);
    assert_eq!(cands[3].image.width, 60);
    assert_eq!(cands[3].image.height, 60);
    assert_eq!(cands[3].image.samples, vec![255; 60 * 60]);
}

#[test]
fn zero_size_source_yields_empty_candidates() {
    let src = rgba_uniform(0, 0, 0);
    let cands = generate_candidates(&src);
    assert_eq!(cands.len(), 5);
    for c in &cands {
        assert_eq!(c.image.samples.len(), 0);
    }
}

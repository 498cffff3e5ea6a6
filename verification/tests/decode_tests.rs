use qr_multi_scan::decode::{decode_source, merge_payloads, DecodedResult};
use qr_multi_scan::raster::Rgba8Image;

fn rgba_from_luma(width: usize, height: usize, luma: &[u8]) -> Rgba8Image {
    let mut samples = Vec::with_capacity(width * height * 4);
    for &v in luma {
        samples.push(v);
        samples.push(v);
        samples.push(v);
        samples.push(255);
    }
    Rgba8Image::from_raw(width, height, samples).unwrap()
}

/// Renders `text` as a QR symbol and centers it on a white square canvas of
/// the given side length, returning the canvas as row-major luma samples.
fn qr_canvas(text: &str, side: usize) -> Vec<u8> {
    let code = qrcode::QrCode::new(text.as_bytes()).unwrap();
    let symbol = code
        .render::<image::Luma<u8>>()
        .min_dimensions(200, 200)
        .build();
    let (sw, sh) = (symbol.width() as usize, symbol.height() as usize);
    assert!(sw <= side && sh <= side);
    let raw = symbol.into_raw();
    let mut canvas = vec![255u8; side * side];
    let ox = (side - sw) / 2;
    let oy = (side - sh) / 2;
    for y in 0..sh {
        for x in 0..sw {
            canvas[(oy + y) * side + (ox + x)] = raw[y * sw + x];
        }
    }
    canvas
}

#[test]
fn merge_keeps_first_of_duplicate_payloads() {
    // two techniques decode the same payload, another a different one: the
    // result set holds each payload exactly once
    let id = String::from("photo.png");
    let mut results: Vec<DecodedResult> = Vec::new();
    merge_payloads(&mut results, &id, &vec![String::from("HELLO")]);
    merge_payloads(&mut results, &id, &Vec::new());
    merge_payloads(&mut results, &id, &vec![String::from("HELLO")]);
    merge_payloads(&mut results, &id, &vec![String::from("WORLD")]);
    assert_eq!(results.len(), 2);
    assert_eq!(results[0].payload, "HELLO");
    assert_eq!(results[1].payload, "WORLD");
    assert_eq!(results[0].source, "photo.png");
    assert_eq!(results[1].source, "photo.png");
}

#[test]
fn merge_drops_duplicates_within_one_batch() {
    let id = String::from("scan.jpg");
    let mut results: Vec<DecodedResult> = Vec::new();
    merge_payloads(
        &mut results,
        &id,
        &vec![String::from("A"), String::from("A"), String::from("B")],
    );
    assert_eq!(results.len(), 2);
    assert_eq!(results[0].payload, "A");
    assert_eq!(results[1].payload, "B");
}

#[test]
fn merge_keeps_existing_entries_untouched() {
    let first = String::from("one.png");
    let second = String::from("two.png");
    let mut results: Vec<DecodedResult> = Vec::new();
    merge_payloads(&mut results, &first, &vec![String::from("X")]);
    merge_payloads(&mut results, &second, &vec![String::from("X"), String::from("Y")]);
    assert_eq!(results.len(), 2);
    assert_eq!(results[0].source, "one.png");
    assert_eq!(results[1].source, "two.png");
    assert_eq!(results[1].payload, "Y");
}

#[test]
fn clean_qr_decodes_to_single_entry() {
    // 300x300 clean symbol: decodes, and deduplication leaves one entry
    let side = 300;
    let canvas = qr_canvas("https://example.com", side);
    assert_eq!(
        decode_luma_directly(side, &canvas),
        vec![String::from("https://example.com")]
    );
    let src = rgba_from_luma(side, side, &canvas);
    let id = String::from("clean.png");
    let results = decode_source(&src, &id);
    assert_eq!(results.len(), 1);
    assert_eq!(results[0].payload, "https://example.com");
    assert_eq!(results[0].source, "clean.png");
}

#[test]
fn low_contrast_qr_decodes_after_enhancement() {
    // 500x500 canvas squeezed into the narrow band [120, 130]: the
    // contrast-enhanced candidate restores it, both dimensions exceed 400
    // so all six candidates are tried, and the result set still holds the
    // payload exactly once
    let side = 500;
    let canvas: Vec<u8> = qr_canvas("TEST123", side)
        .into_iter()
        .map(|v| 120 + (u32::from(v) * 10 / 255) as u8)
        .collect();
    let src = rgba_from_luma(side, side, &canvas);
    let cands = qr_multi_scan::candidates::generate_candidates(&src);
    assert_eq!(cands.len(), 6);
    assert!(decode_luma_directly(side, &canvas).is_empty());
    let gray = qr_multi_scan::raster::GrayImage::from_raw(side, side, canvas).unwrap();
    let enhanced = qr_multi_scan::contrast::enhance_contrast(&gray);
    assert_eq!(
        decode_luma_directly(side, &enhanced.samples),
        vec![String::from("TEST123")]
    );
    let id = String::from("lowcontrast.png");
    let results = decode_source(&src, &id);
    assert_eq!(results.len(), 1);
    assert_eq!(results[0].payload, "TEST123");
}

/// Runs the pattern decoder on one square luma image, outside the library,
/// to observe which single representation decodes.
fn decode_luma_directly(side: usize, luma: &[u8]) -> Vec<String> {
    let buf =
        image::GrayImage::from_raw(side as u32, side as u32, luma.to_vec()).unwrap();
    let mut prepared = rqrr::PreparedImage::prepare(buf);
    let mut out = Vec::new();
    for grid in prepared.detect_grids() {
        if let Ok((_, content)) = grid.decode() {
            out.push(content);
        }
    }
    out
}

#[test]
fn blank_image_yields_empty_result_set() {
    let blank = vec![255u8; 50 * 50];
    let src = rgba_from_luma(50, 50, &blank);
    let id = String::from("blank.png");
    let results = decode_source(&src, &id);
    assert_eq!(results.len(), 0);
}

#[test]
fn zero_size_image_yields_empty_result_set() {
    let src = rgba_from_luma(0, 0, &[]);
    let id = String::from("empty.png");
    let results = decode_source(&src, &id);
    assert_eq!(results.len(), 0);
}

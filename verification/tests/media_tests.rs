use qr_multi_scan::media::is_supported_extension;
use qr_multi_scan::raster::{GrayImage, Rgba8Image};

#[test]
fn supported_extensions_accepted_case_insensitively() {
    for ext in ["png", "jpg", "jpeg", "bmp", "gif", "webp", "PNG", "JpEg", "WEBP"] {
        assert!(is_supported_extension(&ext.as_bytes().to_vec()), "{ext}");
    }
}

#[test]
fn unsupported_extensions_rejected() {
    for ext in ["txt", "tiff", "jp", "pngx", "", "svg", "web"] {
        assert!(!is_supported_extension(&ext.as_bytes().to_vec()), "{ext}");
    }
}

#[test]
fn gray_image_rejects_mismatched_buffer() {
    assert!(GrayImage::from_raw(2, 2, vec![0; 3]).is_none());
    assert!(GrayImage::from_raw(2, 2, vec![0; 4]).is_some());
}

#[test]
fn gray_image_pixel_access_is_row_major() {
    let img = GrayImage::from_raw(3, 2, vec![10, 20, 30, 40, 50, 60]).unwrap();
    assert_eq!(img.len(), 6);
    assert_eq!(img.get(0, 0), 10);
    assert_eq!(img.get(2, 0), 30);
    assert_eq!(img.get(0, 1), 40);
    assert_eq!(img.get(2, 1), 60);
}

#[test]
fn rgba_image_rejects_mismatched_buffer() {
    assert!(Rgba8Image::from_raw(2, 2, vec![0; 4]).is_none());
    assert!(Rgba8Image::from_raw(2, 2, vec![0; 16]).is_some());
}

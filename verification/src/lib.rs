//! Multi-representation preprocessing for locating QR patterns in
//! photographs where lighting, scale and contrast are uncontrolled.
//!
//! One source image is turned into several alternative grayscale
//! representations (histogram-equalized, adaptively thresholded,
//! rescaled), each representation is handed to a pattern decoder, and
//! the decoded payloads are merged without duplication.

pub mod raster;
pub mod contrast;
pub mod integral;
pub mod threshold;
pub mod candidates;
pub mod decode;
pub mod media;

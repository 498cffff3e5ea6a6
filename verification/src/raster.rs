//! In-memory raster images: the single-channel grayscale grid that every
//! processing stage works on, and the four-channel source image that scan
//! requests start from.

use vstd::prelude::*;

verus! {

/// A single-channel intensity image stored row-major: the sample of pixel
/// `(x, y)` sits at index `y * width + x`.
pub struct GrayImage {
    pub width: usize,
    pub height: usize,
    pub samples: Vec<u8>,
}

impl GrayImage {
    /// Well-formedness: the sample buffer matches the dimensions, the
    /// dimensions fit the 32-bit range the raster codecs use, and the total
    /// pixel count is small enough that per-value counts fit in 32 bits and
    /// windowed 64-bit sums cannot overflow.
    pub open spec fn wf(self) -> bool {
        &&& self.samples.len() == self.width * self.height
        &&& self.width < u32::MAX
        &&& self.height < u32::MAX
        &&& self.width * self.height <= u32::MAX
    }

    /// The intensity sample of pixel `(x, y)`.
    pub open spec fn pix(self, x: int, y: int) -> u8 {
        self.samples@[y * self.width + x]
    }

    /// Builds a grayscale image from raw row-major samples, rejecting
    /// dimensions that do not match the buffer or exceed the supported range.
    pub fn from_raw(width: usize, height: usize, samples: Vec<u8>) -> (r: Option<GrayImage>)
        ensures
            match r {
                Some(img) => {
                    &&& img.wf()
                    &&& img.width == width
                    &&& img.height == height
                    &&& img.samples == samples
                },
                None => !(width * height <= u32::MAX && samples.len() == width * height
                    && width < u32::MAX && height < u32::MAX),
            },
    {
        if width >= u32::MAX as usize || height >= u32::MAX as usize {
            return None;
        }
        let area_opt = width.checked_mul(height);
        match area_opt {
            Some(area) => {
                if area <= u32::MAX as usize && samples.len() == area {
                    Some(GrayImage { width, height, samples })
                } else {
                    None
                }
            },
            None => None,
        }
    }

    /// The number of samples, equal to `width * height` on well-formed images.
    pub fn len(&self) -> (r: usize)
        ensures
            r == self.samples@.len(),
    {
        self.samples.len()
    }

    /// The sample of pixel `(x, y)`.
    pub fn get(&self, x: usize, y: usize) -> (r: u8)
        requires
            self.wf(),
            x < self.width,
            y < self.height,
        ensures
            r == self.pix(x as int, y as int),
    {
        proof {
            lemma_row_major_index(self.width as int, self.height as int, x as int, y as int);
        }
        self.samples[y * self.width + x]
    }
}

/// A four-channel source image stored row-major, four samples per pixel in
/// red, green, blue, alpha order: pixel `(x, y)` occupies indices
/// `4 * (y * width + x)` up to and including `4 * (y * width + x) + 3`.
pub struct Rgba8Image {
    pub width: usize,
    pub height: usize,
    pub samples: Vec<u8>,
}

impl Rgba8Image {
    /// Well-formedness: four samples per pixel and dimensions in the same
    /// supported range as [`GrayImage::wf`].
    pub open spec fn wf(self) -> bool {
        &&& self.samples.len() == 4 * (self.width * self.height)
        &&& self.width < u32::MAX
        &&& self.height < u32::MAX
        &&& self.width * self.height <= u32::MAX
    }

    /// Builds a source image from raw row-major RGBA samples, rejecting
    /// dimensions that do not match the buffer or exceed the supported range.
    pub fn from_raw(width: usize, height: usize, samples: Vec<u8>) -> (r: Option<Rgba8Image>)
        ensures
            match r {
                Some(img) => {
                    &&& img.wf()
                    &&& img.width == width
                    &&& img.height == height
                    &&& img.samples == samples
                },
                None => !(width * height <= u32::MAX && samples.len() == 4 * (width * height)
                    && width < u32::MAX && height < u32::MAX),
            },
    {
        if width >= u32::MAX as usize || height >= u32::MAX as usize {
            return None;
        }
        let area_opt = width.checked_mul(height);
        match area_opt {
            Some(area) => {
                if area <= u32::MAX as usize {
                    let quad_opt = area.checked_mul(4);
                    match quad_opt {
                        Some(quad) => {
                            if samples.len() == quad {
                                Some(Rgba8Image { width, height, samples })
                            } else {
                                None
                            }
                        },
                        None => None,
                    }
                } else {
                    None
                }
            },
            None => None,
        }
    }
}

/// On a row-major grid, the flat index of an in-bounds pixel is in bounds.
pub proof fn lemma_row_major_index(width: int, height: int, x: int, y: int)
    requires
        0 <= x < width,
        0 <= y < height,
    ensures
        0 <= y * width + x < width * height,
{
    assert(y * width + x < width * height) by (nonlinear_arith)
        requires
            0 <= x < width,
            0 <= y < height,
    ;
    assert(y * width >= 0) by (nonlinear_arith)
        requires
            0 <= y,
            0 < width,
    ;
}

} // verus!

//! Multi-scale representation generation: one source image is expanded into
//! an ordered set of grayscale candidates (plain, equalized, binarized,
//! rescaled) so that at least one of them exposes a decodable pattern to
//! the detector.

use vstd::prelude::*;
use crate::raster::{GrayImage, Rgba8Image};
use crate::contrast::{enhance_contrast, equalized_seq};
use crate::threshold::{adaptive_threshold, thresholded_seq};

verus! {

/// Window diameter handed to the adaptive thresholder for the binarized
/// candidate.
pub const THRESHOLD_BLOCK: u32 = 15;

/// Side length that both source dimensions must exceed before the extra
/// downscaled candidate is produced.
pub const DOWNSCALE_MIN: usize = 400;

/// Which transform produced a candidate; carried for diagnostics only.
#[derive(Clone, Copy, Debug, PartialEq, Eq, Structural)]
pub enum Technique {
    Gray,
    Enhanced,
    Thresholded,
    Upscaled,
    UpscaledEnhanced,
    Downscaled,
}

/// One alternative representation of the source image, tagged with the
/// transform that produced it.
pub struct Candidate {
    pub technique: Technique,
    pub image: GrayImage,
}

/// A dimension scaled up by 3/2 with the fraction truncated.
pub open spec fn up_dim(d: int) -> int {
    (3 * d) / 2
}

/// A dimension scaled down by 4/5 with the fraction truncated.
pub open spec fn down_dim(d: int) -> int {
    (4 * d) / 5
}

/// The single-channel intensities that the raster library's colorimetric
/// grayscale conversion produces from the given row-major RGBA samples.
/// The result depends on the samples and dimensions alone.
pub uninterp spec fn luma_of(rgba: Seq<u8>, width: nat, height: nat) -> Seq<u8>;

/// The single-channel intensities produced by resampling the given RGBA
/// image to `new_width` by `new_height` with the raster library's
/// Lanczos-windowed filter and then converting to grayscale.  The result
/// depends on the samples and dimensions alone.
pub uninterp spec fn resized_luma_of(
    rgba: Seq<u8>,
    width: nat,
    height: nat,
    new_width: nat,
    new_height: nat,
) -> Seq<u8>;

/// Relies on image::DynamicImage::to_luma8: converts an RGBA image to one
/// grayscale sample per pixel, deterministically from the pixel data.
#[verifier::external_body]
fn rgba_to_gray(src: &Rgba8Image) -> (r: GrayImage)
    requires
        src.wf(),
    ensures
        r.wf(),
        r.width == src.width,
        r.height == src.height,
        r.samples@ == luma_of(src.samples@, src.width as nat, src.height as nat),
{
    let buf = image::RgbaImage::from_raw(src.width as u32, src.height as u32, src.samples.clone())
        .unwrap();
    let gray = image::DynamicImage::ImageRgba8(buf).to_luma8();
    GrayImage { width: src.width, height: src.height, samples: gray.into_raw() }
}

/// Relies on image::DynamicImage::resize_exact with FilterType::Lanczos3
/// followed by to_luma8: resamples an RGBA image to exactly the requested
/// dimensions and converts it to one grayscale sample per pixel,
/// deterministically from the pixel data and the requested dimensions.
/// The resampler first builds an intermediate buffer of
/// `src.width * new_height` pixels, whose length check would panic if that
/// product could overflow; the last bound keeps it far below that guard.
#[verifier::external_body]
fn resize_to_gray(src: &Rgba8Image, new_width: usize, new_height: usize) -> (r: GrayImage)
    requires
        src.wf(),
        new_width < u32::MAX,
        new_height < u32::MAX,
        new_width * new_height <= u32::MAX,
        src.width * new_height <= 2 * (u32::MAX as int),
    ensures
        r.wf(),
        r.width == new_width,
        r.height == new_height,
        r.samples@ == resized_luma_of(
            src.samples@,
            src.width as nat,
            src.height as nat,
            new_width as nat,
            new_height as nat,
        ),
{
    let buf = image::RgbaImage::from_raw(src.width as u32, src.height as u32, src.samples.clone())
        .unwrap();
    let gray = image::DynamicImage::ImageRgba8(buf)
        .resize_exact(new_width as u32, new_height as u32, image::imageops::FilterType::Lanczos3)
        .to_luma8();
    GrayImage { width: new_width, height: new_height, samples: gray.into_raw() }
}

/// The dimension limits under which every candidate of a source image
/// stays within the supported raster range: the 3/2-upscaled image must
/// itself be a well-formed raster.
pub open spec fn scalable(src: Rgba8Image) -> bool {
    &&& up_dim(src.width as int) < u32::MAX
    &&& up_dim(src.height as int) < u32::MAX
    &&& up_dim(src.width as int) * up_dim(src.height as int) <= u32::MAX
}

/// Produces the ordered candidate set of one source image:
/// plain grayscale, equalized, adaptively thresholded (block size 15),
/// upscaled by 3/2 (dimensions truncated), upscaled-then-equalized, and —
/// only when both source dimensions exceed 400 — downscaled by 4/5.
pub fn generate_candidates(src: &Rgba8Image) -> (r: Vec<Candidate>)
    requires
        src.wf(),
        scalable(*src),
    ensures
        r@.len() == if src.width > 400 && src.height > 400 {
            6int
        } else {
            5int
        },
        forall|i: int| 0 <= i < r@.len() ==> (#[trigger] r@[i]).image.wf(),
        r@[0].technique == Technique::Gray,
        r@[0].image.width == src.width,
        r@[0].image.height == src.height,
        r@[0].image.samples@ == luma_of(src.samples@, src.width as nat, src.height as nat),
        r@[1].technique == Technique::Enhanced,
        r@[1].image.width == src.width,
        r@[1].image.height == src.height,
        r@[1].image.samples@ == equalized_seq(r@[0].image.samples@),
        r@[2].technique == Technique::Thresholded,
        r@[2].image.width == src.width,
        r@[2].image.height == src.height,
        r@[2].image.samples@ == thresholded_seq(
            r@[0].image.samples@,
            src.width as int,
            src.height as int,
            (THRESHOLD_BLOCK / 2) as int,
        ),
        r@[3].technique == Technique::Upscaled,
        r@[3].image.width == up_dim(src.width as int),
        r@[3].image.height == up_dim(src.height as int),
        r@[3].image.samples@ == resized_luma_of(
            src.samples@,
            src.width as nat,
            src.height as nat,
            up_dim(src.width as int) as nat,
            up_dim(src.height as int) as nat,
        ),
        r@[4].technique == Technique::UpscaledEnhanced,
        r@[4].image.width == up_dim(src.width as int),
        r@[4].image.height == up_dim(src.height as int),
        r@[4].image.samples@ == equalized_seq(r@[3].image.samples@),
        src.width > 400 && src.height > 400 ==> {
            &&& r@[5].technique == Technique::Downscaled
            &&& r@[5].image.width == down_dim(src.width as int)
            &&& r@[5].image.height == down_dim(src.height as int)
            &&& r@[5].image.samples@ == resized_luma_of(
                src.samples@,
                src.width as nat,
                src.height as nat,
                down_dim(src.width as int) as nat,
                down_dim(src.height as int) as nat,
            )
        },
{
    let gray = rgba_to_gray(src);
    let enhanced = enhance_contrast(&gray);
    let thresholded = adaptive_threshold(&gray, THRESHOLD_BLOCK);

    let up_w: usize = ((3 * (src.width as u64)) / 2) as usize;
    let up_h: usize = ((3 * (src.height as u64)) / 2) as usize;
    proof {
        assert(up_w == up_dim(src.width as int));
        assert(up_h == up_dim(src.height as int));
        lemma_intermediate_area_bound(src.width as int, src.height as int);
    }
    let upscaled = resize_to_gray(src, up_w, up_h);
    let up_enhanced = enhance_contrast(&upscaled);

    let mut out: Vec<Candidate> = Vec::new();
    out.push(Candidate { technique: Technique::Gray, image: gray });
    out.push(Candidate { technique: Technique::Enhanced, image: enhanced });
    out.push(Candidate { technique: Technique::Thresholded, image: thresholded });
    out.push(Candidate { technique: Technique::Upscaled, image: upscaled });
    out.push(Candidate { technique: Technique::UpscaledEnhanced, image: up_enhanced });

    if src.width > DOWNSCALE_MIN && src.height > DOWNSCALE_MIN {
        let down_w: usize = ((4 * (src.width as u64)) / 5) as usize;
        let down_h: usize = ((4 * (src.height as u64)) / 5) as usize;
        proof {
            lemma_down_dim_le(src.width as int);
            lemma_down_dim_le(src.height as int);
            assert(down_w == down_dim(src.width as int));
            assert(down_h == down_dim(src.height as int));
            assert(down_w as int * down_h as int <= src.width as int * src.height as int)
                by (nonlinear_arith)
                requires
                    0 <= down_w as int <= src.width as int,
                    0 <= down_h as int <= src.height as int,
            ;
            assert(src.width as int * (down_h as int) <= src.width as int * (src.height as int))
                by (nonlinear_arith)
                requires
                    0 <= down_h as int <= src.height as int,
                    0 <= src.width as int,
            ;
        }
        let downscaled = resize_to_gray(src, down_w, down_h);
        out.push(Candidate { technique: Technique::Downscaled, image: downscaled });
    }
    out
}

/// The 3/2-upscaled height is at most twice the source height, so the
/// resampler's intermediate `width x up_dim(height)` buffer stays within
/// twice the supported area.
proof fn lemma_intermediate_area_bound(w: int, h: int)
    requires
        w >= 0,
        h >= 0,
        w * h <= u32::MAX,
    ensures
        0 <= up_dim(h) <= 2 * h,
        w * up_dim(h) <= 2 * (u32::MAX as int),
{
    vstd::arithmetic::div_mod::lemma_div_is_ordered(3 * h, 4 * h, 2);
    vstd::arithmetic::div_mod::lemma_div_pos_is_pos(3 * h, 2);
    assert((4 * h) / 2 == 2 * h) by (nonlinear_arith);
    assert(w * up_dim(h) <= 2 * (u32::MAX as int)) by (nonlinear_arith)
        requires
            0 <= up_dim(h) <= 2 * h,
            w >= 0,
            w * h <= u32::MAX,
    ;
}

/// Scaling a non-negative dimension down by 4/5 never enlarges it.
proof fn lemma_down_dim_le(d: int)
    requires
        d >= 0,
    ensures
        0 <= down_dim(d) <= d,
{
    vstd::arithmetic::div_mod::lemma_div_is_ordered(4 * d, 5 * d, 5);
    vstd::arithmetic::div_mod::lemma_div_pos_is_pos(4 * d, 5);
    assert((5 * d) / 5 == d) by (nonlinear_arith);
}

} // verus!

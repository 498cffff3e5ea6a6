//! Adaptive local-mean binarization: every pixel is compared against the
//! mean of a square window around it, clamped at the image borders, and
//! mapped to pure black or pure white.  Window sums come from a summed-area
//! table, so the whole pass is linear in the pixel count.

use vstd::prelude::*;
use crate::raster::GrayImage;
use crate::integral::{compute_integral, rect_sum, lemma_window_sum, lemma_rect_sum_bounds,
    lemma_prefix_sum_bounds};

verus! {

/// First coordinate of the window around `c` with half-width `half`,
/// clamped at 0.
pub open spec fn win_lo(c: int, half: int) -> int {
    if c >= half {
        c - half
    } else {
        0
    }
}

/// Last coordinate (inclusive) of the window around `c` with half-width
/// `half`, clamped at `limit - 1`.
pub open spec fn win_hi(c: int, half: int, limit: int) -> int {
    if c + half <= limit - 1 {
        c + half
    } else {
        limit - 1
    }
}

/// Number of pixels in the clamped window around `(x, y)`.
pub open spec fn window_count(w: int, h: int, half: int, x: int, y: int) -> int {
    (win_hi(x, half, w) - win_lo(x, half) + 1) * (win_hi(y, half, h) - win_lo(y, half) + 1)
}

/// Mean intensity (integer division) over the clamped window around
/// `(x, y)`.
pub open spec fn window_mean(s: Seq<u8>, w: int, h: int, half: int, x: int, y: int) -> int {
    rect_sum(s, w, win_lo(y, half), win_hi(y, half, h) + 1, win_lo(x, half), win_hi(x, half, w) + 1)
        / window_count(w, h, half, x, y)
}

/// The binarized value of pixel `(x, y)`: black (0) when the pixel is
/// strictly darker than the local mean less a bias of 5, else white (255).
/// A mean below the bias can never yield black: no intensity is negative.
pub open spec fn threshold_level(s: Seq<u8>, w: int, h: int, half: int, x: int, y: int) -> u8 {
    if s[y * w + x] < window_mean(s, w, h, half, x, y) - 5 {
        0
    } else {
        255
    }
}

/// The whole image binarized through [`threshold_level`].
pub open spec fn thresholded_seq(s: Seq<u8>, w: int, h: int, half: int) -> Seq<u8> {
    Seq::new((w * h) as nat, |i: int| threshold_level(s, w, h, half, i % w, i / w))
}

/// Binarizes `img` by comparison with the local mean over a window of
/// diameter `block_size` (half-width `block_size / 2`), clamped at the
/// borders.  Every output sample is exactly 0 or 255, and a zero-area image
/// comes back as an equally empty image of the same dimensions.
pub fn adaptive_threshold(img: &GrayImage, block_size: u32) -> (r: GrayImage)
    requires
        img.wf(),
    ensures
        r.wf(),
        r.width == img.width,
        r.height == img.height,
        r.samples@ == thresholded_seq(
            img.samples@,
            img.width as int,
            img.height as int,
            (block_size / 2) as int,
        ),
        forall|i: int| 0 <= i < r.samples@.len() ==> r.samples@[i] == 0 || r.samples@[i] == 255,
{
    let w = img.width;
    let h = img.height;
    let ghost s = img.samples@;
    let ghost half = (block_size / 2) as int;
    if w == 0 || h == 0 {
        let empty = GrayImage { width: w, height: h, samples: Vec::new() };
        proof {
            assert(w as int * h as int == 0) by (nonlinear_arith)
                requires
                    w == 0 || h == 0,
            ;
            assert(empty.samples@ =~= thresholded_seq(s, w as int, h as int, half));
        }
        return empty;
    }

    let table = compute_integral(img);
    let half_block: u64 = (block_size / 2) as u64;
    let mut out: Vec<u8> = Vec::new();
    let mut y: usize = 0;
    while y < h
        invariant
            y <= h,
            1 <= w < u32::MAX,
            1 <= h < u32::MAX,
            img.wf(),
            s == img.samples@,
            w == img.width,
            h == img.height,
            half == half_block,
            half_block < 0x8000_0000,
            table.wf_for(s, w as int, h as int),
            out@.len() == y * w,
            forall|i: int|
                0 <= i < y * w ==> (#[trigger] out@[i]) == threshold_level(
                    s,
                    w as int,
                    h as int,
                    half,
                    i % (w as int),
                    i / (w as int),
                ),
        decreases h - y,
    {
        let mut x: usize = 0;
        proof {
            crate::raster::lemma_row_major_index(w as int, h as int, 0, y as int);
        }
        while x < w
            invariant
                x <= w,
                y < h,
                1 <= w < u32::MAX,
                1 <= h < u32::MAX,
                img.wf(),
                s == img.samples@,
                w == img.width,
                h == img.height,
                half == half_block,
                half_block < 0x8000_0000,
                table.wf_for(s, w as int, h as int),
                out@.len() == y * w + x,
                y * w + x <= w * h,
                forall|i: int|
                    0 <= i < y * w + x ==> (#[trigger] out@[i]) == threshold_level(
                        s,
                        w as int,
                        h as int,
                        half,
                        i % (w as int),
                        i / (w as int),
                    ),
            decreases w - x,
        {
            let x0: usize = if x as u64 >= half_block {
                (x as u64 - half_block) as usize
            } else {
                0
            };
            let x1: usize = if x as u64 + half_block <= (w - 1) as u64 {
                x + half_block as usize
            } else {
                w - 1
            };
            let y0: usize = if y as u64 >= half_block {
                (y as u64 - half_block) as usize
            } else {
                0
            };
            let y1: usize = if y as u64 + half_block <= (h - 1) as u64 {
                y + half_block as usize
            } else {
                h - 1
            };
            proof {
                assert(x0 == win_lo(x as int, half));
                assert(x1 == win_hi(x as int, half, w as int));
                assert(y0 == win_lo(y as int, half));
                assert(y1 == win_hi(y as int, half, h as int));
                assert(x0 <= x <= x1 < w);
                assert(y0 <= y <= y1 < h);
                assert(((x1 - x0 + 1) as int) * ((y1 - y0 + 1) as int) <= (w as int) * (h as int))
                    by (nonlinear_arith)
                    requires
                        0 < (x1 - x0 + 1) as int <= w as int,
                        0 < (y1 - y0 + 1) as int <= h as int,
                ;
                assert(0 < ((x1 - x0 + 1) as int) * ((y1 - y0 + 1) as int)) by (nonlinear_arith)
                    requires
                        0 < (x1 - x0 + 1) as int,
                        0 < (y1 - y0 + 1) as int,
                ;
                lemma_window_sum(s, w as int, y0 as int, y1 + 1, x0 as int, x1 + 1);
                lemma_rect_sum_bounds(s, w as int, y0 as int, y1 + 1, x0 as int, x1 + 1);
                lemma_prefix_sum_bounds(s, w as int, y1 + 1, x1 + 1);
                lemma_prefix_sum_bounds(s, w as int, y0 as int, x0 as int);
                lemma_prefix_sum_bounds(s, w as int, y0 as int, x1 + 1);
                lemma_prefix_sum_bounds(s, w as int, y1 + 1, x0 as int);
                lemma_prefix_bound_by_area(s, w as int, h as int, y1 + 1, x1 + 1);
                lemma_prefix_bound_by_area(s, w as int, h as int, y0 as int, x0 as int);
                lemma_prefix_bound_by_area(s, w as int, h as int, y0 as int, x1 + 1);
                lemma_prefix_bound_by_area(s, w as int, h as int, y1 + 1, x0 as int);
                crate::raster::lemma_row_major_index(w as int, h as int, x as int, y as int);
            }
            let count: u64 = ((x1 - x0 + 1) as u64) * ((y1 - y0 + 1) as u64);
            let far = table.sums[y1 + 1][x1 + 1];
            let near = table.sums[y0][x0];
            let top = table.sums[y0][x1 + 1];
            let left = table.sums[y1 + 1][x0];
            let win_sum: u64 = far + near - top - left;
            let mean: u64 = win_sum / count;
            let pix = img.samples[y * w + x];
            let level: u8 = if mean >= 5 && (pix as u64) < mean - 5 {
                0
            } else {
                255
            };
            proof {
                assert(level == threshold_level(s, w as int, h as int, half, x as int, y as int));
                vstd::arithmetic::div_mod::lemma_fundamental_div_mod_converse(
                    (y * w + x) as int,
                    w as int,
                    y as int,
                    x as int,
                );
            }
            out.push(level);
            x = x + 1;
        }
        y = y + 1;
        proof {
            assert(y * w == (y - 1) * w + w) by (nonlinear_arith);
        }
    }
    let result = GrayImage { width: w, height: h, samples: out };
    proof {
        assert(y * w == w * h) by (nonlinear_arith)
            requires
                y == h,
        ;
        assert(result.samples@ =~= thresholded_seq(s, w as int, h as int, half));
    }
    result
}

proof fn lemma_prefix_bound_by_area(s: Seq<u8>, w: int, h: int, y: int, x: int)
    requires
        0 <= y <= h,
        0 <= x <= w,
    ensures
        0 <= crate::integral::prefix_sum(s, w, y, x) <= 255 * (w * h),
{
    lemma_prefix_sum_bounds(s, w, y, x);
    assert(255 * y * x <= 255 * (w * h)) by (nonlinear_arith)
        requires
            0 <= y <= h,
            0 <= x <= w,
    ;
}

} // verus!

//! Summed-area table: a `(height + 1) x (width + 1)` grid of 64-bit prefix
//! sums over a grayscale image, enabling constant-time sums over any
//! rectangular window by inclusion-exclusion.

use vstd::prelude::*;
use crate::raster::GrayImage;

verus! {

/// Sum of the first `x` samples of row `y` of a row-major image of width
/// `w`: samples at columns `0 <= c < x`.
pub open spec fn row_sum(s: Seq<u8>, w: int, y: int, x: int) -> int
    decreases x,
{
    if x <= 0 {
        0
    } else {
        row_sum(s, w, y, x - 1) + s[y * w + (x - 1)]
    }
}

/// Sum of all samples with row `< y` and column `< x`.
pub open spec fn prefix_sum(s: Seq<u8>, w: int, y: int, x: int) -> int
    decreases y,
{
    if y <= 0 {
        0
    } else {
        prefix_sum(s, w, y - 1, x) + row_sum(s, w, y - 1, x)
    }
}

/// Sum of all samples with row in `[y0, y1)` and column in `[x0, x1)`:
/// the brute-force sum over a rectangular window.
pub open spec fn rect_sum(s: Seq<u8>, w: int, y0: int, y1: int, x0: int, x1: int) -> int
    decreases y1 - y0,
{
    if y1 <= y0 {
        0
    } else {
        rect_sum(s, w, y0, y1 - 1, x0, x1) + row_sum(s, w, y1 - 1, x1) - row_sum(s, w, y1 - 1, x0)
    }
}

/// Row sums grow with the column bound and stay within 255 per sample.
pub proof fn lemma_row_sum_bounds(s: Seq<u8>, w: int, y: int, x: int)
    ensures
        x >= 0 ==> 0 <= row_sum(s, w, y, x) <= 255 * x,
    decreases x,
{
    if x > 0 {
        lemma_row_sum_bounds(s, w, y, x - 1);
    }
}

proof fn lemma_row_sum_monotone(s: Seq<u8>, w: int, y: int, x0: int, x1: int)
    requires
        0 <= x0 <= x1,
    ensures
        row_sum(s, w, y, x0) <= row_sum(s, w, y, x1),
    decreases x1 - x0,
{
    if x0 < x1 {
        lemma_row_sum_monotone(s, w, y, x0, x1 - 1);
    }
}

/// Prefix sums are non-negative and bounded by 255 per covered sample.
pub proof fn lemma_prefix_sum_bounds(s: Seq<u8>, w: int, y: int, x: int)
    requires
        y >= 0,
        x >= 0,
    ensures
        0 <= prefix_sum(s, w, y, x) <= 255 * y * x,
    decreases y,
{
    if y > 0 {
        lemma_prefix_sum_bounds(s, w, y - 1, x);
        lemma_row_sum_bounds(s, w, y - 1, x);
        assert(255 * (y - 1) * x + 255 * x == 255 * y * x) by (nonlinear_arith);
    } else {
        assert(255 * y * x == 0) by (nonlinear_arith)
            requires
                y == 0,
        ;
    }
}

/// Prefix sums grow with the column bound.
pub proof fn lemma_prefix_sum_monotone_x(s: Seq<u8>, w: int, y: int, x0: int, x1: int)
    requires
        0 <= x0 <= x1,
    ensures
        prefix_sum(s, w, y, x0) <= prefix_sum(s, w, y, x1),
    decreases y,
{
    if y > 0 {
        lemma_prefix_sum_monotone_x(s, w, y - 1, x0, x1);
        lemma_row_sum_monotone(s, w, y - 1, x0, x1);
    }
}

/// A zero-width prefix covers no samples.
pub proof fn lemma_prefix_sum_zero_x(s: Seq<u8>, w: int, y: int)
    ensures
        prefix_sum(s, w, y, 0) == 0,
    decreases y,
{
    if y > 0 {
        lemma_prefix_sum_zero_x(s, w, y - 1);
    }
}

/// The defining recurrence of the table: a cell is the sample above-left of
/// it plus the cells above and to the left, minus the doubly counted cell
/// above-left.
pub proof fn lemma_prefix_sum_recurrence(s: Seq<u8>, w: int, y: int, x: int)
    requires
        1 <= y,
        1 <= x,
    ensures
        prefix_sum(s, w, y, x) == s[(y - 1) * w + (x - 1)] + prefix_sum(s, w, y - 1, x)
            + prefix_sum(s, w, y, x - 1) - prefix_sum(s, w, y - 1, x - 1),
{
    assert(prefix_sum(s, w, y, x) == prefix_sum(s, w, y - 1, x) + row_sum(s, w, y - 1, x));
    assert(prefix_sum(s, w, y, x - 1) == prefix_sum(s, w, y - 1, x - 1) + row_sum(s, w, y - 1, x - 1));
    assert(row_sum(s, w, y - 1, x) == row_sum(s, w, y - 1, x - 1) + s[(y - 1) * w + (x - 1)]);
}

/// The table's answer for any rectangular window equals the brute-force sum
/// over that window: four prefix sums combine by inclusion-exclusion.
pub proof fn lemma_window_sum(s: Seq<u8>, w: int, y0: int, y1: int, x0: int, x1: int)
    requires
        0 <= y0 <= y1,
        0 <= x0 <= x1,
    ensures
        rect_sum(s, w, y0, y1, x0, x1) == prefix_sum(s, w, y1, x1) - prefix_sum(s, w, y0, x1)
            - prefix_sum(s, w, y1, x0) + prefix_sum(s, w, y0, x0),
    decreases y1 - y0,
{
    if y0 < y1 {
        lemma_window_sum(s, w, y0, y1 - 1, x0, x1);
    }
}

/// Windows of non-negative area have non-negative brute-force sums bounded
/// by 255 per covered sample.
pub proof fn lemma_rect_sum_bounds(s: Seq<u8>, w: int, y0: int, y1: int, x0: int, x1: int)
    requires
        y0 <= y1,
        0 <= x0 <= x1,
    ensures
        0 <= rect_sum(s, w, y0, y1, x0, x1) <= 255 * (y1 - y0) * (x1 - x0),
    decreases y1 - y0,
{
    if y0 < y1 {
        lemma_rect_sum_bounds(s, w, y0, y1 - 1, x0, x1);
        lemma_row_sum_monotone(s, w, y1 - 1, x0, x1);
        lemma_row_sum_bounds(s, w, y1 - 1, x1);
        lemma_row_sum_bounds(s, w, y1 - 1, x0);
        assert(row_sum(s, w, y1 - 1, x1) - row_sum(s, w, y1 - 1, x0) <= 255 * (x1 - x0)) by {
            lemma_row_sum_segment_bound(s, w, y1 - 1, x0, x1);
        }
        assert(255 * (y1 - 1 - y0) * (x1 - x0) + 255 * (x1 - x0) == 255 * (y1 - y0) * (x1 - x0))
            by (nonlinear_arith);
    } else {
        assert(255 * (y1 - y0) * (x1 - x0) == 0) by (nonlinear_arith)
            requires
                y1 == y0,
        ;
    }
}

proof fn lemma_area_bound(a: int, b: int, w: int, h: int)
    requires
        0 <= a <= h,
        0 <= b <= w,
    ensures
        255 * a * b <= 255 * (w * h),
{
    assert(255 * a * b <= 255 * (w * h)) by (nonlinear_arith)
        requires
            0 <= a <= h,
            0 <= b <= w,
    ;
}

proof fn lemma_row_sum_segment_bound(s: Seq<u8>, w: int, y: int, x0: int, x1: int)
    requires
        0 <= x0 <= x1,
    ensures
        row_sum(s, w, y, x1) - row_sum(s, w, y, x0) <= 255 * (x1 - x0),
    decreases x1 - x0,
{
    if x0 < x1 {
        lemma_row_sum_segment_bound(s, w, y, x0, x1 - 1);
    }
}

/// The summed-area table of one grayscale image: `sums[y][x]` holds the sum
/// of all samples with row `< y` and column `< x`, so row 0 and column 0
/// are all zero.
pub struct IntegralTable {
    pub width: usize,
    pub height: usize,
    pub sums: Vec<Vec<u64>>,
}

impl IntegralTable {
    /// The table is correctly sized for, and filled with the prefix sums
    /// of, an image with samples `s`, width `w` and height `h`.
    pub open spec fn wf_for(self, s: Seq<u8>, w: int, h: int) -> bool {
        &&& self.width == w
        &&& self.height == h
        &&& self.sums@.len() == h + 1
        &&& forall|y: int| 0 <= y <= h ==> (#[trigger] self.sums@[y])@.len() == w + 1
        &&& forall|y: int, x: int|
            0 <= y <= h && 0 <= x <= w ==> (#[trigger] self.sums@[y]@[x]) == prefix_sum(s, w, y, x)
    }
}

fn zero_row(n: usize) -> (r: Vec<u64>)
    ensures
        r@.len() == n,
        forall|i: int| 0 <= i < n ==> r@[i] == 0,
{
    let mut r: Vec<u64> = Vec::new();
    let mut i: usize = 0;
    while i < n
        invariant
            i <= n,
            r@.len() == i,
            forall|k: int| 0 <= k < i ==> r@[k] == 0,
        decreases n - i,
    {
        r.push(0);
        i = i + 1;
    }
    r
}

/// Builds the summed-area table of `img` using the standard recurrence; the
/// 64-bit cells cannot overflow because a well-formed image holds at most
/// `u32::MAX` samples of at most 255 each.
pub fn compute_integral(img: &GrayImage) -> (r: IntegralTable)
    requires
        img.wf(),
    ensures
        r.wf_for(img.samples@, img.width as int, img.height as int),
{
    let w = img.width;
    let h = img.height;
    let ghost s = img.samples@;
    let mut sums: Vec<Vec<u64>> = Vec::new();
    sums.push(zero_row(w + 1));
    let mut y: usize = 1;
    while y <= h
        invariant
            1 <= y <= h + 1,
            img.wf(),
            s == img.samples@,
            w == img.width,
            h == img.height,
            sums@.len() == y,
            forall|yy: int| 0 <= yy < y ==> (#[trigger] sums@[yy])@.len() == w + 1,
            forall|yy: int, x: int|
                0 <= yy < y && 0 <= x <= w ==> (#[trigger] sums@[yy]@[x]) == prefix_sum(
                    s,
                    w as int,
                    yy,
                    x,
                ),
        decreases h + 1 - y,
    {
        let mut row: Vec<u64> = Vec::new();
        row.push(0);
        proof {
            lemma_prefix_sum_zero_x(s, w as int, y as int);
        }
        let mut x: usize = 1;
        while x <= w
            invariant
                1 <= x <= w + 1,
                1 <= y <= h,
                img.wf(),
                s == img.samples@,
                w == img.width,
                h == img.height,
                sums@.len() == y,
                forall|yy: int| 0 <= yy < y ==> (#[trigger] sums@[yy])@.len() == w + 1,
                forall|yy: int, xx: int|
                    0 <= yy < y && 0 <= xx <= w ==> (#[trigger] sums@[yy]@[xx]) == prefix_sum(
                        s,
                        w as int,
                        yy,
                        xx,
                    ),
                row@.len() == x,
                forall|xx: int| 0 <= xx < x ==> (#[trigger] row@[xx]) == prefix_sum(
                    s,
                    w as int,
                    y as int,
                    xx,
                ),
            decreases w + 1 - x,
        {
            proof {
                crate::raster::lemma_row_major_index(w as int, h as int, x - 1, y - 1);
                lemma_prefix_sum_recurrence(s, w as int, y as int, x as int);
                lemma_prefix_sum_bounds(s, w as int, y as int, x as int);
                lemma_prefix_sum_bounds(s, w as int, y - 1, x as int);
                lemma_prefix_sum_bounds(s, w as int, y as int, x - 1);
                lemma_prefix_sum_monotone_x(s, w as int, y - 1, x - 1, x as int);
                lemma_area_bound(y as int, x as int, w as int, h as int);
                lemma_area_bound(y - 1, x as int, w as int, h as int);
                lemma_area_bound(y as int, x - 1, w as int, h as int);
            }
            let val = img.samples[(y - 1) * w + (x - 1)] as u64;
            let above = sums[y - 1][x];
            let left = row[x - 1];
            let corner = sums[y - 1][x - 1];
            let cell = val + above + left - corner;
            row.push(cell);
            x = x + 1;
        }
        sums.push(row);
        y = y + 1;
    }
    IntegralTable { width: w, height: h, sums }
}

} // verus!

//! Histogram equalization: the contrast enhancer remaps every intensity
//! level through the image's normalized cumulative distribution, spreading a
//! narrow histogram over the whole 0..=255 range.

use vstd::prelude::*;
use crate::raster::GrayImage;

verus! {

/// How many samples of `s` hold exactly the value `v`.
pub open spec fn count_eq(s: Seq<u8>, v: u8) -> nat
    decreases s.len(),
{
    if s.len() == 0 {
        0
    } else {
        count_eq(s.drop_last(), v) + if s.last() == v {
            1nat
        } else {
            0nat
        }
    }
}

/// How many samples of `s` hold a value at most `v`: 0 for negative `v`,
/// and every sample for `v` equal to 255, the largest level in use.
pub open spec fn count_le(s: Seq<u8>, v: int) -> nat
    decreases v + 1,
{
    if v < 0 {
        0
    } else {
        count_le(s, v - 1) + count_eq(s, v as u8)
    }
}

/// The equalized intensity of level `v`: the cumulative share of samples at
/// or below `v`, scaled to 0..=255 and rounded to the nearest integer.
/// Meaningful only for non-empty images.
pub open spec fn equalized_level(s: Seq<u8>, v: u8) -> int {
    (510 * count_le(s, v as int) + s.len() as int) / (2 * s.len() as int)
}

/// The whole image remapped through [`equalized_level`].
pub open spec fn equalized_seq(s: Seq<u8>) -> Seq<u8> {
    Seq::new(s.len(), |i: int| equalized_level(s, s[i]) as u8)
}

proof fn lemma_count_eq_push(s: Seq<u8>, x: u8, v: u8)
    ensures
        count_eq(s.push(x), v) == count_eq(s, v) + if x == v {
            1int
        } else {
            0int
        },
{
    assert(s.push(x).drop_last() =~= s);
    assert(s.push(x).last() == x);
}

proof fn lemma_count_le_push(s: Seq<u8>, x: u8, v: int)
    requires
        v <= 255,
    ensures
        count_le(s.push(x), v) == count_le(s, v) + if x <= v {
            1int
        } else {
            0int
        },
    decreases v + 1,
{
    if v >= 0 {
        lemma_count_le_push(s, x, v - 1);
        lemma_count_eq_push(s, x, v as u8);
    }
}

proof fn lemma_count_le_empty(v: int)
    ensures
        count_le(Seq::<u8>::empty(), v) == 0,
    decreases v + 1,
{
    if v >= 0 {
        lemma_count_le_empty(v - 1);
        assert(count_eq(Seq::<u8>::empty(), v as u8) == 0);
    }
}

/// Counting the samples at or below 255 counts them all.
pub proof fn lemma_count_le_full(s: Seq<u8>)
    ensures
        count_le(s, 255) == s.len(),
    decreases s.len(),
{
    if s.len() > 0 {
        let prefix = s.drop_last();
        lemma_count_le_full(prefix);
        lemma_count_le_push(prefix, s.last(), 255);
        assert(prefix.push(s.last()) =~= s);
    } else {
        assert(s =~= Seq::<u8>::empty());
        lemma_count_le_empty(255);
    }
}

/// The cumulative count never decreases as the level rises.
pub proof fn lemma_count_le_monotone(s: Seq<u8>, v1: int, v2: int)
    requires
        v1 <= v2,
    ensures
        count_le(s, v1) <= count_le(s, v2),
    decreases v2 - v1,
{
    if v1 < v2 {
        lemma_count_le_monotone(s, v1, v2 - 1);
    }
}

/// The cumulative count never exceeds the sample count.
pub proof fn lemma_count_le_bound(s: Seq<u8>, v: int)
    requires
        v <= 255,
    ensures
        count_le(s, v) <= s.len(),
{
    lemma_count_le_monotone(s, v, 255);
    lemma_count_le_full(s);
}

/// Equalized intensities stay in the 8-bit range.
pub proof fn lemma_equalized_level_range(s: Seq<u8>, v: u8)
    requires
        s.len() > 0,
    ensures
        0 <= equalized_level(s, v) <= 255,
{
    let n = s.len() as int;
    let c = count_le(s, v as int) as int;
    lemma_count_le_bound(s, v as int);
    assert(510 * c + n <= 510 * n + n) by (nonlinear_arith)
        requires
            c <= n,
            n > 0,
    ;
    vstd::arithmetic::div_mod::lemma_div_is_ordered(510 * c + n, 511 * n, 2 * n);
    assert(511 * n / (2 * n) == 255) by (nonlinear_arith)
        requires
            n > 0,
    ;
    vstd::arithmetic::div_mod::lemma_div_pos_is_pos(510 * c + n, 2 * n);
}

/// Equalization never reorders intensities: a brighter level maps at least
/// as high as a darker one, so the histogram's mean ordering is preserved.
pub proof fn lemma_equalized_level_monotone(s: Seq<u8>, v1: u8, v2: u8)
    requires
        s.len() > 0,
        v1 <= v2,
    ensures
        equalized_level(s, v1) <= equalized_level(s, v2),
{
    let n = s.len() as int;
    lemma_count_le_monotone(s, v1 as int, v2 as int);
    let c1 = count_le(s, v1 as int) as int;
    let c2 = count_le(s, v2 as int) as int;
    assert(510 * c1 + n <= 510 * c2 + n);
    vstd::arithmetic::div_mod::lemma_div_is_ordered(510 * c1 + n, 510 * c2 + n, 2 * n);
}

/// Largest level at most `u` whose equalized value is at most `bound`, or
/// -1 when no level up to `u` qualifies.
spec fn last_level_within(s: Seq<u8>, bound: int, u: int) -> int
    decreases u + 1,
{
    if u < 0 {
        -1
    } else if equalized_level(s, u as u8) <= bound {
        u
    } else {
        last_level_within(s, bound, u - 1)
    }
}

proof fn lemma_last_level_within(s: Seq<u8>, bound: int, u: int)
    requires
        s.len() > 0,
        -1 <= u <= 255,
    ensures
        -1 <= last_level_within(s, bound, u) <= u,
        last_level_within(s, bound, u) >= 0 ==> equalized_level(
            s,
            last_level_within(s, bound, u) as u8,
        ) <= bound,
        forall|x: int|
            last_level_within(s, bound, u) < x <= u ==> #[trigger] equalized_level(s, x as u8)
                > bound,
    decreases u + 1,
{
    if u >= 0 && equalized_level(s, u as u8) > bound {
        lemma_last_level_within(s, bound, u - 1);
    }
}

/// Counting the remapped samples at or below `bound` counts exactly the
/// original samples at or below `r`, whenever `r` separates the levels
/// that equalize to at most `bound` from those that do not.
proof fn lemma_count_le_mapped(base: Seq<u8>, t: Seq<u8>, bound: int, r: int)
    requires
        base.len() > 0,
        -1 <= r <= 255,
        bound <= 255,
        forall|x: u8| (equalized_level(base, x) <= bound) <==> (x <= r),
    ensures
        count_le(t.map_values(|x: u8| equalized_level(base, x) as u8), bound) == count_le(t, r),
    decreases t.len(),
{
    let remap = |x: u8| equalized_level(base, x) as u8;
    if t.len() == 0 {
        assert(t.map_values(remap) =~= Seq::<u8>::empty());
        lemma_count_le_empty(bound);
        lemma_count_le_empty(r);
        assert(t =~= Seq::<u8>::empty());
    } else {
        let t0 = t.drop_last();
        let x = t.last();
        lemma_count_le_mapped(base, t0, bound, r);
        assert(t0.push(x) =~= t);
        assert(t0.map_values(remap).push(remap(x)) =~= t.map_values(remap));
        lemma_count_le_push(t0, x, r);
        lemma_count_le_push(t0.map_values(remap), remap(x), bound);
        lemma_equalized_level_range(base, x);
        assert(remap(x) == equalized_level(base, x));
        assert((remap(x) <= bound) <==> (x <= r));
    }
}

/// Re-applying the enhancer to an already-equalized image changes nothing:
/// with round-to-nearest remapping the equalization map is idempotent, so
/// a second pass stays well within the 256-bin quantization slack the
/// design allows for it.  The re-equalized level of a sample is the
/// equalized level of the largest input level that remaps at or below it,
/// and by monotonicity that is the sample's own equalized level.
pub proof fn lemma_equalize_idempotent(s: Seq<u8>)
    ensures
        equalized_seq(equalized_seq(s)) == equalized_seq(s),
{
    let e = equalized_seq(s);
    assert(e.len() == s.len());
    if s.len() == 0 {
        assert(equalized_seq(e) =~= e);
    } else {
        let n = s.len() as int;
        let remap = |x: u8| equalized_level(s, x) as u8;
        assert(e =~= s.map_values(remap));
        assert forall|i: int| 0 <= i < e.len() implies equalized_seq(e)[i] == e[i] by {
            let v = s[i];
            lemma_equalized_level_range(s, v);
            let lv = equalized_level(s, v);
            assert(e[i] == lv as u8);
            lemma_last_level_within(s, lv, 255);
            let r = last_level_within(s, lv, 255);
            assert(v <= r);
            assert forall|x: u8| (equalized_level(s, x) <= lv) <==> (x <= r) by {
                if x <= r {
                    lemma_equalized_level_monotone(s, x, r as u8);
                }
            }
            lemma_count_le_mapped(s, s, lv, r);
            assert(count_le(e, lv) == count_le(s, r));
            // the second pass therefore evaluates the first pass's formula
            // at level r, and r and v share one equalized level
            assert(equalized_level(e, e[i]) == equalized_level(s, r as u8));
            lemma_equalized_level_monotone(s, v, r as u8);
            assert(equalized_level(s, r as u8) == lv);
            assert(equalized_seq(e)[i] == lv as u8);
        }
        assert(equalized_seq(e) =~= e);
    }
}

/// Returns a same-sized image whose intensities are remapped through the
/// normalized cumulative distribution of the input, per [`equalized_seq`].
/// A zero-area image comes back as an equally empty image of the same
/// dimensions.
pub fn enhance_contrast(img: &GrayImage) -> (r: GrayImage)
    requires
        img.wf(),
    ensures
        r.wf(),
        r.width == img.width,
        r.height == img.height,
        r.samples@ == equalized_seq(img.samples@),
{
    let total: usize = img.samples.len();
    if total == 0 {
        let empty = GrayImage { width: img.width, height: img.height, samples: Vec::new() };
        proof {
            assert(empty.samples@ =~= equalized_seq(img.samples@));
        }
        return empty;
    }

    // Per-level sample counts.
    let ghost s = img.samples@;
    let mut hist: Vec<u64> = Vec::new();
    let mut lv: usize = 0;
    while lv < 256
        invariant
            lv <= 256,
            hist@.len() == lv,
            forall|u: int| 0 <= u < lv ==> hist@[u] == 0,
        decreases 256 - lv,
    {
        hist.push(0);
        lv = lv + 1;
    }
    let mut i: usize = 0;
    while i < total
        invariant
            i <= total,
            total == s.len(),
            s == img.samples@,
            img.wf(),
            hist@.len() == 256,
            forall|u: int| 0 <= u < 256 ==> hist@[u] == count_eq(s.take(i as int), u as u8),
        decreases total - i,
    {
        let v = img.samples[i] as usize;
        proof {
            lemma_count_eq_bound(s.take(i as int), s[i as int]);
            assert(s.take(i + 1).drop_last() =~= s.take(i as int));
            assert(s.take(i + 1).last() == s[i as int]);
        }
        let c = hist[v];
        hist.set(v, c + 1);
        i = i + 1;
    }
    proof {
        assert(s.take(total as int) =~= s);
        assert(count_le(s, -1) == 0);
        assert(count_le(s, 0) == count_eq(s, 0u8));
    }

    // Cumulative counts: after this pass `hist[v]` holds `count_le(s, v)`.
    let mut lv2: usize = 1;
    while lv2 < 256
        invariant
            1 <= lv2 <= 256,
            total == s.len(),
            hist@.len() == 256,
            forall|u: int| 0 <= u < lv2 ==> hist@[u] == count_le(s, u),
            forall|u: int| lv2 <= u < 256 ==> hist@[u] == count_eq(s, u as u8),
        decreases 256 - lv2,
    {
        proof {
            lemma_count_le_bound(s, lv2 - 1);
            lemma_count_le_bound(s, lv2 as int);
        }
        let c = hist[lv2 - 1] + hist[lv2];
        hist.set(lv2, c);
        lv2 = lv2 + 1;
    }

    // Remap every sample through the rounded, scaled cumulative share.
    let mut out: Vec<u8> = Vec::new();
    let mut j: usize = 0;
    while j < total
        invariant
            j <= total,
            total == s.len(),
            s == img.samples@,
            img.wf(),
            s.len() > 0,
            hist@.len() == 256,
            forall|u: int| 0 <= u < 256 ==> hist@[u] == count_le(s, u),
            out@.len() == j,
            forall|k: int| 0 <= k < j ==> out@[k] == equalized_level(s, s[k]) as u8,
        decreases total - j,
    {
        let v = img.samples[j] as usize;
        let c: u64 = hist[v];
        proof {
            lemma_count_le_bound(s, v as int);
            assert(510 * c <= 510 * (total as u64)) by (nonlinear_arith)
                requires
                    c <= total as u64,
            ;
            lemma_equalized_level_range(s, s[j as int]);
        }
        let mapped: u64 = (510 * c + total as u64) / (2 * total as u64);
        out.push(mapped as u8);
        j = j + 1;
    }
    let result = GrayImage { width: img.width, height: img.height, samples: out };
    proof {
        assert(result.samples@ =~= equalized_seq(img.samples@));
    }
    result
}

proof fn lemma_count_eq_bound(s: Seq<u8>, v: u8)
    ensures
        count_eq(s, v) <= s.len(),
    decreases s.len(),
{
    if s.len() > 0 {
        lemma_count_eq_bound(s.drop_last(), v);
    }
}

} // verus!

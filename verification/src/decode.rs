//! Decode orchestration: every candidate representation of a source image
//! is handed to the external pattern detector, and the decoded payloads are
//! collected into a result set that keeps the first occurrence of each
//! distinct payload and drops the rest.

use vstd::prelude::*;
use crate::raster::{GrayImage, Rgba8Image};
use crate::candidates::{generate_candidates, scalable, Candidate, THRESHOLD_BLOCK};
use crate::contrast::equalized_seq;
use crate::threshold::thresholded_seq;

verus! {

/// One successful decode: the identifier of the source image (typically its
/// file path) and the decoded payload text.
pub struct DecodedResult {
    pub source: String,
    pub payload: String,
}

/// The character sequences of a list of strings.
pub open spec fn views_of(ps: Seq<String>) -> Seq<Seq<char>> {
    ps.map_values(|p: String| p@)
}

/// The payloads that the pattern decoder extracts from a grayscale image
/// with the given row-major samples and dimensions, in detection order,
/// keeping only the grids whose decode succeeds.  The result depends on the
/// samples and dimensions alone.
pub uninterp spec fn qr_payloads(gray: Seq<u8>, width: nat, height: nat) -> Seq<Seq<char>>;

/// Relies on rqrr::PreparedImage::prepare, PreparedImage::detect_grids and
/// Grid::decode: locates QR grids in a grayscale image and decodes each,
/// returning the payloads of the grids that decode, in detection order.
/// The whole rqrr pipeline is a deterministic function of the pixel data;
/// the detected grids borrow the prepared image, so preparation, detection
/// and per-grid decoding stand together in this one call.
#[verifier::external_body]
fn detect_and_decode(img: &GrayImage) -> (r: Vec<String>)
    requires
        img.wf(),
    ensures
        views_of(r@) == qr_payloads(img.samples@, img.width as nat, img.height as nat),
{
    let buf = image::GrayImage::from_raw(img.width as u32, img.height as u32, img.samples.clone())
        .unwrap();
    let mut prepared = rqrr::PreparedImage::prepare(buf);
    let grids = prepared.detect_grids();
    let mut payloads = Vec::new();
    for grid in grids {
        if let Ok((_meta, content)) = grid.decode() {
            payloads.push(content);
        }
    }
    payloads
}

/// The input stream reduced to the first occurrence of each distinct
/// payload, in order of first appearance.
pub open spec fn dedup_first(ps: Seq<Seq<char>>) -> Seq<Seq<char>>
    decreases ps.len(),
{
    if ps.len() == 0 {
        Seq::empty()
    } else {
        let rest = dedup_first(ps.drop_last());
        if rest.contains(ps.last()) {
            rest
        } else {
            rest.push(ps.last())
        }
    }
}

/// Deduplication leaves no duplicates: all entries of the result set are
/// pairwise distinct.
pub proof fn lemma_dedup_first_no_duplicates(ps: Seq<Seq<char>>)
    ensures
        dedup_first(ps).no_duplicates(),
    decreases ps.len(),
{
    if ps.len() > 0 {
        lemma_dedup_first_no_duplicates(ps.drop_last());
        let rest = dedup_first(ps.drop_last());
        let x = ps.last();
        if !rest.contains(x) {
            assert forall|i: int, j: int|
                0 <= i < rest.push(x).len() && 0 <= j < rest.push(x).len() && i != j implies rest.push(
                x,
            )[i] != rest.push(x)[j] by {
                if i < rest.len() && j < rest.len() {
                    assert(rest.push(x)[i] == rest[i] && rest.push(x)[j] == rest[j]);
                } else if i == rest.len() {
                    assert(rest.push(x)[i] == x && rest.push(x)[j] == rest[j]);
                } else {
                    assert(rest.push(x)[i] == rest[i] && rest.push(x)[j] == x);
                }
            }
        }
    }
}

/// Deduplication neither loses nor invents payloads: a payload appears in
/// the result set exactly when it appears somewhere in the input stream.
/// Together with [`lemma_dedup_first_no_duplicates`] this makes the result
/// set independent, as a set, of the order in which candidates were tried.
pub proof fn lemma_dedup_first_membership(ps: Seq<Seq<char>>, p: Seq<char>)
    ensures
        dedup_first(ps).contains(p) <==> ps.contains(p),
    decreases ps.len(),
{
    if ps.len() > 0 {
        lemma_dedup_first_membership(ps.drop_last(), p);
        let rest = dedup_first(ps.drop_last());
        let x = ps.last();
        if ps.drop_last().contains(p) {
            let i = choose|i: int| 0 <= i < ps.drop_last().len() && ps.drop_last()[i] == p;
            assert(ps[i] == p);
            assert(ps.contains(p));
        }
        if x == p {
            assert(ps[ps.len() - 1] == p);
            assert(ps.contains(p));
        }
        if rest.contains(p) {
            let i = choose|i: int| 0 <= i < rest.len() && rest[i] == p;
            if !rest.contains(x) {
                assert(rest.push(x)[i] == p);
            }
        }
        if ps.contains(p) {
            let i = choose|i: int| 0 <= i < ps.len() && ps[i] == p;
            if i < ps.len() - 1 {
                assert(ps.drop_last()[i] == p);
                assert(ps.drop_last().contains(p));
            } else {
                assert(x == p);
                if !rest.contains(x) {
                    assert(rest.push(x)[rest.len() as int] == p);
                }
            }
        }
    }
}

/// `acc` extended by every payload of `incoming`, in order, that is not
/// already present; duplicates inside `incoming` are kept once as well.
pub open spec fn merged(acc: Seq<Seq<char>>, incoming: Seq<Seq<char>>) -> Seq<Seq<char>>
    decreases incoming.len(),
{
    if incoming.len() == 0 {
        acc
    } else {
        let rest = merged(acc, incoming.drop_last());
        if rest.contains(incoming.last()) {
            rest
        } else {
            rest.push(incoming.last())
        }
    }
}

/// Merging a new payload batch into an already-deduplicated result set
/// gives the deduplication of the concatenated stream: the result set does
/// not depend on how the stream was split into batches.
pub proof fn lemma_merged_dedup(a: Seq<Seq<char>>, b: Seq<Seq<char>>)
    ensures
        merged(dedup_first(a), b) == dedup_first(a + b),
    decreases b.len(),
{
    if b.len() == 0 {
        assert(a + b =~= a);
    } else {
        lemma_merged_dedup(a, b.drop_last());
        assert((a + b).drop_last() =~= a + b.drop_last());
        assert((a + b).last() == b.last());
    }
}

/// Appends to `results` one entry, carrying `source_id`, for every payload
/// of `found` that no existing entry already carries, in order; payloads
/// already present, or repeated within `found`, are dropped.  Existing
/// entries are never touched.
pub fn merge_payloads(results: &mut Vec<DecodedResult>, source_id: &String, found: &Vec<String>)
    ensures
        payloads_of(final(results)@) == merged(payloads_of(old(results)@), views_of(found@)),
        final(results)@.len() >= old(results)@.len(),
        forall|i: int|
            0 <= i < old(results)@.len() ==> final(results)@[i] == old(results)@[i],
        forall|i: int|
            old(results)@.len() <= i < final(results)@.len()
                ==> (#[trigger] final(results)@[i]).source@ == source_id@,
{
    let ghost orig = results@;
    let ghost stream = views_of(found@);
    proof {
        assert(stream.take(0) =~= Seq::<Seq<char>>::empty());
        assert(merged(payloads_of(orig), stream.take(0)) == payloads_of(orig));
    }
    let m = found.len();
    let mut pi: usize = 0;
    while pi < m
        invariant
            pi <= m,
            m == found@.len(),
            stream == views_of(found@),
            payloads_of(results@) == merged(payloads_of(orig), stream.take(pi as int)),
            results@.len() >= orig.len(),
            forall|i: int| 0 <= i < orig.len() ==> results@[i] == orig[i],
            forall|i: int|
                orig.len() <= i < results@.len() ==> (#[trigger] results@[i]).source@
                    == source_id@,
        decreases m - pi,
    {
        let mut found_dup = false;
        let k = results.len();
        let mut ri: usize = 0;
        while ri < k
            invariant
                ri <= k,
                k == results@.len(),
                pi < m,
                m == found@.len(),
                found_dup <==> exists|j: int|
                    0 <= j < ri && (#[trigger] results@[j]).payload@ == found@[pi as int]@,
            decreases k - ri,
        {
            if results[ri].payload == found[pi] {
                found_dup = true;
            }
            ri = ri + 1;
        }
        let ghost before = results@;
        let ghost p = stream[pi as int];
        proof {
            assert(p == found@[pi as int]@);
            assert(stream.take(pi + 1).drop_last() =~= stream.take(pi as int));
            assert(stream.take(pi + 1).last() == p);
            if found_dup {
                let j = choose|j: int|
                    0 <= j < results@.len() && (#[trigger] results@[j]).payload@ == p;
                assert(payloads_of(results@)[j] == p);
                assert(payloads_of(results@).contains(p));
            } else {
                if payloads_of(results@).contains(p) {
                    let j = choose|j: int|
                        0 <= j < payloads_of(results@).len() && payloads_of(results@)[j] == p;
                    assert(results@[j].payload@ == p);
                    assert(false);
                }
            }
        }
        if !found_dup {
            results.push(DecodedResult { source: source_id.clone(), payload: found[pi].clone() });
            proof {
                assert(payloads_of(results@) =~= payloads_of(before).push(p));
            }
        }
        pi = pi + 1;
    }
    proof {
        assert(stream.take(m as int) =~= stream);
    }
}

/// Concatenated payloads of the first `k` candidates of a candidate set.
pub open spec fn gathered_payloads(cands: Seq<Candidate>, k: int) -> Seq<Seq<char>>
    decreases k,
{
    if k <= 0 {
        Seq::empty()
    } else {
        gathered_payloads(cands, k - 1) + qr_payloads(
            cands[k - 1].image.samples@,
            cands[k - 1].image.width as nat,
            cands[k - 1].image.height as nat,
        )
    }
}

/// The full payload stream of one source image: the payloads of all its
/// candidate representations, in candidate order.
pub open spec fn source_payloads(src: Rgba8Image) -> Seq<Seq<char>> {
    let w = src.width as nat;
    let h = src.height as nat;
    let uw = crate::candidates::up_dim(src.width as int) as nat;
    let uh = crate::candidates::up_dim(src.height as int) as nat;
    let dw = crate::candidates::down_dim(src.width as int) as nat;
    let dh = crate::candidates::down_dim(src.height as int) as nat;
    let gray = crate::candidates::luma_of(src.samples@, w, h);
    let up = crate::candidates::resized_luma_of(src.samples@, w, h, uw, uh);
    qr_payloads(gray, w, h) + qr_payloads(equalized_seq(gray), w, h) + qr_payloads(
        thresholded_seq(gray, src.width as int, src.height as int, (THRESHOLD_BLOCK / 2) as int),
        w,
        h,
    ) + qr_payloads(up, uw, uh) + qr_payloads(equalized_seq(up), uw, uh) + if src.width > 400
        && src.height > 400 {
        qr_payloads(crate::candidates::resized_luma_of(src.samples@, w, h, dw, dh), dw, dh)
    } else {
        Seq::empty()
    }
}

/// The payloads carried by a result set.
pub open spec fn payloads_of(rs: Seq<DecodedResult>) -> Seq<Seq<char>> {
    rs.map_values(|d: DecodedResult| d.payload@)
}

/// Runs the pattern decoder over every candidate representation of `src`
/// and returns one entry per distinct payload, in order of first
/// appearance; every entry carries `source_id` as its source.  Candidates
/// that decode to nothing contribute nothing, and an image in which no
/// candidate decodes yields the empty result set rather than an error.
pub fn decode_source(src: &Rgba8Image, source_id: &String) -> (r: Vec<DecodedResult>)
    requires
        src.wf(),
        scalable(*src),
    ensures
        payloads_of(r@) == dedup_first(source_payloads(*src)),
        forall|i: int| 0 <= i < r@.len() ==> (#[trigger] r@[i]).source@ == source_id@,
{
    let candidates = generate_candidates(src);
    let mut results: Vec<DecodedResult> = Vec::new();
    let n = candidates.len();
    let mut ci: usize = 0;
    while ci < n
        invariant
            ci <= n,
            n == candidates@.len(),
            forall|i: int| 0 <= i < n ==> (#[trigger] candidates@[i]).image.wf(),
            payloads_of(results@) == dedup_first(gathered_payloads(candidates@, ci as int)),
            forall|i: int| 0 <= i < results@.len() ==> (#[trigger] results@[i]).source@
                == source_id@,
        decreases n - ci,
    {
        let found_payloads = detect_and_decode(&candidates[ci].image);
        let ghost base = gathered_payloads(candidates@, ci as int);
        let ghost stream = views_of(found_payloads@);
        merge_payloads(&mut results, source_id, &found_payloads);
        proof {
            lemma_merged_dedup(base, stream);
            assert(base + stream =~= gathered_payloads(candidates@, ci + 1));
        }
        ci = ci + 1;
    }
    proof {
        lemma_gathered_is_source(candidates@, *src);
    }
    results
}

/// Once the candidate set of `src` is laid out as [`generate_candidates`]
/// promises, gathering the payloads of all its members yields exactly the
/// payload stream of the source image.
proof fn lemma_gathered_is_source(cands: Seq<Candidate>, src: Rgba8Image)
    requires
        cands.len() == if src.width > 400 && src.height > 400 {
            6int
        } else {
            5int
        },
        cands[0].image.width == src.width,
        cands[0].image.height == src.height,
        cands[0].image.samples@ == crate::candidates::luma_of(
            src.samples@,
            src.width as nat,
            src.height as nat,
        ),
        cands[1].image.width == src.width,
        cands[1].image.height == src.height,
        cands[1].image.samples@ == equalized_seq(cands[0].image.samples@),
        cands[2].image.width == src.width,
        cands[2].image.height == src.height,
        cands[2].image.samples@ == thresholded_seq(
            cands[0].image.samples@,
            src.width as int,
            src.height as int,
            (THRESHOLD_BLOCK / 2) as int,
        ),
        cands[3].image.width == crate::candidates::up_dim(src.width as int),
        cands[3].image.height == crate::candidates::up_dim(src.height as int),
        cands[3].image.samples@ == crate::candidates::resized_luma_of(
            src.samples@,
            src.width as nat,
            src.height as nat,
            crate::candidates::up_dim(src.width as int) as nat,
            crate::candidates::up_dim(src.height as int) as nat,
        ),
        cands[4].image.width == crate::candidates::up_dim(src.width as int),
        cands[4].image.height == crate::candidates::up_dim(src.height as int),
        cands[4].image.samples@ == equalized_seq(cands[3].image.samples@),
        src.width > 400 && src.height > 400 ==> {
            &&& cands[5].image.width == crate::candidates::down_dim(src.width as int)
            &&& cands[5].image.height == crate::candidates::down_dim(src.height as int)
            &&& cands[5].image.samples@ == crate::candidates::resized_luma_of(
                src.samples@,
                src.width as nat,
                src.height as nat,
                crate::candidates::down_dim(src.width as int) as nat,
                crate::candidates::down_dim(src.height as int) as nat,
            )
        },
    ensures
        gathered_payloads(cands, cands.len() as int) == source_payloads(src),
{
    let w = src.width as nat;
    let h = src.height as nat;
    let batch0 = qr_payloads(cands[0].image.samples@, w, h);
    let batch1 = qr_payloads(cands[1].image.samples@, w, h);
    let batch2 = qr_payloads(cands[2].image.samples@, w, h);
    let uw = crate::candidates::up_dim(src.width as int) as nat;
    let uh = crate::candidates::up_dim(src.height as int) as nat;
    let batch3 = qr_payloads(cands[3].image.samples@, uw, uh);
    let batch4 = qr_payloads(cands[4].image.samples@, uw, uh);
    assert(gathered_payloads(cands, 0) =~= Seq::<Seq<char>>::empty());
    assert(gathered_payloads(cands, 1) =~= batch0);
    assert(gathered_payloads(cands, 2) =~= batch0 + batch1);
    assert(gathered_payloads(cands, 3) =~= batch0 + batch1 + batch2);
    assert(gathered_payloads(cands, 4) =~= batch0 + batch1 + batch2 + batch3);
    assert(gathered_payloads(cands, 5) =~= batch0 + batch1 + batch2 + batch3 + batch4);
    if src.width > 400 && src.height > 400 {
        let dw = crate::candidates::down_dim(src.width as int) as nat;
        let dh = crate::candidates::down_dim(src.height as int) as nat;
        let batch5 = qr_payloads(cands[5].image.samples@, dw, dh);
        assert(gathered_payloads(cands, 6) =~= batch0 + batch1 + batch2 + batch3 + batch4 + batch5);
        assert(gathered_payloads(cands, 6) =~= source_payloads(src));
    } else {
        assert(gathered_payloads(cands, 5) =~= source_payloads(src));
    }
}

} // verus!

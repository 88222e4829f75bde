use vstd::prelude::*;

use crate::ecc::EccLevel;
use crate::error::QRCodeError;
use crate::mode::SegmentMode;
use crate::optimizer::{
    cell, cheapest, class_segments, cost_only, last_mode, optimal_modes, optimize_outcome,
    optimized_segments, pred, runs, segments_view, trace, Segment,
};

verus! {

/// The characters of a list of segments, one segment after the other.
pub open spec fn concat_chars(segs: Seq<(SegmentMode, Seq<char>)>) -> Seq<char>
    decreases segs.len(),
{
    if segs.len() == 0 {
        seq![]
    } else {
        concat_chars(segs.drop_last()) + segs.last().1
    }
}

/// Each character of each segment can be encoded in that segment's mode.
pub open spec fn modes_valid(segs: Seq<(SegmentMode, Seq<char>)>) -> bool {
    forall|i: int, j: int|
        0 <= i < segs.len() && 0 <= j < segs[i].1.len() ==> #[trigger] segs[i].0.accepts(
            #[trigger] segs[i].1[j],
        )
}

proof fn lemma_runs_concat(text: Seq<char>, modes: Seq<SegmentMode>, k: int)
    requires
        0 <= k <= text.len(),
        modes.len() == text.len(),
    ensures
        concat_chars(runs(text, modes, k)) == text.subrange(0, k),
        k > 0 ==> runs(text, modes, k).len() > 0,
    decreases k,
{
    if k > 0 {
        lemma_runs_concat(text, modes, k - 1);
        let prev = runs(text, modes, k - 1);
        let r = runs(text, modes, k);
        if prev.len() > 0 && prev.last().0 == modes[k - 1] {
            assert(r.drop_last() =~= prev.drop_last());
            assert(text.subrange(0, k) =~= text.subrange(0, k - 1).push(text[k - 1]));
            assert(concat_chars(r) =~= concat_chars(prev) + seq![text[k - 1]]);
        } else {
            assert(r.drop_last() =~= prev);
            assert(text.subrange(0, k) =~= text.subrange(0, k - 1) + seq![text[k - 1]]);
        }
    }
}

proof fn lemma_runs_valid(text: Seq<char>, modes: Seq<SegmentMode>, k: int)
    requires
        0 <= k <= text.len(),
        modes.len() == text.len(),
        forall|i: int| 0 <= i < text.len() ==> #[trigger] modes[i].accepts(text[i]),
    ensures
        modes_valid(runs(text, modes, k)),
        k > 0 ==> runs(text, modes, k).last().0 == modes[k - 1],
    decreases k,
{
    if k > 0 {
        lemma_runs_valid(text, modes, k - 1);
        let prev = runs(text, modes, k - 1);
        let r = runs(text, modes, k);
        assert(modes[k - 1].accepts(text[k - 1]));
        assert forall|i: int, j: int| 0 <= i < r.len() && 0 <= j < r[i].1.len() implies #[trigger] r[i].0.accepts(
            #[trigger] r[i].1[j],
        ) by {
            if i < prev.len() && !(i == prev.len() - 1 && prev.last().0 == modes[k - 1]) {
                assert(r[i] == prev[i]);
            } else if i == prev.len() - 1 {
                if j < prev[i].1.len() {
                    assert(r[i].1[j] == prev[i].1[j]);
                }
            }
        }
    }
}

proof fn lemma_trace_valid(text: Seq<char>, class: int, i: int, m: SegmentMode)
    requires
        0 <= i < text.len(),
        cell(text, class, i, m) is Some,
    ensures
        trace(text, class, i, m).len() == i + 1,
        forall|j: int| 0 <= j <= i ==> #[trigger] trace(text, class, i, m)[j].accepts(text[j]),
    decreases i,
{
    if i > 0 {
        let p = pred(text, class, i, m);
        assert(cell(text, class, i - 1, p) is Some);
        lemma_trace_valid(text, class, i - 1, p);
        let t = trace(text, class, i, m);
        assert forall|j: int| 0 <= j <= i implies #[trigger] t[j].accepts(text[j]) by {
            if j < i {
                assert(t[j] == trace(text, class, i - 1, p)[j]);
            }
        }
    }
}

proof fn lemma_optimal_modes_valid(text: Seq<char>, class: int)
    ensures
        optimal_modes(text, class).len() == text.len(),
        forall|j: int| 0 <= j < text.len() ==> #[trigger] optimal_modes(text, class)[j].accepts(text[j]),
{
    if text.len() > 0 {
        let n = text.len() - 1;
        crate::optimizer::lemma_byte_reachable(text, class, n);
        let m = last_mode(text, class);
        assert(cheapest(
            cost_only(cell(text, class, n, SegmentMode::Byte)),
            cost_only(cell(text, class, n, SegmentMode::Alphanumeric)),
            cost_only(cell(text, class, n, SegmentMode::Numeric)),
        ) is Some);
        assert(cell(text, class, n, m) is Some);
        lemma_trace_valid(text, class, n, m);
    }
}

/// The segments of any version class hold the characters of the text, in
/// order, none left out and none added.
pub proof fn lemma_class_segments_reassemble(text: Seq<char>, class: int)
    ensures
        concat_chars(class_segments(text, class)) == text,
{
    lemma_optimal_modes_valid(text, class);
    lemma_runs_concat(text, optimal_modes(text, class), text.len() as int);
    assert(text.subrange(0, text.len() as int) =~= text);
}

/// The optimized segments, put one after the other, give back the text.
pub proof fn lemma_optimized_reassemble(text: Seq<char>, ecc: EccLevel)
    requires
        optimized_segments(text, ecc) is Some,
    ensures
        concat_chars(optimized_segments(text, ecc)->0) == text,
{
    lemma_class_segments_reassemble(text, crate::mode::version_class(crate::optimizer::chosen_version(text, ecc)));
}

/// Every character of a numeric segment is a digit, and every character of an
/// alphanumeric segment belongs to the 45-character set.
pub proof fn lemma_optimized_modes_valid(text: Seq<char>, ecc: EccLevel)
    requires
        optimized_segments(text, ecc) is Some,
    ensures
        modes_valid(optimized_segments(text, ecc)->0),
{
    let class = crate::mode::version_class(crate::optimizer::chosen_version(text, ecc));
    lemma_optimal_modes_valid(text, class);
    lemma_runs_valid(text, optimal_modes(text, class), text.len() as int);
}

/// No segment is empty, and neighbouring segments have different modes.
pub open spec fn runs_maximal(segs: Seq<(SegmentMode, Seq<char>)>) -> bool {
    &&& forall|i: int| 0 <= i < segs.len() ==> (#[trigger] segs[i]).1.len() > 0
    &&& forall|i: int| 0 <= i < segs.len() - 1 ==> (#[trigger] segs[i]).0 != segs[i + 1].0
}

proof fn lemma_runs_maximal(text: Seq<char>, modes: Seq<SegmentMode>, k: int)
    requires
        0 <= k <= text.len(),
        modes.len() == text.len(),
    ensures
        runs_maximal(runs(text, modes, k)),
    decreases k,
{
    if k > 0 {
        lemma_runs_maximal(text, modes, k - 1);
        let prev = runs(text, modes, k - 1);
        let r = runs(text, modes, k);
        let c = text[k - 1];
        if prev.len() > 0 && prev.last().0 == modes[k - 1] {
            assert(r == prev.update(prev.len() - 1, (modes[k - 1], prev.last().1.push(c))));
            assert forall|i: int| 0 <= i < r.len() implies (#[trigger] r[i]).1.len() > 0 by {
                if i < prev.len() - 1 {
                    assert(r[i] == prev[i]);
                }
            }
            assert forall|i: int| 0 <= i < r.len() - 1 implies (#[trigger] r[i]).0 != r[i + 1].0 by {
                assert(r[i] == prev[i]);
                assert(prev[i].0 != prev[i + 1].0);
            }
        } else {
            assert(r == prev.push((modes[k - 1], seq![c])));
            assert forall|i: int| 0 <= i < r.len() implies (#[trigger] r[i]).1.len() > 0 by {
                if i < prev.len() {
                    assert(r[i] == prev[i]);
                }
            }
            assert forall|i: int| 0 <= i < r.len() - 1 implies (#[trigger] r[i]).0 != r[i + 1].0 by {
                assert(r[i] == prev[i]);
                if i < prev.len() - 1 {
                    assert(r[i + 1] == prev[i + 1]);
                }
            }
        }
    }
}

/// The optimized segments are maximal runs: none is empty, and neighbouring
/// segments have different modes.
pub proof fn lemma_optimized_runs_maximal(text: Seq<char>, ecc: EccLevel)
    requires
        optimized_segments(text, ecc) is Some,
    ensures
        runs_maximal(optimized_segments(text, ecc)->0),
{
    let class = crate::mode::version_class(crate::optimizer::chosen_version(text, ecc));
    lemma_optimal_modes_valid(text, class);
    lemma_runs_maximal(text, optimal_modes(text, class), text.len() as int);
}

/// Two calls of `optimize_segments` on the same text and level agree: both
/// succeed with segments of the same modes and characters, or both fail with
/// `DataTooLong`.
pub proof fn lemma_optimize_deterministic(
    text: Seq<char>,
    ecc: EccLevel,
    first: Result<Vec<Segment>, QRCodeError>,
    second: Result<Vec<Segment>, QRCodeError>,
)
    requires
        optimize_outcome(text, ecc, first),
        optimize_outcome(text, ecc, second),
    ensures
        first is Ok <==> second is Ok,
        first matches Ok(a) ==> (second matches Ok(b) && segments_view(a@) == segments_view(b@)),
        first matches Err(a) ==> (second matches Err(b) && a is DataTooLong && b is DataTooLong),
{
}

} // verus!

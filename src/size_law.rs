use vstd::arithmetic::div_mod::{lemma_div_is_ordered, lemma_fundamental_div_mod, lemma_fundamental_div_mod_converse};
use vstd::prelude::*;

use crate::capacity::{spec_data_codewords, spec_raw_data_modules, ECC_CODEWORDS_PER_BLOCK, NUM_ERROR_CORRECTION_BLOCKS};
use crate::ecc::EccLevel;
use crate::mode::{utf8_len, version_class, SegmentMode};
use crate::optimizer::{
    ceil6, cell, char_count, cheapest, chosen_version, class_segments, cost_only, counts_fit,
    entry_cost, first_fit_from, fits_version, last_mode, lemma_pred_reachable, optimal_modes,
    optimized_segments, payload_bits, pred, runs, segment_bits, total_bits, trace, utf8_count,
};

verus! {

/// The whole text as a single byte segment fits a symbol of version `v` at level `ecc`.
pub open spec fn bytes_fit_version(text: Seq<char>, ecc: EccLevel, v: int) -> bool {
    let class = version_class(v);
    let segs = seq![(SegmentMode::Byte, text)];
    counts_fit(segs, class) && total_bits(segs, class) <= 8 * spec_data_codewords(v, ecc)
}

/// The cost, in sixths of a bit, of the first `k` characters of `text` encoded
/// in the given modes: a run pays its header once, and a switch rounds the
/// cost so far up to whole bits.
pub open spec fn path_cost(text: Seq<char>, modes: Seq<SegmentMode>, class: int, k: int) -> int
    decreases k,
{
    if k <= 0 {
        0
    } else if k == 1 {
        modes[0].head_cost(class) + modes[0].char_cost(text[0])
    } else {
        let prev = path_cost(text, modes, class, k - 1);
        (if modes[k - 1] == modes[k - 2] {
            prev
        } else {
            ceil6(prev) + modes[k - 1].head_cost(class)
        }) + modes[k - 1].char_cost(text[k - 1])
    }
}

/// The summed character costs of `chars` in mode `m`.
pub open spec fn cost_sum(m: SegmentMode, chars: Seq<char>) -> int
    decreases chars.len(),
{
    if chars.len() == 0 {
        0
    } else {
        cost_sum(m, chars.drop_last()) + m.char_cost(chars.last())
    }
}

// ---- Arithmetic of whole bits ----

proof fn lemma_ceil6_shift(a: int, s: int)
    ensures
        ceil6(6 * a + s) == 6 * a + ceil6(s),
{
    lemma_fundamental_div_mod(s + 5, 6);
    let q = (s + 5) / 6;
    let r = (s + 5) % 6;
    lemma_fundamental_div_mod_converse(6 * a + s + 5, 6, a + q, r);
}

proof fn lemma_ceil6_monotone(a: int, b: int)
    requires
        a <= b,
    ensures
        ceil6(a) <= ceil6(b),
{
    lemma_div_is_ordered(a + 5, b + 5, 6);
}

proof fn lemma_ceil6_exact(a: int)
    ensures
        ceil6(6 * a) == 6 * a,
{
    lemma_ceil6_shift(a, 0);
    assert(ceil6(0) == 0);
}

proof fn lemma_cost_sum_closed(m: SegmentMode, chars: Seq<char>)
    ensures
        m == SegmentMode::Numeric ==> cost_sum(m, chars) == 20 * chars.len(),
        m == SegmentMode::Alphanumeric ==> cost_sum(m, chars) == 33 * chars.len(),
        m == SegmentMode::Byte ==> cost_sum(m, chars) == 48 * utf8_count(chars),
    decreases chars.len(),
{
    if chars.len() > 0 {
        lemma_cost_sum_closed(m, chars.drop_last());
    }
}

proof fn lemma_payload_whole_bits(m: SegmentMode, chars: Seq<char>)
    ensures
        6 * payload_bits((m, chars)) == ceil6(cost_sum(m, chars)),
{
    lemma_cost_sum_closed(m, chars);
    let n = chars.len() as int;
    match m {
        SegmentMode::Numeric => {
            lemma_fundamental_div_mod(n, 3);
            let q = n / 3;
            let r = n % 3;
            let t: int = if r == 0 {
                0
            } else if r == 1 {
                4
            } else {
                7
            };
            lemma_fundamental_div_mod_converse(20 * n + 5, 6, 10 * q + t, 20 * r + 5 - 6 * t);
        },
        SegmentMode::Alphanumeric => {
            lemma_fundamental_div_mod(n, 2);
            let q = n / 2;
            let r = n % 2;
            lemma_fundamental_div_mod_converse(33 * n + 5, 6, 11 * q + 6 * r, 33 * r + 5 - 36 * r);
        },
        SegmentMode::Byte => {
            lemma_ceil6_exact(8 * utf8_count(chars));
        },
    }
}

// ---- The traced modes cost what the table says ----

proof fn lemma_path_cost_prefix(text: Seq<char>, a: Seq<SegmentMode>, b: Seq<SegmentMode>, class: int, k: int)
    requires
        0 <= k <= a.len(),
        k <= b.len(),
        forall|i: int| 0 <= i < k ==> a[i] == b[i],
    ensures
        path_cost(text, a, class, k) == path_cost(text, b, class, k),
    decreases k,
{
    if k > 1 {
        lemma_path_cost_prefix(text, a, b, class, k - 1);
    }
}

proof fn lemma_trace_last(text: Seq<char>, class: int, i: int, m: SegmentMode)
    requires
        0 <= i,
    ensures
        trace(text, class, i, m).len() == i + 1,
        trace(text, class, i, m).last() == m,
{
    crate::optimizer::lemma_trace_len(text, class, i, m);
}

proof fn lemma_cheapest(b: Option<int>, a: Option<int>, n: Option<int>)
    ensures
        (b is Some || a is Some || n is Some) ==> cheapest(b, a, n) is Some,
        cheapest(b, a, n) matches Some(r) ==> ((r.1 == SegmentMode::Byte && b == Some(r.0)) || (r.1
            == SegmentMode::Alphanumeric && a == Some(r.0)) || (r.1 == SegmentMode::Numeric && n
            == Some(r.0))),
        cheapest(b, a, n) matches Some(r) ==> (b matches Some(x) ==> r.0 <= x),
        cheapest(b, a, n) matches Some(r) ==> (a matches Some(x) ==> r.0 <= x),
        cheapest(b, a, n) matches Some(r) ==> (n matches Some(x) ==> r.0 <= x),
{
}

proof fn lemma_trace_cost(text: Seq<char>, class: int, i: int, m: SegmentMode)
    requires
        0 <= i < text.len(),
        cell(text, class, i, m) is Some,
    ensures
        cost_only(cell(text, class, i, m)) == Some(path_cost(text, trace(text, class, i, m), class, i + 1)),
    decreases i,
{
    if i > 0 {
        let p = pred(text, class, i, m);
        lemma_pred_reachable(text, class, i, m);
        lemma_trace_cost(text, class, i - 1, p);
        let t = trace(text, class, i, m);
        let t0 = trace(text, class, i - 1, p);
        lemma_trace_last(text, class, i - 1, p);
        assert(t == t0.push(m));
        lemma_path_cost_prefix(text, t, t0, class, i);
        lemma_cheapest(
            entry_cost(cost_only(cell(text, class, i - 1, SegmentMode::Byte)), SegmentMode::Byte, m, class),
            entry_cost(cost_only(cell(text, class, i - 1, SegmentMode::Alphanumeric)), SegmentMode::Alphanumeric, m, class),
            entry_cost(cost_only(cell(text, class, i - 1, SegmentMode::Numeric)), SegmentMode::Numeric, m, class),
        );
        assert(t[i] == m);
        assert(t[i - 1] == p);
    }
}

// ---- Runs cost whole bits ----

proof fn lemma_runs_cost(text: Seq<char>, modes: Seq<SegmentMode>, class: int, k: int)
    requires
        1 <= k <= text.len(),
        modes.len() == text.len(),
    ensures
        runs(text, modes, k).len() >= 1,
        runs(text, modes, k).last().0 == modes[k - 1],
        path_cost(text, modes, class, k) == 6 * total_bits(runs(text, modes, k).drop_last(), class)
            + runs(text, modes, k).last().0.head_cost(class) + cost_sum(
            runs(text, modes, k).last().0,
            runs(text, modes, k).last().1,
        ),
    decreases k,
{
    let r = runs(text, modes, k);
    let c = text[k - 1];
    let m = modes[k - 1];
    assert(seq![c].drop_last() =~= seq![]);
    assert(cost_sum(m, seq![]) == 0);
    assert(cost_sum(m, seq![c]) == m.char_cost(c));
    if k == 1 {
        assert(runs(text, modes, 0) =~= seq![]);
        assert(r == seq![(m, seq![c])]);
        assert(r.drop_last() =~= seq![]);
        assert(total_bits(r.drop_last(), class) == 0);
        assert(path_cost(text, modes, class, 1) == m.head_cost(class) + m.char_cost(c));
    } else {
        lemma_runs_cost(text, modes, class, k - 1);
        let prev = runs(text, modes, k - 1);
        let last = prev.last();
        let pc = path_cost(text, modes, class, k - 1);
        if m == modes[k - 2] {
            assert(r == prev.update(prev.len() - 1, (m, last.1.push(c))));
            assert(r.drop_last() =~= prev.drop_last());
            assert(last.1.push(c).drop_last() =~= last.1);
            assert(cost_sum(m, last.1.push(c)) == cost_sum(m, last.1) + m.char_cost(c));
            assert(path_cost(text, modes, class, k) == pc + m.char_cost(c));
        } else {
            assert(r == prev.push((m, seq![c])));
            assert(r.drop_last() =~= prev);
            lemma_payload_whole_bits(last.0, last.1);
            let x = total_bits(prev.drop_last(), class) + 4 + last.0.spec_char_count_bits(class);
            lemma_ceil6_shift(x, cost_sum(last.0, last.1));
            assert(pc == 6 * x + cost_sum(last.0, last.1));
            assert(total_bits(prev, class) == total_bits(prev.drop_last(), class) + segment_bits(last, class));
            assert(ceil6(pc) == 6 * total_bits(prev, class));
            assert(path_cost(text, modes, class, k) == ceil6(pc) + m.head_cost(class) + m.char_cost(c));
        }
    }
}

proof fn lemma_runs_bits(text: Seq<char>, modes: Seq<SegmentMode>, class: int)
    requires
        1 <= text.len(),
        modes.len() == text.len(),
    ensures
        ceil6(path_cost(text, modes, class, text.len() as int)) == 6 * total_bits(
            runs(text, modes, text.len() as int),
            class,
        ),
{
    let k = text.len() as int;
    lemma_runs_cost(text, modes, class, k);
    let r = runs(text, modes, k);
    let last = r.last();
    lemma_payload_whole_bits(last.0, last.1);
    let x = total_bits(r.drop_last(), class) + 4 + last.0.spec_char_count_bits(class);
    lemma_ceil6_shift(x, cost_sum(last.0, last.1));
}

// ---- The table never does worse than bytes ----

proof fn lemma_byte_cell_bound(text: Seq<char>, class: int, i: int)
    requires
        0 <= i < text.len(),
    ensures
        cell(text, class, i, SegmentMode::Byte) is Some,
        cost_only(cell(text, class, i, SegmentMode::Byte))->0 <= SegmentMode::Byte.head_cost(class) + 48
            * utf8_count(text.subrange(0, i + 1)),
    decreases i,
{
    assert(text.subrange(0, i + 1).drop_last() =~= text.subrange(0, i));
    assert(utf8_count(text.subrange(0, i + 1)) == utf8_count(text.subrange(0, i)) + utf8_len(text[i]));
    if i == 0 {
        assert(text.subrange(0, 0) =~= seq![]);
        assert(utf8_count(seq![]) == 0);
    } else {
        lemma_byte_cell_bound(text, class, i - 1);
        lemma_cheapest(
            entry_cost(cost_only(cell(text, class, i - 1, SegmentMode::Byte)), SegmentMode::Byte, SegmentMode::Byte, class),
            entry_cost(cost_only(cell(text, class, i - 1, SegmentMode::Alphanumeric)), SegmentMode::Alphanumeric, SegmentMode::Byte, class),
            entry_cost(cost_only(cell(text, class, i - 1, SegmentMode::Numeric)), SegmentMode::Numeric, SegmentMode::Byte, class),
        );
    }
}

proof fn lemma_optimal_bits_le_bytes(text: Seq<char>, class: int)
    requires
        0 <= class <= 2,
    ensures
        total_bits(class_segments(text, class), class) <= total_bits(seq![(SegmentMode::Byte, text)], class),
{
    let single = seq![(SegmentMode::Byte, text)];
    assert(single.drop_last() =~= seq![]);
    if text.len() == 0 {
        assert(optimal_modes(text, class) =~= seq![]);
        assert(class_segments(text, class) == runs(text, optimal_modes(text, class), 0));
        assert(payload_bits((SegmentMode::Byte, text)) == 0);
    } else {
        let n = text.len() - 1;
        let m = last_mode(text, class);
        let modes = optimal_modes(text, class);
        lemma_byte_cell_bound(text, class, n);
        assert(text.subrange(0, n + 1) =~= text);
        lemma_cheapest(
            cost_only(cell(text, class, n, SegmentMode::Byte)),
            cost_only(cell(text, class, n, SegmentMode::Alphanumeric)),
            cost_only(cell(text, class, n, SegmentMode::Numeric)),
        );
        assert(cell(text, class, n, m) is Some);
        lemma_trace_cost(text, class, n, m);
        lemma_trace_last(text, class, n, m);
        lemma_runs_bits(text, modes, class);
        let best = path_cost(text, modes, class, n + 1);
        let bytes = SegmentMode::Byte.head_cost(class) + 48 * utf8_count(text);
        assert(modes == trace(text, class, n, m));
        assert(cost_only(cell(text, class, n, m)) == Some(best));
        assert(best <= bytes);
        lemma_ceil6_monotone(best, bytes);
        let byte_bits = 4 + SegmentMode::Byte.spec_char_count_bits(class) + 8 * utf8_count(text);
        lemma_ceil6_exact(byte_bits);
        assert(bytes == 6 * byte_bits);
        assert(total_bits(seq![], class) == 0);
        assert(total_bits(single, class) == byte_bits);
        assert(6 * total_bits(class_segments(text, class), class) == ceil6(best));
    }
}

// ---- Character counts stay within their fields ----

proof fn lemma_utf8_count_props(s: Seq<char>, k: int)
    requires
        0 <= k <= s.len(),
    ensures
        s.len() <= utf8_count(s),
        utf8_count(s.subrange(0, k)) <= utf8_count(s),
    decreases s.len(),
{
    if s.len() > 0 {
        if k == s.len() {
            assert(s.subrange(0, k) =~= s);
            lemma_utf8_count_props(s.drop_last(), 0);
        } else {
            assert(s.drop_last().subrange(0, k) =~= s.subrange(0, k));
            lemma_utf8_count_props(s.drop_last(), k);
        }
    }
}

proof fn lemma_runs_counts(text: Seq<char>, modes: Seq<SegmentMode>, k: int)
    requires
        0 <= k <= text.len(),
        modes.len() == text.len(),
    ensures
        forall|j: int|
            0 <= j < runs(text, modes, k).len() ==> (#[trigger] runs(text, modes, k)[j]).1.len() <= k
                && utf8_count(runs(text, modes, k)[j].1) <= utf8_count(text.subrange(0, k)),
    decreases k,
{
    if k > 0 {
        lemma_runs_counts(text, modes, k - 1);
        let prev = runs(text, modes, k - 1);
        let r = runs(text, modes, k);
        let c = text[k - 1];
        assert(text.subrange(0, k).drop_last() =~= text.subrange(0, k - 1));
        let grows = prev.len() > 0 && prev.last().0 == modes[k - 1];
        assert(utf8_count(text.subrange(0, k)) == utf8_count(text.subrange(0, k - 1)) + utf8_len(c));
        assert(seq![c].drop_last() =~= seq![]);
        assert(utf8_count(seq![]) == 0);
        assert(utf8_count(seq![c]) == utf8_len(c));
        lemma_utf8_count_props(text.subrange(0, k - 1), 0);
        assert forall|j: int| 0 <= j < r.len() implies (#[trigger] r[j]).1.len() <= k && utf8_count(r[j].1)
            <= utf8_count(text.subrange(0, k)) by {
            if grows {
                assert(r == prev.update(prev.len() - 1, (modes[k - 1], prev.last().1.push(c))));
                assert(prev[j].1.len() <= k - 1 && utf8_count(prev[j].1) <= utf8_count(text.subrange(0, k - 1)));
                if j < prev.len() - 1 {
                    assert(r[j] == prev[j]);
                } else {
                    assert(r[j].1 == prev[j].1.push(c));
                    assert(r[j].1.drop_last() =~= prev[j].1);
                    assert(utf8_count(r[j].1) == utf8_count(prev[j].1) + utf8_len(c));
                }
            } else {
                assert(r == prev.push((modes[k - 1], seq![c])));
                if j < prev.len() {
                    assert(prev[j].1.len() <= k - 1 && utf8_count(prev[j].1) <= utf8_count(text.subrange(0, k - 1)));
                    assert(r[j] == prev[j]);
                } else {
                    assert(r[j].1 == seq![c]);
                }
            }
        }
    }
}

proof fn lemma_capacity_bound(v: int, ecc: EccLevel)
    requires
        1 <= v <= 40,
    ensures
        v <= 9 ==> spec_data_codewords(v, ecc) <= 314,
        v <= 26 ==> spec_data_codewords(v, ecc) <= 1776,
        spec_data_codewords(v, ecc) <= 3848,
{
    let all = (16 * v + 128) * v + 64;
    if v >= 2 {
        let align = v / 7 + 2;
        assert((25 * align - 10) * align - 55 >= 0) by (nonlinear_arith)
            requires
                align >= 2,
        ;
    }
    assert(spec_raw_data_modules(v) <= all);
    let prod = ECC_CODEWORDS_PER_BLOCK[ecc.spec_ordinal() as int][v] * NUM_ERROR_CORRECTION_BLOCKS[ecc.spec_ordinal() as int][v];
    assert(prod >= 0) by (nonlinear_arith)
        requires
            prod == ECC_CODEWORDS_PER_BLOCK[ecc.spec_ordinal() as int][v] * NUM_ERROR_CORRECTION_BLOCKS[ecc.spec_ordinal() as int][v],
            ECC_CODEWORDS_PER_BLOCK[ecc.spec_ordinal() as int][v] >= 0,
            NUM_ERROR_CORRECTION_BLOCKS[ecc.spec_ordinal() as int][v] >= 0,
    ;
    assert(v <= 9 ==> all <= 2512) by (nonlinear_arith)
        requires
            all == (16 * v + 128) * v + 64,
            1 <= v,
    ;
    assert(v <= 26 ==> all <= 14208) by (nonlinear_arith)
        requires
            all == (16 * v + 128) * v + 64,
            1 <= v,
    ;
    assert(all <= 30784) by (nonlinear_arith)
        requires
            all == (16 * v + 128) * v + 64,
            1 <= v <= 40,
    ;
}

proof fn lemma_optimal_counts_fit(text: Seq<char>, ecc: EccLevel, v: int)
    requires
        1 <= v <= 40,
        bytes_fit_version(text, ecc, v),
    ensures
        counts_fit(class_segments(text, version_class(v)), version_class(v)),
{
    let class = version_class(v);
    let single = seq![(SegmentMode::Byte, text)];
    assert(single.drop_last() =~= seq![]);
    assert(single[0] == (SegmentMode::Byte, text));
    let u = utf8_count(text);
    lemma_capacity_bound(v, ecc);
    lemma_utf8_count_props(text, text.len() as int);
    assert(text.subrange(0, text.len() as int) =~= text);
    let modes = optimal_modes(text, class);
    crate::optimizer::lemma_optimal_modes_len(text, class);
    lemma_runs_counts(text, modes, text.len() as int);
    let segs = class_segments(text, class);
    assert(total_bits(seq![], class) == 0);
    assert(total_bits(single, class) == segment_bits(single[0], class));
    assert(char_count(single[0]) == u);
    assert(u < SegmentMode::Byte.count_limit(class));
    assert(4 + SegmentMode::Byte.spec_char_count_bits(class) + 8 * u <= 8 * spec_data_codewords(v, ecc));
    assert(class == 0 ==> v <= 9);
    assert(class == 1 ==> v <= 26);
    assert(0 <= class <= 2);
    assert forall|j: int| 0 <= j < segs.len() implies char_count(#[trigger] segs[j]) < segs[j].0.count_limit(class) by {
        assert(segs[j].1.len() <= text.len());
        assert(utf8_count(segs[j].1) <= u);
        assert(segs[j].1.len() <= u);
    }
}

proof fn lemma_first_fit_at_most(text: Seq<char>, ecc: EccLevel, u: int, v: int)
    requires
        1 <= u <= v <= 40,
        fits_version(text, ecc, v),
    ensures
        u <= first_fit_from(text, ecc, u) <= v,
    decreases v - u,
{
    if u < v && !fits_version(text, ecc, u) {
        lemma_first_fit_at_most(text, ecc, u + 1, v);
    }
}

/// Optimized segments never need a larger symbol than the whole text as one
/// byte segment: when that byte segment fits version `v` at level `ecc`, the
/// optimizer picks a version no larger than `v`, so its symbol has no more modules.
pub proof fn lemma_optimized_version_le_bytes(text: Seq<char>, ecc: EccLevel, v: int)
    requires
        1 <= v <= 40,
        bytes_fit_version(text, ecc, v),
    ensures
        1 <= chosen_version(text, ecc) <= v,
{
    let class = version_class(v);
    lemma_optimal_bits_le_bytes(text, class);
    lemma_optimal_counts_fit(text, ecc, v);
    assert(fits_version(text, ecc, v));
    lemma_first_fit_at_most(text, ecc, 1, v);
}

// ---- No assignment of modes costs less ----

/// `modes` gives each character of `text` a mode that can encode it.
pub open spec fn valid_assignment(text: Seq<char>, modes: Seq<SegmentMode>) -> bool {
    modes.len() == text.len() && forall|i: int| 0 <= i < text.len() ==> #[trigger] modes[i].accepts(text[i])
}

proof fn lemma_cell_le_path(text: Seq<char>, class: int, a: Seq<SegmentMode>, i: int)
    requires
        valid_assignment(text, a),
        0 <= i < text.len(),
    ensures
        cell(text, class, i, a[i]) is Some,
        cost_only(cell(text, class, i, a[i]))->0 <= path_cost(text, a, class, i + 1),
    decreases i,
{
    assert(a[i].accepts(text[i]));
    if i > 0 {
        lemma_cell_le_path(text, class, a, i - 1);
        let p = a[i - 1];
        let m = a[i];
        let prev = cost_only(cell(text, class, i - 1, p))->0;
        let pc = path_cost(text, a, class, i);
        lemma_ceil6_monotone(prev, pc);
        lemma_cheapest(
            entry_cost(cost_only(cell(text, class, i - 1, SegmentMode::Byte)), SegmentMode::Byte, m, class),
            entry_cost(cost_only(cell(text, class, i - 1, SegmentMode::Alphanumeric)), SegmentMode::Alphanumeric, m, class),
            entry_cost(cost_only(cell(text, class, i - 1, SegmentMode::Numeric)), SegmentMode::Numeric, m, class),
        );
    }
}

/// The optimizer's modes cost least: no assignment of modes that can encode
/// each character of the text costs less, in any version class.
pub proof fn lemma_optimal_modes_cost_least(text: Seq<char>, class: int, a: Seq<SegmentMode>)
    requires
        1 <= text.len(),
        valid_assignment(text, a),
    ensures
        path_cost(text, optimal_modes(text, class), class, text.len() as int) <= path_cost(
            text,
            a,
            class,
            text.len() as int,
        ),
{
    let n = text.len() - 1;
    let m = last_mode(text, class);
    lemma_cell_le_path(text, class, a, n);
    lemma_byte_cell_bound(text, class, n);
    lemma_cheapest(
        cost_only(cell(text, class, n, SegmentMode::Byte)),
        cost_only(cell(text, class, n, SegmentMode::Alphanumeric)),
        cost_only(cell(text, class, n, SegmentMode::Numeric)),
    );
    assert(cell(text, class, n, m) is Some);
    lemma_trace_cost(text, class, n, m);
}

/// A lower error correction level never needs a larger version: when the text
/// fits at level `higher`, it fits at any lower level, in a version no larger.
pub proof fn lemma_lower_level_no_larger(text: Seq<char>, lower: EccLevel, higher: EccLevel)
    requires
        lower.spec_ordinal() <= higher.spec_ordinal(),
        optimized_segments(text, higher) is Some,
    ensures
        optimized_segments(text, lower) is Some,
        1 <= chosen_version(text, lower) <= chosen_version(text, higher),
{
    crate::encoder::lemma_chosen_fits(text, higher, 1);
    let v = chosen_version(text, higher);
    crate::capacity::lemma_capacity_falls_with_level(v, lower, higher);
    assert(fits_version(text, lower, v));
    lemma_first_fit_at_most(text, lower, 1, v);
}

} // verus!

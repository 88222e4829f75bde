use vstd::prelude::*;

use crate::capacity::{data_codewords, spec_data_codewords};
use crate::ecc::EccLevel;
use crate::error::QRCodeError;
use crate::mode::{
    char_utf8_len, is_alphanumeric as is_alphanumeric_char, is_numeric as is_numeric_char, utf8_len,
    version_class, SegmentMode,
};

verus! {

/// A run of characters encoded in one mode.
#[derive(Clone, Debug, PartialEq, Eq)]
pub struct Segment {
    pub mode: SegmentMode,
    pub chars: Vec<char>,
}

impl View for Segment {
    type V = (SegmentMode, Seq<char>);

    open spec fn view(&self) -> (SegmentMode, Seq<char>) {
        (self.mode, self.chars@)
    }
}

/// The mathematical value of a list of segments: each mode with its characters.
pub open spec fn segments_view(segs: Seq<Segment>) -> Seq<(SegmentMode, Seq<char>)> {
    segs.map_values(|s: Segment| s@)
}

// ---- The cost table, in sixths of a bit ----

/// Rounds a cost up to a whole number of bits.
pub open spec fn ceil6(x: int) -> int {
    (x + 5) / 6 * 6
}

/// The cost of entering mode `m` from a character in mode `p` whose best cost is
/// `prev`: continuing the run costs nothing, switching pays the partial bit and a
/// new header.
pub open spec fn entry_cost(prev: Option<int>, p: SegmentMode, m: SegmentMode, class: int) -> Option<int> {
    match prev {
        None => None,
        Some(c) => Some(
            if p == m {
                c
            } else {
                ceil6(c) + m.head_cost(class)
            },
        ),
    }
}

/// Keeps `best` unless the candidate `cand`, reached from mode `p`, is strictly cheaper.
pub open spec fn keep_cheaper(best: Option<(int, SegmentMode)>, cand: Option<int>, p: SegmentMode) -> Option<(int, SegmentMode)> {
    match cand {
        None => best,
        Some(x) => match best {
            None => Some((x, p)),
            Some(b) => if x < b.0 {
                Some((x, p))
            } else {
                best
            },
        },
    }
}

/// The cheapest of three costs, in the order byte, alphanumeric, numeric, with the
/// mode that gives it; ties go to the earlier mode.
pub open spec fn cheapest(b: Option<int>, a: Option<int>, n: Option<int>) -> Option<(int, SegmentMode)> {
    keep_cheaper(
        keep_cheaper(keep_cheaper(None, b, SegmentMode::Byte), a, SegmentMode::Alphanumeric),
        n,
        SegmentMode::Numeric,
    )
}

pub open spec fn cost_only(cell: Option<(int, SegmentMode)>) -> Option<int> {
    match cell {
        None => None,
        Some(x) => Some(x.0),
    }
}

/// One step of the table: the best cost of putting character `c` in mode `m`,
/// with the mode of the previous character that gives it, from the best costs
/// of the previous character in each mode.
pub open spec fn step(pb: Option<int>, pa: Option<int>, pn: Option<int>, m: SegmentMode, c: char, class: int) -> Option<(int, SegmentMode)> {
    if !m.accepts(c) {
        None
    } else {
        match cheapest(
            entry_cost(pb, SegmentMode::Byte, m, class),
            entry_cost(pa, SegmentMode::Alphanumeric, m, class),
            entry_cost(pn, SegmentMode::Numeric, m, class),
        ) {
            None => None,
            Some(b) => Some((b.0 + m.char_cost(c), b.1)),
        }
    }
}

/// The least cost of encoding `text[0..=i]` with character `i` in mode `m`, and
/// the mode of character `i - 1` on a cheapest way; `None` where `m` cannot hold
/// character `i`.
pub open spec fn cell(text: Seq<char>, class: int, i: int, m: SegmentMode) -> Option<(int, SegmentMode)>
    decreases i,
{
    if i < 0 || i >= text.len() || !m.accepts(text[i]) {
        None
    } else if i == 0 {
        Some((m.head_cost(class) + m.char_cost(text[0]), m))
    } else {
        step(
            cost_only(cell(text, class, i - 1, SegmentMode::Byte)),
            cost_only(cell(text, class, i - 1, SegmentMode::Alphanumeric)),
            cost_only(cell(text, class, i - 1, SegmentMode::Numeric)),
            m,
            text[i],
            class,
        )
    }
}

/// The mode of character `i - 1` on a cheapest way that puts character `i` in mode `m`.
pub open spec fn pred(text: Seq<char>, class: int, i: int, m: SegmentMode) -> SegmentMode {
    mode_of(cell(text, class, i, m))
}

/// The mode recorded in a table entry (byte for an empty one).
pub open spec fn mode_of(o: Option<(int, SegmentMode)>) -> SegmentMode {
    match o {
        Some(x) => x.1,
        None => SegmentMode::Byte,
    }
}

/// The mode of the last character on a cheapest way to encode the whole text.
pub open spec fn last_mode(text: Seq<char>, class: int) -> SegmentMode {
    let i = text.len() - 1;
    mode_of(
        cheapest(
            cost_only(cell(text, class, i, SegmentMode::Byte)),
            cost_only(cell(text, class, i, SegmentMode::Alphanumeric)),
            cost_only(cell(text, class, i, SegmentMode::Numeric)),
        ),
    )
}

/// The modes of `text[0..=i]` on the cheapest way that ends in mode `m`, found
/// by following the predecessor modes back.
pub open spec fn trace(text: Seq<char>, class: int, i: int, m: SegmentMode) -> Seq<SegmentMode>
    decreases i,
{
    if i <= 0 {
        seq![m]
    } else {
        trace(text, class, i - 1, pred(text, class, i, m)).push(m)
    }
}

/// The mode chosen for each character of `text` in version class `class`.
pub open spec fn optimal_modes(text: Seq<char>, class: int) -> Seq<SegmentMode> {
    if text.len() == 0 {
        seq![]
    } else {
        trace(text, class, text.len() - 1, last_mode(text, class))
    }
}

/// The maximal runs of equal modes among the first `k` characters, each with its characters.
pub open spec fn runs(text: Seq<char>, modes: Seq<SegmentMode>, k: int) -> Seq<(SegmentMode, Seq<char>)>
    decreases k,
{
    if k <= 0 {
        seq![]
    } else {
        let prev = runs(text, modes, k - 1);
        if prev.len() > 0 && prev.last().0 == modes[k - 1] {
            prev.update(prev.len() - 1, (modes[k - 1], prev.last().1.push(text[k - 1])))
        } else {
            prev.push((modes[k - 1], seq![text[k - 1]]))
        }
    }
}

/// The segments of `text` for version class `class`.
pub open spec fn class_segments(text: Seq<char>, class: int) -> Seq<(SegmentMode, Seq<char>)> {
    runs(text, optimal_modes(text, class), text.len() as int)
}

// ---- Encoded length and version search ----

/// The number of UTF-8 bytes of `chars`.
pub open spec fn utf8_count(chars: Seq<char>) -> int
    decreases chars.len(),
{
    if chars.len() == 0 {
        0
    } else {
        utf8_count(chars.drop_last()) + utf8_len(chars.last())
    }
}

/// The value of the character count field of a segment: bytes in byte mode,
/// characters otherwise.
pub open spec fn char_count(seg: (SegmentMode, Seq<char>)) -> int {
    match seg.0 {
        SegmentMode::Byte => utf8_count(seg.1),
        _ => seg.1.len() as int,
    }
}

/// The number of data bits of a segment.
pub open spec fn payload_bits(seg: (SegmentMode, Seq<char>)) -> int {
    let n = seg.1.len() as int;
    match seg.0 {
        SegmentMode::Numeric => 10 * (n / 3) + if n % 3 == 0 {
            0int
        } else if n % 3 == 1 {
            4int
        } else {
            7int
        },
        SegmentMode::Alphanumeric => 11 * (n / 2) + 6 * (n % 2),
        SegmentMode::Byte => 8 * utf8_count(seg.1),
    }
}

/// The number of bits of a segment, header included, in version class `class`.
pub open spec fn segment_bits(seg: (SegmentMode, Seq<char>), class: int) -> int {
    4 + seg.0.spec_char_count_bits(class) + payload_bits(seg)
}

/// The number of bits of a list of segments in version class `class`.
pub open spec fn total_bits(segs: Seq<(SegmentMode, Seq<char>)>, class: int) -> int
    decreases segs.len(),
{
    if segs.len() == 0 {
        0
    } else {
        total_bits(segs.drop_last(), class) + segment_bits(segs.last(), class)
    }
}

/// Every character count fits its field in version class `class`.
pub open spec fn counts_fit(segs: Seq<(SegmentMode, Seq<char>)>, class: int) -> bool {
    forall|i: int| 0 <= i < segs.len() ==> char_count(#[trigger] segs[i]) < segs[i].0.count_limit(class)
}

/// The segments of `text` for the class of version `v` fit a symbol of version `v` at level `ecc`.
pub open spec fn fits_version(text: Seq<char>, ecc: EccLevel, v: int) -> bool {
    let class = version_class(v);
    let segs = class_segments(text, class);
    counts_fit(segs, class) && total_bits(segs, class) <= 8 * spec_data_codewords(v, ecc)
}

/// The first version from `v` on (up to 40) that `text` fits, or 0 if there is none.
pub open spec fn first_fit_from(text: Seq<char>, ecc: EccLevel, v: int) -> int
    decreases 41 - v,
{
    if v < 1 || v > 40 {
        0
    } else if fits_version(text, ecc, v) {
        v
    } else {
        first_fit_from(text, ecc, v + 1)
    }
}

/// The version that the optimizer picks for `text` at level `ecc`, or 0 if none fits.
pub open spec fn chosen_version(text: Seq<char>, ecc: EccLevel) -> int {
    first_fit_from(text, ecc, 1)
}

/// The segments that the optimizer produces, or `None` when the text fits no version.
pub open spec fn optimized_segments(text: Seq<char>, ecc: EccLevel) -> Option<Seq<(SegmentMode, Seq<char>)>> {
    let v = chosen_version(text, ecc);
    if v == 0 {
        None
    } else {
        Some(class_segments(text, version_class(v)))
    }
}

// ---- Facts about the table ----

/// A character can always be put in byte mode.
pub proof fn lemma_byte_reachable(text: Seq<char>, class: int, i: int)
    requires
        0 <= i < text.len(),
    ensures
        cell(text, class, i, SegmentMode::Byte) is Some,
    decreases i,
{
    if i > 0 {
        lemma_byte_reachable(text, class, i - 1);
    }
}

/// The predecessor mode on a cheapest way can itself hold the previous character.
pub proof fn lemma_pred_reachable(text: Seq<char>, class: int, i: int, m: SegmentMode)
    requires
        1 <= i < text.len(),
        cell(text, class, i, m) is Some,
    ensures
        cell(text, class, i - 1, pred(text, class, i, m)) is Some,
{
}

pub proof fn lemma_trace_len(text: Seq<char>, class: int, i: int, m: SegmentMode)
    requires
        0 <= i,
    ensures
        trace(text, class, i, m).len() == i + 1,
    decreases i,
{
    if i > 0 {
        lemma_trace_len(text, class, i - 1, pred(text, class, i, m));
    }
}

pub proof fn lemma_optimal_modes_len(text: Seq<char>, class: int)
    ensures
        optimal_modes(text, class).len() == text.len(),
{
    if text.len() > 0 {
        lemma_trace_len(text, class, text.len() - 1, last_mode(text, class));
    }
}

// ---- Executable table ----

pub open spec fn opt_int(o: Option<u128>) -> Option<int> {
    match o {
        None => None,
        Some(x) => Some(x as int),
    }
}

pub open spec fn cell_int(o: Option<(u128, SegmentMode)>) -> Option<(int, SegmentMode)> {
    match o {
        None => None,
        Some(x) => Some((x.0 as int, x.1)),
    }
}

pub open spec fn below(o: Option<u128>, bound: int) -> bool {
    match o {
        None => true,
        Some(x) => x <= bound,
    }
}

fn entry(prev: Option<u128>, p: SegmentMode, m: SegmentMode, class: u8, Ghost(bound): Ghost<int>) -> (r: Option<u128>)
    requires
        class <= 2,
        bound <= 0x1_0000_0000_0000_0000_0000,
        below(prev, bound),
    ensures
        opt_int(r) == entry_cost(opt_int(prev), p, m, class as int),
        below(r, bound + 125),
{
    match prev {
        None => None,
        Some(c) => if p == m {
            Some(c)
        } else {
            Some((c + 5) / 6 * 6 + m.header_cost(class))
        },
    }
}

pub open spec fn cost_of(o: Option<(u128, SegmentMode)>) -> Option<u128> {
    match o {
        None => None,
        Some(x) => Some(x.0),
    }
}

fn keep(best: Option<(u128, SegmentMode)>, cand: Option<u128>, p: SegmentMode, Ghost(bound): Ghost<int>) -> (r: Option<(u128, SegmentMode)>)
    requires
        below(cost_of(best), bound),
        below(cand, bound),
    ensures
        cell_int(r) == keep_cheaper(cell_int(best), opt_int(cand), p),
        below(cost_of(r), bound),
{
    match cand {
        None => best,
        Some(x) => match best {
            None => Some((x, p)),
            Some(b) => if x < b.0 {
                Some((x, p))
            } else {
                best
            },
        },
    }
}

fn cheapest_of(b: Option<u128>, a: Option<u128>, n: Option<u128>, Ghost(bound): Ghost<int>) -> (r: Option<(u128, SegmentMode)>)
    requires
        below(b, bound),
        below(a, bound),
        below(n, bound),
    ensures
        cell_int(r) == cheapest(opt_int(b), opt_int(a), opt_int(n)),
        below(cost_of(r), bound),
{
    let g = Ghost(bound);
    keep(keep(keep(None, b, SegmentMode::Byte, g), a, SegmentMode::Alphanumeric, g), n, SegmentMode::Numeric, g)
}

fn step_exec(pb: Option<u128>, pa: Option<u128>, pn: Option<u128>, m: SegmentMode, c: char, class: u8, Ghost(bound): Ghost<int>) -> (r: Option<(u128, SegmentMode)>)
    requires
        class <= 2,
        bound <= 0x1_0000_0000_0000_0000_0000,
        below(pb, bound),
        below(pa, bound),
        below(pn, bound),
    ensures
        cell_int(r) == step(opt_int(pb), opt_int(pa), opt_int(pn), m, c, class as int),
        below(cost_of(r), bound + 317),
{
    if !m.can_encode(c) {
        return None;
    }
    let eb = entry(pb, SegmentMode::Byte, m, class, Ghost(bound));
    let ea = entry(pa, SegmentMode::Alphanumeric, m, class, Ghost(bound));
    let en = entry(pn, SegmentMode::Numeric, m, class, Ghost(bound));
    match cheapest_of(eb, ea, en, Ghost(bound + 125)) {
        None => None,
        Some(best) => Some((best.0 + m.cost_of_char(c), best.1)),
    }
}

fn cost_part(o: Option<(u128, SegmentMode)>) -> (r: Option<u128>)
    ensures
        opt_int(r) == cost_only(cell_int(o)),
        r == cost_of(o),
{
    match o {
        None => None,
        Some(x) => Some(x.0),
    }
}

fn pred_part(o: Option<(u128, SegmentMode)>) -> (r: SegmentMode)
    ensures
        r == mode_of(cell_int(o)),
{
    match o {
        None => SegmentMode::Byte,
        Some(x) => x.1,
    }
}

/// Returns the mode of each character on a cheapest encoding of `text` in
/// version class `class`.
pub fn optimal_char_modes(text: &[char], class: u8) -> (r: Vec<SegmentMode>)
    requires
        class <= 2,
    ensures
        r@ == optimal_modes(text@, class as int),
{
    let n = text.len();
    if n == 0 {
        return Vec::new();
    }
    let ghost t = text@;
    let ghost cl = class as int;
    let c0 = text[0];
    let mut back_b: Vec<SegmentMode> = Vec::new();
    let mut back_a: Vec<SegmentMode> = Vec::new();
    let mut back_n: Vec<SegmentMode> = Vec::new();
    back_b.push(SegmentMode::Byte);
    back_a.push(SegmentMode::Alphanumeric);
    back_n.push(SegmentMode::Numeric);
    let mut pb: Option<u128> = Some(SegmentMode::Byte.header_cost(class) + SegmentMode::Byte.cost_of_char(c0));
    let mut pa: Option<u128> = if is_alphanumeric_char(c0) {
        Some(SegmentMode::Alphanumeric.header_cost(class) + SegmentMode::Alphanumeric.cost_of_char(c0))
    } else {
        None
    };
    let mut pn: Option<u128> = if is_numeric_char(c0) {
        Some(SegmentMode::Numeric.header_cost(class) + SegmentMode::Numeric.cost_of_char(c0))
    } else {
        None
    };
    let mut i: usize = 1;
    while i < n
        invariant
            1 <= i <= n,
            n == t.len(),
            t == text@,
            cl == class as int,
            class <= 2,
            opt_int(pb) == cost_only(cell(t, cl, i - 1, SegmentMode::Byte)),
            opt_int(pa) == cost_only(cell(t, cl, i - 1, SegmentMode::Alphanumeric)),
            opt_int(pn) == cost_only(cell(t, cl, i - 1, SegmentMode::Numeric)),
            below(pb, 320 * i),
            below(pa, 320 * i),
            below(pn, 320 * i),
            back_b.len() == i,
            back_a.len() == i,
            back_n.len() == i,
            forall|j: int| 0 < j < i && cell(t, cl, j, SegmentMode::Byte) is Some
                ==> back_b@[j] == pred(t, cl, j, SegmentMode::Byte),
            forall|j: int| 0 < j < i && cell(t, cl, j, SegmentMode::Alphanumeric) is Some
                ==> back_a@[j] == pred(t, cl, j, SegmentMode::Alphanumeric),
            forall|j: int| 0 < j < i && cell(t, cl, j, SegmentMode::Numeric) is Some
                ==> back_n@[j] == pred(t, cl, j, SegmentMode::Numeric),
        decreases n - i,
    {
        let c = text[i];
        let nb = step_exec(pb, pa, pn, SegmentMode::Byte, c, class, Ghost(320 * i as int));
        let na = step_exec(pb, pa, pn, SegmentMode::Alphanumeric, c, class, Ghost(320 * i as int));
        let nn = step_exec(pb, pa, pn, SegmentMode::Numeric, c, class, Ghost(320 * i as int));
        assert(cell_int(nb) == cell(t, cl, i as int, SegmentMode::Byte));
        assert(cell_int(na) == cell(t, cl, i as int, SegmentMode::Alphanumeric));
        assert(cell_int(nn) == cell(t, cl, i as int, SegmentMode::Numeric));
        back_b.push(pred_part(nb));
        back_a.push(pred_part(na));
        back_n.push(pred_part(nn));
        pb = cost_part(nb);
        pa = cost_part(na);
        pn = cost_part(nn);
        i = i + 1;
    }
    let last = pred_part(cheapest_of(pb, pa, pn, Ghost(320 * n as int)));
    proof {
        lemma_byte_reachable(t, cl, n - 1);
    }
    let mut modes: Vec<SegmentMode> = Vec::new();
    let mut k: usize = 0;
    while k < n
        invariant
            k <= n,
            modes.len() == k,
        decreases n - k,
    {
        modes.push(SegmentMode::Byte);
        k = k + 1;
    }
    let mut cur = last;
    let mut k: usize = n;
    while k > 0
        invariant
            k <= n,
            n == t.len(),
            t == text@,
            cl == class as int,
            modes.len() == n,
            back_b.len() == n,
            back_a.len() == n,
            back_n.len() == n,
            forall|j: int| 0 < j < n && cell(t, cl, j, SegmentMode::Byte) is Some
                ==> back_b@[j] == pred(t, cl, j, SegmentMode::Byte),
            forall|j: int| 0 < j < n && cell(t, cl, j, SegmentMode::Alphanumeric) is Some
                ==> back_a@[j] == pred(t, cl, j, SegmentMode::Alphanumeric),
            forall|j: int| 0 < j < n && cell(t, cl, j, SegmentMode::Numeric) is Some
                ==> back_n@[j] == pred(t, cl, j, SegmentMode::Numeric),
            k > 0 ==> cell(t, cl, k - 1, cur) is Some,
            k > 0 ==> optimal_modes(t, cl) == trace(t, cl, k - 1, cur) + modes@.subrange(k as int, n as int),
            k == 0 ==> optimal_modes(t, cl) == modes@,
        decreases k,
    {
        let i = k - 1;
        let ghost old_modes = modes@;
        modes.set(i, cur);
        if i > 0 {
            let next = match cur {
                SegmentMode::Byte => back_b[i],
                SegmentMode::Alphanumeric => back_a[i],
                SegmentMode::Numeric => back_n[i],
            };
            proof {
                lemma_pred_reachable(t, cl, i as int, cur);
                assert(next == pred(t, cl, i as int, cur));
                assert(trace(t, cl, i as int, cur) == trace(t, cl, i - 1, next).push(cur));
                assert(modes@.subrange(i as int, n as int) =~= seq![cur] + old_modes.subrange(k as int, n as int));
                assert(trace(t, cl, i - 1, next) + modes@.subrange(i as int, n as int) =~= trace(t, cl, i as int, cur) + old_modes.subrange(k as int, n as int));
            }
            cur = next;
        } else {
            proof {
                assert(modes@ =~= seq![cur] + old_modes.subrange(1, n as int));
            }
        }
        k = i;
    }
    modes
}

/// Groups the characters of `text` into maximal runs of equal modes.
pub fn collapse_runs(text: &[char], modes: &Vec<SegmentMode>) -> (r: Vec<Segment>)
    requires
        modes.len() == text.len(),
    ensures
        segments_view(r@) == runs(text@, modes@, text@.len() as int),
{
    let n = text.len();
    let mut segs: Vec<Segment> = Vec::new();
    if n == 0 {
        assert(segments_view(segs@) =~= seq![]);
        return segs;
    }
    let mut cur_mode = modes[0];
    let mut cur: Vec<char> = Vec::new();
    cur.push(text[0]);
    proof {
        assert(runs(text@, modes@, 0) =~= seq![]);
        assert(cur@ =~= seq![text@[0]]);
        assert(segments_view(segs@) =~= seq![]);
    }
    let mut i: usize = 1;
    while i < n
        invariant
            1 <= i <= n,
            n == text@.len(),
            modes.len() == n,
            runs(text@, modes@, i as int) == segments_view(segs@).push((cur_mode, cur@)),
            segs@.len() == 0 || segs@.last().mode != cur_mode,
        decreases n - i,
    {
        let ghost prev = runs(text@, modes@, i as int);
        let c = text[i];
        if modes[i] == cur_mode {
            cur.push(c);
            proof {
                assert(segments_view(segs@).push((cur_mode, cur@)) =~= prev.update(
                    prev.len() - 1,
                    (modes@[i as int], prev.last().1.push(text@[i as int])),
                ));
            }
        } else {
            segs.push(Segment { mode: cur_mode, chars: cur });
            cur_mode = modes[i];
            cur = Vec::new();
            cur.push(c);
            proof {
                assert(segments_view(segs@) =~= prev);
                assert(cur@ =~= seq![text@[i as int]]);
            }
        }
        i = i + 1;
    }
    let ghost prev = runs(text@, modes@, n as int);
    segs.push(Segment { mode: cur_mode, chars: cur });
    assert(segments_view(segs@) =~= prev);
    segs
}

/// Returns the segments of `text` for version class `class`.
pub fn segments_for_class(text: &[char], class: u8) -> (r: Vec<Segment>)
    requires
        class <= 2,
    ensures
        segments_view(r@) == class_segments(text@, class as int),
{
    let modes = optimal_char_modes(text, class);
    proof {
        lemma_optimal_modes_len(text@, class as int);
    }
    collapse_runs(text, &modes)
}

/// Returns the number of UTF-8 bytes of `chars`.
pub fn utf8_byte_count(chars: &Vec<char>) -> (r: u128)
    ensures
        r == utf8_count(chars@),
        r <= 4 * chars@.len(),
{
    let mut total: u128 = 0;
    let mut i: usize = 0;
    while i < chars.len()
        invariant
            i <= chars@.len(),
            total == utf8_count(chars@.subrange(0, i as int)),
            total <= 4 * i,
        decreases chars@.len() - i,
    {
        proof {
            assert(chars@.subrange(0, i + 1).drop_last() =~= chars@.subrange(0, i as int));
        }
        total = total + char_utf8_len(chars[i]) as u128;
        i = i + 1;
    }
    assert(chars@.subrange(0, i as int) =~= chars@);
    total
}

/// Returns the number of bits of `seg` in version class `class`, or `None` when
/// its character count does not fit the count field.
pub fn segment_bit_len(seg: &Segment, class: u8) -> (r: Option<u128>)
    requires
        class <= 2,
    ensures
        r is Some <==> char_count(seg@) < seg.mode.count_limit(class as int),
        r is Some ==> r->0 == segment_bits(seg@, class as int) && r->0 <= 0x100_0000,
{
    let n = seg.chars.len() as u128;
    let bytes = utf8_byte_count(&seg.chars);
    let (count, limit): (u128, u128) = match seg.mode {
        SegmentMode::Numeric => (n, if class == 0 {
            1024
        } else if class == 1 {
            4096
        } else {
            16384
        }),
        SegmentMode::Alphanumeric => (n, if class == 0 {
            512
        } else if class == 1 {
            2048
        } else {
            8192
        }),
        SegmentMode::Byte => (bytes, if class == 0 {
            256
        } else {
            65536
        }),
    };
    if count >= limit {
        return None;
    }
    let payload: u128 = match seg.mode {
        SegmentMode::Numeric => 10 * (n / 3) + if n % 3 == 0 {
            0
        } else if n % 3 == 1 {
            4
        } else {
            7
        },
        SegmentMode::Alphanumeric => 11 * (n / 2) + 6 * (n % 2),
        SegmentMode::Byte => 8 * bytes,
    };
    Some(4 + seg.mode.char_count_bits(class) as u128 + payload)
}

/// Returns the number of bits of `segs` in version class `class`, or `None` when
/// a character count does not fit its field.
pub fn total_bit_len(segs: &Vec<Segment>, class: u8) -> (r: Option<u128>)
    requires
        class <= 2,
    ensures
        r is Some <==> counts_fit(segments_view(segs@), class as int),
        r is Some ==> r->0 == total_bits(segments_view(segs@), class as int),
{
    let ghost sv = segments_view(segs@);
    let mut total: u128 = 0;
    let mut i: usize = 0;
    while i < segs.len()
        invariant
            i <= segs@.len(),
            sv == segments_view(segs@),
            class <= 2,
            total == total_bits(sv.subrange(0, i as int), class as int),
            total <= 0x100_0000 * i,
            counts_fit(sv.subrange(0, i as int), class as int),
        decreases segs@.len() - i,
    {
        match segment_bit_len(&segs[i], class) {
            None => {
                assert(sv[i as int] == segs@[i as int]@);
                return None;
            },
            Some(b) => {
                proof {
                    assert(sv.subrange(0, i + 1).drop_last() =~= sv.subrange(0, i as int));
                    assert(sv[i as int] == segs@[i as int]@);
                    assert(sv.subrange(0, i + 1).last() == sv[i as int]);
                    assert forall|j: int| 0 <= j < i + 1 implies char_count(#[trigger] sv.subrange(0, i + 1)[j])
                        < sv.subrange(0, i + 1)[j].0.count_limit(class as int) by {
                        if j < i {
                            assert(sv.subrange(0, i + 1)[j] == sv.subrange(0, i as int)[j]);
                        }
                    }
                }
                total = total + b;
            },
        }
        i = i + 1;
    }
    assert(sv.subrange(0, i as int) =~= sv);
    Some(total)
}

/// `r` is what optimizing `text` at level `ecc` returns: the optimized segments,
/// or `DataTooLong` when no version holds the text.
pub open spec fn optimize_outcome(text: Seq<char>, ecc: EccLevel, r: Result<Vec<Segment>, QRCodeError>) -> bool {
    match r {
        Ok(segs) => optimized_segments(text, ecc) == Some(segments_view(segs@)),
        Err(e) => optimized_segments(text, ecc) is None && e is DataTooLong,
    }
}

/// `bits` (or no fit, for `None`) fits the data capacity of version `v` at level `ecc`.
fn fits_capacity(bits: Option<u128>, v: u8, ecc: EccLevel) -> (r: bool)
    requires
        1 <= v <= 40,
    ensures
        r == (bits is Some && bits->0 <= 8 * spec_data_codewords(v as int, ecc)),
{
    match bits {
        None => false,
        Some(b) => {
            let cap = data_codewords(v, ecc);
            cap >= 0 && b <= 8 * cap as u128
        },
    }
}

/// Splits `text` into segments of numeric, alphanumeric and byte mode so that
/// the encoded bit stream is as short as the cost model can make it, and picks
/// the smallest version whose data capacity at level `ecc` holds it.
///
/// The segmentation is computed once per version class (versions 1-9, 10-26 and
/// 27-40), and the versions of each class are tried in increasing order. The
/// result is `DataTooLong` exactly when no version from 1 to 40 holds the text.
pub fn optimize_segments(text: &[char], ecc: EccLevel) -> (r: Result<Vec<Segment>, QRCodeError>)
    ensures
        optimize_outcome(text@, ecc, r),
{
    let mut class: u8 = 0;
    let mut v: u8 = 1;
    while class < 3
        invariant
            class <= 3,
            class < 3 ==> v == if class == 0 {
                1u8
            } else if class == 1 {
                10u8
            } else {
                27u8
            },
            class == 3 ==> v == 41,
            first_fit_from(text@, ecc, 1) == first_fit_from(text@, ecc, v as int),
        decreases 3 - class,
    {
        let segs = segments_for_class(text, class);
        let bits = total_bit_len(&segs, class);
        let last: u8 = if class == 0 {
            9
        } else if class == 1 {
            26
        } else {
            40
        };
        while v <= last
            invariant
                class <= 2,
                1 <= v <= last + 1,
                last == if class == 0 {
                    9u8
                } else if class == 1 {
                    26u8
                } else {
                    40u8
                },
                v >= if class == 0 {
                    1u8
                } else if class == 1 {
                    10u8
                } else {
                    27u8
                },
                segments_view(segs@) == class_segments(text@, class as int),
                bits is Some <==> counts_fit(segments_view(segs@), class as int),
                bits is Some ==> bits->0 == total_bits(segments_view(segs@), class as int),
                first_fit_from(text@, ecc, 1) == first_fit_from(text@, ecc, v as int),
            decreases last + 1 - v,
        {
            assert(version_class(v as int) == class as int);
            if fits_capacity(bits, v, ecc) {
                return Ok(segs);
            }
            v = v + 1;
        }
        class = class + 1;
    }
    Err(QRCodeError::DataTooLong)
}

} // verus!

use vstd::prelude::*;
use vstd::string::StringSliceAdditionalSpecFns;
use vstd::arithmetic::power2::pow2;
use vstd::utf8::{decode_utf8, encode_utf8, valid_utf8};

use qrcodegen::{DataTooLong, QrCode, QrSegment};

use crate::ecc::EccLevel;
use crate::error::QRCodeError;
use crate::capacity::spec_data_codewords;
use crate::mode::{is_alnum, is_digit, utf8_len, version_class, SegmentMode};
use crate::optimizer::{
    char_count, chosen_version, counts_fit, fits_version, optimize_outcome, optimized_segments,
    payload_bits, segment_bits, segments_view, total_bits, utf8_count, Segment,
};

verus! {

/// qrcodegen's QR Code symbol, read through `size` and `get_module`.
#[verifier::external_type_specification]
#[verifier::external_body]
pub struct ExQrCode(qrcodegen::QrCode);

/// qrcodegen's segment of encoded data bits.
#[verifier::external_type_specification]
#[verifier::external_body]
pub struct ExQrSegment(qrcodegen::QrSegment);

/// qrcodegen's error for data that fits no version.
#[verifier::external_type_specification]
#[verifier::external_body]
pub struct ExDataTooLong(qrcodegen::DataTooLong);

/// The side length, in modules, of a QR Code symbol.
pub uninterp spec fn qr_width(qr: QrCode) -> int;

/// The modules of a QR Code symbol, row after row (`true` is dark).
pub uninterp spec fn qr_modules(qr: QrCode) -> Seq<bool>;

/// The module at column `x` and row `y` of `qr` is dark.
pub open spec fn module_dark(qr: QrCode, x: int, y: int) -> bool {
    qr_modules(qr)[y * qr_width(qr) + x]
}

// ---- Segments as plain values: (mode indicator, character count, data bits) ----

/// The mode indicator of an encoder segment.
pub uninterp spec fn qr_seg_mode(seg: QrSegment) -> int;

/// The number of characters (bytes, in byte mode) that an encoder segment counts.
pub uninterp spec fn qr_seg_chars(seg: QrSegment) -> int;

/// The data bits of an encoder segment.
pub uninterp spec fn qr_seg_data(seg: QrSegment) -> Seq<bool>;

/// The modules, row after row, of the symbol that qrcodegen builds for segments
/// given as (mode indicator, character count, data bits) at the level of table
/// row `ecc`. The encoder picks the version, the final level and the mask by fixed
/// rules, so the symbol depends on these values alone.
pub uninterp spec fn qr_symbol(segs: Seq<(int, int, Seq<bool>)>, ecc: int) -> Seq<bool>;

/// An encoder segment as plain values.
pub open spec fn qr_seg_plain(seg: QrSegment) -> (int, int, Seq<bool>) {
    (qr_seg_mode(seg), qr_seg_chars(seg), qr_seg_data(seg))
}

/// Encoder segments as plain values.
pub open spec fn plain_of(segs: Seq<QrSegment>) -> Seq<(int, int, Seq<bool>)> {
    segs.map_values(|s: QrSegment| qr_seg_plain(s))
}

/// The width of the character count field of mode indicator `mode` in version class `class`.
pub open spec fn mode_count_width(mode: int, class: int) -> int {
    if mode == 1 {
        if class == 0 {
            10
        } else if class == 1 {
            12
        } else {
            14
        }
    } else if mode == 2 {
        if class == 0 {
            9
        } else if class == 1 {
            11
        } else {
            13
        }
    } else if mode == 4 {
        if class == 0 {
            8
        } else {
            16
        }
    } else if mode == 8 {
        if class == 0 {
            8
        } else if class == 1 {
            10
        } else {
            12
        }
    } else {
        0
    }
}

/// The `len` low bits of `val`, most significant first.
pub open spec fn bits_of(val: int, len: int) -> Seq<bool> {
    Seq::new(len as nat, |i: int| (val / pow2((len - 1 - i) as nat) as int) % 2 == 1)
}

/// Eight bits for each byte.
pub open spec fn byte_bits(data: Seq<u8>) -> Seq<bool>
    decreases data.len(),
{
    if data.len() == 0 {
        seq![]
    } else {
        byte_bits(data.drop_last()) + bits_of(data.last() as int, 8)
    }
}

/// The value of a decimal digit.
pub open spec fn digit_value(c: char) -> int {
    (c as u32) as int - 48
}

/// Ten bits for each group of three digits, 4 or 7 for a last group of one or two.
pub open spec fn numeric_bits(chars: Seq<char>) -> Seq<bool>
    decreases chars.len(),
{
    if chars.len() == 0 {
        seq![]
    } else if chars.len() == 1 {
        bits_of(digit_value(chars[0]), 4)
    } else if chars.len() == 2 {
        bits_of(digit_value(chars[0]) * 10 + digit_value(chars[1]), 7)
    } else {
        bits_of(digit_value(chars[0]) * 100 + digit_value(chars[1]) * 10 + digit_value(chars[2]), 10)
            + numeric_bits(chars.subrange(3, chars.len() as int))
    }
}

/// The index of `c` in `0123456789ABCDEFGHIJKLMNOPQRSTUVWXYZ $%*+-./:`.
pub open spec fn alnum_value(c: char) -> int {
    if is_digit(c) {
        (c as u32) as int - 48
    } else if 'A' <= c && c <= 'Z' {
        (c as u32) as int - 55
    } else if c == ' ' {
        36
    } else if c == '$' {
        37
    } else if c == '%' {
        38
    } else if c == '*' {
        39
    } else if c == '+' {
        40
    } else if c == '-' {
        41
    } else if c == '.' {
        42
    } else if c == '/' {
        43
    } else {
        44
    }
}

/// Eleven bits for each pair of characters, 6 for a last single one.
pub open spec fn alnum_bits(chars: Seq<char>) -> Seq<bool>
    decreases chars.len(),
{
    if chars.len() == 0 {
        seq![]
    } else if chars.len() == 1 {
        bits_of(alnum_value(chars[0]), 6)
    } else {
        bits_of(alnum_value(chars[0]) * 45 + alnum_value(chars[1]), 11) + alnum_bits(
            chars.subrange(2, chars.len() as int),
        )
    }
}

/// A segment of the optimizer as the encoder receives it: its mode indicator,
/// its count, and its data bits (the UTF-8 bytes, in byte mode).
pub open spec fn plain_segment(seg: (SegmentMode, Seq<char>)) -> (int, int, Seq<bool>) {
    (
        seg.0.spec_mode_bits() as int,
        char_count(seg),
        match seg.0 {
            SegmentMode::Numeric => numeric_bits(seg.1),
            SegmentMode::Alphanumeric => alnum_bits(seg.1),
            SegmentMode::Byte => byte_bits(encode_utf8(seg.1)),
        },
    )
}

/// The number of bits of plain segments in version class `class`, headers included.
pub open spec fn plain_bits(segs: Seq<(int, int, Seq<bool>)>, class: int) -> int
    decreases segs.len(),
{
    if segs.len() == 0 {
        0
    } else {
        plain_bits(segs.drop_last(), class) + 4 + mode_count_width(segs.last().0, class)
            + segs.last().2.len()
    }
}

/// Every character count fits its field in version class `class`.
pub open spec fn plain_counts_fit(segs: Seq<(int, int, Seq<bool>)>, class: int) -> bool {
    forall|i: int|
        0 <= i < segs.len() ==> (#[trigger] segs[i]).1 < pow2(mode_count_width(segs[i].0, class) as nat)
}

/// The plain segments fit a symbol of version `v` at level `ecc`.
pub open spec fn plain_fit(segs: Seq<(int, int, Seq<bool>)>, ecc: EccLevel, v: int) -> bool {
    plain_counts_fit(segs, version_class(v)) && plain_bits(segs, version_class(v)) <= 8
        * spec_data_codewords(v, ecc)
}

/// The first version from `v` on (up to 40) that the plain segments fit, or 0.
pub open spec fn plain_version_from(segs: Seq<(int, int, Seq<bool>)>, ecc: EccLevel, v: int) -> int
    decreases 41 - v,
{
    if v < 1 || v > 40 {
        0
    } else if plain_fit(segs, ecc, v) {
        v
    } else {
        plain_version_from(segs, ecc, v + 1)
    }
}

/// The segments that encode `text` at level `ecc`: the optimizer's, as plain values.
pub open spec fn text_segments(text: Seq<char>, ecc: EccLevel) -> Seq<(int, int, Seq<bool>)> {
    match optimized_segments(text, ecc) {
        Some(segs) => segs.map_values(|g: (SegmentMode, Seq<char>)| plain_segment(g)),
        None => seq![],
    }
}

/// The single byte segment that encodes binary `data`.
pub open spec fn binary_segments(data: Seq<u8>) -> Seq<(int, int, Seq<bool>)> {
    seq![(4int, data.len() as int, byte_bits(data))]
}

/// The segments that encode `data` at level `ecc`: as text through the
/// optimizer when it is valid UTF-8, as one byte segment otherwise.
pub open spec fn data_segments(data: Seq<u8>, ecc: EccLevel) -> Seq<(int, int, Seq<bool>)> {
    if valid_utf8(data) {
        text_segments(decode_utf8(data), ecc)
    } else {
        binary_segments(data)
    }
}

/// `data` can be encoded at level `ecc`.
pub open spec fn data_fits(data: Seq<u8>, ecc: EccLevel) -> bool {
    if valid_utf8(data) {
        optimized_segments(decode_utf8(data), ecc) is Some
    } else {
        plain_version_from(binary_segments(data), ecc, 1) != 0
    }
}

/// Relies on qrcodegen::QrCode::size: the side is 4 * version + 17, between 21
/// and 177 modules, and the symbol holds a square grid of that side.
pub assume_specification[ qrcodegen::QrCode::size ](qr: &QrCode) -> (r: i32)
    ensures
        r == qr_width(*qr),
        21 <= r <= 177,
        (r - 17) % 4 == 0,
        qr_modules(*qr).len() == r * r,
;

/// Relies on qrcodegen::QrCode::get_module: the color of the module at `(x, y)`,
/// read row after row from the grid; `false` outside the grid.
pub assume_specification[ qrcodegen::QrCode::get_module ](qr: &QrCode, x: i32, y: i32) -> (r: bool)
    ensures
        r == (0 <= x < qr_width(*qr) && 0 <= y < qr_width(*qr) && module_dark(*qr, x as int, y as int)),
;

/// Relies on qrcodegen::QrSegment::make_numeric, which panics on a character that
/// is not a digit, counts the digits and packs 10 bits for each group of three,
/// 4 or 7 for a last group of one or two (most significant bit first).
pub assume_specification[ qrcodegen::QrSegment::make_numeric ](text: &str) -> (r: QrSegment)
    requires
        forall|i: int| 0 <= i < text@.len() ==> is_digit(#[trigger] text@[i]),
    ensures
        qr_seg_mode(r) == 1,
        qr_seg_chars(r) == text@.len() as int,
        qr_seg_data(r) == numeric_bits(text@),
;

/// Relies on qrcodegen::QrSegment::make_alphanumeric, which panics on a character
/// outside the alphanumeric set, counts the characters and packs 11 bits for
/// each pair (45 times the first index plus the second), 6 for a last single one.
pub assume_specification[ qrcodegen::QrSegment::make_alphanumeric ](text: &str) -> (r: QrSegment)
    requires
        forall|i: int| 0 <= i < text@.len() ==> is_alnum(#[trigger] text@[i]),
    ensures
        qr_seg_mode(r) == 2,
        qr_seg_chars(r) == text@.len() as int,
        qr_seg_data(r) == alnum_bits(text@),
;

/// Relies on qrcodegen::QrSegment::make_bytes, which takes any bytes, counts
/// them and packs 8 bits for each, most significant first.
pub assume_specification[ qrcodegen::QrSegment::make_bytes ](data: &[u8]) -> (r: QrSegment)
    ensures
        qr_seg_mode(r) == 4,
        qr_seg_chars(r) == data@.len() as int,
        qr_seg_data(r) == byte_bits(data@),
;

/// Relies on qrcodegen::QrCode::encode_segments, which tries versions 1 to 40 in
/// order (encode_segments_advanced): it succeeds exactly when some version holds
/// the segments' bits at level `ecc` (counting each header as the mode indicator
/// and a count field of the version's width), and then builds the symbol of the
/// smallest such version, whose side is 4 * version + 17 (it may raise the level,
/// never the version).
#[verifier::external_body]
fn encode_qr_segments(segs: &[QrSegment], ecc: EccLevel) -> (r: Result<QrCode, DataTooLong>)
    ensures
        r is Ok <==> plain_version_from(plain_of(segs@), ecc, 1) != 0,
        r matches Ok(qr) ==> qr_width(qr) == 4 * plain_version_from(plain_of(segs@), ecc, 1) + 17,
        r matches Ok(qr) ==> qr_modules(qr) == qr_symbol(plain_of(segs@), ecc.spec_ordinal() as int),
{
    let level = match ecc {
        EccLevel::Low => qrcodegen::QrCodeEcc::Low,
        EccLevel::Medium => qrcodegen::QrCodeEcc::Medium,
        EccLevel::Quartile => qrcodegen::QrCodeEcc::Quartile,
        EccLevel::High => qrcodegen::QrCodeEcc::High,
    };
    QrCode::encode_segments(segs, level)
}

/// Relies on std::str::from_utf8: the bytes read as text exactly when they are valid UTF-8.
#[verifier::external_body]
fn utf8_text(data: &[u8]) -> (r: Option<&str>)
    ensures
        r is Some <==> valid_utf8(data@),
        r is Some ==> r->0.spec_bytes() == data@,
{
    std::str::from_utf8(data).ok()
}

/// Relies on std's `FromIterator<char>` for `String`: the characters in order.
#[verifier::external_body]
fn string_of_chars(chars: &[char]) -> (r: String)
    ensures
        r@ == chars@,
{
    chars.iter().collect()
}

/// Relies on std's `str::chars` collected into a `Vec`: the characters in order.
#[verifier::external_body]
fn chars_of(text: &str) -> (r: Vec<char>)
    ensures
        r@ == text@,
{
    text.chars().collect()
}

proof fn lemma_encode_utf8_push(s: Seq<char>, c: char)
    ensures
        encode_utf8(s.push(c)) == encode_utf8(s) + vstd::utf8::encode_scalar(c as u32),
    decreases s.len(),
{
    if s.len() == 0 {
        assert(seq![c].drop_first() =~= seq![]);
        assert(s.push(c) =~= seq![c]);
        assert(encode_utf8(seq![]) == Seq::<u8>::empty());
        assert(encode_utf8(seq![c]) =~= vstd::utf8::encode_scalar(c as u32));
        assert(encode_utf8(s) == Seq::<u8>::empty());
        assert(encode_utf8(s.push(c)) =~= encode_utf8(s) + vstd::utf8::encode_scalar(c as u32));
    } else {
        lemma_encode_utf8_push(s.drop_first(), c);
        assert(s.push(c).drop_first() =~= s.drop_first().push(c));
        assert(s.push(c)[0] == s[0]);
        assert(encode_utf8(s.push(c)) =~= encode_utf8(s) + vstd::utf8::encode_scalar(c as u32));
    }
}

/// The UTF-8 encoding of `s` has `utf8_count(s)` bytes.
pub proof fn lemma_encode_utf8_len(s: Seq<char>)
    ensures
        encode_utf8(s).len() == utf8_count(s),
    decreases s.len(),
{
    if s.len() > 0 {
        lemma_encode_utf8_len(s.drop_last());
        lemma_encode_utf8_push(s.drop_last(), s.last());
        assert(s.drop_last().push(s.last()) =~= s);
        let c = s.last();
        vstd::utf8::char_is_scalar(c);
        assert(vstd::utf8::encode_scalar(c as u32).len() == utf8_len(c));
    }
}

/// Returns the modules of `qr` as rows of columns (`true` is dark).
pub fn to_matrix_inner(qr: &QrCode) -> (r: Vec<Vec<bool>>)
    ensures
        r@.len() == qr_width(*qr),
        forall|y: int| 0 <= y < r@.len() ==> #[trigger] r@[y]@.len() == qr_width(*qr),
        forall|y: int, x: int|
            0 <= y < r@.len() && 0 <= x < qr_width(*qr) ==> #[trigger] r@[y]@[x] == module_dark(*qr, x, y),
{
    let size = qr.size();
    let mut rows: Vec<Vec<bool>> = Vec::new();
    let mut y: i32 = 0;
    while y < size
        invariant
            0 <= y <= size,
            size == qr_width(*qr),
            rows@.len() == y,
            forall|yy: int| 0 <= yy < y ==> #[trigger] rows@[yy]@.len() == size,
            forall|yy: int, x: int| 0 <= yy < y && 0 <= x < size ==> #[trigger] rows@[yy]@[x] == module_dark(*qr, x, yy),
        decreases size - y,
    {
        let mut row: Vec<bool> = Vec::new();
        let mut x: i32 = 0;
        while x < size
            invariant
                0 <= x <= size,
                0 <= y < size,
                size == qr_width(*qr),
                row@.len() == x,
                forall|xx: int| 0 <= xx < x ==> #[trigger] row@[xx] == module_dark(*qr, xx, y as int),
            decreases size - x,
        {
            row.push(qr.get_module(x, y));
            x = x + 1;
        }
        rows.push(row);
        y = y + 1;
    }
    rows
}

// ---- Bit lengths of the plain segments ----

proof fn lemma_byte_bits_len(data: Seq<u8>)
    ensures
        byte_bits(data).len() == 8 * data.len(),
    decreases data.len(),
{
    if data.len() > 0 {
        lemma_byte_bits_len(data.drop_last());
    }
}

proof fn lemma_numeric_bits_len(chars: Seq<char>)
    ensures
        numeric_bits(chars).len() == payload_bits((SegmentMode::Numeric, chars)),
    decreases chars.len(),
{
    if chars.len() >= 3 {
        let rest = chars.subrange(3, chars.len() as int);
        lemma_numeric_bits_len(rest);
        let n = chars.len() as int;
        assert(rest.len() == n - 3);
        assert((n - 3) / 3 == n / 3 - 1 && (n - 3) % 3 == n % 3);
    }
}

proof fn lemma_alnum_bits_len(chars: Seq<char>)
    ensures
        alnum_bits(chars).len() == payload_bits((SegmentMode::Alphanumeric, chars)),
    decreases chars.len(),
{
    if chars.len() >= 2 {
        let rest = chars.subrange(2, chars.len() as int);
        lemma_alnum_bits_len(rest);
        let n = chars.len() as int;
        assert(rest.len() == n - 2);
        assert((n - 2) / 2 == n / 2 - 1 && (n - 2) % 2 == n % 2);
    }
}

proof fn lemma_plain_segment(seg: (SegmentMode, Seq<char>), class: int)
    requires
        0 <= class <= 2,
    ensures
        plain_segment(seg).2.len() == payload_bits(seg),
        mode_count_width(plain_segment(seg).0, class) == seg.0.spec_char_count_bits(class),
        pow2(mode_count_width(plain_segment(seg).0, class) as nat) == seg.0.count_limit(class),
{
    vstd::arithmetic::power2::lemma2_to64();
    match seg.0 {
        SegmentMode::Numeric => lemma_numeric_bits_len(seg.1),
        SegmentMode::Alphanumeric => lemma_alnum_bits_len(seg.1),
        SegmentMode::Byte => {
            lemma_byte_bits_len(encode_utf8(seg.1));
            lemma_encode_utf8_len(seg.1);
        },
    }
}

proof fn lemma_plain_match(s: Seq<(SegmentMode, Seq<char>)>, class: int)
    requires
        0 <= class <= 2,
    ensures
        plain_bits(s.map_values(|g: (SegmentMode, Seq<char>)| plain_segment(g)), class) == total_bits(s, class),
        plain_counts_fit(s.map_values(|g: (SegmentMode, Seq<char>)| plain_segment(g)), class) == counts_fit(s, class),
    decreases s.len(),
{
    let p = s.map_values(|g: (SegmentMode, Seq<char>)| plain_segment(g));
    if s.len() > 0 {
        let s0 = s.drop_last();
        lemma_plain_match(s0, class);
        assert(p.drop_last() =~= s0.map_values(|g: (SegmentMode, Seq<char>)| plain_segment(g)));
        lemma_plain_segment(s.last(), class);
        assert(p.last() == plain_segment(s.last()));
    }
    assert forall|i: int| 0 <= i < s.len() implies ((#[trigger] p[i]).1 < pow2(mode_count_width(p[i].0, class) as nat)
        <==> char_count(s[i]) < s[i].0.count_limit(class)) by {
        lemma_plain_segment(s[i], class);
    }
    if plain_counts_fit(p, class) {
        assert forall|i: int| 0 <= i < s.len() implies char_count(#[trigger] s[i]) < s[i].0.count_limit(class) by {
            assert(p[i].1 < pow2(mode_count_width(p[i].0, class) as nat));
        }
    }
    if counts_fit(s, class) {
        assert forall|i: int| 0 <= i < p.len() implies (#[trigger] p[i]).1 < pow2(
            mode_count_width(p[i].0, class) as nat,
        ) by {
            assert(char_count(s[i]) < s[i].0.count_limit(class));
        }
    }
}

proof fn lemma_plain_version_range(segs: Seq<(int, int, Seq<bool>)>, ecc: EccLevel, v: int)
    requires
        1 <= v,
    ensures
        plain_version_from(segs, ecc, v) == 0 || v <= plain_version_from(segs, ecc, v) <= 40,
    decreases 41 - v,
{
    if v <= 40 && !plain_fit(segs, ecc, v) {
        lemma_plain_version_range(segs, ecc, v + 1);
    }
}

proof fn lemma_plain_version_at_most(segs: Seq<(int, int, Seq<bool>)>, ecc: EccLevel, u: int, v: int)
    requires
        1 <= u <= v <= 40,
        plain_fit(segs, ecc, v),
    ensures
        u <= plain_version_from(segs, ecc, u) <= v,
    decreases v - u,
{
    if u < v && !plain_fit(segs, ecc, u) {
        lemma_plain_version_at_most(segs, ecc, u + 1, v);
    }
}

pub proof fn lemma_chosen_fits(text: Seq<char>, ecc: EccLevel, v: int)
    requires
        1 <= v <= 41,
        crate::optimizer::first_fit_from(text, ecc, v) != 0,
    ensures
        v <= crate::optimizer::first_fit_from(text, ecc, v) <= 40,
        fits_version(text, ecc, crate::optimizer::first_fit_from(text, ecc, v)),
    decreases 41 - v,
{
    if v <= 40 && !fits_version(text, ecc, v) {
        lemma_chosen_fits(text, ecc, v + 1);
    }
}

/// Turns segments into the encoder's segments: numeric and alphanumeric
/// segments carry their characters, byte segments their UTF-8 bytes.
pub fn to_qr_segments(segments: &Vec<Segment>) -> (r: Vec<QrSegment>)
    requires
        crate::laws::modes_valid(segments_view(segments@)),
    ensures
        plain_of(r@) == segments_view(segments@).map_values(|g: (SegmentMode, Seq<char>)| plain_segment(g)),
{
    let ghost sv = segments_view(segments@);
    let mut out: Vec<QrSegment> = Vec::new();
    let mut i: usize = 0;
    while i < segments.len()
        invariant
            i <= segments@.len(),
            out@.len() == i,
            sv == segments_view(segments@),
            crate::laws::modes_valid(sv),
            forall|j: int| 0 <= j < i ==> qr_seg_plain(#[trigger] out@[j]) == plain_segment(sv[j]),
        decreases segments@.len() - i,
    {
        let seg = &segments[i];
        let text = string_of_chars(seg.chars.as_slice());
        proof {
            assert(sv[i as int] == seg@);
            assert forall|j: int| 0 <= j < text@.len() implies seg.mode.accepts(#[trigger] text@[j]) by {
                assert(sv[i as int].0.accepts(sv[i as int].1[j]));
            }
            lemma_encode_utf8_len(text@);
        }
        let qs = match seg.mode {
            SegmentMode::Numeric => QrSegment::make_numeric(text.as_str()),
            SegmentMode::Alphanumeric => QrSegment::make_alphanumeric(text.as_str()),
            SegmentMode::Byte => QrSegment::make_bytes(text.as_str().as_bytes()),
        };
        assert(qr_seg_plain(qs) == plain_segment(sv[i as int]));
        out.push(qs);
        i = i + 1;
    }
    assert(plain_of(out@) =~= sv.map_values(|g: (SegmentMode, Seq<char>)| plain_segment(g)));
    out
}

/// Encodes `text` at level `ecc` through the segments that the optimizer picks:
/// it succeeds exactly when the optimizer finds a version that holds the text,
/// and returns the encoder's symbol of those segments.
pub fn generate_qrcode_optimized(text: &[char], ecc: EccLevel) -> (r: Result<QrCode, QRCodeError>)
    ensures
        r matches Err(e) ==> e is DataTooLong,
        r is Ok <==> optimized_segments(text@, ecc) is Some,
        r matches Ok(qr) ==> qr_width(qr) == 4 * plain_version_from(text_segments(text@, ecc), ecc, 1) + 17,
        r matches Ok(qr) ==> 21 <= qr_width(qr) <= 4 * chosen_version(text@, ecc) + 17,
        r matches Ok(qr) ==> qr_modules(qr) == qr_symbol(text_segments(text@, ecc), ecc.spec_ordinal() as int),
{
    let segments = match crate::optimizer::optimize_segments(text, ecc) {
        Ok(segments) => segments,
        Err(e) => return Err(e),
    };
    proof {
        crate::laws::lemma_optimized_modes_valid(text@, ecc);
    }
    let qr_segments = to_qr_segments(&segments);
    let ghost v = chosen_version(text@, ecc);
    proof {
        lemma_chosen_fits(text@, ecc, 1);
        let class = version_class(v);
        assert(0 <= class <= 2);
        assert(plain_of(qr_segments@) == text_segments(text@, ecc));
        lemma_plain_match(segments_view(segments@), class);
        assert(plain_fit(plain_of(qr_segments@), ecc, v));
        lemma_plain_version_at_most(plain_of(qr_segments@), ecc, 1, v);
    }
    match encode_qr_segments(qr_segments.as_slice(), ecc) {
        Ok(qr) => Ok(qr),
        Err(_) => Err(QRCodeError::DataTooLong),
    }
}

/// Encodes data at level `ecc`: valid UTF-8 as text, through the optimizer;
/// anything else as one byte segment, in the smallest version that holds it.
pub fn generate_qrcode(data: &[u8], ecc: EccLevel) -> (r: Result<QrCode, QRCodeError>)
    ensures
        r matches Err(e) ==> e is DataTooLong,
        r is Ok <==> data_fits(data@, ecc),
        r matches Ok(qr) ==> qr_width(qr) == 4 * plain_version_from(data_segments(data@, ecc), ecc, 1) + 17,
        r matches Ok(qr) ==> 21 <= qr_width(qr),
        r matches Ok(qr) ==> qr_modules(qr) == qr_symbol(data_segments(data@, ecc), ecc.spec_ordinal() as int),
        valid_utf8(data@) ==> (r matches Ok(qr) ==> qr_width(qr) <= 4 * chosen_version(
            decode_utf8(data@),
            ecc,
        ) + 17),
{
    match utf8_text(data) {
        Some(text) => {
            proof {
                vstd::utf8::encode_utf8_decode_utf8(text@);
            }
            let chars = chars_of(text);
            generate_qrcode_optimized(chars.as_slice(), ecc)
        },
        None => {
            let seg = QrSegment::make_bytes(data);
            let segs = vec![seg];
            proof {
                assert(plain_of(segs@) =~= binary_segments(data@));
                lemma_plain_version_range(binary_segments(data@), ecc, 1);
            }
            match encode_qr_segments(segs.as_slice(), ecc) {
                Ok(qr) => Ok(qr),
                Err(_) => Err(QRCodeError::DataTooLong),
            }
        },
    }
}

/// Encodes text at level `ecc` through the optimizer.
pub fn generate_qrcode_from_str(text: &str, ecc: EccLevel) -> (r: Result<QrCode, QRCodeError>)
    ensures
        r matches Err(e) ==> e is DataTooLong,
        r is Ok <==> optimized_segments(text@, ecc) is Some,
        r matches Ok(qr) ==> qr_width(qr) == 4 * plain_version_from(text_segments(text@, ecc), ecc, 1) + 17,
        r matches Ok(qr) ==> 21 <= qr_width(qr) <= 4 * chosen_version(text@, ecc) + 17,
        r matches Ok(qr) ==> qr_modules(qr) == qr_symbol(text_segments(text@, ecc), ecc.spec_ordinal() as int),
{
    let chars = chars_of(text);
    generate_qrcode_optimized(chars.as_slice(), ecc)
}

/// Encodes segments at level `ecc`, in the smallest version that holds them.
pub fn generate_qrcode_from_segments(segments: &[QrSegment], ecc: EccLevel) -> (r: Result<QrCode, QRCodeError>)
    ensures
        r matches Err(e) ==> e is DataTooLong,
        r is Ok <==> plain_version_from(plain_of(segments@), ecc, 1) != 0,
        r matches Ok(qr) ==> qr_width(qr) == 4 * plain_version_from(plain_of(segments@), ecc, 1) + 17,
        r matches Ok(qr) ==> 21 <= qr_width(qr),
        r matches Ok(qr) ==> qr_modules(qr) == qr_symbol(plain_of(segments@), ecc.spec_ordinal() as int),
{
    proof {
        lemma_plain_version_range(plain_of(segments@), ecc, 1);
    }
    match encode_qr_segments(segments, ecc) {
        Ok(qr) => Ok(qr),
        Err(_) => Err(QRCodeError::DataTooLong),
    }
}

} // verus!

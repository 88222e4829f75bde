use vstd::prelude::*;
use vstd::string::StringExecFns;

use qrcodegen::QrCode;

use crate::encoder::{qr_modules, qr_width};
use crate::error::QRCodeError;
use crate::render::{margin, point_size};

verus! {

/// The text of the decimal digit `d`.
pub open spec fn digit_text(d: int) -> Seq<char> {
    if d == 0 {
        "0"@
    } else if d == 1 {
        "1"@
    } else if d == 2 {
        "2"@
    } else if d == 3 {
        "3"@
    } else if d == 4 {
        "4"@
    } else if d == 5 {
        "5"@
    } else if d == 6 {
        "6"@
    } else if d == 7 {
        "7"@
    } else if d == 8 {
        "8"@
    } else {
        "9"@
    }
}

/// The decimal text of `n`, without leading zeros.
pub open spec fn decimal(n: nat) -> Seq<char>
    decreases n,
{
    if n < 10 {
        digit_text(n as int)
    } else {
        decimal(n / 10) + digit_text((n % 10) as int)
    }
}

/// The HTML text of character `c`: `&`, `<`, `>`, `"`, `'` and `/` become entities.
pub open spec fn html_safe_char(c: char) -> Seq<char> {
    if c == '&' {
        "&amp;"@
    } else if c == '<' {
        "&lt;"@
    } else if c == '>' {
        "&gt;"@
    } else if c == '"' {
        "&quot;"@
    } else if c == '\'' {
        "&#x27;"@
    } else if c == '/' {
        "&#x2F;"@
    } else {
        seq![c]
    }
}

/// The HTML text of `s`, each character escaped as `html_safe_char` says.
pub open spec fn html_safe(s: Seq<char>) -> Seq<char> {
    s.map_values(|c: char| html_safe_char(c)).flatten()
}

/// Relies on html_escape::encode_safe: it replaces `&`, `<`, `>`, `"`, `'` and `/`
/// by `&amp;`, `&lt;`, `&gt;`, `&quot;`, `&#x27;` and `&#x2F;`, and keeps every other character.
#[verifier::external_body]
fn escape_html(s: &str) -> (r: String)
    ensures
        r@ == html_safe(s@),
{
    html_escape::encode_safe(s).into_owned()
}

/// The opening of an SVG document of side `size`.
pub open spec fn svg_head(size: nat) -> Seq<char> {
    "<?xml version=\"1.0\" encoding=\"UTF-8\"?>\n<svg width=\""@ + decimal(size) + "\" height=\""@
        + decimal(size)
        + "\" shape-rendering=\"crispEdges\" version=\"1.1\" xmlns=\"http://www.w3.org/2000/svg\">\n"@
}

/// The description element: a default one for `None`, none for an empty text.
pub open spec fn svg_desc(description: Option<Seq<char>>) -> Seq<char> {
    match description {
        None => "\t<desc>qrcode_generator 0.1.0 by magiclen.org</desc>\n"@,
        Some(d) => if d.len() == 0 {
            seq![]
        } else {
            "\t<desc>"@ + html_safe(d) + "</desc>\n"@
        },
    }
}

/// The white background and the start of the path of dark modules.
pub open spec fn svg_background(size: nat) -> Seq<char> {
    "\t<rect width=\""@ + decimal(size) + "\" height=\""@ + decimal(size) + "\" fill=\"#FFF\"/>\n\t<path d=\""@
}

/// The path of a square of side `p` with its top left corner at `(x, y)`.
pub open spec fn square(x: nat, y: nat, p: nat) -> Seq<char> {
    "M"@ + decimal(x) + " "@ + decimal(y) + "h"@ + decimal(p) + "v"@ + decimal(p) + "H"@ + decimal(x)
        + "V"@ + decimal(y)
}

/// The squares of the dark modules of the symbol of side `w` with the given
/// modules, one row of modules after the other.
pub open spec fn svg_rows_of(w: int, modules: Seq<bool>, size: nat) -> Seq<Seq<Seq<char>>> {
    let p = point_size(w, size as int);
    let m = margin(w, size as int);
    Seq::new(
        w as nat,
        |i: int|
            Seq::new(
                w as nat,
                |j: int|
                    if modules[i * w + j] {
                        square((j * p + m) as nat, (i * p + m) as nat, p as nat)
                    } else {
                        seq![]
                    },
            ),
    )
}

/// The squares of the dark modules of `qr`, one row of modules after the other.
pub open spec fn svg_rows(qr: QrCode, size: nat) -> Seq<Seq<Seq<char>>> {
    svg_rows_of(qr_width(qr), qr_modules(qr), size)
}

/// The end of the path and of the document.
pub open spec fn svg_tail() -> Seq<char> {
    "\"/>\n</svg>"@
}

/// The SVG document of side `size` that draws the symbol of side `w` with the given modules.
pub open spec fn svg_text_of(w: int, modules: Seq<bool>, size: nat, description: Option<Seq<char>>) -> Seq<char> {
    svg_head(size) + svg_desc(description) + svg_background(size) + svg_rows_of(w, modules, size).map_values(
        |row: Seq<Seq<char>>| row.flatten(),
    ).flatten() + svg_tail()
}

/// The SVG document of side `size` that draws `qr`.
pub open spec fn svg_text(qr: QrCode, size: nat, description: Option<Seq<char>>) -> Seq<char> {
    svg_text_of(qr_width(qr), qr_modules(qr), size, description)
}

pub open spec fn opt_view(description: Option<&str>) -> Option<Seq<char>> {
    match description {
        None => None,
        Some(d) => Some(d@),
    }
}

fn digit_str(d: usize) -> (r: &'static str)
    requires
        d < 10,
    ensures
        r@ == digit_text(d as int),
{
    if d == 0 {
        "0"
    } else if d == 1 {
        "1"
    } else if d == 2 {
        "2"
    } else if d == 3 {
        "3"
    } else if d == 4 {
        "4"
    } else if d == 5 {
        "5"
    } else if d == 6 {
        "6"
    } else if d == 7 {
        "7"
    } else if d == 8 {
        "8"
    } else {
        "9"
    }
}

/// Appends the decimal text of `n` to `out`.
pub fn push_decimal(out: &mut String, n: usize)
    ensures
        final(out)@ == old(out)@ + decimal(n as nat),
    decreases n,
{
    if n >= 10 {
        push_decimal(out, n / 10);
    }
    out.append(digit_str(n % 10));
    proof {
        if n >= 10 {
            assert(final(out)@ =~= old(out)@ + decimal(n as nat));
        }
    }
}

fn push_square(out: &mut String, x: usize, y: usize, p: usize)
    ensures
        final(out)@ == old(out)@ + square(x as nat, y as nat, p as nat),
{
    let ghost start = out@;
    out.append("M");
    push_decimal(out, x);
    out.append(" ");
    push_decimal(out, y);
    out.append("h");
    push_decimal(out, p);
    out.append("v");
    push_decimal(out, p);
    out.append("H");
    push_decimal(out, x);
    out.append("V");
    push_decimal(out, y);
    assert(out@ =~= start + square(x as nat, y as nat, p as nat));
}

/// Returns an SVG document of side `size` that draws `qr` with a quiet zone
/// around it, with an escaped `description` (a default one for `None`, none for
/// an empty text).
pub fn to_svg_to_string_inner(qr: &QrCode, size: usize, description: Option<&str>) -> (r: Result<String, QRCodeError>)
    ensures
        point_size(qr_width(*qr), size as int) == 0 ==> r matches Err(QRCodeError::ImageSizeTooSmall),
        r matches Err(e) ==> e is ImageSizeTooSmall,
        r is Ok <==> size >= qr_width(*qr) + 2,
        r matches Ok(s) ==> s@ == svg_text(*qr, size as nat, opt_view(description)),
        point_size(qr_width(*qr), size as int) > 0 ==> (r matches Ok(s) && s@ == svg_text(
            *qr,
            size as nat,
            opt_view(description),
        )),
{
    let w = qr.size() as usize;
    proof {
        crate::render::lemma_point_size_positive(w as int, size as int);
    }
    let point = size / (w + 2);
    if point == 0 {
        return Err(QRCodeError::ImageSizeTooSmall);
    }
    proof {
        crate::render::lemma_symbol_fits(size as int, w as int);
    }
    let m = (size - point * w) / 2;
    let mut out = String::new();
    out.append("<?xml version=\"1.0\" encoding=\"UTF-8\"?>\n<svg width=\"");
    push_decimal(&mut out, size);
    out.append("\" height=\"");
    push_decimal(&mut out, size);
    out.append("\" shape-rendering=\"crispEdges\" version=\"1.1\" xmlns=\"http://www.w3.org/2000/svg\">\n");
    assert(out@ =~= svg_head(size as nat));
    match description {
        None => {
            out.append("\t<desc>qrcode_generator 0.1.0 by magiclen.org</desc>\n");
        },
        Some(d) => {
            if !d.is_empty() {
                out.append("\t<desc>");
                let escaped = escape_html(d);
                out.append(escaped.as_str());
                out.append("</desc>\n");
            }
        },
    }
    assert(out@ =~= svg_head(size as nat) + svg_desc(opt_view(description)));
    out.append("\t<rect width=\"");
    push_decimal(&mut out, size);
    out.append("\" height=\"");
    push_decimal(&mut out, size);
    out.append("\" fill=\"#FFF\"/>\n\t<path d=\"");
    let ghost prefix = svg_head(size as nat) + svg_desc(opt_view(description)) + svg_background(size as nat);
    assert(out@ =~= prefix);
    let ghost rows = svg_rows(*qr, size as nat);
    let ghost lines = rows.map_values(|row: Seq<Seq<char>>| row.flatten());
    let mut i: usize = 0;
    while i < w
        invariant
            i <= w,
            w == qr_width(*qr),
            21 <= w <= 177,
            point == point_size(w as int, size as int),
            point > 0,
            point * w <= size,
            m == margin(w as int, size as int),
            rows == svg_rows(*qr, size as nat),
            lines == rows.map_values(|row: Seq<Seq<char>>| row.flatten()),
            out@ == prefix + lines.take(i as int).flatten(),
        decreases w - i,
    {
        let ghost before_row = out@;
        let mut j: usize = 0;
        while j < w
            invariant
                j <= w,
                i < w,
                w == qr_width(*qr),
                21 <= w <= 177,
                point == point_size(w as int, size as int),
                point > 0,
                point * w <= size,
                m == margin(w as int, size as int),
                rows == svg_rows(*qr, size as nat),
                out@ == before_row + rows[i as int].take(j as int).flatten(),
            decreases w - j,
        {
            let ghost before = out@;
            assert(j * point + m <= size && i * point + m <= size) by (nonlinear_arith)
                requires
                    j < w,
                    i < w,
                    point * w <= size,
                    m == (size - point * w) / 2,
            ;
            if qr.get_module(j as i32, i as i32) {
                push_square(&mut out, j * point + m, i * point + m, point);
            }
            proof {
                assert(rows[i as int].take(j + 1) =~= rows[i as int].take(j as int).push(rows[i as int][j as int]));
                rows[i as int].take(j as int).lemma_flatten_push(rows[i as int][j as int]);
                assert(out@ =~= before_row + rows[i as int].take(j + 1).flatten());
            }
            j = j + 1;
        }
        proof {
            assert(rows[i as int].take(w as int) =~= rows[i as int]);
            assert(lines[i as int] == rows[i as int].flatten());
            assert(lines.take(i + 1) =~= lines.take(i as int).push(lines[i as int]));
            lines.take(i as int).lemma_flatten_push(lines[i as int]);
            assert(out@ =~= prefix + lines.take(i + 1).flatten());
        }
        i = i + 1;
    }
    out.append("\"/>\n</svg>");
    assert(lines.take(w as int) =~= lines);
    assert(out@ =~= svg_text(*qr, size as nat, opt_view(description)));
    Ok(out)
}

} // verus!

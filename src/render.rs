use vstd::prelude::*;

use qrcodegen::QrCode;

use crate::encoder::{qr_modules, qr_width};
use crate::error::QRCodeError;

verus! {

/// Images must have a side below this many pixels.
pub const IMAGE_SIZE_LIMIT: u64 = 0x1_0000_0000;

/// The side, in pixels, of one module in an image of side `size` of a symbol of
/// side `w`: the symbol and a quiet zone of one module on each side fit the image.
pub open spec fn point_size(w: int, size: int) -> int {
    size / (w + 2)
}

/// The offset, in pixels, of the symbol from the top and left edges of the image,
/// which centers it.
pub open spec fn margin(w: int, size: int) -> int {
    (size - point_size(w, size) * w) / 2
}

/// The pixel at column `px` and row `py` of an image of side `size` lies on a
/// dark module of the symbol of side `w` with the given modules, row after row.
pub open spec fn pixel_dark_in(w: int, modules: Seq<bool>, size: int, px: int, py: int) -> bool {
    let ps = point_size(w, size);
    let m = margin(w, size);
    m <= px < m + ps * w && m <= py < m + ps * w && modules[((py - m) / ps) * w + (px - m) / ps]
}

/// The pixel at column `px` and row `py` of an image of side `size` lies on a dark module of `qr`.
pub open spec fn pixel_dark(qr: QrCode, size: int, px: int, py: int) -> bool {
    pixel_dark_in(qr_width(qr), qr_modules(qr), size, px, py)
}

/// The rows of an 8-bit grayscale image of side `size` of the symbol of side `w`
/// with the given modules: 0 on dark modules, 255 elsewhere.
pub open spec fn image_rows_of(w: int, modules: Seq<bool>, size: int) -> Seq<Seq<u8>> {
    Seq::new(
        size as nat,
        |py: int|
            Seq::new(
                size as nat,
                |px: int|
                    if pixel_dark_in(w, modules, size, px, py) {
                        0u8
                    } else {
                        255u8
                    },
            ),
    )
}

/// The rows of an 8-bit grayscale image of side `size` of `qr`.
pub open spec fn image_rows(qr: QrCode, size: int) -> Seq<Seq<u8>> {
    image_rows_of(qr_width(qr), qr_modules(qr), size)
}

proof fn lemma_module_in_grid(px: int, m: int, ps: int, w: int)
    requires
        m <= px < m + ps * w,
        ps > 0,
        0 < w,
    ensures
        0 <= (px - m) / ps < w,
{
    assert(0 <= (px - m) / ps < w) by (nonlinear_arith)
        requires
            0 <= px - m < ps * w,
            ps > 0,
    ;
}

pub proof fn lemma_symbol_fits(size: int, w: int)
    requires
        0 <= size,
        0 < w,
    ensures
        point_size(w, size) * w <= size,
{
    assert((size / (w + 2)) * w <= size) by (nonlinear_arith)
        requires
            0 <= size,
            0 < w,
    ;
}

/// An image has room for each module exactly when its side is at least the
/// symbol's side plus the two quiet-zone modules.
pub proof fn lemma_point_size_positive(w: int, size: int)
    requires
        0 <= size,
        0 < w,
    ensures
        point_size(w, size) >= 0,
        point_size(w, size) > 0 <==> size >= w + 2,
{
    assert(size / (w + 2) >= 0 && (size / (w + 2) > 0 <==> size >= w + 2)) by (nonlinear_arith)
        requires
            0 <= size,
            0 < w,
    ;
}

/// Returns an 8-bit grayscale image of side `size`, row after row, of `qr`
/// with a quiet zone around it: 0 for dark pixels and 255 for light ones.
pub fn to_image_inner(qr: &QrCode, size: usize) -> (r: Result<Vec<u8>, QRCodeError>)
    ensures
        size >= IMAGE_SIZE_LIMIT as int ==> r matches Err(QRCodeError::ImageSizeTooLarge),
        size < IMAGE_SIZE_LIMIT as int && point_size(qr_width(*qr), size as int) == 0 ==> r matches Err(
            QRCodeError::ImageSizeTooSmall,
        ),
        size < IMAGE_SIZE_LIMIT as int && point_size(qr_width(*qr), size as int) > 0 ==> (r matches Ok(img)
            && img@ == image_rows(*qr, size as int).flatten()),
        r matches Err(e) ==> e is ImageSizeTooLarge || e is ImageSizeTooSmall,
        size < IMAGE_SIZE_LIMIT as int ==> (r is Ok <==> size >= qr_width(*qr) + 2),
        size < IMAGE_SIZE_LIMIT as int && size < qr_width(*qr) + 2 ==> r matches Err(QRCodeError::ImageSizeTooSmall),
        r is Ok ==> 23 <= size,
        r matches Ok(img) ==> img@.len() == size * size && size < IMAGE_SIZE_LIMIT as int && img@ == image_rows(
            *qr,
            size as int,
        ).flatten(),
{
    if size as u64 >= IMAGE_SIZE_LIMIT {
        return Err(QRCodeError::ImageSizeTooLarge);
    }
    let w = qr.size() as usize;
    proof {
        lemma_point_size_positive(w as int, size as int);
    }
    let point = size / (w + 2);
    if point == 0 {
        return Err(QRCodeError::ImageSizeTooSmall);
    }
    proof {
        lemma_symbol_fits(size as int, w as int);
    }
    let m = (size - point * w) / 2;
    let ghost rows = image_rows(*qr, size as int);
    let mut img: Vec<u8> = Vec::new();
    let mut py: usize = 0;
    while py < size
        invariant
            py <= size,
            size < IMAGE_SIZE_LIMIT as int,
            w == qr_width(*qr),
            21 <= w <= 177,
            point == point_size(w as int, size as int),
            point > 0,
            point * w <= size,
            m == margin(w as int, size as int),
            rows == image_rows(*qr, size as int),
            img@ == rows.take(py as int).flatten(),
            img@.len() == py * size,
        decreases size - py,
    {
        let mut row: Vec<u8> = Vec::new();
        let mut px: usize = 0;
        while px < size
            invariant
                px <= size,
                py < size,
                size < IMAGE_SIZE_LIMIT as int,
                w == qr_width(*qr),
                21 <= w <= 177,
                point == point_size(w as int, size as int),
                point > 0,
                point * w <= size,
                m == margin(w as int, size as int),
                rows == image_rows(*qr, size as int),
                row@ == rows[py as int].take(px as int),
            decreases size - px,
        {
            let inside = m <= px && px < m + point * w && m <= py && py < m + point * w;
            let dark = if inside {
                proof {
                    lemma_module_in_grid(px as int, m as int, point as int, w as int);
                    lemma_module_in_grid(py as int, m as int, point as int, w as int);
                }
                qr.get_module(((px - m) / point) as i32, ((py - m) / point) as i32)
            } else {
                false
            };
            assert(dark == pixel_dark(*qr, size as int, px as int, py as int));
            row.push(if dark { 0u8 } else { 255u8 });
            assert(row@ =~= rows[py as int].take(px + 1));
            px = px + 1;
        }
        assert(row@ =~= rows[py as int]);
        proof {
            assert(rows.take(py + 1) =~= rows.take(py as int).push(rows[py as int]));
            rows.take(py as int).lemma_flatten_push(rows[py as int]);
        }
        let mut row = row;
        img.append(&mut row);
        assert((py + 1) * size == py * size + size) by (nonlinear_arith);
        py = py + 1;
    }
    assert(rows.take(size as int) =~= rows);
    Ok(img)
}

} // verus!

use vstd::prelude::*;
use vstd::utf8::{decode_utf8, valid_utf8};

use qrcodegen::{QrCode, QrSegment};

use crate::ecc::EccLevel;
use crate::encoder::{
    data_fits, data_segments, generate_qrcode, generate_qrcode_from_segments, generate_qrcode_from_str,
    generate_qrcode_optimized, plain_of, plain_version_from, qr_modules, qr_symbol, qr_width,
    text_segments, to_matrix_inner,
};
use crate::error::QRCodeError;
use crate::optimizer::{chosen_version, optimized_segments};
use crate::png::{png_of, to_png_to_vec_inner};
use crate::render::{image_rows_of, to_image_inner, IMAGE_SIZE_LIMIT};
use crate::svg::{opt_view, svg_text_of, to_svg_to_string_inner};

verus! {

/// `m` holds the modules of a symbol of side `side`, given row after row in
/// `modules`, as rows of columns.
pub open spec fn is_grid(m: Seq<Vec<bool>>, side: int, modules: Seq<bool>) -> bool {
    &&& m.len() == side
    &&& forall|y: int| 0 <= y < m.len() ==> #[trigger] m[y]@.len() == side
    &&& forall|y: int, x: int| 0 <= y < side && 0 <= x < side ==> #[trigger] m[y]@[x] == modules[y * side + x]
}

/// The side of the symbol that encodes `data` at level `ecc`.
pub open spec fn data_side(data: Seq<u8>, ecc: EccLevel) -> int {
    4 * plain_version_from(data_segments(data, ecc), ecc, 1) + 17
}

/// The modules of the symbol that encodes `data` at level `ecc`.
pub open spec fn data_symbol(data: Seq<u8>, ecc: EccLevel) -> Seq<bool> {
    qr_symbol(data_segments(data, ecc), ecc.spec_ordinal() as int)
}

/// The side of the symbol that encodes `text` at level `ecc`.
pub open spec fn text_side(text: Seq<char>, ecc: EccLevel) -> int {
    4 * plain_version_from(text_segments(text, ecc), ecc, 1) + 17
}

/// The modules of the symbol that encodes `text` at level `ecc`.
pub open spec fn text_symbol(text: Seq<char>, ecc: EccLevel) -> Seq<bool> {
    qr_symbol(text_segments(text, ecc), ecc.spec_ordinal() as int)
}

/// The side of the symbol that encodes `segments` at level `ecc`.
pub open spec fn segments_side(segments: Seq<QrSegment>, ecc: EccLevel) -> int {
    4 * plain_version_from(plain_of(segments), ecc, 1) + 17
}

/// The modules of the symbol that encodes `segments` at level `ecc`.
pub open spec fn segments_symbol(segments: Seq<QrSegment>, ecc: EccLevel) -> Seq<bool> {
    qr_symbol(plain_of(segments), ecc.spec_ordinal() as int)
}

/// Valid UTF-8 data is encoded exactly as its text: the same side and the same
/// modules, so `to_matrix` on it agrees with `to_matrix_from_str`.
pub proof fn lemma_utf8_data_is_text(data: Seq<u8>, ecc: EccLevel)
    requires
        valid_utf8(data),
    ensures
        data_fits(data, ecc) == (optimized_segments(decode_utf8(data), ecc) is Some),
        data_side(data, ecc) == text_side(decode_utf8(data), ecc),
        data_symbol(data, ecc) == text_symbol(decode_utf8(data), ecc),
{
}

fn matrix_result(code: Result<QrCode, QRCodeError>) -> (r: Result<Vec<Vec<bool>>, QRCodeError>)
    requires
        code matches Err(e) ==> e is DataTooLong,
    ensures
        r matches Err(e) ==> e is DataTooLong,
        r is Ok <==> code is Ok,
        code matches Ok(qr) ==> (r matches Ok(m) && is_grid(m@, qr_width(qr), qr_modules(qr))),
{
    match code {
        Ok(qr) => {
            let m = to_matrix_inner(&qr);
            let r = Ok(m);
            assert(r matches Ok(mm) ==> is_grid(mm@, qr_width(qr), qr_modules(qr)));
            r
        },
        Err(e) => Err(e),
    }
}

fn image_result(code: Result<QrCode, QRCodeError>, size: usize) -> (r: Result<Vec<u8>, QRCodeError>)
    requires
        code matches Err(e) ==> e is DataTooLong,
    ensures
        r matches Err(e) ==> e is DataTooLong || e is ImageSizeTooSmall || e is ImageSizeTooLarge,
        code is Err ==> r matches Err(QRCodeError::DataTooLong),
        code is Ok && size >= IMAGE_SIZE_LIMIT as int ==> r matches Err(QRCodeError::ImageSizeTooLarge),
        code matches Ok(qr) ==> (size < IMAGE_SIZE_LIMIT as int ==> (r is Ok <==> size >= qr_width(qr) + 2)),
        code matches Ok(qr) ==> (size < IMAGE_SIZE_LIMIT as int && size < qr_width(qr) + 2 ==> r matches Err(
            QRCodeError::ImageSizeTooSmall,
        )),
        code matches Ok(qr) ==> (r matches Ok(img) ==> img@ == image_rows_of(qr_width(qr), qr_modules(qr), size as int).flatten()),
{
    match code {
        Ok(qr) => to_image_inner(&qr, size),
        Err(e) => Err(e),
    }
}

fn svg_result(code: Result<QrCode, QRCodeError>, size: usize, description: Option<&str>) -> (r: Result<String, QRCodeError>)
    requires
        code matches Err(e) ==> e is DataTooLong,
    ensures
        r matches Err(e) ==> e is DataTooLong || e is ImageSizeTooSmall,
        code is Err ==> r matches Err(QRCodeError::DataTooLong),
        code matches Ok(qr) ==> (r is Ok <==> size >= qr_width(qr) + 2),
        code is Ok ==> (r matches Err(e) ==> e is ImageSizeTooSmall),
        code matches Ok(qr) ==> (r matches Ok(s) ==> s@ == svg_text_of(qr_width(qr), qr_modules(qr), size as nat, opt_view(description))),
{
    match code {
        Ok(qr) => to_svg_to_string_inner(&qr, size, description),
        Err(e) => Err(e),
    }
}

fn png_result(code: Result<QrCode, QRCodeError>, size: usize) -> (r: Result<Vec<u8>, QRCodeError>)
    requires
        code matches Err(e) ==> e is DataTooLong,
    ensures
        r matches Err(e) ==> e is DataTooLong || e is ImageSizeTooSmall || e is ImageSizeTooLarge || e is ImageError,
        code is Err ==> r matches Err(QRCodeError::DataTooLong),
        code is Ok && size >= IMAGE_SIZE_LIMIT as int ==> r matches Err(QRCodeError::ImageSizeTooLarge),
        code matches Ok(qr) ==> (size < IMAGE_SIZE_LIMIT as int ==> (r is Ok <==> size >= qr_width(qr) + 2)),
        code matches Ok(qr) ==> (size < IMAGE_SIZE_LIMIT as int && size < qr_width(qr) + 2 ==> r matches Err(
            QRCodeError::ImageSizeTooSmall,
        )),
        code matches Ok(qr) ==> (r matches Ok(png) ==> png@ == png_of(
            image_rows_of(qr_width(qr), qr_modules(qr), size as int).flatten(),
            size as int,
        )),
{
    match code {
        Ok(qr) => to_png_to_vec_inner(&qr, size),
        Err(e) => Err(e),
    }
}

/// Encodes data (valid UTF-8 as optimally segmented text, anything else as one byte segment) to a QR Code matrix.
pub fn to_matrix(data: &[u8], ecc: EccLevel) -> (r: Result<Vec<Vec<bool>>, QRCodeError>)
    ensures
        r matches Err(e) ==> e is DataTooLong,
        r is Ok <==> data_fits(data@, ecc),
        r matches Ok(m) ==> is_grid(m@, data_side(data@, ecc), data_symbol(data@, ecc)),
        r matches Ok(m) ==> 21 <= m@.len() && (valid_utf8(data@) ==> m@.len() <= 4 * chosen_version(decode_utf8(data@), ecc) + 17),
{
    matrix_result(generate_qrcode(data, ecc))
}

/// Encodes data (valid UTF-8 as optimally segmented text, anything else as one byte segment) to a raw 8-bit grayscale image of side `size`, row after row.
pub fn to_image(data: &[u8], ecc: EccLevel, size: usize) -> (r: Result<Vec<u8>, QRCodeError>)
    ensures
        r matches Err(e) ==> e is DataTooLong || e is ImageSizeTooSmall || e is ImageSizeTooLarge,
        !(data_fits(data@, ecc)) ==> r matches Err(QRCodeError::DataTooLong),
        data_fits(data@, ecc) && size >= IMAGE_SIZE_LIMIT as int ==> r matches Err(QRCodeError::ImageSizeTooLarge),
        data_fits(data@, ecc) && size < IMAGE_SIZE_LIMIT as int ==> (r is Ok <==> size >= data_side(data@, ecc) + 2),
        data_fits(data@, ecc) && size < IMAGE_SIZE_LIMIT as int && size < data_side(data@, ecc) + 2 ==> r matches Err(QRCodeError::ImageSizeTooSmall),
        r matches Ok(img) ==> img@ == image_rows_of(data_side(data@, ecc), data_symbol(data@, ecc), size as int).flatten(),
{
    image_result(generate_qrcode(data, ecc), size)
}

/// Encodes data (valid UTF-8 as optimally segmented text, anything else as one byte segment) to an SVG document of side `size`.
pub fn to_svg_to_string(data: &[u8], ecc: EccLevel, size: usize, description: Option<&str>) -> (r: Result<String, QRCodeError>)
    ensures
        r matches Err(e) ==> e is DataTooLong || e is ImageSizeTooSmall,
        !(data_fits(data@, ecc)) ==> r matches Err(QRCodeError::DataTooLong),
        data_fits(data@, ecc) ==> (r is Ok <==> size >= data_side(data@, ecc) + 2),
        data_fits(data@, ecc) && size < data_side(data@, ecc) + 2 ==> r matches Err(QRCodeError::ImageSizeTooSmall),
        r matches Ok(s) ==> s@ == svg_text_of(data_side(data@, ecc), data_symbol(data@, ecc), size as nat, opt_view(description)),
{
    svg_result(generate_qrcode(data, ecc), size, description)
}

/// Encodes data (valid UTF-8 as optimally segmented text, anything else as one byte segment) to a PNG file of side `size`.
pub fn to_png_to_vec(data: &[u8], ecc: EccLevel, size: usize) -> (r: Result<Vec<u8>, QRCodeError>)
    ensures
        r matches Err(e) ==> e is DataTooLong || e is ImageSizeTooSmall || e is ImageSizeTooLarge || e is ImageError,
        !(data_fits(data@, ecc)) ==> r matches Err(QRCodeError::DataTooLong),
        data_fits(data@, ecc) && size >= IMAGE_SIZE_LIMIT as int ==> r matches Err(QRCodeError::ImageSizeTooLarge),
        data_fits(data@, ecc) && size < IMAGE_SIZE_LIMIT as int ==> (r is Ok <==> size >= data_side(data@, ecc) + 2),
        data_fits(data@, ecc) && size < IMAGE_SIZE_LIMIT as int && size < data_side(data@, ecc) + 2 ==> r matches Err(QRCodeError::ImageSizeTooSmall),
        r matches Ok(png) ==> png@ == png_of(image_rows_of(data_side(data@, ecc), data_symbol(data@, ecc), size as int).flatten(), size as int),
{
    png_result(generate_qrcode(data, ecc), size)
}

/// Encodes text through optimally chosen segments to a QR Code matrix.
pub fn to_matrix_from_str(text: &str, ecc: EccLevel) -> (r: Result<Vec<Vec<bool>>, QRCodeError>)
    ensures
        r matches Err(e) ==> e is DataTooLong,
        r is Ok <==> optimized_segments(text@, ecc) is Some,
        r matches Ok(m) ==> is_grid(m@, text_side(text@, ecc), text_symbol(text@, ecc)),
        r matches Ok(m) ==> 21 <= m@.len() <= 4 * chosen_version(text@, ecc) + 17,
{
    matrix_result(generate_qrcode_from_str(text, ecc))
}

/// Encodes text through optimally chosen segments to a raw 8-bit grayscale image of side `size`, row after row.
pub fn to_image_from_str(text: &str, ecc: EccLevel, size: usize) -> (r: Result<Vec<u8>, QRCodeError>)
    ensures
        r matches Err(e) ==> e is DataTooLong || e is ImageSizeTooSmall || e is ImageSizeTooLarge,
        !(optimized_segments(text@, ecc) is Some) ==> r matches Err(QRCodeError::DataTooLong),
        optimized_segments(text@, ecc) is Some && size >= IMAGE_SIZE_LIMIT as int ==> r matches Err(QRCodeError::ImageSizeTooLarge),
        optimized_segments(text@, ecc) is Some && size < IMAGE_SIZE_LIMIT as int ==> (r is Ok <==> size >= text_side(text@, ecc) + 2),
        optimized_segments(text@, ecc) is Some && size < IMAGE_SIZE_LIMIT as int && size < text_side(text@, ecc) + 2 ==> r matches Err(QRCodeError::ImageSizeTooSmall),
        r matches Ok(img) ==> img@ == image_rows_of(text_side(text@, ecc), text_symbol(text@, ecc), size as int).flatten(),
{
    image_result(generate_qrcode_from_str(text, ecc), size)
}

/// Encodes text through optimally chosen segments to an SVG document of side `size`.
pub fn to_svg_to_string_from_str(text: &str, ecc: EccLevel, size: usize, description: Option<&str>) -> (r: Result<String, QRCodeError>)
    ensures
        r matches Err(e) ==> e is DataTooLong || e is ImageSizeTooSmall,
        !(optimized_segments(text@, ecc) is Some) ==> r matches Err(QRCodeError::DataTooLong),
        optimized_segments(text@, ecc) is Some ==> (r is Ok <==> size >= text_side(text@, ecc) + 2),
        optimized_segments(text@, ecc) is Some && size < text_side(text@, ecc) + 2 ==> r matches Err(QRCodeError::ImageSizeTooSmall),
        r matches Ok(s) ==> s@ == svg_text_of(text_side(text@, ecc), text_symbol(text@, ecc), size as nat, opt_view(description)),
{
    svg_result(generate_qrcode_from_str(text, ecc), size, description)
}

/// Encodes text through optimally chosen segments to a PNG file of side `size`.
pub fn to_png_to_vec_from_str(text: &str, ecc: EccLevel, size: usize) -> (r: Result<Vec<u8>, QRCodeError>)
    ensures
        r matches Err(e) ==> e is DataTooLong || e is ImageSizeTooSmall || e is ImageSizeTooLarge || e is ImageError,
        !(optimized_segments(text@, ecc) is Some) ==> r matches Err(QRCodeError::DataTooLong),
        optimized_segments(text@, ecc) is Some && size >= IMAGE_SIZE_LIMIT as int ==> r matches Err(QRCodeError::ImageSizeTooLarge),
        optimized_segments(text@, ecc) is Some && size < IMAGE_SIZE_LIMIT as int ==> (r is Ok <==> size >= text_side(text@, ecc) + 2),
        optimized_segments(text@, ecc) is Some && size < IMAGE_SIZE_LIMIT as int && size < text_side(text@, ecc) + 2 ==> r matches Err(QRCodeError::ImageSizeTooSmall),
        r matches Ok(png) ==> png@ == png_of(image_rows_of(text_side(text@, ecc), text_symbol(text@, ecc), size as int).flatten(), size as int),
{
    png_result(generate_qrcode_from_str(text, ecc), size)
}

/// Encodes segments, in the smallest version that holds them to a QR Code matrix.
pub fn to_matrix_from_segments(segments: &[QrSegment], ecc: EccLevel) -> (r: Result<Vec<Vec<bool>>, QRCodeError>)
    ensures
        r matches Err(e) ==> e is DataTooLong,
        r is Ok <==> plain_version_from(plain_of(segments@), ecc, 1) != 0,
        r matches Ok(m) ==> is_grid(m@, segments_side(segments@, ecc), segments_symbol(segments@, ecc)),
        r matches Ok(m) ==> 21 <= m@.len(),
{
    matrix_result(generate_qrcode_from_segments(segments, ecc))
}

/// Encodes segments, in the smallest version that holds them to a raw 8-bit grayscale image of side `size`, row after row.
pub fn to_image_from_segments(segments: &[QrSegment], ecc: EccLevel, size: usize) -> (r: Result<Vec<u8>, QRCodeError>)
    ensures
        r matches Err(e) ==> e is DataTooLong || e is ImageSizeTooSmall || e is ImageSizeTooLarge,
        !(plain_version_from(plain_of(segments@), ecc, 1) != 0) ==> r matches Err(QRCodeError::DataTooLong),
        plain_version_from(plain_of(segments@), ecc, 1) != 0 && size >= IMAGE_SIZE_LIMIT as int ==> r matches Err(QRCodeError::ImageSizeTooLarge),
        plain_version_from(plain_of(segments@), ecc, 1) != 0 && size < IMAGE_SIZE_LIMIT as int ==> (r is Ok <==> size >= segments_side(segments@, ecc) + 2),
        plain_version_from(plain_of(segments@), ecc, 1) != 0 && size < IMAGE_SIZE_LIMIT as int && size < segments_side(segments@, ecc) + 2 ==> r matches Err(QRCodeError::ImageSizeTooSmall),
        r matches Ok(img) ==> img@ == image_rows_of(segments_side(segments@, ecc), segments_symbol(segments@, ecc), size as int).flatten(),
{
    image_result(generate_qrcode_from_segments(segments, ecc), size)
}

/// Encodes segments, in the smallest version that holds them to an SVG document of side `size`.
pub fn to_svg_to_string_from_segments(segments: &[QrSegment], ecc: EccLevel, size: usize, description: Option<&str>) -> (r: Result<String, QRCodeError>)
    ensures
        r matches Err(e) ==> e is DataTooLong || e is ImageSizeTooSmall,
        !(plain_version_from(plain_of(segments@), ecc, 1) != 0) ==> r matches Err(QRCodeError::DataTooLong),
        plain_version_from(plain_of(segments@), ecc, 1) != 0 ==> (r is Ok <==> size >= segments_side(segments@, ecc) + 2),
        plain_version_from(plain_of(segments@), ecc, 1) != 0 && size < segments_side(segments@, ecc) + 2 ==> r matches Err(QRCodeError::ImageSizeTooSmall),
        r matches Ok(s) ==> s@ == svg_text_of(segments_side(segments@, ecc), segments_symbol(segments@, ecc), size as nat, opt_view(description)),
{
    svg_result(generate_qrcode_from_segments(segments, ecc), size, description)
}

/// Encodes segments, in the smallest version that holds them to a PNG file of side `size`.
pub fn to_png_to_vec_from_segments(segments: &[QrSegment], ecc: EccLevel, size: usize) -> (r: Result<Vec<u8>, QRCodeError>)
    ensures
        r matches Err(e) ==> e is DataTooLong || e is ImageSizeTooSmall || e is ImageSizeTooLarge || e is ImageError,
        !(plain_version_from(plain_of(segments@), ecc, 1) != 0) ==> r matches Err(QRCodeError::DataTooLong),
        plain_version_from(plain_of(segments@), ecc, 1) != 0 && size >= IMAGE_SIZE_LIMIT as int ==> r matches Err(QRCodeError::ImageSizeTooLarge),
        plain_version_from(plain_of(segments@), ecc, 1) != 0 && size < IMAGE_SIZE_LIMIT as int ==> (r is Ok <==> size >= segments_side(segments@, ecc) + 2),
        plain_version_from(plain_of(segments@), ecc, 1) != 0 && size < IMAGE_SIZE_LIMIT as int && size < segments_side(segments@, ecc) + 2 ==> r matches Err(QRCodeError::ImageSizeTooSmall),
        r matches Ok(png) ==> png@ == png_of(image_rows_of(segments_side(segments@, ecc), segments_symbol(segments@, ecc), size as int).flatten(), size as int),
{
    png_result(generate_qrcode_from_segments(segments, ecc), size)
}

/// Encodes a sequence of characters to a QR Code matrix through optimally chosen segments.
pub fn to_matrix_optimized(text: &[char], ecc: EccLevel) -> (r: Result<Vec<Vec<bool>>, QRCodeError>)
    ensures
        r matches Err(e) ==> e is DataTooLong,
        r is Ok <==> optimized_segments(text@, ecc) is Some,
        r matches Ok(m) ==> is_grid(m@, text_side(text@, ecc), text_symbol(text@, ecc)),
        r matches Ok(m) ==> 21 <= m@.len() <= 4 * chosen_version(text@, ecc) + 17,
{
    matrix_result(generate_qrcode_optimized(text, ecc))
}

} // verus!

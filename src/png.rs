use vstd::prelude::*;

use image::ImageEncoder;
use qrcodegen::QrCode;

use crate::encoder::qr_width;
use crate::error::QRCodeError;
use crate::render::{image_rows, point_size, to_image_inner, IMAGE_SIZE_LIMIT};

verus! {

/// The PNG file that image's encoder writes for an 8-bit grayscale image of side
/// `side` with the given pixels, at best compression and without filtering. The
/// encoder's filtering and deflate steps follow fixed rules with no randomness,
/// clock or machine input, so the bytes depend on the pixels and the side alone.
pub uninterp spec fn png_of(pixels: Seq<u8>, side: int) -> Seq<u8>;

/// Relies on image::codecs::png::PngEncoder::write_image: it writes the pixels
/// as an 8-bit grayscale PNG, and panics unless there are `side * side` of them.
/// The png encoder rejects only a zero width or height, and writing to a `Vec`
/// does not fail.
#[verifier::external_body]
fn encode_png(pixels: &[u8], side: u32) -> (r: Result<Vec<u8>, image::ImageError>)
    requires
        pixels@.len() == side * side,
    ensures
        0 < side ==> r is Ok,
        r matches Ok(png) ==> png@ == png_of(pixels@, side as int),
{
    let mut png: Vec<u8> = Vec::with_capacity(4096);
    let encoder = image::codecs::png::PngEncoder::new_with_quality(
        &mut png,
        image::codecs::png::CompressionType::Best,
        image::codecs::png::FilterType::NoFilter,
    );
    match encoder.write_image(pixels, side, side, image::ExtendedColorType::L8) {
        Ok(()) => Ok(png),
        Err(e) => Err(e),
    }
}

/// Returns a PNG file of side `size` that draws `qr` as `to_image_inner` does.
pub fn to_png_to_vec_inner(qr: &QrCode, size: usize) -> (r: Result<Vec<u8>, QRCodeError>)
    ensures
        size >= IMAGE_SIZE_LIMIT as int ==> r matches Err(QRCodeError::ImageSizeTooLarge),
        size < IMAGE_SIZE_LIMIT as int && point_size(qr_width(*qr), size as int) == 0 ==> r matches Err(
            QRCodeError::ImageSizeTooSmall,
        ),
        r matches Err(e) ==> e is ImageSizeTooLarge || e is ImageSizeTooSmall || e is ImageError,
        size < IMAGE_SIZE_LIMIT as int ==> (r is Ok <==> size >= qr_width(*qr) + 2),
        size < IMAGE_SIZE_LIMIT as int && size < qr_width(*qr) + 2 ==> r matches Err(QRCodeError::ImageSizeTooSmall),
        r matches Ok(png) ==> png@ == png_of(image_rows(*qr, size as int).flatten(), size as int),
{
    let img = match to_image_inner(qr, size) {
        Ok(img) => img,
        Err(e) => return Err(e),
    };
    match encode_png(img.as_slice(), size as u32) {
        Ok(png) => Ok(png),
        Err(e) => Err(QRCodeError::ImageError(e)),
    }
}

} // verus!

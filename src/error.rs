use vstd::prelude::*;
use vstd::string::StringExecFns;

verus! {

/// std's I/O error, carried by `QRCodeError::IOError`.
#[verifier::external_type_specification]
#[verifier::external_body]
pub struct ExIoError(std::io::Error);

/// image's error, carried by `QRCodeError::ImageError`.
#[verifier::external_type_specification]
#[verifier::external_body]
pub struct ExImageError(image::ImageError);

/// Errors when encoding a QR Code.
#[derive(Debug)]
pub enum QRCodeError {
    /// The data fits no QR Code version at the requested level.
    DataTooLong,
    /// Writing the output failed.
    IOError(std::io::Error),
    /// The image encoder failed.
    ImageError(image::ImageError),
    /// The image is too small to draw each module with at least one pixel.
    ImageSizeTooSmall,
    /// The image side is too large for its pixels to be counted.
    ImageSizeTooLarge,
}

impl From<std::io::Error> for QRCodeError {
    fn from(error: std::io::Error) -> (r: QRCodeError)
        ensures
            r == QRCodeError::IOError(error),
    {
        QRCodeError::IOError(error)
    }
}

impl vstd::std_specs::convert::FromSpecImpl<std::io::Error> for QRCodeError {
    open spec fn obeys_from_spec() -> bool {
        true
    }

    open spec fn from_spec(v: std::io::Error) -> QRCodeError {
        QRCodeError::IOError(v)
    }
}

impl From<image::ImageError> for QRCodeError {
    fn from(error: image::ImageError) -> (r: QRCodeError)
        ensures
            r == QRCodeError::ImageError(error),
    {
        QRCodeError::ImageError(error)
    }
}

impl vstd::std_specs::convert::FromSpecImpl<image::ImageError> for QRCodeError {
    open spec fn obeys_from_spec() -> bool {
        true
    }

    open spec fn from_spec(v: image::ImageError) -> QRCodeError {
        QRCodeError::ImageError(v)
    }
}

/// Relies on the `Display` impl of std::io::Error: its text.
#[verifier::external_body]
fn io_error_text(error: &std::io::Error) -> String {
    error.to_string()
}

/// Relies on the `Display` impl of image::ImageError: its text.
#[verifier::external_body]
fn image_error_text(error: &image::ImageError) -> String {
    error.to_string()
}

impl QRCodeError {
    /// Returns a description of the error; an I/O or image error describes itself.
    pub fn message(&self) -> (r: String)
        ensures
            self is DataTooLong ==> r@ == "the supplied data does not fit any QR Code version"@,
            self is ImageSizeTooSmall ==> r@ == "image size is too small to draw the whole QR code"@,
            self is ImageSizeTooLarge ==> r@ == "image size is too large to generate"@,
    {
        match self {
            QRCodeError::DataTooLong => String::from_str("the supplied data does not fit any QR Code version"),
            QRCodeError::IOError(error) => io_error_text(error),
            QRCodeError::ImageError(error) => image_error_text(error),
            QRCodeError::ImageSizeTooSmall => String::from_str("image size is too small to draw the whole QR code"),
            QRCodeError::ImageSizeTooLarge => String::from_str("image size is too large to generate"),
        }
    }
}

} // verus!

//! QR Code generation: optimal segmentation of text into QR character modes,
//! and rendering of QR Code symbols as module matrices, raw images, SVG and PNG.

pub mod api;
pub mod capacity;
pub mod ecc;
pub mod encoder;
pub mod error;
pub mod laws;
pub mod mode;
pub mod optimizer;
pub mod png;
pub mod render;
pub mod size_law;
pub mod svg;

pub use api::{
    to_image, to_image_from_segments, to_image_from_str, to_matrix, to_matrix_from_segments,
    to_matrix_from_str, to_matrix_optimized, to_png_to_vec, to_png_to_vec_from_segments,
    to_png_to_vec_from_str, to_svg_to_string, to_svg_to_string_from_segments,
    to_svg_to_string_from_str,
};
pub use ecc::EccLevel;
pub use error::QRCodeError;
pub use mode::SegmentMode;
pub use optimizer::{optimize_segments, Segment};
pub use qrcodegen::{QrCode, QrSegment};

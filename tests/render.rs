use qrcode_generator::render::to_image_inner;
use qrcode_generator::svg::push_decimal;
use qrcode_generator::{
    to_image, to_image_from_str, to_matrix_from_str, to_png_to_vec, to_png_to_vec_from_str,
    to_svg_to_string, to_svg_to_string_from_str, EccLevel, QRCodeError, QrCode,
};

#[test]
fn decimal_text() {
    let mut s = String::from("x");
    push_decimal(&mut s, 0);
    push_decimal(&mut s, 7);
    push_decimal(&mut s, 1024);
    assert_eq!(s, "x071024");
}

#[test]
fn matrix_from_str_is_square() {
    let m = to_matrix_from_str("Hello world!", EccLevel::Low).unwrap();
    assert_eq!(m.len(), 21);
    assert!(m.iter().all(|row| row.len() == 21));
    assert!(m[0][0] && m[0][6] && !m[0][7]);
}

#[test]
fn image_pixels() {
    let img = to_image("Hello world!".as_bytes(), EccLevel::Low, 23).unwrap();
    assert_eq!(img.len(), 23 * 23);
    assert_eq!(img[0], 255);
    assert_eq!(img[23 + 1], 0);
    assert_eq!(img[23 * 22 + 22], 255);
    let m = to_matrix_from_str("Hello world!", EccLevel::Low).unwrap();
    for y in 0..21 {
        for x in 0..21 {
            let expected = if m[y][x] { 0 } else { 255 };
            assert_eq!(img[(y + 1) * 23 + x + 1], expected);
        }
    }
}

#[test]
fn image_scaled() {
    let img = to_image_from_str("Hello world!", EccLevel::Low, 100).unwrap();
    assert_eq!(img.len(), 100 * 100);
    // point size 4, margin 8: module (0, 0) covers pixels 8..12
    assert_eq!(img[8 * 100 + 8], 0);
    assert_eq!(img[11 * 100 + 11], 0);
    assert_eq!(img[7 * 100 + 8], 255);
    assert_eq!(img[92 * 100 + 92], 255);
}

#[test]
fn image_too_small() {
    assert!(matches!(to_image("Hello world!".as_bytes(), EccLevel::Low, 22), Err(QRCodeError::ImageSizeTooSmall)));
    assert!(matches!(to_svg_to_string("Hello world!".as_bytes(), EccLevel::Low, 10, None), Err(QRCodeError::ImageSizeTooSmall)));
}

#[test]
fn image_too_large() {
    let qr = QrCode::encode_text("Hello world!", qrcodegen::QrCodeEcc::Low).unwrap();
    assert!(matches!(to_image_inner(&qr, 1usize << 32), Err(QRCodeError::ImageSizeTooLarge)));
}

#[test]
fn svg_document() {
    let svg = to_svg_to_string("Hello world!".as_bytes(), EccLevel::Low, 23, Some("")).unwrap();
    assert!(svg.starts_with("<?xml version=\"1.0\" encoding=\"UTF-8\"?>\n<svg width=\"23\" height=\"23\" shape-rendering=\"crispEdges\" version=\"1.1\" xmlns=\"http://www.w3.org/2000/svg\">\n\t<rect width=\"23\" height=\"23\" fill=\"#FFF\"/>\n\t<path d=\"M1 1h1v1H1V1M2 1h1v1H2V1"));
    assert!(svg.ends_with("\"/>\n</svg>"));
    assert!(!svg.contains("<desc>"));
}

#[test]
fn svg_description_escaped() {
    let svg = to_svg_to_string_from_str("Hello world!", EccLevel::Low, 256, Some("<a & 'b'/>")).unwrap();
    assert!(svg.contains("\t<desc>&lt;a &amp; &#x27;b&#x27;&#x2F;&gt;</desc>\n"));
    let svg = to_svg_to_string_from_str("Hello world!", EccLevel::Low, 256, None).unwrap();
    assert!(svg.contains("\t<desc>qrcode_generator 0.1.0 by magiclen.org</desc>\n"));
}

#[test]
fn png_signature() {
    let png = to_png_to_vec("Hello world!".as_bytes(), EccLevel::Low, 64).unwrap();
    assert_eq!(&png[..8], &[0x89, b'P', b'N', b'G', 0x0d, 0x0a, 0x1a, 0x0a]);
    let again = to_png_to_vec_from_str("Hello world!", EccLevel::Low, 64).unwrap();
    assert_eq!(png, again);
    assert!(matches!(to_png_to_vec_from_str("Hello world!", EccLevel::Low, 5), Err(QRCodeError::ImageSizeTooSmall)));
}

#[test]
fn io_error_converts() {
    let e: QRCodeError = std::io::Error::new(std::io::ErrorKind::Other, "x").into();
    assert!(matches!(e, QRCodeError::IOError(_)));
    assert!(e.message().contains('x'));
    assert_eq!(QRCodeError::DataTooLong.message(), "the supplied data does not fit any QR Code version");
}

#[test]
fn digits_are_encoded_as_text() {
    let m = qrcode_generator::to_matrix(&[b'7'; 100], EccLevel::Low).unwrap();
    assert_eq!(m.len(), 29);
    let binary = qrcode_generator::to_matrix(&[0xff; 100], EccLevel::Low).unwrap();
    assert_eq!(binary.len(), 37);
}

#[test]
fn level_changes_the_symbol() {
    let text = "abcdefghijklmnopqrstuvwxyzabcd";
    let low = to_matrix_from_str(text, EccLevel::Low).unwrap();
    let high = to_matrix_from_str(text, EccLevel::High).unwrap();
    assert_eq!(low.len(), 25);
    assert!(high.len() > low.len());
}

#[test]
fn text_path_is_optimized() {
    let m = to_matrix_from_str("1234567ABCDEFG", EccLevel::Low).unwrap();
    assert_eq!(m.len(), 21);
    let url = to_matrix_from_str("HTTPS://MAGICLEN.ORG/path/to/12345", EccLevel::Low).unwrap();
    assert_eq!(url.len(), 25);
    let same = qrcode_generator::to_matrix("HTTPS://MAGICLEN.ORG/path/to/12345".as_bytes(), EccLevel::Low).unwrap();
    assert_eq!(url, same);
}

#[test]
fn largest_text_at_high() {
    let fits = "0".repeat(3057);
    let m = to_matrix_from_str(&fits, EccLevel::High).unwrap();
    assert_eq!(m.len(), 177);
    let too_long = "0".repeat(3058);
    assert!(matches!(to_matrix_from_str(&too_long, EccLevel::High), Err(QRCodeError::DataTooLong)));
}

#[test]
fn largest_binary_at_high() {
    let m = qrcode_generator::to_matrix(&[0xff; 1273], EccLevel::High).unwrap();
    assert_eq!(m.len(), 177);
    assert!(matches!(qrcode_generator::to_matrix(&[0xff; 1274], EccLevel::High), Err(QRCodeError::DataTooLong)));
}

#[test]
fn segments_from_the_encoder() {
    let segs = [qrcodegen::QrSegment::make_numeric("1234567"), qrcodegen::QrSegment::make_alphanumeric("ABCDEFG")];
    let m = qrcode_generator::to_matrix_from_segments(&segs, EccLevel::Low).unwrap();
    assert_eq!(m.len(), 21);
}

use qrcode_generator::capacity::{data_codewords, raw_data_modules};
use qrcode_generator::encoder::to_qr_segments;
use qrcode_generator::mode::{char_utf8_len, is_alphanumeric, is_numeric};
use qrcode_generator::optimizer::{optimal_char_modes, total_bit_len};
use qrcode_generator::{
    optimize_segments, to_matrix, to_matrix_from_segments, to_matrix_optimized, EccLevel,
    QRCodeError, Segment, SegmentMode,
};

fn chars(s: &str) -> Vec<char> {
    s.chars().collect()
}

fn concat(segs: &[Segment]) -> String {
    segs.iter().flat_map(|s| s.chars.iter()).collect()
}

#[test]
fn classifier_sets() {
    for c in "0123456789".chars() {
        assert!(is_numeric(c));
        assert!(is_alphanumeric(c));
    }
    for c in "ABCDEFGHIJKLMNOPQRSTUVWXYZ $%*+-./:".chars() {
        assert!(!is_numeric(c));
        assert!(is_alphanumeric(c));
    }
    for c in "abz#!@,;<>\u{e9}\u{4e2d}".chars() {
        assert!(!is_alphanumeric(c));
    }
    let alnum = (0u32..0x110000).filter_map(char::from_u32).filter(|&c| is_alphanumeric(c)).count();
    assert_eq!(alnum, 45);
}

#[test]
fn utf8_lengths() {
    assert_eq!(char_utf8_len('a'), 1);
    assert_eq!(char_utf8_len('\u{e9}'), 2);
    assert_eq!(char_utf8_len('\u{4e2d}'), 3);
    assert_eq!(char_utf8_len('\u{1f600}'), 4);
}

#[test]
fn capacity_values() {
    assert_eq!(raw_data_modules(1), 208);
    assert_eq!(raw_data_modules(7), 1568);
    assert_eq!(raw_data_modules(40), 29648);
    assert_eq!(data_codewords(1, EccLevel::Low), 19);
    assert_eq!(data_codewords(1, EccLevel::High), 9);
    assert_eq!(data_codewords(10, EccLevel::Medium), 216);
    assert_eq!(data_codewords(40, EccLevel::Low), 2956);
    assert_eq!(data_codewords(40, EccLevel::High), 1276);
}

#[test]
fn digits_then_letters() {
    let text = chars("1234567ABCDEFG");
    let segs = optimize_segments(&text, EccLevel::Low).unwrap();
    assert_eq!(segs.len(), 2);
    assert_eq!(segs[0].mode, SegmentMode::Numeric);
    assert_eq!(segs[0].chars, chars("1234567"));
    assert_eq!(segs[1].mode, SegmentMode::Alphanumeric);
    assert_eq!(segs[1].chars, chars("ABCDEFG"));
    let optimized = to_matrix_from_segments(&to_qr_segments(&segs), EccLevel::Low).unwrap();
    let bytes = to_matrix("1234567ABCDEFG".as_bytes(), EccLevel::Low).unwrap();
    assert!(optimized.len() <= bytes.len());
    assert_eq!(optimized.len(), 21);
}

#[test]
fn url_smaller_than_bytes() {
    let text = chars("HTTPS://MAGICLEN.ORG/path/to/12345");
    let segs = optimize_segments(&text, EccLevel::Low).unwrap();
    assert_eq!(concat(&segs), "HTTPS://MAGICLEN.ORG/path/to/12345");
    let optimized = to_matrix_optimized(&text, EccLevel::Low).unwrap();
    let naive = qrcode_generator::QrSegment::make_bytes("https://magiclen.org/path/to/12345".as_bytes());
    let bytes = to_matrix_from_segments(&[naive], EccLevel::Low).unwrap();
    assert!(optimized.len() < bytes.len());
    assert_eq!(optimized.len(), 25);
    assert_eq!(bytes.len(), 29);
}

#[test]
fn url_segments() {
    let text = chars("HTTPS://MAGICLEN.ORG/path/to/12345");
    let segs = optimize_segments(&text, EccLevel::Low).unwrap();
    assert_eq!(segs.first().unwrap().mode, SegmentMode::Alphanumeric);
    assert_eq!(segs.last().unwrap().mode, SegmentMode::Numeric);
    assert_eq!(segs.last().unwrap().chars, chars("12345"));
}

#[test]
fn repeated_calls_agree() {
    for s in ["", "a", "HELLO 123 world", "0000000000ABCdef\u{4e2d}\u{6587}", "HTTPS://EXAMPLE.COM/x?y=1"] {
        let text = chars(s);
        for ecc in [EccLevel::Low, EccLevel::Medium, EccLevel::Quartile, EccLevel::High] {
            let a = optimize_segments(&text, ecc).unwrap();
            let b = optimize_segments(&text, ecc).unwrap();
            assert_eq!(a, b);
        }
    }
}

#[test]
fn segments_reassemble_and_are_valid() {
    for s in ["a", "HELLO 123 world", "0000000000ABCdef\u{4e2d}\u{6587}", "12AB34cd56EF", "x1234567890123y"] {
        let text = chars(s);
        let segs = optimize_segments(&text, EccLevel::Medium).unwrap();
        assert_eq!(concat(&segs), s);
        for seg in &segs {
            assert!(!seg.chars.is_empty());
            for &c in &seg.chars {
                match seg.mode {
                    SegmentMode::Numeric => assert!(c.is_ascii_digit()),
                    SegmentMode::Alphanumeric => assert!(is_alphanumeric(c)),
                    SegmentMode::Byte => {},
                }
            }
        }
        for w in segs.windows(2) {
            assert_ne!(w[0].mode, w[1].mode);
        }
    }
}

#[test]
fn empty_text() {
    let segs = optimize_segments(&[], EccLevel::High).unwrap();
    assert!(segs.is_empty());
}

#[test]
fn lowercase_is_bytes() {
    let segs = optimize_segments(&chars("hello world!"), EccLevel::Low).unwrap();
    assert_eq!(segs.len(), 1);
    assert_eq!(segs[0].mode, SegmentMode::Byte);
}

#[test]
fn short_digit_run_stays_in_bytes() {
    let modes = optimal_char_modes(&chars("ab1cd"), 0);
    assert_eq!(modes, vec![SegmentMode::Byte; 5]);
}

#[test]
fn long_digit_run_switches() {
    let modes = optimal_char_modes(&chars("ab12345678901234567890cd"), 0);
    assert_eq!(modes[0], SegmentMode::Byte);
    assert_eq!(modes[2], SegmentMode::Numeric);
    assert_eq!(modes[21], SegmentMode::Numeric);
    assert_eq!(modes[23], SegmentMode::Byte);
}

#[test]
fn bit_lengths() {
    let segs = vec![
        Segment { mode: SegmentMode::Numeric, chars: chars("1234567") },
        Segment { mode: SegmentMode::Alphanumeric, chars: chars("ABCDEFG") },
        Segment { mode: SegmentMode::Byte, chars: chars("\u{e9}a") },
    ];
    assert_eq!(total_bit_len(&segs, 0), Some(38 + 52 + 36));
    assert_eq!(total_bit_len(&segs, 1), Some(40 + 54 + 44));
    let long = vec![Segment { mode: SegmentMode::Byte, chars: vec!['a'; 256] }];
    assert_eq!(total_bit_len(&long, 0), None);
    assert_eq!(total_bit_len(&long, 1), Some(4 + 16 + 8 * 256));
}

#[test]
fn largest_numeric_fits() {
    let text = vec!['7'; 7089];
    let segs = optimize_segments(&text, EccLevel::Low).unwrap();
    assert_eq!(segs.len(), 1);
    assert_eq!(segs[0].mode, SegmentMode::Numeric);
}

#[test]
fn exhaustion_is_data_too_long() {
    let text = vec!['7'; 7090];
    assert!(matches!(optimize_segments(&text, EccLevel::Low), Err(QRCodeError::DataTooLong)));
    let text = vec!['a'; 1300];
    assert!(matches!(optimize_segments(&text, EccLevel::High), Err(QRCodeError::DataTooLong)));
    assert!(matches!(to_matrix_optimized(&text, EccLevel::High), Err(QRCodeError::DataTooLong)));
    assert!(matches!(to_matrix(&vec![b'a'; 3000], EccLevel::Low), Err(QRCodeError::DataTooLong)));
}

#[test]
fn optimized_fits_where_bytes_do() {
    for s in ["A1B2C3D4E5F6G7H8I9J0", "999999999999999999999999999999999999999999", "MIXED text 12345678901234567890 AND MORE"] {
        for ecc in [EccLevel::Low, EccLevel::High] {
            let opt = to_matrix_optimized(&chars(s), ecc).unwrap();
            let naive = qrcode_generator::QrSegment::make_bytes(s.as_bytes());
            let bytes = to_matrix_from_segments(&[naive], ecc).unwrap();
            assert!(opt.len() <= bytes.len());
        }
    }
}

use brightd::parse::{parse_reading, render_value};

fn parse_bytes(b: &[u8]) -> Option<i32> {
    parse_reading(&b.to_vec())
}

#[test]
fn plain_and_padded_numbers_parse() {
    assert_eq!(parse_bytes(b"418\n"), Some(418));
    assert_eq!(parse_bytes(b"0"), Some(0));
    assert_eq!(parse_bytes(b" \t-27\r\n"), Some(-27));
    assert_eq!(parse_bytes(b"+5"), Some(5));
    assert_eq!(parse_bytes(b"-0"), Some(0));
    assert_eq!(parse_bytes(b"007"), Some(7));
}

#[test]
fn unicode_whitespace_padding_is_trimmed() {
    // No-break space, as text trimming would remove it.
    assert_eq!(parse_bytes("\u{A0}42".as_bytes()), Some(42));
    assert_eq!(parse_bytes("\u{2028}-7\u{3000}".as_bytes()), Some(-7));
    assert_eq!(parse_bytes(" \u{205F}\t418\u{85}\u{1680}\n".as_bytes()), Some(418));
    assert_eq!(parse_bytes("\u{2009}5\u{202F}".as_bytes()), Some(5));
}

#[test]
fn incomplete_or_interior_unicode_whitespace_is_not_trimmed() {
    // A lone continuation byte is not a whitespace character.
    assert_eq!(parse_bytes(b"\xA042"), None);
    // A lone lead byte is not one either.
    assert_eq!(parse_bytes(b"42\xC2"), None);
    // Whitespace inside the number is not padding.
    assert_eq!(parse_bytes("4\u{A0}2".as_bytes()), None);
    // Nothing but whitespace holds no value.
    assert_eq!(parse_bytes("\u{A0}\u{3000}".as_bytes()), None);
}

#[test]
fn junk_yields_no_value() {
    assert_eq!(parse_bytes(b""), None);
    assert_eq!(parse_bytes(b"   \n"), None);
    assert_eq!(parse_bytes(b"abc"), None);
    assert_eq!(parse_bytes(b"12 3"), None);
    assert_eq!(parse_bytes(b"12a"), None);
    assert_eq!(parse_bytes(b"-"), None);
    assert_eq!(parse_bytes(b"+"), None);
    assert_eq!(parse_bytes(b"--5"), None);
}

#[test]
fn range_ends_parse_and_beyond_yields_no_value() {
    assert_eq!(parse_bytes(b"2147483647"), Some(i32::MAX));
    assert_eq!(parse_bytes(b"2147483648"), None);
    assert_eq!(parse_bytes(b"-2147483648"), Some(i32::MIN));
    assert_eq!(parse_bytes(b"-2147483649"), None);
    assert_eq!(parse_bytes(b"99999999999999999999999"), None);
}

#[test]
fn rendering_is_plain_decimal_text() {
    assert_eq!(render_value(0), b"0".to_vec());
    assert_eq!(render_value(7), b"7".to_vec());
    assert_eq!(render_value(-1), b"-1".to_vec());
    assert_eq!(render_value(418), b"418".to_vec());
    assert_eq!(render_value(4095), b"4095".to_vec());
    assert_eq!(render_value(i32::MAX), b"2147483647".to_vec());
    assert_eq!(render_value(i32::MIN), b"-2147483648".to_vec());
}

#[test]
fn rendered_values_parse_back() {
    for v in [0, 1, -1, 9, 10, 99, 418, 4095, -4095, i32::MIN, i32::MAX] {
        assert_eq!(parse_reading(&render_value(v)), Some(v));
    }
}

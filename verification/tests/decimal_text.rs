//! Parsing and formatting of the fixed-precision decimal coordinates.

use geobatch::decimal::{format_decimal, format_u64, parse_decimal, FixedDecimal};

#[test]
fn parses_plain_coordinate() {
    let d = parse_decimal("48.8566").unwrap();
    assert_eq!(d.mantissa, 488566);
    assert_eq!(d.scale, 4);
}

#[test]
fn parses_negative_coordinate() {
    let d = parse_decimal("-12.05").unwrap();
    assert_eq!(d.mantissa, -1205);
    assert_eq!(d.scale, 2);
}

#[test]
fn parses_whole_number() {
    let d = parse_decimal("180").unwrap();
    assert_eq!(d.mantissa, 180);
    assert_eq!(d.scale, 0);
}

#[test]
fn parses_leading_zeros() {
    let d = parse_decimal("007").unwrap();
    assert_eq!(d.mantissa, 7);
    assert_eq!(d.scale, 0);
    let d = parse_decimal("0.50").unwrap();
    assert_eq!(d.mantissa, 50);
    assert_eq!(d.scale, 2);
}

#[test]
fn parses_negative_zero_as_zero() {
    let d = parse_decimal("-0.0").unwrap();
    assert_eq!(d.mantissa, 0);
    assert_eq!(d.scale, 1);
}

#[test]
fn rejects_text_that_is_no_decimal() {
    assert!(parse_decimal("").is_none());
    assert!(parse_decimal("-").is_none());
    assert!(parse_decimal(".5").is_none());
    assert!(parse_decimal("5.").is_none());
    assert!(parse_decimal("1..2").is_none());
    assert!(parse_decimal("12a").is_none());
    assert!(parse_decimal("+5").is_none());
    assert!(parse_decimal("1 2").is_none());
    assert!(parse_decimal("--1").is_none());
}

#[test]
fn rejects_values_out_of_bounds() {
    // Nineteen fraction digits: one more than the largest admitted scale.
    assert!(parse_decimal("0.1234567890123456789").is_none());
    // Nineteen significant digits: the mantissa would overflow the bound.
    assert!(parse_decimal("1234567890123456789").is_none());
    // Eighteen digits still fit.
    assert!(parse_decimal("123456789012345678").is_some());
}

#[test]
fn formats_canonical_text() {
    let d = FixedDecimal { mantissa: -1205, scale: 2 };
    assert_eq!(format_decimal(&d), "-12.05");
    let d = FixedDecimal { mantissa: 488566, scale: 4 };
    assert_eq!(format_decimal(&d), "48.8566");
    let d = FixedDecimal { mantissa: 50, scale: 2 };
    assert_eq!(format_decimal(&d), "0.50");
    let d = FixedDecimal { mantissa: 7, scale: 0 };
    assert_eq!(format_decimal(&d), "7");
    let d = FixedDecimal { mantissa: 0, scale: 1 };
    assert_eq!(format_decimal(&d), "0.0");
}

#[test]
fn format_then_parse_is_identity() {
    let cases = [
        FixedDecimal { mantissa: 488566, scale: 4 },
        FixedDecimal { mantissa: -23522, scale: 4 },
        FixedDecimal { mantissa: 0, scale: 0 },
        FixedDecimal { mantissa: 0, scale: 3 },
        FixedDecimal { mantissa: -1, scale: 0 },
        FixedDecimal { mantissa: 999_999_999_999_999_999, scale: 18 },
    ];
    for d in cases {
        let text = format_decimal(&d);
        let back = parse_decimal(text.as_str()).unwrap();
        assert_eq!(back, d);
    }
}

#[test]
fn parse_then_format_keeps_canonical_text() {
    for text in ["5.00", "48.8566", "-2.3522", "0"] {
        let d = parse_decimal(text).unwrap();
        assert_eq!(format_decimal(&d), text);
    }
}

#[test]
fn formats_whole_numbers() {
    assert_eq!(format_u64(0), "0");
    assert_eq!(format_u64(111194), "111194");
}

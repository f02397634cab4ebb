use sghelper::length::{Length, Unit};
use sghelper::parse::ParseError;

fn nm(s: &str) -> i64 {
    Length::try_from_str(s).unwrap().to_nanometers()
}

fn err(s: &str) -> ParseError {
    Length::try_from_str(s).unwrap_err()
}

#[test]
fn parses_centimeters() {
    assert_eq!(nm("5cm"), 50_000_000);
}

#[test]
fn every_spelling_of_every_unit() {
    let cases: Vec<(&str, i64)> = vec![
        ("1m", 1_000_000_000),
        ("1meter", 1_000_000_000),
        ("1meters", 1_000_000_000),
        ("1cm", 10_000_000),
        ("1centimeter", 10_000_000),
        ("1centimeters", 10_000_000),
        ("1mm", 1_000_000),
        ("1millimeter", 1_000_000),
        ("1millimeters", 1_000_000),
        ("1in", 25_400_000),
        ("1inch", 25_400_000),
        ("1inches", 25_400_000),
    ];
    for (s, expected) in cases {
        assert_eq!(nm(s), expected, "{}", s);
    }
}

#[test]
fn round_trip_through_each_unit() {
    let units: Vec<(&str, Unit)> = vec![
        ("m", Unit::Meter),
        ("meter", Unit::Meter),
        ("meters", Unit::Meter),
        ("cm", Unit::Centimeter),
        ("centimeter", Unit::Centimeter),
        ("centimeters", Unit::Centimeter),
        ("mm", Unit::Millimeter),
        ("millimeter", Unit::Millimeter),
        ("millimeters", Unit::Millimeter),
        ("in", Unit::Inch),
        ("inch", Unit::Inch),
        ("inches", Unit::Inch),
    ];
    let scalars: Vec<(&str, f64)> = vec![("0", 0.0), ("5", 5.0), ("2.5", 2.5), (".125", 0.125), ("17.", 17.0), ("3.14159", 3.14159)];
    for (token, unit) in &units {
        for (text, value) in &scalars {
            let s = format!("{}{}", text, token);
            let r = Length::try_from_str(&s).unwrap().to_unit(*unit);
            let back = r.num as f64 / r.den as f64;
            assert!((back - value).abs() < 1e-6, "{} gave {}", s, back);
        }
    }
}

#[test]
fn units_agree_on_one_meter() {
    let a = Length::try_from_str("1m").unwrap();
    let b = Length::try_from_str("100cm").unwrap();
    let c = Length::try_from_str("1000mm").unwrap();
    assert_eq!(a, b);
    assert_eq!(b, c);
    assert_eq!(a.to_nanometers(), 1_000_000_000);
}

#[test]
fn rejects_malformed_strings() {
    for s in ["", "5", "cm", "5xyz", "-5cm", "5 cm extra"] {
        assert!(Length::try_from_str(s).is_err(), "{:?} parsed", s);
    }
    assert_eq!(err(""), ParseError::InvalidFormat);
    assert_eq!(err("5"), ParseError::InvalidFormat);
    assert_eq!(err("cm"), ParseError::InvalidFormat);
    assert_eq!(err("5xyz"), ParseError::UnknownUnit);
    assert_eq!(err("-5cm"), ParseError::InvalidFormat);
    assert_eq!(err("5 cm extra"), ParseError::InvalidFormat);
}

#[test]
fn surrounding_whitespace_is_ignored() {
    assert_eq!(
        Length::try_from_str("  5  cm  ").unwrap(),
        Length::try_from_str("5cm").unwrap()
    );
    assert_eq!(nm("\t5\u{3000}cm\n"), 50_000_000);
}

#[test]
fn scalar_forms() {
    assert_eq!(nm(".5mm"), 500_000);
    assert_eq!(nm("5.mm"), 5_000_000);
    assert_eq!(nm("0cm"), 0);
    assert_eq!(nm("2.5in"), 63_500_000);
    assert_eq!(nm("007.50cm"), 75_000_000);
    assert_eq!(err(".cm"), ParseError::InvalidFormat);
    assert_eq!(err("5.5.5cm"), ParseError::InvalidFormat);
    assert_eq!(err("1e3m"), ParseError::InvalidFormat);
    assert_eq!(err("1e3 m"), ParseError::InvalidFormat);
    assert_eq!(err("+5cm"), ParseError::InvalidFormat);
    assert_eq!(err("5 5cm"), ParseError::InvalidFormat);
    assert_eq!(err("5cm5"), ParseError::InvalidFormat);
}

#[test]
fn fraction_below_a_nanometer_is_rounded_down() {
    assert_eq!(nm("0.0000000015m"), 1);
    assert_eq!(nm("1.23456789012cm"), 12_345_678);
    assert_eq!(nm("0.99999999999999999999999m"), 999_999_999);
    assert_eq!(nm("0.0000001in"), 2);
}

#[test]
fn units_are_case_sensitive_and_whole() {
    assert_eq!(err("5CM"), ParseError::UnknownUnit);
    assert_eq!(err("5c"), ParseError::UnknownUnit);
    assert_eq!(err("5 kilometers"), ParseError::UnknownUnit);
}

#[test]
fn lengths_beyond_i64_are_out_of_range() {
    assert_eq!(nm("9223372036m"), 9_223_372_036_000_000_000);
    assert_eq!(nm("9223372036.854775807m"), i64::MAX);
    assert_eq!(err("9223372036.854775808m"), ParseError::OutOfRange);
    assert_eq!(err("9223372037m"), ParseError::OutOfRange);
    assert_eq!(err("100000000000000000000000000000cm"), ParseError::OutOfRange);
}

#[test]
fn error_messages() {
    assert_eq!(ParseError::InvalidFormat.message(), "bad input format");
    assert_eq!(ParseError::UnknownUnit.message(), "invalid units");
    assert_eq!(ParseError::OutOfRange.message(), "length out of range");
}

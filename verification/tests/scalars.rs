use chart_decode::fields::read_value;
use chart_decode::parsing::FieldParser;
use chart_decode::scalars::{is_decimal_text, parse_i16, parse_i32, parse_i64, parse_i8};

#[test]
fn integers_parse_exactly() {
    assert_eq!(parse_i64("0").unwrap(), 0);
    assert_eq!(parse_i64("40703").unwrap(), 40703);
    assert_eq!(parse_i64("-17").unwrap(), -17);
    assert_eq!(parse_i64("+5").unwrap(), 5);
    assert_eq!(parse_i64("007").unwrap(), 7);
    assert_eq!(parse_i64("9223372036854775807").unwrap(), i64::MAX);
    assert_eq!(parse_i64("-9223372036854775808").unwrap(), i64::MIN);
}

#[test]
fn integer_parse_failures() {
    assert!(parse_i64("").is_err());
    assert!(parse_i64("-").is_err());
    assert!(parse_i64("+").is_err());
    assert!(parse_i64("12a").is_err());
    assert!(parse_i64(" 12").is_err());
    assert!(parse_i64("1.5").is_err());
    assert!(parse_i64("9223372036854775808").is_err());
    assert!(parse_i64("-9223372036854775809").is_err());
}

#[test]
fn narrow_integers_respect_their_ranges() {
    assert_eq!(parse_i8("127").unwrap(), 127);
    assert_eq!(parse_i8("-128").unwrap(), -128);
    assert!(parse_i8("128").is_err());
    assert!(parse_i8("-129").is_err());
    assert_eq!(parse_i16("32767").unwrap(), 32767);
    assert!(parse_i16("32768").is_err());
    assert_eq!(parse_i32("2147483647").unwrap(), 2147483647);
    assert!(parse_i32("2147483648").is_err());
}

#[test]
fn field_parser_trait_parses_from_strings() {
    let s: String = "42".to_owned();
    let v: i64 = s.parse_field().unwrap();
    assert_eq!(v, 42);
    let v: i32 = s.parse_field().unwrap();
    assert_eq!(v, 42);
    let v: i16 = s.parse_field().unwrap();
    assert_eq!(v, 42);
    let v: i8 = s.parse_field().unwrap();
    assert_eq!(v, 42);
    let bad: String = "x".to_owned();
    let r: Result<i8, _> = bad.parse_field();
    assert!(r.is_err());
}

#[test]
fn field_parser_trait_parses_from_str_slices() {
    let v: i64 = "40703".parse_field().unwrap();
    assert_eq!(v, 40703);
    let v: i8 = "-7".parse_field().unwrap();
    assert_eq!(v, -7);
    let r: Result<i32, _> = "nope".parse_field();
    assert!(r.is_err());
}

#[test]
fn decimal_text_shapes() {
    assert!(is_decimal_text("150.5"));
    assert!(is_decimal_text("0.7"));
    assert!(is_decimal_text("-3.25"));
    assert!(is_decimal_text("+1.0"));
    assert!(is_decimal_text("12"));
    assert!(is_decimal_text("1."));
    assert!(is_decimal_text(".5"));
    assert!(!is_decimal_text(""));
    assert!(!is_decimal_text("."));
    assert!(!is_decimal_text("-"));
    assert!(!is_decimal_text("1.2.3"));
    assert!(!is_decimal_text("abc"));
    assert!(!is_decimal_text("1,5"));
}

#[test]
fn read_value_returns_first_match() {
    let lines: Vec<String> = vec!["A: 1".to_owned(), "B: 2".to_owned(), "B: 3".to_owned()];
    let r = read_value(lines.clone(), |x: &String| x.starts_with("B: "));
    assert_eq!(r, Some("B: 2".to_owned()));
    let r = read_value(lines, |x: &String| x.starts_with("C: "));
    assert_eq!(r, None);
}

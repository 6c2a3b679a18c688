//! Tests of literal range validation.

use double_dyn::literal::{Kind, Radix, Value, validate_range};

fn val(int: u64, kind: Kind, suffix: &str, width: usize, radix: Radix) -> Value {
    Value { int, kind, suffix: suffix.to_string(), width, radix, span: 7 }
}

#[test]
fn validate_range_accepts_matching_kinds() {
    let b = val(1, Kind::Int, "", 1, Radix::Decimal);
    let e = val(9, Kind::Int, "u8", 1, Radix::Decimal);
    let r = validate_range(b, e, true).unwrap();
    assert_eq!(r.begin, 1);
    assert_eq!(r.end, 9);
    assert!(r.inclusive);
    assert_eq!(r.suffix, "u8");
    assert_eq!(r.width, 1);
}

#[test]
fn validate_range_mixed_hex_settles_upper() {
    let b = val(10, Kind::Int, "", 2, Radix::LowerHex);
    let e = val(255, Kind::Int, "", 2, Radix::UpperHex);
    let r = validate_range(b, e, false).unwrap();
    assert!(matches!(r.radix, Radix::UpperHex));
}

#[test]
fn validate_range_rejects_kind_mismatch() {
    let b = val(1, Kind::Byte, "", 1, Radix::Decimal);
    let e = val(9, Kind::Int, "", 1, Radix::Decimal);
    let err = validate_range(b, e, false).unwrap_err();
    assert_eq!(err.message(), "expected byte literal");
    assert_eq!(err.span, 7);
}

#[test]
fn validate_range_rejects_suffix_mismatch() {
    let b = val(1, Kind::Int, "u8", 1, Radix::Decimal);
    let e = val(9, Kind::Int, "u16", 1, Radix::Decimal);
    let err = validate_range(b, e, false).unwrap_err();
    assert_eq!(err.message(), "expected suffix `u8`");
}

#[test]
fn validate_range_rejects_radix_mismatch() {
    let b = val(1, Kind::Int, "", 1, Radix::Binary);
    let e = val(9, Kind::Int, "", 1, Radix::Decimal);
    let err = validate_range(b, e, false).unwrap_err();
    assert_eq!(err.message(), "expected binary literal");
}

use double_dyn::literal::{parse_literal, require_value};
use double_dyn::token::{Delim, IdentTok, Tok};

#[test]
fn parse_literal_decimal() {
    let v = parse_literal(&"123".to_string(), 3).unwrap();
    assert_eq!(v.int, 123);
    assert!(matches!(v.kind, Kind::Int));
    assert!(matches!(v.radix, Radix::Decimal));
    assert_eq!(v.width, 3);
    assert_eq!(v.suffix, "");
    assert_eq!(v.span, 3);
}

#[test]
fn parse_literal_suffix_and_underscores() {
    let v = parse_literal(&"1_000u32".to_string(), 0).unwrap();
    assert_eq!(v.int, 1000);
    assert_eq!(v.width, 4);
    assert_eq!(v.suffix, "u32");
}

#[test]
fn parse_literal_hex_upgrades_on_upper_digit() {
    let v = parse_literal(&"0xaF".to_string(), 0).unwrap();
    assert_eq!(v.int, 175);
    assert!(matches!(v.radix, Radix::UpperHex));
    let w = parse_literal(&"0xab".to_string(), 0).unwrap();
    assert!(matches!(w.radix, Radix::LowerHex));
}

#[test]
fn parse_literal_binary_and_octal() {
    assert_eq!(parse_literal(&"0b101".to_string(), 0).unwrap().int, 5);
    assert_eq!(parse_literal(&"0o17".to_string(), 0).unwrap().int, 15);
}

#[test]
fn parse_literal_byte_and_char() {
    let b = parse_literal(&"b'x'".to_string(), 0).unwrap();
    assert_eq!(b.int, 120);
    assert!(matches!(b.kind, Kind::Byte));
    let c = parse_literal(&"'z'".to_string(), 0).unwrap();
    assert_eq!(c.int, 122);
    assert!(matches!(c.kind, Kind::Char));
}

#[test]
fn parse_literal_refusals() {
    assert!(parse_literal(&"1.5".to_string(), 0).is_none());
    assert!(parse_literal(&"0x".to_string(), 0).is_none());
    assert!(parse_literal(&"abc".to_string(), 0).is_none());
    assert!(parse_literal(&"99999999999999999999999999".to_string(), 0).is_none());
}

#[test]
fn require_value_reads_a_literal() {
    let toks = vec![Tok::Lit { text: "7".to_string(), span: 5 }];
    let mut pos = 0;
    let v = require_value(&toks, &mut pos, 0).unwrap();
    assert_eq!(v.int, 7);
    assert_eq!(v.span, 5);
    assert_eq!(pos, 1);
}

#[test]
fn require_value_unwraps_invisible_groups() {
    let inner = Tok::Lit { text: "9".to_string(), span: 2 };
    let toks = vec![Tok::Group { delim: Delim::Invisible, toks: vec![inner], span: 1 }];
    let mut pos = 0;
    let v = require_value(&toks, &mut pos, 0).unwrap();
    assert_eq!(v.int, 9);
}

#[test]
fn require_value_rejects_non_integers() {
    let toks = vec![Tok::Ident(IdentTok { text: "x".to_string(), span: 4 })];
    let mut pos = 0;
    let err = require_value(&toks, &mut pos, 0).unwrap_err();
    assert_eq!(err.message(), "expected integer");
    assert_eq!(err.span, 4);

    let toks = vec![Tok::Lit { text: "1.5".to_string(), span: 6 }];
    let mut pos = 0;
    let err = require_value(&toks, &mut pos, 0).unwrap_err();
    assert_eq!(err.message(), "expected unsuffixed integer literal");
    assert_eq!(err.span, 6);
}

//! Tests for the fixed-point decimal formatting and parsing.

use ultrahdr::fixed::{fmt_micros_bytes, parse_micros_bytes};

#[test]
fn test_fmt_micros_exact() {
    assert_eq!(fmt_micros_bytes(3_000_000), b"3.000000".to_vec());
    assert_eq!(fmt_micros_bytes(1_500_000), b"1.500000".to_vec());
    assert_eq!(fmt_micros_bytes(-1_000_000), b"-1.000000".to_vec());
    assert_eq!(fmt_micros_bytes(15_625), b"0.015625".to_vec());
    assert_eq!(fmt_micros_bytes(0), b"0.000000".to_vec());
}

#[test]
fn test_parse_micros_exact() {
    assert_eq!(parse_micros_bytes(b"3.0"), Some(3_000_000));
    assert_eq!(parse_micros_bytes(b"0.015625"), Some(15_625));
    assert_eq!(parse_micros_bytes(b"-2.5"), Some(-2_500_000));
    assert_eq!(parse_micros_bytes(b"+1.25"), Some(1_250_000));
    assert_eq!(parse_micros_bytes(b"42"), Some(42_000_000));
    assert_eq!(parse_micros_bytes(b"0.1234567"), Some(123_456));
}

#[test]
fn test_parse_micros_rejects_junk() {
    assert_eq!(parse_micros_bytes(b""), None);
    assert_eq!(parse_micros_bytes(b"abc"), None);
    assert_eq!(parse_micros_bytes(b"1e3"), None);
    assert_eq!(parse_micros_bytes(b"1.0x"), None);
    assert_eq!(parse_micros_bytes(b"."), None);
    assert_eq!(parse_micros_bytes(b"-"), None);
    assert_eq!(parse_micros_bytes(b"1234567890123"), None);
}

#[test]
fn test_micros_round_trip_values() {
    let values: [i64; 7] = [
        0,
        1,
        -1,
        3_000_000,
        -1_500_000,
        999_999_999_999_999_999,
        -999_999_999_999_999_999,
    ];
    for v in values {
        let text = fmt_micros_bytes(v);
        assert_eq!(parse_micros_bytes(&text), Some(v));
    }
}

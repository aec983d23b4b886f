//! Tests for the calendar helpers and the text bridges.

use tdx::{days_from_date, format_time, gbk_to_utf8, is_leap_year, parse_datetime, utf8_to_gbk,
    Timestamp};

#[test]
fn test_leap_years() {
    assert!(is_leap_year(2024));
    assert!(is_leap_year(2000));
    assert!(!is_leap_year(1900));
    assert!(!is_leap_year(2023));
}

#[test]
fn test_days_from_date_known_values() {
    assert_eq!(days_from_date(1970, 1, 1), 0);
    assert_eq!(days_from_date(1970, 1, 2), 1);
    assert_eq!(days_from_date(1971, 1, 1), 365);
    assert_eq!(days_from_date(2000, 3, 1), 11017);
    assert_eq!(days_from_date(2024, 1, 5), 19727);
    // January and February count as months of the previous year
    assert_eq!(days_from_date(2024, 2, 29) + 1, days_from_date(2024, 3, 1));
}

#[test]
fn test_format_time_known_values() {
    assert_eq!(format_time(&Timestamp { secs: 0 }), "1970-01-01 00:00:00");
    assert_eq!(format_time(&Timestamp { secs: -5 }), "1970-01-01 00:00:00");
    let secs = days_from_date(2024, 1, 5) * 86400 + 15 * 3600;
    assert_eq!(format_time(&Timestamp { secs }), "2024-01-05 15:00:00");
    let secs = days_from_date(2024, 2, 29) * 86400 + 9 * 3600 + 30 * 60 + 7;
    assert_eq!(format_time(&Timestamp { secs }), "2024-02-29 09:30:07");
    let secs = days_from_date(1999, 12, 31) * 86400 + 23 * 3600 + 59 * 60 + 59;
    assert_eq!(format_time(&Timestamp { secs }), "1999-12-31 23:59:59");
}

#[test]
fn test_parse_datetime() {
    let t = parse_datetime("20240105", 10, 30, 0);
    assert_eq!(t.secs, days_from_date(2024, 1, 5) * 86400 + 10 * 3600 + 30 * 60);
    // a malformed date falls back to the epoch date, field by field
    assert_eq!(parse_datetime("2024", 0, 0, 0).secs, 0);
    let t = parse_datetime("2024ab05", 1, 0, 0);
    assert_eq!(t.secs, days_from_date(2024, 1, 5) * 86400 + 3600);
}

#[test]
fn test_gbk_round_trip() {
    // ASCII passes through both directions
    assert_eq!(gbk_to_utf8(b"000001"), "000001");
    assert_eq!(utf8_to_gbk("000001"), b"000001".to_vec());
    // trailing NUL padding is dropped
    assert_eq!(gbk_to_utf8(b"abc\0\0\0"), "abc");
    assert_eq!(gbk_to_utf8(b""), "");
    // a GBK-encoded Chinese name decodes and re-encodes
    let gbk_bytes: [u8; 8] = [0xC6, 0xBD, 0xB0, 0xB2, 0xD2, 0xF8, 0xD0, 0xD0];
    let name = gbk_to_utf8(&gbk_bytes);
    assert_eq!(name, "\u{5e73}\u{5b89}\u{94f6}\u{884c}");
    assert_eq!(utf8_to_gbk(&name), gbk_bytes.to_vec());
}

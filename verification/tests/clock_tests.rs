//! Calendar-time parsing: exact fixtures, leap-day handling, and rejection
//! of malformed or out-of-range texts.

use xcap::clock::parse_datetime_nanos;

fn parse(s: &str) -> Option<u64> {
    parse_datetime_nanos(&s.as_bytes().to_vec())
}

#[test]
fn epoch_is_zero() {
    assert_eq!(parse("1970-01-01 00:00:00"), Some(0));
}

#[test]
fn one_day_in() {
    assert_eq!(parse("1970-01-02 00:00:00"), Some(86_400_000_000_000));
}

#[test]
fn millennium_fixture() {
    assert_eq!(parse("2000-01-01 00:00:00"), Some(946_684_800_000_000_000));
}

#[test]
fn leap_day_fixture() {
    assert_eq!(parse("2024-02-29 12:30:45"), Some(1_709_209_845_000_000_000));
}

#[test]
fn leap_day_in_a_common_year_is_rejected() {
    assert_eq!(parse("2023-02-29 00:00:00"), None);
}

#[test]
fn century_years_are_not_leap_unless_divisible_by_400() {
    assert_eq!(parse("2100-02-29 00:00:00"), None);
    assert!(parse("2000-02-29 00:00:00").is_some());
}

#[test]
fn out_of_range_parts_are_rejected() {
    assert_eq!(parse("1970-13-01 00:00:00"), None);
    assert_eq!(parse("1970-00-01 00:00:00"), None);
    assert_eq!(parse("1970-01-32 00:00:00"), None);
    assert_eq!(parse("1970-01-01 24:00:00"), None);
    assert_eq!(parse("1970-01-01 00:60:00"), None);
    assert_eq!(parse("1969-12-31 23:59:59"), None);
}

#[test]
fn malformed_texts_are_rejected() {
    assert_eq!(parse(""), None);
    assert_eq!(parse("1970-1-1 00:00:00"), None);
    assert_eq!(parse("1970-01-01T00:00:00"), None);
    assert_eq!(parse("1970-01-01 00:00:0x"), None);
    assert_eq!(parse("1970-01-01 00:00:000"), None);
}

//! Tests for the RFC 3339 timestamp rendering and calendar conversion.

use agent_exec::time::{days_to_ymd, format_rfc3339, is_leap, now_rfc3339, now_rfc3339_pub};

#[test]
fn rfc3339_epoch() {
    assert_eq!(format_rfc3339(0), "1970-01-01T00:00:00Z");
}

#[test]
fn rfc3339_known_date() {
    // 2024-01-01T00:00:00Z = 1704067200
    assert_eq!(format_rfc3339(1704067200), "2024-01-01T00:00:00Z");
}

#[test]
fn rfc3339_leap_day() {
    // 2024-02-29T12:34:56Z = 1709210096
    assert_eq!(format_rfc3339(1709210096), "2024-02-29T12:34:56Z");
}

#[test]
fn rfc3339_end_of_year() {
    // 2023-12-31T23:59:59Z = 1704067199
    assert_eq!(format_rfc3339(1704067199), "2023-12-31T23:59:59Z");
}

#[test]
fn rfc3339_is_monotone_on_samples() {
    let mut prev = format_rfc3339(0);
    let samples = [1u64, 59, 60, 3599, 3600, 86399, 86400, 1704067199, 1704067200, 4102444800];
    for s in samples {
        let cur = format_rfc3339(s);
        assert!(prev <= cur, "{prev} should not exceed {cur}");
        prev = cur;
    }
}

#[test]
fn days_to_ymd_epoch_and_leap() {
    assert_eq!(days_to_ymd(0), (1970, 1, 1));
    assert_eq!(days_to_ymd(31), (1970, 2, 1));
    // 2000-02-29 is day 11016.
    assert_eq!(days_to_ymd(11016), (2000, 2, 29));
}

#[test]
fn leap_year_rule() {
    assert!(is_leap(2000));
    assert!(is_leap(2024));
    assert!(!is_leap(1900));
    assert!(!is_leap(2023));
}

#[test]
fn now_is_well_formed() {
    let a = now_rfc3339();
    let b = now_rfc3339_pub();
    assert_eq!(a.len(), 20);
    assert!(a.ends_with('Z'));
    assert!(b.len() >= a.len());
}

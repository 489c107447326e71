use ucodex_core::calendar::{
    chrono_now_at, date_plus_one, date_plus_one_ok, days_ago, days_ago_at, days_to_ymd, format_timestamp, hour_bucket_key,
    hourly_range, is_leap, is_nighttime_utc8_at, today_str, today_str_at, ymd_to_days,
};

#[test]
fn test_date_math() {
    assert_eq!(today_str().len(), 10);
    let yesterday = days_ago(1);
    assert_eq!(yesterday.len(), 10);
    assert!(today_str() > yesterday);
}

#[test]
fn test_date_plus_one() {
    assert_eq!(date_plus_one("2026-01-01"), "2026-01-02");
    assert_eq!(date_plus_one("2026-01-31"), "2026-02-01");
    assert_eq!(date_plus_one("2026-12-31"), "2027-01-01");
    assert_eq!(date_plus_one("2024-02-28"), "2024-02-29");
}

#[test]
fn date_plus_one_end_of_february() {
    assert_eq!(date_plus_one("2024-02-29"), "2024-03-01");
    assert_eq!(date_plus_one("2023-02-28"), "2023-03-01");
    assert_eq!(date_plus_one("2000-02-28"), "2000-02-29");
    assert_eq!(date_plus_one("2100-02-28"), "2100-03-01");
}

#[test]
fn years_before_1970_count_from_1970() {
    // day numbers start at 1970-01-01, so an earlier year adds no days
    assert_eq!(date_plus_one("1900-02-28"), "1970-03-01");
    assert_eq!(ymd_to_days(1969, 1, 1), 0);
}

#[test]
fn date_plus_one_keeps_malformed_text() {
    assert_eq!(date_plus_one("not a date"), "not a date");
    assert_eq!(date_plus_one("2026-01"), "2026-01");
}

#[test]
fn day_numbers_and_civil_dates() {
    assert_eq!(days_to_ymd(0), (1970, 1, 1));
    assert_eq!(days_to_ymd(59), (1970, 3, 1));
    assert_eq!(days_to_ymd(19723), (2024, 1, 1));
    assert_eq!(ymd_to_days(1970, 1, 1), 0);
    assert_eq!(ymd_to_days(2024, 1, 1), 19723);
    assert_eq!(ymd_to_days(2024, 3, 1), 19723 + 31 + 29);
    for n in [0u64, 1, 58, 59, 365, 10956, 19723, 20454] {
        let (y, m, d) = days_to_ymd(n);
        assert_eq!(ymd_to_days(y, m, d), n);
    }
}

#[test]
fn leap_years() {
    assert!(is_leap(2024));
    assert!(is_leap(2000));
    assert!(!is_leap(1900));
    assert!(!is_leap(2023));
}

#[test]
fn local_clock_text() {
    assert_eq!(chrono_now_at(0), "1970-01-01 08:00");
    assert_eq!(today_str_at(0), "1970-01-01");
    assert_eq!(chrono_now_at(16 * 3600 - 1), "1970-01-01 23:59");
    assert_eq!(chrono_now_at(16 * 3600), "1970-01-02 00:00");
    assert_eq!(days_ago_at(1, 86400), "1970-01-01");
    assert_eq!(days_ago_at(5, 86400), "1970-01-01");
    assert_eq!(hour_bucket_key(3600), "1970-01-01 09:00");
}

#[test]
fn hourly_range_spans_one_day() {
    let (from, to) = hourly_range("2026-12-31");
    assert_eq!(from, "2026-12-31 00:00");
    assert_eq!(to, "2027-01-01 00:00");
}

#[test]
fn clock_time_and_night() {
    assert_eq!(format_timestamp(3661), "01:01:01");
    assert_eq!(format_timestamp(86399), "23:59:59");
    // 00:00 UTC is 08:00 in UTC+8
    assert!(!is_nighttime_utc8_at(0));
    assert!(is_nighttime_utc8_at(16 * 3600));
    assert!(is_nighttime_utc8_at(24 * 3600 - 1));
    assert!(!is_nighttime_utc8_at(3600 * 4));
}

#[test]
fn date_plus_one_precondition() {
    assert!(date_plus_one_ok("2026-01-01"));
    assert!(date_plus_one_ok("no dashes"));
    assert!(!date_plus_one_ok("2026-14-01"));
    assert!(!date_plus_one_ok("1970-01-00"));
    assert!(date_plus_one_ok("1970-01-01"));
    assert!(!date_plus_one_ok("18446744073709551615-01-01"));
}

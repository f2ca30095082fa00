use media_catalog::format::{format_created_at, format_duration, format_size, get_systemtime_created, parse_reported_duration};
use media_catalog::text::{dec_string, pad2_string, pad4_string, str_eq_ignore_case};

#[test]
fn test_format_duration() {
    assert_eq!(format_duration(0.0_f64 as u64), "00:00:00");
    assert_eq!(format_duration(61.0_f64 as u64), "00:01:01");
    assert_eq!(format_duration(3661.0_f64 as u64), "01:01:01");
}

#[test]
fn duration_beyond_a_hundred_hours() {
    assert_eq!(format_duration(360000), "100:00:00");
    assert_eq!(format_duration(59), "00:00:59");
}

#[test]
fn size_in_bytes() {
    assert_eq!(format_size(0), "0 B");
    assert_eq!(format_size(1023), "1023 B");
}

#[test]
fn size_in_larger_units() {
    assert_eq!(format_size(1024), "1.00 KB");
    assert_eq!(format_size(1536), "1.50 KB");
    assert_eq!(format_size(1048576), "1.00 MB");
    assert_eq!(format_size(5 * 1048576 + 104858), "5.10 MB");
    assert_eq!(format_size(1073741824), "1.00 GB");
    assert_eq!(format_size(3 * 1073741824 / 2), "1.50 GB");
}

#[test]
fn size_rounds_to_nearest_hundredth() {
    assert_eq!(format_size(1048575), "1024.00 KB");
    assert_eq!(format_size(1034), "1.01 KB");
}

#[test]
fn size_ties_round_to_even() {
    assert_eq!(format_size(1152), "1.12 KB");
    assert_eq!(format_size(1664), "1.62 KB");
    assert_eq!(format_size(1408), "1.38 KB");
    assert_eq!(format_size(1048576 + 131072), "1.12 MB");
}

#[test]
fn created_at_on_simplified_calendar() {
    assert_eq!(format_created_at(0), "1970-01-01 00:00:00");
    assert_eq!(format_created_at(86400 * 31 + 3661), "1970-02-02 01:01:01");
    assert_eq!(format_created_at(86400 * 365), "1971-01-01 00:00:00");
}

#[test]
fn created_time_is_shown_in_utc_plus_eight() {
    assert_eq!(get_systemtime_created(Some(0)), Some("1970-01-01 08:00:00".to_string()));
    assert_eq!(
        get_systemtime_created(Some(1_700_000_000_000_000_000)),
        Some("2023-11-15 06:13:20".to_string())
    );
    assert_eq!(get_systemtime_created(None), None);
}

#[test]
fn decimal_rendering() {
    assert_eq!(dec_string(0), "0");
    assert_eq!(dec_string(18446744073709551615), "18446744073709551615");
    assert_eq!(pad2_string(7), "07");
    assert_eq!(pad2_string(123), "123");
    assert_eq!(pad4_string(42), "0042");
}

#[test]
fn case_insensitive_comparison() {
    assert!(str_eq_ignore_case("MP4", "mp4"));
    assert!(!str_eq_ignore_case("mp4", "mp3"));
    assert!(!str_eq_ignore_case("mp4", "mp45"));
}

#[test]
fn reported_duration_is_found() {
    let report = "Input #0, mov\n  Duration: 00:01:23.45, start: 0.000000, bitrate: 1234 kb/s";
    assert_eq!(parse_reported_duration(report), Some("00:01:23".to_string()));
    assert_eq!(parse_reported_duration("Duration: N/A, Duration: 10:00:01.00"), Some("10:00:01".to_string()));
    assert_eq!(parse_reported_duration("Duration: 1:02:03.45"), None);
    assert_eq!(parse_reported_duration(""), None);
}

use grid_challenge::datetime::{format_unix_time, is_leap, iso8601_supported, parse_iso8601};

#[test]
fn leap_years() {
    assert!(is_leap(2024));
    assert!(!is_leap(1900));
    assert!(is_leap(2000));
    assert!(!is_leap(2023));
    assert!(is_leap(-4));
}

#[test]
fn parse_basic_timestamp() {
    assert_eq!(parse_iso8601("2024-01-15T10:30:00Z"), Some(1705314600));
    assert_eq!(parse_iso8601("1970-01-01T00:00:00Z"), Some(0));
}

#[test]
fn parse_without_seconds_or_zone() {
    assert_eq!(parse_iso8601("2024-01-15T10:30Z"), Some(1705314600));
    assert_eq!(parse_iso8601("2024-01-15T10:30:00"), Some(1705314600));
    assert_eq!(parse_iso8601("2024-01-15T10:30:00ZZZ"), Some(1705314600));
    // an unparsable seconds field counts as zero
    assert_eq!(parse_iso8601("2024-01-15T10:30:xx"), Some(1705314600));
}

#[test]
fn parse_rejects_malformed() {
    assert_eq!(parse_iso8601("2024-01-15 10:30:00"), None);
    assert_eq!(parse_iso8601("2024-01-15T10:30:00T"), None);
    assert_eq!(parse_iso8601("2024-01T10:30:00Z"), None);
    assert_eq!(parse_iso8601("2024-01-15T10Z"), None);
    assert_eq!(parse_iso8601("2024-01-15T10:xx:00Z"), None);
    assert_eq!(parse_iso8601(""), None);
}

#[test]
fn parse_leap_day_and_month_thirteen() {
    assert_eq!(parse_iso8601("2000-02-29T00:00:00Z"), Some(951782400));
    // month 13 runs past December into the next year
    assert_eq!(parse_iso8601("2024-13-01T00:00:00Z"), Some(1735689600));
    // years before 1970 count no whole years
    assert_eq!(parse_iso8601("1969-12-31T23:59:59Z"), Some(31535999));
    // a leading plus sign parses
    assert_eq!(parse_iso8601("+2024-01-15T10:30:00Z"), Some(1705314600));
}

#[test]
fn supported_inputs() {
    assert!(iso8601_supported("2024-01-15T10:30:00Z"));
    assert!(iso8601_supported("not a date"));
    assert!(!iso8601_supported("2024-00-15T10:30:00Z"));
    assert!(!iso8601_supported("2024-14-15T10:30:00Z"));
    assert!(!iso8601_supported("2024-01-15T9223372036854775807:00:00Z"));
}

#[test]
fn format_basic_timestamp() {
    assert_eq!(format_unix_time(1705314600), "2024-01-15T10:30:00Z");
    assert_eq!(format_unix_time(0), "1970-01-01T00:00:00Z");
    assert_eq!(format_unix_time(951782400), "2000-02-29T00:00:00Z");
    assert_eq!(format_unix_time(1735689599), "2024-12-31T23:59:59Z");
}

#[test]
fn format_negative_timestamps() {
    assert_eq!(format_unix_time(-1), "1970-01-01T00:00:-1Z");
    assert_eq!(format_unix_time(-3 * 86400), "1970-01--2T00:00:00Z");
}

#[test]
fn format_then_parse_round_trip() {
    for ts in [0i64, 1, 59, 3600, 86399, 86400, 951782400, 1705314600, 4102444800, 253402300799] {
        let text = format_unix_time(ts);
        assert!(iso8601_supported(&text));
        assert_eq!(parse_iso8601(&text), Some(ts));
    }
}

use pizza_store::decimal::{format_i32, parse_i32};

#[test]
fn format_writes_plain_decimal() {
    assert_eq!(format_i32(10), "10");
    assert_eq!(format_i32(0), "0");
    assert_eq!(format_i32(7), "7");
    assert_eq!(format_i32(-5), "-5");
    assert_eq!(format_i32(1000), "1000");
}

#[test]
fn format_handles_the_extremes() {
    assert_eq!(format_i32(i32::MAX), "2147483647");
    assert_eq!(format_i32(i32::MIN), "-2147483648");
}

#[test]
fn format_agrees_with_to_string() {
    for v in [-1_000_000, -99, -10, -1, 0, 1, 9, 10, 99, 100, 123_456_789] {
        assert_eq!(format_i32(v), v.to_string());
    }
}

#[test]
fn parse_reads_signed_decimals() {
    assert_eq!(parse_i32("10"), Some(10));
    assert_eq!(parse_i32("+7"), Some(7));
    assert_eq!(parse_i32("-42"), Some(-42));
    assert_eq!(parse_i32("-0"), Some(0));
    assert_eq!(parse_i32("007"), Some(7));
}

#[test]
fn parse_rejects_what_is_not_a_number() {
    assert_eq!(parse_i32(""), None);
    assert_eq!(parse_i32("-"), None);
    assert_eq!(parse_i32("+"), None);
    assert_eq!(parse_i32("12a"), None);
    assert_eq!(parse_i32(" 1"), None);
    assert_eq!(parse_i32("1.5"), None);
    assert_eq!(parse_i32("--1"), None);
}

#[test]
fn parse_stops_at_the_range_of_i32() {
    assert_eq!(parse_i32("2147483647"), Some(i32::MAX));
    assert_eq!(parse_i32("2147483648"), None);
    assert_eq!(parse_i32("-2147483648"), Some(i32::MIN));
    assert_eq!(parse_i32("-2147483649"), None);
    assert_eq!(parse_i32("99999999999999999999"), None);
}

#[test]
fn parse_agrees_with_std() {
    for s in ["0", "+0", "-17", "65536", "2147483648", "abc", "", "1_000"] {
        assert_eq!(parse_i32(s), s.parse::<i32>().ok());
    }
}

#[test]
fn formatted_text_parses_back() {
    for v in [i32::MIN, -12345, -1, 0, 1, 10, 2024, i32::MAX] {
        assert_eq!(parse_i32(&format_i32(v)), Some(v));
    }
}

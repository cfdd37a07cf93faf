use static_serve::date::{civil_from_days, format_http_date, parse_http_date, END_OF_DATES};

fn text(secs: u64) -> String {
    String::from_utf8(format_http_date(secs).expect("a date")).expect("ASCII")
}

#[test]
fn epoch_is_a_thursday() {
    assert_eq!(text(0), "Thu, 01 Jan 1970 00:00:00 GMT");
}

#[test]
fn known_dates_are_formatted() {
    assert_eq!(text(784111777), "Sun, 06 Nov 1994 08:49:37 GMT");
    assert_eq!(text(86399), "Thu, 01 Jan 1970 23:59:59 GMT");
    assert_eq!(text(86400), "Fri, 02 Jan 1970 00:00:00 GMT");
    assert_eq!(text(1709210096), "Thu, 29 Feb 2024 12:34:56 GMT");
    assert_eq!(text(1740787200), "Sat, 01 Mar 2025 00:00:00 GMT");
}

#[test]
fn leap_years_follow_the_rule_of_centuries() {
    assert_eq!(text(68169600), "Tue, 29 Feb 1972 00:00:00 GMT");
    assert_eq!(text(951782400), "Tue, 29 Feb 2000 00:00:00 GMT");
    assert_eq!(text(951868799), "Tue, 29 Feb 2000 23:59:59 GMT");
    assert_eq!(text(4107542400), "Mon, 01 Mar 2100 00:00:00 GMT");
    assert_eq!(text(4107542399), "Sun, 28 Feb 2100 23:59:59 GMT");
}

#[test]
fn the_format_ends_with_the_year_9999() {
    assert_eq!(text(253402300799), "Fri, 31 Dec 9999 23:59:59 GMT");
    assert_eq!(END_OF_DATES, 253402300800);
    assert_eq!(format_http_date(END_OF_DATES), None);
    assert_eq!(format_http_date(u64::MAX), None);
}

#[test]
fn days_become_dates() {
    assert_eq!(civil_from_days(0), Some((1970, 1, 1)));
    assert_eq!(civil_from_days(364), Some((1970, 12, 31)));
    assert_eq!(civil_from_days(365), Some((1971, 1, 1)));
    assert_eq!(civil_from_days(11016), Some((2000, 2, 29)));
    assert_eq!(civil_from_days(11017), Some((2000, 3, 1)));
    assert_eq!(civil_from_days(2932896), Some((9999, 12, 31)));
    assert_eq!(civil_from_days(2932897), None);
    assert_eq!(civil_from_days(u64::MAX), None);
}

#[test]
fn known_dates_are_parsed() {
    assert_eq!(parse_http_date(b"Sun, 06 Nov 1994 08:49:37 GMT"), Some(784111777));
    assert_eq!(parse_http_date(b"Thu, 01 Jan 1970 00:00:00 GMT"), Some(0));
    assert_eq!(parse_http_date(b"Tue, 29 Feb 2000 23:59:59 GMT"), Some(951868799));
    assert_eq!(parse_http_date(b"Fri, 31 Dec 9999 23:59:59 GMT"), Some(253402300799));
}

#[test]
fn dates_are_read_back() {
    for secs in [0u64, 1, 59, 3600, 86399, 86400, 784111777, 951782400, 1709210096, 253402300799] {
        let shown = format_http_date(secs).expect("a date");
        assert_eq!(parse_http_date(&shown), Some(secs));
    }
}

#[test]
fn a_wrong_day_of_the_week_is_no_date() {
    assert_eq!(parse_http_date(b"Mon, 06 Nov 1994 08:49:37 GMT"), None);
}

#[test]
fn a_day_that_the_month_lacks_is_no_date() {
    assert_eq!(parse_http_date(b"Thu, 30 Feb 2023 00:00:00 GMT"), None);
    assert_eq!(parse_http_date(b"Wed, 29 Feb 2023 00:00:00 GMT"), None);
    assert_eq!(parse_http_date(b"Mon, 29 Feb 2100 00:00:00 GMT"), None);
    assert_eq!(parse_http_date(b"Thu, 00 Jan 1970 00:00:00 GMT"), None);
}

#[test]
fn fields_out_of_range_are_no_date() {
    assert_eq!(parse_http_date(b"Sun, 06 Nov 1994 24:49:37 GMT"), None);
    assert_eq!(parse_http_date(b"Sun, 06 Nov 1994 08:60:37 GMT"), None);
    assert_eq!(parse_http_date(b"Sun, 06 Nov 1994 08:49:60 GMT"), None);
    assert_eq!(parse_http_date(b"Wed, 31 Dec 1969 23:59:59 GMT"), None);
}

#[test]
fn other_forms_are_no_date() {
    assert_eq!(parse_http_date(b""), None);
    assert_eq!(parse_http_date(b"Sunday, 06-Nov-94 08:49:37 GMT"), None);
    assert_eq!(parse_http_date(b"Sun Nov  6 08:49:37 1994"), None);
    assert_eq!(parse_http_date(b"Sun, 06 Nov 1994 08:49:37 UTC"), None);
    assert_eq!(parse_http_date(b"sun, 06 Nov 1994 08:49:37 GMT"), None);
    assert_eq!(parse_http_date(b"Sun, 06 nov 1994 08:49:37 GMT"), None);
    assert_eq!(parse_http_date(b"Sun, 6  Nov 1994 08:49:37 GMT"), None);
    assert_eq!(parse_http_date(b"Sun, 06 Nov 1994 08:49:37 GMT "), None);
}

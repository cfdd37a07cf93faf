use static_serve::range::{parse_range, RangeSpec};

fn range(start: u64, end: u64) -> Option<RangeSpec> {
    Some(RangeSpec { start, end })
}

#[test]
fn first_and_last_byte() {
    assert_eq!(parse_range(b"bytes=0-4", 13), range(0, 4));
    assert_eq!(parse_range(b"bytes=5-5", 13), range(5, 5));
    assert_eq!(parse_range(b"bytes=0-12", 13), range(0, 12));
    assert_eq!(parse_range(b"bytes=007-0010", 13), range(7, 10));
}

#[test]
fn an_end_beyond_the_file_is_cut() {
    assert_eq!(parse_range(b"bytes=0-13", 13), range(0, 12));
    assert_eq!(parse_range(b"bytes=10-999", 13), range(10, 12));
    assert_eq!(parse_range(b"bytes=3-99999999999999999999999999", 13), range(3, 12));
}

#[test]
fn open_end_runs_to_the_last_byte() {
    assert_eq!(parse_range(b"bytes=7-", 13), range(7, 12));
    assert_eq!(parse_range(b"bytes=0-", 13), range(0, 12));
    assert_eq!(parse_range(b"bytes=12-", 13), range(12, 12));
}

#[test]
fn suffix_counts_from_the_end() {
    assert_eq!(parse_range(b"bytes=-5", 13), range(8, 12));
    assert_eq!(parse_range(b"bytes=-13", 13), range(0, 12));
    assert_eq!(parse_range(b"bytes=-500", 13), range(0, 12));
    assert_eq!(parse_range(b"bytes=-99999999999999999999999999", 13), range(0, 12));
}

#[test]
fn ranges_that_the_file_lacks_select_nothing() {
    assert_eq!(parse_range(b"bytes=13-", 13), None);
    assert_eq!(parse_range(b"bytes=13-20", 13), None);
    assert_eq!(parse_range(b"bytes=99999999999999999999999999-", 13), None);
    assert_eq!(parse_range(b"bytes=-0", 13), None);
    assert_eq!(parse_range(b"bytes=5-2", 13), None);
    assert_eq!(parse_range(b"bytes=0-0", 0), None);
    assert_eq!(parse_range(b"bytes=0-", 0), None);
    assert_eq!(parse_range(b"bytes=-1", 0), None);
}

#[test]
fn other_texts_select_nothing() {
    assert_eq!(parse_range(b"", 13), None);
    assert_eq!(parse_range(b"bytes=", 13), None);
    assert_eq!(parse_range(b"bytes=-", 13), None);
    assert_eq!(parse_range(b"bytes=0", 13), None);
    assert_eq!(parse_range(b"bytes=a-b", 13), None);
    assert_eq!(parse_range(b"bytes=0-4,6-8", 13), None);
    assert_eq!(parse_range(b"bytes=0-4-", 13), None);
    assert_eq!(parse_range(b"bytes= 0-4", 13), None);
    assert_eq!(parse_range(b"bytes=0-4 ", 13), None);
    assert_eq!(parse_range(b"Bytes=0-4", 13), None);
    assert_eq!(parse_range(b"items=0-4", 13), None);
    assert_eq!(parse_range(b"0-4", 13), None);
}

#[test]
fn the_largest_file_has_its_last_byte() {
    assert_eq!(
        parse_range(b"bytes=18446744073709551614-18446744073709551615", u64::MAX),
        range(18446744073709551614, 18446744073709551614)
    );
    assert_eq!(parse_range(b"bytes=18446744073709551615-", u64::MAX), None);
    assert_eq!(parse_range(b"bytes=-18446744073709551616", u64::MAX), range(0, u64::MAX - 1));
}

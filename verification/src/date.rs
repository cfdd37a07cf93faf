//! Calendar dates and the fixed-length date format of HTTP.
//!
//! Instants are whole seconds since the Unix epoch, 1970-01-01 00:00:00 GMT.
//! The format has four-digit years, so it ends with the year 9999.

use vstd::prelude::*;
use vstd::slice::slice_subrange;
use crate::text::{ascii, is_digit, is_text, push_four_digits, push_text, push_two_digits, two_digits, four_digits};

verus! {

/// The seconds of a day.
pub const SECS_PER_DAY: u64 = 86400;

/// The first instant that the format cannot show: the start of the year 10000.
pub const END_OF_DATES: u64 = 253402300800;

/// The number of days from the epoch to the start of the year 10000.
pub const DAYS_END: u64 = 2932897;

/// Whether the year `y` has a 29th of February.
pub open spec fn is_leap(y: int) -> bool {
    y % 4 == 0 && (y % 100 != 0 || y % 400 == 0)
}

/// The days of the year `y`.
pub open spec fn year_len(y: int) -> int {
    if is_leap(y) {
        366
    } else {
        365
    }
}

/// The days of month `m` of the year `y`.
pub open spec fn month_len(y: int, m: int) -> int {
    if m == 2 {
        if is_leap(y) {
            29
        } else {
            28
        }
    } else if m == 4 || m == 6 || m == 9 || m == 11 {
        30
    } else {
        31
    }
}

/// The days from the epoch to the first day of the year `y`.
pub open spec fn days_before_year(y: int) -> int
    decreases y - 1970,
{
    if y <= 1970 {
        0
    } else {
        days_before_year(y - 1) + year_len(y - 1)
    }
}

/// The days from the first day of the year `y` to the first day of its month `m`.
pub open spec fn days_before_month(y: int, m: int) -> int
    decreases m,
{
    if m <= 1 {
        0
    } else {
        days_before_month(y, m - 1) + month_len(y, m - 1)
    }
}

/// Whether year, month and day name a day of the calendar, not before 1970.
pub open spec fn is_date(y: int, m: int, d: int) -> bool {
    1970 <= y && 1 <= m <= 12 && 1 <= d <= month_len(y, m)
}

/// The days from the epoch to a date.
pub open spec fn days_from_civil(y: int, m: int, d: int) -> int {
    days_before_year(y) + days_before_month(y, m) + d - 1
}

/// The year that holds the day `rem` days after the start of the year `y`.
pub open spec fn year_from(y: int, rem: int) -> int
    decreases rem,
{
    if rem < year_len(y) {
        y
    } else {
        year_from(y + 1, rem - year_len(y))
    }
}

/// The month that holds the day `rem` days after the start of month `m` of
/// the year `y`.
pub open spec fn month_from(y: int, m: int, rem: int) -> int
    decreases 12 - m,
{
    if m >= 12 || rem < month_len(y, m) {
        m
    } else {
        month_from(y, m + 1, rem - month_len(y, m))
    }
}

/// Year, month and day of the day that lies `days` days after the epoch.
pub open spec fn civil(days: int) -> (int, int, int) {
    let y = year_from(1970, days);
    let in_year = days - days_before_year(y);
    let m = month_from(y, 1, in_year);
    (y, m, in_year - days_before_month(y, m) + 1)
}

/// The day of the week, counted from Sunday as 0. The epoch was a Thursday.
pub open spec fn weekday(days: int) -> int {
    (days + 4) % 7
}

/// The three-letter name of a day of the week.
pub open spec fn day_name(w: int) -> Seq<u8> {
    if w == 0 {
        ascii("Sun"@)
    } else if w == 1 {
        ascii("Mon"@)
    } else if w == 2 {
        ascii("Tue"@)
    } else if w == 3 {
        ascii("Wed"@)
    } else if w == 4 {
        ascii("Thu"@)
    } else if w == 5 {
        ascii("Fri"@)
    } else {
        ascii("Sat"@)
    }
}

/// The three-letter name of a month.
pub open spec fn month_name(m: int) -> Seq<u8> {
    if m == 1 {
        ascii("Jan"@)
    } else if m == 2 {
        ascii("Feb"@)
    } else if m == 3 {
        ascii("Mar"@)
    } else if m == 4 {
        ascii("Apr"@)
    } else if m == 5 {
        ascii("May"@)
    } else if m == 6 {
        ascii("Jun"@)
    } else if m == 7 {
        ascii("Jul"@)
    } else if m == 8 {
        ascii("Aug"@)
    } else if m == 9 {
        ascii("Sep"@)
    } else if m == 10 {
        ascii("Oct"@)
    } else if m == 11 {
        ascii("Nov"@)
    } else {
        ascii("Dec"@)
    }
}

/// The fixed-length form, as in `Sun, 06 Nov 1994 08:49:37 GMT`.
pub open spec fn fixdate(w: int, d: int, m: int, y: int, hh: int, mi: int, ss: int) -> Seq<u8> {
    day_name(w) + seq![',' as u8, ' ' as u8] + two_digits(d as nat) + seq![' ' as u8] + month_name(
        m,
    ) + seq![' ' as u8] + four_digits(y as nat) + seq![' ' as u8] + two_digits(hh as nat)
        + seq![':' as u8] + two_digits(mi as nat) + seq![':' as u8] + two_digits(ss as nat)
        + seq![' ' as u8, 'G' as u8, 'M' as u8, 'T' as u8]
}

/// The HTTP date of an instant.
pub open spec fn http_date(secs: int) -> Seq<u8> {
    let days = secs / 86400;
    let in_day = secs % 86400;
    let c = civil(days);
    fixdate(weekday(days), c.2, c.1, c.0, in_day / 3600, (in_day / 60) % 60, in_day % 60)
}

/// The number that two digits at `i` denote, if digits they are.
pub open spec fn two_at(s: Seq<u8>, i: int) -> Option<int> {
    if is_digit(s[i]) && is_digit(s[i + 1]) {
        Some((s[i] - '0' as u8) * 10 + (s[i + 1] - '0' as u8))
    } else {
        None
    }
}

/// The day of the week that a three-letter name stands for.
pub open spec fn day_index(name: Seq<u8>) -> Option<int> {
    if name == day_name(0) {
        Some(0)
    } else if name == day_name(1) {
        Some(1)
    } else if name == day_name(2) {
        Some(2)
    } else if name == day_name(3) {
        Some(3)
    } else if name == day_name(4) {
        Some(4)
    } else if name == day_name(5) {
        Some(5)
    } else if name == day_name(6) {
        Some(6)
    } else {
        None
    }
}

/// The month that a three-letter name stands for.
pub open spec fn month_index(name: Seq<u8>) -> Option<int> {
    if name == month_name(1) {
        Some(1)
    } else if name == month_name(2) {
        Some(2)
    } else if name == month_name(3) {
        Some(3)
    } else if name == month_name(4) {
        Some(4)
    } else if name == month_name(5) {
        Some(5)
    } else if name == month_name(6) {
        Some(6)
    } else if name == month_name(7) {
        Some(7)
    } else if name == month_name(8) {
        Some(8)
    } else if name == month_name(9) {
        Some(9)
    } else if name == month_name(10) {
        Some(10)
    } else if name == month_name(11) {
        Some(11)
    } else if name == month_name(12) {
        Some(12)
    } else {
        None
    }
}

/// Whether the bytes around the fields of `s` are those of the fixed-length form.
pub open spec fn has_fixdate_frame(s: Seq<u8>) -> bool {
    &&& s.len() == 29
    &&& s[3] == ',' as u8
    &&& s[4] == ' ' as u8
    &&& s[7] == ' ' as u8
    &&& s[11] == ' ' as u8
    &&& s[16] == ' ' as u8
    &&& s[19] == ':' as u8
    &&& s[22] == ':' as u8
    &&& s[25] == ' ' as u8
    &&& s[26] == 'G' as u8
    &&& s[27] == 'M' as u8
    &&& s[28] == 'T' as u8
}

/// The instant that a date in the fixed-length form names. A text in any
/// other form, with a field out of range, with a day that its month does not
/// have, or with the wrong day of the week names none.
pub open spec fn parsed_http_date(s: Seq<u8>) -> Option<int> {
    if !has_fixdate_frame(s) {
        None
    } else {
        let w = day_index(s.subrange(0, 3));
        let d = two_at(s, 5);
        let m = month_index(s.subrange(8, 11));
        let yh = two_at(s, 12);
        let yl = two_at(s, 14);
        let hh = two_at(s, 17);
        let mi = two_at(s, 20);
        let ss = two_at(s, 23);
        if w is Some && d is Some && m is Some && yh is Some && yl is Some && hh is Some
            && mi is Some && ss is Some {
            let y = yh->Some_0 * 100 + yl->Some_0;
            let days = days_from_civil(y, m->Some_0, d->Some_0);
            if is_date(y, m->Some_0, d->Some_0) && hh->Some_0 < 24 && mi->Some_0 < 60
                && ss->Some_0 < 60 && weekday(days) == w->Some_0 {
                Some(days * 86400 + hh->Some_0 * 3600 + mi->Some_0 * 60 + ss->Some_0)
            } else {
                None
            }
        } else {
            None
        }
    }
}

/// A year has 365 or 366 days, and the next year starts when it ends.
pub proof fn lemma_year_bounds(y: int)
    requires
        1970 <= y,
    ensures
        365 * (y - 1970) <= days_before_year(y) <= 366 * (y - 1970),
        days_before_year(y + 1) == days_before_year(y) + year_len(y),
    decreases y - 1970,
{
    if y > 1970 {
        lemma_year_bounds(y - 1);
    }
}

/// A later year starts no earlier.
pub proof fn lemma_years_monotone(a: int, b: int)
    requires
        1970 <= a <= b,
    ensures
        days_before_year(a) <= days_before_year(b),
    decreases b - a,
{
    if a < b {
        lemma_years_monotone(a, b - 1);
    }
}

/// The leap-year rule summed up: the days before a year in closed form.
pub proof fn lemma_days_before_year(y: int)
    requires
        1970 <= y,
    ensures
        days_before_year(y) == 365 * (y - 1970) + (y - 1969) / 4 - (y - 1901) / 100 + (y - 1601)
            / 400,
    decreases y - 1970,
{
    if y > 1970 {
        lemma_days_before_year(y - 1);
    }
}

/// The day of the year on which each month starts.
pub proof fn lemma_months(y: int)
    ensures
        days_before_month(y, 1) == 0,
        days_before_month(y, 2) == 31,
        days_before_month(y, 3) == 31 + month_len(y, 2),
        days_before_month(y, 4) == 62 + month_len(y, 2),
        days_before_month(y, 5) == 92 + month_len(y, 2),
        days_before_month(y, 6) == 123 + month_len(y, 2),
        days_before_month(y, 7) == 153 + month_len(y, 2),
        days_before_month(y, 8) == 184 + month_len(y, 2),
        days_before_month(y, 9) == 215 + month_len(y, 2),
        days_before_month(y, 10) == 245 + month_len(y, 2),
        days_before_month(y, 11) == 276 + month_len(y, 2),
        days_before_month(y, 12) == 306 + month_len(y, 2),
        days_before_month(y, 12) + 31 == year_len(y),
{
    reveal_with_fuel(days_before_month, 13);
}

/// A year found by its bounds is the year that the calendar walk finds.
pub proof fn lemma_year_found(from: int, rem: int, y: int)
    requires
        1970 <= from <= y,
        days_before_year(y) - days_before_year(from) <= rem < days_before_year(y + 1)
            - days_before_year(from),
    ensures
        year_from(from, rem) == y,
    decreases y - from,
{
    lemma_year_bounds(from);
    if from < y {
        lemma_years_monotone(from + 1, y);
        lemma_year_found(from + 1, rem - year_len(from), y);
    } else {
        lemma_year_bounds(y);
    }
}

/// The calendar walk over years ends in the year whose days hold the day.
pub proof fn lemma_year_from(from: int, rem: int)
    requires
        1970 <= from,
        0 <= rem,
    ensures
        from <= year_from(from, rem),
        days_before_year(year_from(from, rem)) - days_before_year(from) <= rem
            < days_before_year(year_from(from, rem) + 1) - days_before_year(from),
    decreases rem,
{
    lemma_year_bounds(from);
    if rem >= year_len(from) {
        lemma_year_from(from + 1, rem - year_len(from));
    }
}

/// The calendar walk over months ends in the month whose days hold the day.
pub proof fn lemma_month_from(y: int, m: int, rem: int)
    requires
        1 <= m <= 12,
        0 <= rem < year_len(y) - days_before_month(y, m),
    ensures
        m <= month_from(y, m, rem) <= 12,
        days_before_month(y, month_from(y, m, rem)) - days_before_month(y, m) <= rem
            < days_before_month(y, month_from(y, m, rem)) - days_before_month(y, m) + month_len(
            y,
            month_from(y, m, rem),
        ),
    decreases 12 - m,
{
    lemma_months(y);
    if m < 12 && rem >= month_len(y, m) {
        lemma_month_from(y, m + 1, rem - month_len(y, m));
    }
}

/// Every day from the epoch on has a date, and counting the days to that
/// date gives the day back.
pub proof fn lemma_civil(days: int)
    requires
        0 <= days,
    ensures
        is_date(civil(days).0, civil(days).1, civil(days).2),
        days_from_civil(civil(days).0, civil(days).1, civil(days).2) == days,
        days < DAYS_END ==> civil(days).0 <= 9999,
{
    lemma_year_from(1970, days);
    let y = year_from(1970, days);
    lemma_year_bounds(y);
    lemma_months(y);
    lemma_month_from(y, 1, days - days_before_year(y));
    if days < DAYS_END && y >= 10000 {
        lemma_years_monotone(10000, y);
        lemma_days_before_year(10000);
    }
}

/// Each day of the week has its own three-letter name.
pub proof fn lemma_day_names(w: int)
    requires
        0 <= w < 7,
    ensures
        day_name(w).len() == 3,
        day_index(day_name(w)) == Some(w),
{
    reveal_strlit("Sun");
    reveal_strlit("Mon");
    reveal_strlit("Tue");
    reveal_strlit("Wed");
    reveal_strlit("Thu");
    reveal_strlit("Fri");
    reveal_strlit("Sat");
    assert(day_name(0)[0] == 'S' as u8 && day_name(0)[1] == 'u' as u8);
    assert(day_name(1)[0] == 'M' as u8);
    assert(day_name(2)[0] == 'T' as u8 && day_name(2)[1] == 'u' as u8);
    assert(day_name(3)[0] == 'W' as u8);
    assert(day_name(4)[0] == 'T' as u8 && day_name(4)[1] == 'h' as u8);
    assert(day_name(5)[0] == 'F' as u8);
    assert(day_name(6)[0] == 'S' as u8 && day_name(6)[1] == 'a' as u8);
}

/// Each month has its own three-letter name.
pub proof fn lemma_month_names(m: int)
    requires
        1 <= m <= 12,
    ensures
        month_name(m).len() == 3,
        month_index(month_name(m)) == Some(m),
{
    reveal_strlit("Jan");
    reveal_strlit("Feb");
    reveal_strlit("Mar");
    reveal_strlit("Apr");
    reveal_strlit("May");
    reveal_strlit("Jun");
    reveal_strlit("Jul");
    reveal_strlit("Aug");
    reveal_strlit("Sep");
    reveal_strlit("Oct");
    reveal_strlit("Nov");
    reveal_strlit("Dec");
    assert(month_name(1)[0] == 'J' as u8 && month_name(1)[1] == 'a' as u8);
    assert(month_name(2)[0] == 'F' as u8);
    assert(month_name(3)[0] == 'M' as u8 && month_name(3)[2] == 'r' as u8);
    assert(month_name(4)[0] == 'A' as u8 && month_name(4)[1] == 'p' as u8);
    assert(month_name(5)[0] == 'M' as u8 && month_name(5)[2] == 'y' as u8);
    assert(month_name(6)[0] == 'J' as u8 && month_name(6)[1] == 'u' as u8 && month_name(6)[2]
        == 'n' as u8);
    assert(month_name(7)[0] == 'J' as u8 && month_name(7)[1] == 'u' as u8 && month_name(7)[2]
        == 'l' as u8);
    assert(month_name(8)[0] == 'A' as u8 && month_name(8)[1] == 'u' as u8);
    assert(month_name(9)[0] == 'S' as u8);
    assert(month_name(10)[0] == 'O' as u8);
    assert(month_name(11)[0] == 'N' as u8);
    assert(month_name(12)[0] == 'D' as u8);
}

/// Where the parts of a text of the fixed-length form stand.
proof fn lemma_layout(
    day: Seq<u8>,
    d: Seq<u8>,
    month: Seq<u8>,
    y: Seq<u8>,
    hh: Seq<u8>,
    mi: Seq<u8>,
    ss: Seq<u8>,
)
    requires
        day.len() == 3,
        d.len() == 2,
        month.len() == 3,
        y.len() == 4,
        hh.len() == 2,
        mi.len() == 2,
        ss.len() == 2,
    ensures
        ({
            let s = day + seq![',' as u8, ' ' as u8] + d + seq![' ' as u8] + month + seq![' ' as u8]
                + y + seq![' ' as u8] + hh + seq![':' as u8] + mi + seq![':' as u8] + ss
                + seq![' ' as u8, 'G' as u8, 'M' as u8, 'T' as u8];
            &&& has_fixdate_frame(s)
            &&& s.subrange(0, 3) == day
            &&& s.subrange(8, 11) == month
            &&& s[5] == d[0] && s[6] == d[1]
            &&& s[12] == y[0] && s[13] == y[1] && s[14] == y[2] && s[15] == y[3]
            &&& s[17] == hh[0] && s[18] == hh[1]
            &&& s[20] == mi[0] && s[21] == mi[1]
            &&& s[23] == ss[0] && s[24] == ss[1]
        }),
{
    let s = day + seq![',' as u8, ' ' as u8] + d + seq![' ' as u8] + month + seq![' ' as u8] + y
        + seq![' ' as u8] + hh + seq![':' as u8] + mi + seq![':' as u8] + ss
        + seq![' ' as u8, 'G' as u8, 'M' as u8, 'T' as u8];
    assert(s.subrange(0, 3) =~= day);
    assert(s.subrange(8, 11) =~= month);
}

/// Two digits are read back as the number that they were written for.
proof fn lemma_two_digits(s: Seq<u8>, i: int, n: int)
    requires
        0 <= n < 100,
        0 <= i,
        i + 1 < s.len(),
        s[i] == two_digits(n as nat)[0],
        s[i + 1] == two_digits(n as nat)[1],
    ensures
        two_at(s, i) == Some(n),
{
}

/// Where the fields of the fixed-length form stand, and that they can be
/// read back.
pub proof fn lemma_fixdate_fields(w: int, d: int, m: int, y: int, hh: int, mi: int, ss: int)
    requires
        0 <= w < 7,
        0 <= d < 100,
        1 <= m <= 12,
        0 <= y < 10000,
        0 <= hh < 100,
        0 <= mi < 100,
        0 <= ss < 100,
    ensures
        has_fixdate_frame(fixdate(w, d, m, y, hh, mi, ss)),
        fixdate(w, d, m, y, hh, mi, ss).subrange(0, 3) == day_name(w),
        fixdate(w, d, m, y, hh, mi, ss).subrange(8, 11) == month_name(m),
        two_at(fixdate(w, d, m, y, hh, mi, ss), 5) == Some(d),
        two_at(fixdate(w, d, m, y, hh, mi, ss), 12) == Some(y / 100),
        two_at(fixdate(w, d, m, y, hh, mi, ss), 14) == Some(y % 100),
        two_at(fixdate(w, d, m, y, hh, mi, ss), 17) == Some(hh),
        two_at(fixdate(w, d, m, y, hh, mi, ss), 20) == Some(mi),
        two_at(fixdate(w, d, m, y, hh, mi, ss), 23) == Some(ss),
{
    lemma_day_names(w);
    lemma_month_names(m);
    let s = fixdate(w, d, m, y, hh, mi, ss);
    let year = four_digits(y as nat);
    assert(year.len() == 4);
    assert(year[0] == two_digits((y / 100) as nat)[0] && year[1] == two_digits(
        (y / 100) as nat,
    )[1]);
    assert(year[2] == two_digits((y % 100) as nat)[0] && year[3] == two_digits(
        (y % 100) as nat,
    )[1]);
    lemma_layout(
        day_name(w),
        two_digits(d as nat),
        month_name(m),
        year,
        two_digits(hh as nat),
        two_digits(mi as nat),
        two_digits(ss as nat),
    );
    lemma_two_digits(s, 5, d);
    lemma_two_digits(s, 12, y / 100);
    lemma_two_digits(s, 14, y % 100);
    lemma_two_digits(s, 17, hh);
    lemma_two_digits(s, 20, mi);
    lemma_two_digits(s, 23, ss);
}

/// The HTTP date of an instant is read back as that instant.
pub proof fn lemma_http_date_is_read_back(secs: int)
    requires
        0 <= secs < END_OF_DATES,
    ensures
        parsed_http_date(http_date(secs)) == Some(secs),
{
    let days = secs / 86400;
    let in_day = secs % 86400;
    lemma_civil(days);
    let (y, m, d) = civil(days);
    let w = weekday(days);
    lemma_fixdate_fields(w, d, m, y, in_day / 3600, (in_day / 60) % 60, in_day % 60);
    lemma_day_names(w);
    lemma_month_names(m);
}

fn leap(y: u64) -> (r: bool)
    ensures
        r == is_leap(y as int),
{
    y % 4 == 0 && (y % 100 != 0 || y % 400 == 0)
}

fn month_length(y: u64, m: u64) -> (r: u64)
    ensures
        r == month_len(y as int, m as int),
{
    if m == 2 {
        if leap(y) {
            29
        } else {
            28
        }
    } else if m == 4 || m == 6 || m == 9 || m == 11 {
        30
    } else {
        31
    }
}

fn days_to_year(y: u64) -> (r: u64)
    requires
        1970 <= y <= 10000,
    ensures
        r == days_before_year(y as int),
{
    proof {
        lemma_days_before_year(y as int);
    }
    365 * (y - 1970) + (y - 1969) / 4 + (y - 1601) / 400 - (y - 1901) / 100
}

fn days_to_month(y: u64, m: u64) -> (r: u64)
    requires
        1 <= m <= 12,
    ensures
        r == days_before_month(y as int, m as int),
{
    let mut r: u64 = 0;
    let mut k: u64 = 1;
    while k < m
        invariant
            1 <= k <= m <= 12,
            r == days_before_month(y as int, k as int),
            r <= 31 * (k - 1),
        decreases m - k,
    {
        r = r + month_length(y, k);
        k += 1;
    }
    r
}

/// Year, month and day of a day count; `None` from the year 10000 on.
pub fn civil_from_days(days: u64) -> (r: Option<(u64, u64, u64)>)
    ensures
        match r {
            Some(date) => {
                &&& days < DAYS_END
                &&& (date.0 as int, date.1 as int, date.2 as int) == civil(days as int)
                &&& is_date(date.0 as int, date.1 as int, date.2 as int)
                &&& date.0 <= 9999
            },
            None => days >= DAYS_END,
        },
{
    if days >= DAYS_END {
        return None;
    }
    let mut y: u64 = 1970 + days / 366;
    proof {
        lemma_year_bounds(y as int);
    }
    while days >= days_to_year(y + 1)
        invariant
            1970 <= y <= 9999,
            days < DAYS_END,
            days_before_year(y as int) <= days,
        decreases 10000 - y,
    {
        proof {
            if y == 9999 {
                lemma_days_before_year(10000);
            }
        }
        y += 1;
    }
    let in_year: u64 = days - days_to_year(y);
    proof {
        lemma_year_found(1970, days as int, y as int);
        lemma_year_bounds(y as int);
        lemma_months(y as int);
        lemma_civil(days as int);
    }
    let mut m: u64 = 1;
    let mut rem: u64 = in_year;
    while m < 12 && rem >= month_length(y, m)
        invariant
            1 <= m <= 12,
            in_year < year_len(y as int),
            rem == in_year - days_before_month(y as int, m as int),
            month_from(y as int, 1, in_year as int) == month_from(y as int, m as int, rem as int),
        decreases 12 - m,
    {
        rem = rem - month_length(y, m);
        m += 1;
    }
    Some((y, m, rem + 1))
}

fn push_day_name(out: &mut Vec<u8>, w: u64)
    requires
        w < 7,
    ensures
        final(out)@ == old(out)@ + day_name(w as int),
{
    proof {
        reveal_strlit("Sun");
        reveal_strlit("Mon");
        reveal_strlit("Tue");
        reveal_strlit("Wed");
        reveal_strlit("Thu");
        reveal_strlit("Fri");
        reveal_strlit("Sat");
    }
    if w == 0 {
        push_text(out, "Sun");
    } else if w == 1 {
        push_text(out, "Mon");
    } else if w == 2 {
        push_text(out, "Tue");
    } else if w == 3 {
        push_text(out, "Wed");
    } else if w == 4 {
        push_text(out, "Thu");
    } else if w == 5 {
        push_text(out, "Fri");
    } else {
        push_text(out, "Sat");
    }
}

fn push_month_name(out: &mut Vec<u8>, m: u64)
    requires
        1 <= m <= 12,
    ensures
        final(out)@ == old(out)@ + month_name(m as int),
{
    proof {
        reveal_strlit("Jan");
        reveal_strlit("Feb");
        reveal_strlit("Mar");
        reveal_strlit("Apr");
        reveal_strlit("May");
        reveal_strlit("Jun");
        reveal_strlit("Jul");
        reveal_strlit("Aug");
        reveal_strlit("Sep");
        reveal_strlit("Oct");
        reveal_strlit("Nov");
        reveal_strlit("Dec");
    }
    if m == 1 {
        push_text(out, "Jan");
    } else if m == 2 {
        push_text(out, "Feb");
    } else if m == 3 {
        push_text(out, "Mar");
    } else if m == 4 {
        push_text(out, "Apr");
    } else if m == 5 {
        push_text(out, "May");
    } else if m == 6 {
        push_text(out, "Jun");
    } else if m == 7 {
        push_text(out, "Jul");
    } else if m == 8 {
        push_text(out, "Aug");
    } else if m == 9 {
        push_text(out, "Sep");
    } else if m == 10 {
        push_text(out, "Oct");
    } else if m == 11 {
        push_text(out, "Nov");
    } else {
        push_text(out, "Dec");
    }
}

/// The HTTP date of an instant; `None` from the year 10000 on, which the
/// format cannot show.
pub fn format_http_date(secs: u64) -> (r: Option<Vec<u8>>)
    ensures
        match r {
            Some(text) => secs < END_OF_DATES && text@ == http_date(secs as int),
            None => secs >= END_OF_DATES,
        },
{
    if secs >= END_OF_DATES {
        return None;
    }
    let days: u64 = secs / SECS_PER_DAY;
    let in_day: u64 = secs % SECS_PER_DAY;
    let (y, m, d) = match civil_from_days(days) {
        Some(date) => date,
        None => {
            return None;
        },
    };
    let mut out: Vec<u8> = Vec::new();
    push_day_name(&mut out, (days + 4) % 7);
    out.push(',' as u8);
    out.push(' ' as u8);
    push_two_digits(&mut out, d);
    out.push(' ' as u8);
    push_month_name(&mut out, m);
    out.push(' ' as u8);
    push_four_digits(&mut out, y);
    out.push(' ' as u8);
    push_two_digits(&mut out, in_day / 3600);
    out.push(':' as u8);
    push_two_digits(&mut out, (in_day / 60) % 60);
    out.push(':' as u8);
    push_two_digits(&mut out, in_day % 60);
    out.push(' ' as u8);
    out.push('G' as u8);
    out.push('M' as u8);
    out.push('T' as u8);
    assert(out@ =~= http_date(secs as int));
    Some(out)
}

fn two_digits_at(s: &[u8], i: usize) -> (r: Option<u64>)
    requires
        i + 1 < s.len(),
    ensures
        match r {
            Some(v) => two_at(s@, i as int) == Some(v as int) && v < 100,
            None => two_at(s@, i as int).is_none(),
        },
{
    let a: u8 = s[i];
    let b: u8 = s[i + 1];
    if a >= '0' as u8 && a <= '9' as u8 && b >= '0' as u8 && b <= '9' as u8 {
        let hi: u64 = (a - '0' as u8) as u64;
        let lo: u64 = (b - '0' as u8) as u64;
        Some(hi * 10 + lo)
    } else {
        None
    }
}

fn day_at(s: &[u8]) -> (r: Option<u64>)
    requires
        s.len() >= 3,
    ensures
        match r {
            Some(w) => day_index(s@.subrange(0, 3)) == Some(w as int) && w < 7,
            None => day_index(s@.subrange(0, 3)).is_none(),
        },
{
    proof {
        reveal_strlit("Sun");
        reveal_strlit("Mon");
        reveal_strlit("Tue");
        reveal_strlit("Wed");
        reveal_strlit("Thu");
        reveal_strlit("Fri");
        reveal_strlit("Sat");
    }
    let name = slice_subrange(s, 0, 3);
    if is_text(name, "Sun") {
        Some(0)
    } else if is_text(name, "Mon") {
        Some(1)
    } else if is_text(name, "Tue") {
        Some(2)
    } else if is_text(name, "Wed") {
        Some(3)
    } else if is_text(name, "Thu") {
        Some(4)
    } else if is_text(name, "Fri") {
        Some(5)
    } else if is_text(name, "Sat") {
        Some(6)
    } else {
        None
    }
}

fn month_at(s: &[u8]) -> (r: Option<u64>)
    requires
        s.len() >= 11,
    ensures
        match r {
            Some(m) => month_index(s@.subrange(8, 11)) == Some(m as int) && 1 <= m <= 12,
            None => month_index(s@.subrange(8, 11)).is_none(),
        },
{
    proof {
        reveal_strlit("Jan");
        reveal_strlit("Feb");
        reveal_strlit("Mar");
        reveal_strlit("Apr");
        reveal_strlit("May");
        reveal_strlit("Jun");
        reveal_strlit("Jul");
        reveal_strlit("Aug");
        reveal_strlit("Sep");
        reveal_strlit("Oct");
        reveal_strlit("Nov");
        reveal_strlit("Dec");
    }
    let name = slice_subrange(s, 8, 11);
    if is_text(name, "Jan") {
        Some(1)
    } else if is_text(name, "Feb") {
        Some(2)
    } else if is_text(name, "Mar") {
        Some(3)
    } else if is_text(name, "Apr") {
        Some(4)
    } else if is_text(name, "May") {
        Some(5)
    } else if is_text(name, "Jun") {
        Some(6)
    } else if is_text(name, "Jul") {
        Some(7)
    } else if is_text(name, "Aug") {
        Some(8)
    } else if is_text(name, "Sep") {
        Some(9)
    } else if is_text(name, "Oct") {
        Some(10)
    } else if is_text(name, "Nov") {
        Some(11)
    } else if is_text(name, "Dec") {
        Some(12)
    } else {
        None
    }
}

fn framed(s: &[u8]) -> (r: bool)
    ensures
        r == has_fixdate_frame(s@),
{
    s.len() == 29 && s[3] == ',' as u8 && s[4] == ' ' as u8 && s[7] == ' ' as u8 && s[11]
        == ' ' as u8 && s[16] == ' ' as u8 && s[19] == ':' as u8 && s[22] == ':' as u8 && s[25]
        == ' ' as u8 && s[26] == 'G' as u8 && s[27] == 'M' as u8 && s[28] == 'T' as u8
}

/// Reads a date in the fixed-length form.
pub fn parse_http_date(s: &[u8]) -> (r: Option<u64>)
    ensures
        match r {
            Some(secs) => parsed_http_date(s@) == Some(secs as int),
            None => parsed_http_date(s@).is_none(),
        },
{
    if !framed(s) {
        return None;
    }
    let w = day_at(s);
    let d = two_digits_at(s, 5);
    let m = month_at(s);
    let yh = two_digits_at(s, 12);
    let yl = two_digits_at(s, 14);
    let hh = two_digits_at(s, 17);
    let mi = two_digits_at(s, 20);
    let ss = two_digits_at(s, 23);
    match (w, d, m, yh, yl, hh, mi, ss) {
        (Some(w), Some(d), Some(m), Some(yh), Some(yl), Some(hh), Some(mi), Some(ss)) => {
            let y: u64 = yh * 100 + yl;
            if y < 1970 || d < 1 || d > month_length(y, m) || hh >= 24 || mi >= 60 || ss >= 60 {
                return None;
            }
            proof {
                lemma_year_bounds(y as int);
                lemma_months(y as int);
            }
            let days: u64 = days_to_year(y) + days_to_month(y, m) + (d - 1);
            if (days + 4) % 7 != w {
                return None;
            }
            Some(days * SECS_PER_DAY + hh * 3600 + mi * 60 + ss)
        },
        _ => None,
    }
}

} // verus!

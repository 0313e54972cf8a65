//! Calendar arithmetic: turning seconds since the Unix epoch into a
//! proleptic-Gregorian date and time of day (UTC), and back.

use crate::text::{
    concat_blocks, lemma_lex_blocks, lemma_padded_len, lemma_padded_order, lex_less, padded_decimal,
    pow10, push_char, push_padded,
};
use std::time::{Duration, SystemTime, SystemTimeError, UNIX_EPOCH};
use vstd::prelude::*;

verus! {

/// Gregorian leap-year rule.
pub open spec fn is_leap_year(y: int) -> bool {
    y % 4 == 0 && (y % 100 != 0 || y % 400 == 0)
}

/// Number of days in year `y`.
pub open spec fn year_length(y: int) -> int {
    if is_leap_year(y) { 366 } else { 365 }
}

/// Number of days in month `m` (1 = January) of year `y`.
pub open spec fn days_in_month(y: int, m: int) -> int {
    if m == 2 {
        if is_leap_year(y) { 29 } else { 28 }
    } else if m == 4 || m == 6 || m == 9 || m == 11 {
        30
    } else {
        31
    }
}

/// Days in the months of year `y` that come before month `m`.
pub open spec fn days_before_month(y: int, m: int) -> int
    decreases m,
{
    if m <= 1 {
        0
    } else {
        days_before_month(y, m - 1) + days_in_month(y, m - 1)
    }
}

/// Days from 1970-01-01 to January 1st of year `y` (for `y >= 1970`).
pub open spec fn days_before_year(y: int) -> int
    decreases y - 1970,
{
    if y <= 1970 {
        0
    } else {
        days_before_year(y - 1) + year_length(y - 1)
    }
}

/// The day number of date `y-m-d`, counted from 1970-01-01 (day 0).
pub open spec fn days_from_epoch(y: int, m: int, d: int) -> int {
    days_before_year(y) + days_before_month(y, m) + d - 1
}

/// A calendar date on or after 1970-01-01.
pub open spec fn is_valid_date(y: int, m: int, d: int) -> bool {
    &&& y >= 1970
    &&& 1 <= m <= 12
    &&& 1 <= d <= days_in_month(y, m)
}

// ---------------------------------------------------------------------------
// Closed forms of the day counts.

/// `(y+3)/4 - (y+99)/100 + (y+399)/400` counts the leap years in `[0, y)`.
spec fn leaps_below(y: int) -> int {
    (y + 3) / 4 - (y + 99) / 100 + (y + 399) / 400
}

proof fn lemma_leaps_below_step(y: int)
    requires
        y >= 0,
    ensures
        leaps_below(y + 1) == leaps_below(y) + (if is_leap_year(y) { 1int } else { 0int }),
        leaps_below(y) + (if is_leap_year(y) { 1int } else { 0int }) == y / 4 - y / 100 + y / 400 + 1,
{
    assert((y + 4) / 4 == y / 4 + 1);
    assert((y + 100) / 100 == y / 100 + 1);
    assert((y + 400) / 400 == y / 400 + 1);
    if y % 4 == 0 {
        assert((y + 3) / 4 == y / 4);
    } else {
        assert((y + 3) / 4 == y / 4 + 1);
    }
    if y % 100 == 0 {
        assert((y + 99) / 100 == y / 100);
    } else {
        assert((y + 99) / 100 == y / 100 + 1);
    }
    if y % 400 == 0 {
        assert((y + 399) / 400 == y / 400);
    } else {
        assert((y + 399) / 400 == y / 400 + 1);
    }
    if y % 100 == 0 {
        assert(y % 4 == 0);
    }
    if y % 400 == 0 {
        assert(y % 100 == 0);
    }
}

proof fn lemma_days_before_year_closed(y: int)
    requires
        y >= 1970,
    ensures
        days_before_year(y) == 365 * (y - 1970) + leaps_below(y) - leaps_below(1970),
    decreases y - 1970,
{
    if y > 1970 {
        lemma_days_before_year_closed(y - 1);
        lemma_leaps_below_step(y - 1);
    }
}

/// Cumulative days before month `m` in a common year.
spec fn common_days_before(m: int) -> int {
    if m <= 1 { 0 }
    else if m == 2 { 31 }
    else if m == 3 { 59 }
    else if m == 4 { 90 }
    else if m == 5 { 120 }
    else if m == 6 { 151 }
    else if m == 7 { 181 }
    else if m == 8 { 212 }
    else if m == 9 { 243 }
    else if m == 10 { 273 }
    else if m == 11 { 304 }
    else if m == 12 { 334 }
    else { 365 }
}

proof fn lemma_days_before_month_closed(y: int, m: int)
    requires
        1 <= m <= 13,
    ensures
        days_before_month(y, m) == common_days_before(m)
            + (if m > 2 && is_leap_year(y) { 1int } else { 0int }),
    decreases m,
{
    if m > 1 {
        lemma_days_before_month_closed(y, m - 1);
    }
}


// ---------------------------------------------------------------------------
// The day-number to date conversion (Fliegel and Van Flandern's method on
// the Julian Day Number), step by step.

/// Splitting the shifted day count `a` into 400-year-aligned centuries:
/// `c` is the day within century `b`, and only the last century of a
/// 400-year cycle has a 36525th day.
proof fn lemma_century_split(a: int, b: int, c: int)
    requires
        a >= 0,
        b == (4 * a + 3) / 146097,
        c == a - (146097 * b) / 4,
    ensures
        b >= 0,
        (146097 * b) / 4 == 36524 * b + b / 4,
        0 <= c <= 36524,
        c == 36524 ==> b % 4 == 3,
{
    assert((146097 * b) / 4 == 36524 * b + b / 4);
    assert(146097 * b <= 4 * a + 3 < 146097 * b + 146097);
    assert(4 * (b / 4) + b % 4 == b);
}

/// Splitting the day within a century into 4-year-aligned years: `d` is the
/// year within the century and `e` the day within that March-based year;
/// only the last year of a 4-year group has a 366th day.
proof fn lemma_year_split(c: int, d: int, e: int)
    requires
        0 <= c <= 36524,
        d == (4 * c + 3) / 1461,
        e == c - (1461 * d) / 4,
    ensures
        0 <= d <= 99,
        (1461 * d) / 4 == 365 * d + d / 4,
        0 <= e <= 365,
        e == 365 ==> d % 4 == 3,
        d == 99 ==> c == 36159 + e,
{
    assert((1461 * d) / 4 == 365 * d + d / 4);
    assert(1461 * d <= 4 * c + 3 < 1461 * d + 1461);
    assert(4 * (d / 4) + d % 4 == d);
}

/// Splitting the day of a March-based year into a month index `m`
/// (0 = March, ..., 11 = February) and the day within it.
proof fn lemma_month_split(e: int, m: int)
    requires
        0 <= e <= 365,
        m == (5 * e + 2) / 153,
    ensures
        0 <= m <= 11,
        (153 * m + 2) / 5 <= e,
        5 * e + 2 < 153 * m + 153,
{
    assert(153 * m <= 5 * e + 2 < 153 * m + 153);
}

/// Day count from March 1st of year -4800 (proleptic) to day `e` of the
/// March-based year `yy - 4800`.
spec fn march_day_count(yy: int, e: int) -> int {
    365 * yy + yy / 4 - yy / 100 + yy / 400 + e
}

proof fn lemma_reassemble(a: int, b: int, c: int, d: int, e: int)
    requires
        b >= 0,
        0 <= d <= 99,
        a == 36524 * b + b / 4 + c,
        c == 365 * d + d / 4 + e,
    ensures
        a == march_day_count(100 * b + d, e),
{
    let yy = 100 * b + d;
    assert(yy / 4 == 25 * b + d / 4);
    assert(yy / 100 == b);
    assert(yy / 400 == b / 4);
}

/// Relating the March-based count to the day number since 1970-01-01.
proof fn lemma_march_to_civil(yy: int, m: int, e: int, day: int)
    requires
        yy >= 6769,
        yy == 6769 ==> m >= 10,
        0 <= m <= 11,
        e == (153 * m + 2) / 5 + day - 1,
    ensures
        ({
            let year = yy - 4800 + m / 10;
            let month = m + 3 - 12 * (m / 10);
            &&& year >= 1970
            &&& days_from_epoch(year, month, day) == march_day_count(yy, e) - 2472632
        }),
{
    let yp = yy - 4800;
    let year = yp + m / 10;
    let month = m + 3 - 12 * (m / 10);
    lemma_leaps_below_step(yp);
    assert(leaps_below(1970) == 478);
    assert(yy / 4 == yp / 4 + 1200);
    assert(yy / 100 == yp / 100 + 48);
    assert(yy / 400 == yp / 400 + 12);
    lemma_days_before_year_closed(year);
    lemma_days_before_month_closed(year, month);
    if m < 10 {
        assert(common_days_before(month) == 59 + (153 * m + 2) / 5) by {
            assert(m == 0 || m == 1 || m == 2 || m == 3 || m == 4 || m == 5 || m == 6 || m == 7
                || m == 8 || m == 9);
        }
    } else {
        assert(common_days_before(month) == (153 * m + 2) / 5 - 306) by {
            assert(m == 10 || m == 11);
        }
    }
}


/// The whole conversion: from a day number since 1970-01-01 through the
/// Julian Day Number to a valid date with that day number.
proof fn lemma_civil_from_day_number(days: int, a: int, b: int, c: int, d: int, e: int, m: int)
    requires
        days >= 0,
        a == days + 2440588 + 32044,
        b == (4 * a + 3) / 146097,
        c == a - (146097 * b) / 4,
        d == (4 * c + 3) / 1461,
        e == c - (1461 * d) / 4,
        m == (5 * e + 2) / 153,
    ensures
        0 <= c,
        0 <= e,
        0 <= m <= 11,
        (153 * m + 2) / 5 <= e,
        100 * b + d >= 4800,
        ({
            let year = 100 * b + d - 4800 + m / 10;
            let month = m + 3 - 12 * (m / 10);
            let day = e - (153 * m + 2) / 5 + 1;
            &&& is_valid_date(year, month, day)
            &&& days_from_epoch(year, month, day) == days
        }),
{
    lemma_century_split(a, b, c);
    lemma_year_split(c, d, e);
    lemma_month_split(e, m);
    lemma_reassemble(a, b, c, d, e);
    let yy = 100 * b + d;
    let day = e - (153 * m + 2) / 5 + 1;
    // The March-based year is at least 1969, and 1969 only from January 1970 on.
    if yy <= 6768 {
        assert(yy / 4 <= 1692);
        assert(yy / 100 >= 0);
        assert(yy / 400 <= 16);
        assert(march_day_count(yy, e) <= 2472326);
        assert(false);
    }
    if yy == 6769 {
        assert(march_day_count(yy, e) == 2472326 + e);
        assert(e >= 306);
    }
    lemma_march_to_civil(yy, m, e, day);
    let year = yy - 4800 + m / 10;
    let month = m + 3 - 12 * (m / 10);
    // The day lies within its month.
    if m == 11 && e == 365 {
        // February 29th: the year is a leap year.
        assert(d % 4 == 3);
        assert(year == 100 * b + d - 4799);
        assert(year % 4 == 0) by {
            assert(100 * b + d - 4799 == 4 * (25 * b + d / 4 - 1200) + (d % 4 + 1));
        }
        if d == 99 {
            assert(c == 36524);
            assert(b % 4 == 3);
            assert(year == 100 * (b + 1) - 4800);
            assert(year % 400 == 0) by {
                assert(100 * (b + 1) - 4800 == 400 * ((b + 1) / 4 - 12));
            }
        } else {
            assert(year % 100 != 0) by {
                assert(100 * b + d - 4799 == 100 * (b - 48) + (d + 1));
            }
        }
    }
    assert(1 <= day <= days_in_month(year, month)) by {
        assert(m == 0 || m == 1 || m == 2 || m == 3 || m == 4 || m == 5 || m == 6 || m == 7
            || m == 8 || m == 9 || m == 10 || m == 11);
    }
}


// ---------------------------------------------------------------------------
// Ordering of day numbers.

proof fn lemma_days_before_year_grows(y1: int, y2: int)
    requires
        1970 <= y1 <= y2,
    ensures
        days_before_year(y1) + 365 * (y2 - y1) <= days_before_year(y2),
    decreases y2 - y1,
{
    if y1 < y2 {
        lemma_days_before_year_grows(y1, y2 - 1);
    }
}

/// The day of the year `dbm + d - 1` of a valid date lies in `[0, year_length)`,
/// and a later month of the same year starts after it.
proof fn lemma_day_of_year_bounds(y: int, m: int, d: int, m2: int)
    requires
        is_valid_date(y, m, d),
        m < m2 <= 13,
    ensures
        0 <= days_before_month(y, m) + d - 1 < days_before_month(y, m2),
        days_before_month(y, 13) == year_length(y),
{
    lemma_days_before_month_closed(y, m);
    lemma_days_before_month_closed(y, m2);
    lemma_days_before_month_closed(y, 13);
    assert(m == 1 || m == 2 || m == 3 || m == 4 || m == 5 || m == 6 || m == 7 || m == 8 || m == 9
        || m == 10 || m == 11 || m == 12);
    assert(m2 == 2 || m2 == 3 || m2 == 4 || m2 == 5 || m2 == 6 || m2 == 7 || m2 == 8 || m2 == 9
        || m2 == 10 || m2 == 11 || m2 == 12 || m2 == 13);
}

/// Distinct valid dates have distinct day numbers, and later dates larger ones.
proof fn lemma_date_order(y1: int, m1: int, d1: int, y2: int, m2: int, d2: int)
    requires
        is_valid_date(y1, m1, d1),
        is_valid_date(y2, m2, d2),
        y1 < y2 || (y1 == y2 && m1 < m2) || (y1 == y2 && m1 == m2 && d1 < d2),
    ensures
        days_from_epoch(y1, m1, d1) < days_from_epoch(y2, m2, d2),
{
    lemma_day_of_year_bounds(y2, m2, d2, 13);
    if y1 < y2 {
        lemma_day_of_year_bounds(y1, m1, d1, 13);
        lemma_days_before_year_grows(y1 + 1, y2);
        assert(days_before_year(y1 + 1) == days_before_year(y1) + year_length(y1));
    } else if m1 < m2 {
        lemma_day_of_year_bounds(y1, m1, d1, m2);
    }
}

/// A valid civil time is determined by its count of seconds: two valid
/// times that denote the same instant have the same fields.
pub proof fn lemma_civil_time_unique(t1: CivilTime, t2: CivilTime)
    requires
        t1.is_valid(),
        t2.is_valid(),
        t1.unix_seconds() == t2.unix_seconds(),
    ensures
        t1 == t2,
{
    let n1 = days_from_epoch(t1.year as int, t1.month as int, t1.day as int);
    let n2 = days_from_epoch(t2.year as int, t2.month as int, t2.day as int);
    let r1 = t1.hour * 3600 + t1.minute * 60 + t1.second;
    let r2 = t2.hour * 3600 + t2.minute * 60 + t2.second;
    assert(0 <= r1 < 86400 && 0 <= r2 < 86400);
    if n1 < n2 {
        assert(n1 * 86400 + r1 < n2 * 86400 + r2);
    } else if n2 < n1 {
        assert(n2 * 86400 + r2 < n1 * 86400 + r1);
    }
    assert(n1 == n2);
    assert(r1 == r2);
    assert(t1.hour == t2.hour);
    assert(t1.minute == t2.minute);
    let (y1, m1, d1) = (t1.year as int, t1.month as int, t1.day as int);
    let (y2, m2, d2) = (t2.year as int, t2.month as int, t2.day as int);
    if y1 < y2 || (y1 == y2 && m1 < m2) || (y1 == y2 && m1 == m2 && d1 < d2) {
        lemma_date_order(y1, m1, d1, y2, m2, d2);
    } else if y2 < y1 || (y1 == y2 && m2 < m1) || (y1 == y2 && m1 == m2 && d2 < d1) {
        lemma_date_order(y2, m2, d2, y1, m1, d1);
    }
}

/// Before 10000-01-01 the year has at most four digits.
proof fn lemma_year_below_10000(t: CivilTime)
    requires
        t.is_valid(),
        t.unix_seconds() < 253402300800,
    ensures
        t.year < 10000,
{
    if t.year >= 10000 {
        lemma_days_before_year_grows(10000, t.year as int);
        lemma_days_before_year_closed(10000);
        lemma_day_of_year_bounds(t.year as int, t.month as int, t.day as int, 13);
        assert(days_before_year(10000) == 2932897);
        assert(false);
    }
}

/// Up to the end of year 9999 a stamp has the fixed width `YYYYMMDD_HHmmss`.
proof fn lemma_stamp_len(t: CivilTime)
    requires
        t.is_valid(),
        t.unix_seconds() < 253402300800,
    ensures
        t.stamp().len() == 15,
{
    lemma_year_below_10000(t);
    reveal_with_fuel(pow10, 5);
    lemma_padded_len(t.year as nat, 4);
    lemma_padded_len(t.month as nat, 2);
    lemma_padded_len(t.day as nat, 2);
    lemma_padded_len(t.hour as nat, 2);
    lemma_padded_len(t.minute as nat, 2);
    lemma_padded_len(t.second as nat, 2);
}

// ---------------------------------------------------------------------------
// Executable conversion.

/// A UTC calendar date and time of day, to the second.
#[derive(Clone, Copy, Debug)]
pub struct CivilTime {
    pub year: u64,
    pub month: u64,
    pub day: u64,
    pub hour: u64,
    pub minute: u64,
    pub second: u64,
}

impl CivilTime {
    /// A real date on or after 1970-01-01 and a real time of day.
    pub open spec fn is_valid(&self) -> bool {
        &&& is_valid_date(self.year as int, self.month as int, self.day as int)
        &&& self.hour < 24
        &&& self.minute < 60
        &&& self.second < 60
    }

    /// Seconds since 1970-01-01T00:00:00Z.
    pub open spec fn unix_seconds(&self) -> int {
        days_from_epoch(self.year as int, self.month as int, self.day as int) * 86400
            + self.hour * 3600 + self.minute * 60 + self.second
    }

    /// The `YYYYMMDD_HHmmss` rendering: every field zero-padded, the year to
    /// four digits and the others to two (wider values are written in full).
    pub open spec fn stamp(&self) -> Seq<char> {
        padded_decimal(self.year as nat, 4) + padded_decimal(self.month as nat, 2)
            + padded_decimal(self.day as nat, 2) + seq!['_']
            + padded_decimal(self.hour as nat, 2) + padded_decimal(self.minute as nat, 2)
            + padded_decimal(self.second as nat, 2)
    }

    /// Renders the time as `YYYYMMDD_HHmmss`.
    pub fn to_stamp(&self) -> (res: String)
        ensures
            res@ == self.stamp(),
    {
        let mut s = String::new();
        push_padded(&mut s, self.year, 4);
        push_padded(&mut s, self.month, 2);
        push_padded(&mut s, self.day, 2);
        push_char(&mut s, '_');
        push_padded(&mut s, self.hour, 2);
        push_padded(&mut s, self.minute, 2);
        push_padded(&mut s, self.second, 2);
        proof {
            assert(s@ =~= self.stamp());
        }
        s
    }
}

/// The valid civil time `secs` seconds after the Unix epoch (there is exactly
/// one for `secs >= 0`: see `lemma_civil_time_unique`).
pub open spec fn civil_at(secs: int) -> CivilTime {
    choose|t: CivilTime| t.is_valid() && t.unix_seconds() == secs
}

/// The `YYYYMMDD_HHmmss` stamp of the instant `secs` seconds after the epoch.
pub open spec fn stamp_at(secs: int) -> Seq<char> {
    civil_at(secs).stamp()
}

/// Every count of seconds a `u64` can hold has its valid civil time.
proof fn lemma_civil_at(secs: int)
    requires
        0 <= secs <= u64::MAX,
    ensures
        civil_at(secs).is_valid(),
        civil_at(secs).unix_seconds() == secs,
{
    let days = secs / 86400;
    let tod = secs % 86400;
    let a = days + 2440588 + 32044;
    let b = (4 * a + 3) / 146097;
    let c = a - (146097 * b) / 4;
    let d = (4 * c + 3) / 1461;
    let e = c - (1461 * d) / 4;
    let m = (5 * e + 2) / 153;
    lemma_civil_from_day_number(days, a, b, c, d, e, m);
    lemma_century_split(a, b, c);
    let year = 100 * b + d - 4800 + m / 10;
    let month = m + 3 - 12 * (m / 10);
    let day = e - (153 * m + 2) / 5 + 1;
    assert(b <= 4 * a + 3);
    let t = CivilTime {
        year: year as u64,
        month: month as u64,
        day: day as u64,
        hour: (tod / 3600) as u64,
        minute: ((tod % 3600) / 60) as u64,
        second: (tod % 60) as u64,
    };
    assert(t.is_valid() && t.unix_seconds() == secs);
}

/// Stamps sort in time order: of two instants before the year 10000, the
/// earlier one has the stamp that sorts first, so distinct seconds give
/// distinct stamps.
pub proof fn lemma_stamps_in_time_order(s1: int, s2: int)
    requires
        0 <= s1 < s2 < 253402300800,
    ensures
        lex_less(stamp_at(s1), stamp_at(s2)),
        stamp_at(s1) != stamp_at(s2),
{
    lemma_civil_at(s1);
    lemma_civil_at(s2);
    let t1 = civil_at(s1);
    let t2 = civil_at(s2);
    lemma_year_below_10000(t1);
    lemma_year_below_10000(t2);
    let (y1, m1, d1) = (t1.year as int, t1.month as int, t1.day as int);
    let (y2, m2, d2) = (t2.year as int, t2.month as int, t2.day as int);
    let n1 = days_from_epoch(y1, m1, d1);
    let n2 = days_from_epoch(y2, m2, d2);
    let r1 = t1.hour * 3600 + t1.minute * 60 + t1.second;
    let r2 = t2.hour * 3600 + t2.minute * 60 + t2.second;
    // The later date cannot come first.
    if y2 < y1 || (y1 == y2 && m2 < m1) || (y1 == y2 && m1 == m2 && d2 < d1) {
        lemma_date_order(y2, m2, d2, y1, m1, d1);
        assert(n2 * 86400 + r2 < n1 * 86400 + r1);
        assert(false);
    }
    reveal_with_fuel(pow10, 5);
    reveal_with_fuel(concat_blocks, 8);
    let x1 = seq![
        padded_decimal(t1.year as nat, 4),
        padded_decimal(t1.month as nat, 2),
        padded_decimal(t1.day as nat, 2),
        seq!['_'],
        padded_decimal(t1.hour as nat, 2),
        padded_decimal(t1.minute as nat, 2),
        padded_decimal(t1.second as nat, 2),
    ];
    let x2 = seq![
        padded_decimal(t2.year as nat, 4),
        padded_decimal(t2.month as nat, 2),
        padded_decimal(t2.day as nat, 2),
        seq!['_'],
        padded_decimal(t2.hour as nat, 2),
        padded_decimal(t2.minute as nat, 2),
        padded_decimal(t2.second as nat, 2),
    ];
    assert(concat_blocks(x1) =~= t1.stamp());
    assert(concat_blocks(x2) =~= t2.stamp());
    lemma_padded_len(t1.year as nat, 4);
    lemma_padded_len(t2.year as nat, 4);
    lemma_padded_len(t1.month as nat, 2);
    lemma_padded_len(t2.month as nat, 2);
    lemma_padded_len(t1.day as nat, 2);
    lemma_padded_len(t2.day as nat, 2);
    lemma_padded_len(t1.hour as nat, 2);
    lemma_padded_len(t2.hour as nat, 2);
    lemma_padded_len(t1.minute as nat, 2);
    lemma_padded_len(t2.minute as nat, 2);
    lemma_padded_len(t1.second as nat, 2);
    lemma_padded_len(t2.second as nat, 2);
    assert forall|i: int| 0 <= i < x1.len() implies (#[trigger] x1[i]).len() == x2[i].len() by {
        assert(i == 0 || i == 1 || i == 2 || i == 3 || i == 4 || i == 5 || i == 6);
    }
    if y1 < y2 {
        lemma_padded_order(t1.year as nat, t2.year as nat, 4);
        lemma_lex_blocks(x1, x2, 0);
    } else if m1 < m2 {
        lemma_padded_order(t1.month as nat, t2.month as nat, 2);
        lemma_lex_blocks(x1, x2, 1);
    } else if d1 < d2 {
        lemma_padded_order(t1.day as nat, t2.day as nat, 2);
        lemma_lex_blocks(x1, x2, 2);
    } else {
        assert(n1 == n2);
        assert(r1 < r2);
        if t1.hour < t2.hour {
            lemma_padded_order(t1.hour as nat, t2.hour as nat, 2);
            lemma_lex_blocks(x1, x2, 4);
        } else if t1.hour > t2.hour {
            assert(r2 < r1);
        } else if t1.minute < t2.minute {
            lemma_padded_order(t1.minute as nat, t2.minute as nat, 2);
            lemma_lex_blocks(x1, x2, 5);
        } else if t1.minute > t2.minute {
            assert(r2 < r1);
        } else {
            lemma_padded_order(t1.second as nat, t2.second as nat, 2);
            lemma_lex_blocks(x1, x2, 6);
        }
    }
    if stamp_at(s1) == stamp_at(s2) {
        let a = stamp_at(s1);
        let i = choose|i: int|
            #![trigger a[i], a[i]]
            0 <= i < a.len() && i < a.len() && a.take(i) == a.take(i) && (a[i] as u32) < (a[i]
                as u32);
        assert(false);
    }
}

/// The UTC date and time `secs` seconds after the Unix epoch.
pub fn civil_from_unix(secs: u64) -> (t: CivilTime)
    ensures
        t.is_valid(),
        t.unix_seconds() == secs,
        t == civil_at(secs as int),
{
    let days_since_epoch = secs / 86400;
    let time_of_day = secs % 86400;

    // Day number -> Julian Day Number -> (year, month, day).
    let jdn = days_since_epoch + 2440588;
    let a = jdn + 32044;
    let b = (4 * a + 3) / 146097;
    proof {
        assert(146097 * b <= 4 * a + 3);
    }
    let c = a - (146097 * b) / 4;
    proof {
        lemma_century_split(a as int, b as int, c as int);
    }
    let d = (4 * c + 3) / 1461;
    let e = c - (1461 * d) / 4;
    proof {
        lemma_year_split(c as int, d as int, e as int);
    }
    let m = (5 * e + 2) / 153;
    proof {
        lemma_civil_from_day_number(
            days_since_epoch as int,
            a as int,
            b as int,
            c as int,
            d as int,
            e as int,
            m as int,
        );
    }
    let year = 100 * b + d - 4800 + m / 10;
    let month = m + 3 - 12 * (m / 10);
    let day = e - (153 * m + 2) / 5 + 1;

    let hour = time_of_day / 3600;
    let minute = (time_of_day % 3600) / 60;
    let second = time_of_day % 60;

    let t = CivilTime { year, month, day, hour, minute, second };
    proof {
        assert(t.is_valid() && t.unix_seconds() == secs);
        let c = civil_at(secs as int);
        lemma_civil_time_unique(t, c);
    }
    t
}

/// Renders `secs` seconds after the Unix epoch as `YYYYMMDD_HHmmss` (UTC).
pub fn format_timestamp(secs: u64) -> (res: String)
    ensures
        res@ == stamp_at(secs as int),
        secs < 253402300800 ==> res@.len() == 15,
{
    let t = civil_from_unix(secs);
    let res = t.to_stamp();
    proof {
        if secs < 253402300800 {
            lemma_stamp_len(t);
        }
    }
    res
}

// ---------------------------------------------------------------------------
// Reading the system clock.

#[verifier::external_type_specification]
#[verifier::external_body]
pub struct ExSystemTime(SystemTime);

#[verifier::external_type_specification]
#[verifier::external_body]
pub struct ExSystemTimeError(SystemTimeError);

/// `SystemTime::now`: the current time of the system clock. Nothing is
/// promised of the value; it depends on when the call is made.
#[verifier::external_body]
fn system_time_now() -> SystemTime {
    SystemTime::now()
}

/// `SystemTime::duration_since(UNIX_EPOCH)`: the time elapsed since the
/// epoch, or an error for a time before it. Both values are opaque here.
#[verifier::external_body]
fn elapsed_since_unix_epoch(t: &SystemTime) -> Result<Duration, SystemTimeError> {
    t.duration_since(UNIX_EPOCH)
}

/// `Duration::as_secs`: the whole seconds of an (opaque) duration.
#[verifier::external_body]
fn whole_seconds(d: &Duration) -> u64 {
    d.as_secs()
}

/// The seconds to stamp for a clock reading: the whole seconds elapsed since
/// the epoch, or 0 when the clock reads before the epoch (`None`).
pub open spec fn epoch_seconds(elapsed: Option<u64>) -> u64 {
    match elapsed {
        Some(secs) => secs,
        None => 0,
    }
}

/// Turns a clock reading into seconds since the epoch, a reading before the
/// epoch counting as the epoch itself.
pub fn seconds_or_epoch(elapsed: Option<u64>) -> (secs: u64)
    ensures
        secs == epoch_seconds(elapsed),
{
    match elapsed {
        Some(secs) => secs,
        None => 0,
    }
}

/// The whole seconds since the epoch by the system clock, `None` when the
/// clock reads before the epoch. The value depends on when the call is made.
fn read_clock() -> Option<u64> {
    let now = system_time_now();
    match elapsed_since_unix_epoch(&now) {
        Ok(elapsed) => Some(whole_seconds(&elapsed)),
        Err(_) => None,
    }
}

/// Seconds since the Unix epoch by the system clock; a clock set before the
/// epoch reads as 0.
pub(crate) fn current_unix_seconds() -> u64 {
    let elapsed = read_clock();
    seconds_or_epoch(elapsed)
}

/// The current UTC time as `YYYYMMDD_HHmmss`; a clock set before the epoch
/// gives the stamp of the epoch.
pub fn chrono_timestamp() -> (res: String)
    ensures
        exists|elapsed: Option<u64>| res@ == stamp_at(epoch_seconds(elapsed) as int),
{
    let elapsed = read_clock();
    let secs = seconds_or_epoch(elapsed);
    let res = format_timestamp(secs);
    assert(res@ == stamp_at(epoch_seconds(elapsed) as int));
    res
}

} // verus!

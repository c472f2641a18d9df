//! The proleptic Gregorian calendar on a linear day/second timeline.
//!
//! Dates of years 1 through 9999 are mapped to a day index (day 0 is
//! 0001-01-01, a Monday), and timestamps to civil seconds on that line.
//! Due-detection and the next-fire search compare these numbers.

use vstd::prelude::*;

verus! {

/// Days of the week, Monday first, as a repeat schedule names them.
#[derive(Clone, Copy, Debug, PartialEq, Eq, Structural)]
pub enum Weekday {
    Mon,
    Tue,
    Wed,
    Thu,
    Fri,
    Sat,
    Sun,
}

/// A day of the proleptic Gregorian calendar.
#[derive(Clone, Copy, Debug, PartialEq, Eq, Structural)]
pub struct Date {
    pub year: u32,
    pub month: u32,
    pub day: u32,
}

/// A wall-clock instant: a civil date and time plus the UTC offset it was
/// recorded under.
#[derive(Clone, Copy, Debug, PartialEq, Eq, Structural)]
pub struct Timestamp {
    pub year: u32,
    pub month: u32,
    pub day: u32,
    pub hour: u32,
    pub minute: u32,
    pub second: u32,
    pub offset_minutes: i32,
}

pub open spec fn is_leap_year(y: int) -> bool {
    (y % 4 == 0 && y % 100 != 0) || y % 400 == 0
}

pub open spec fn year_len(y: int) -> int {
    if is_leap_year(y) {
        366
    } else {
        365
    }
}

pub open spec fn month_len(y: int, m: int) -> int {
    if m == 2 {
        if is_leap_year(y) {
            29
        } else {
            28
        }
    } else if m == 4 || m == 6 || m == 9 || m == 11 {
        30
    } else {
        31
    }
}

/// Total days of years 1 .. y, i.e. the day index of January 1st of year y.
pub open spec fn days_before_year(y: int) -> int
    decreases y,
{
    if y <= 1 {
        0
    } else {
        days_before_year(y - 1) + year_len(y - 1)
    }
}

/// Total days of months 1 .. m of year y.
pub open spec fn days_before_month(y: int, m: int) -> int
    decreases m,
{
    if m <= 1 {
        0
    } else {
        days_before_month(y, m - 1) + month_len(y, m - 1)
    }
}

pub open spec fn date_wf(d: Date) -> bool {
    &&& 1 <= d.year <= 9999
    &&& 1 <= d.month <= 12
    &&& 1 <= d.day <= month_len(d.year as int, d.month as int)
}

/// Day index on the linear timeline: 0001-01-01 is day 0.
pub open spec fn day_index(d: Date) -> int {
    days_before_year(d.year as int) + days_before_month(d.year as int, d.month as int) + d.day - 1
}

/// One day past the last representable day (January 1st of year 10000).
pub open spec fn day_limit() -> int {
    days_before_year(10000)
}

pub open spec fn ts_date(t: Timestamp) -> Date {
    Date { year: t.year, month: t.month, day: t.day }
}

pub open spec fn ts_wf(t: Timestamp) -> bool {
    &&& date_wf(ts_date(t))
    &&& t.hour < 24
    &&& t.minute < 60
    &&& t.second < 60
    &&& -1440 < t.offset_minutes < 1440
}

/// Civil seconds since 0001-01-01T00:00:00, ignoring the offset.
pub open spec fn ts_seconds(t: Timestamp) -> int {
    day_index(ts_date(t)) * 86400 + t.hour * 3600 + t.minute * 60 + t.second
}

/// Seconds on the shared instant timeline: civil seconds minus the offset.
/// Two timestamps with different offsets are compared through this.
pub open spec fn ts_instant(t: Timestamp) -> int {
    ts_seconds(t) - t.offset_minutes * 60
}

/// One second past the last representable civil second.
pub open spec fn sec_limit() -> int {
    day_limit() * 86400
}

pub open spec fn weekday_of_index(n: int) -> Weekday {
    if n == 0 {
        Weekday::Mon
    } else if n == 1 {
        Weekday::Tue
    } else if n == 2 {
        Weekday::Wed
    } else if n == 3 {
        Weekday::Thu
    } else if n == 4 {
        Weekday::Fri
    } else if n == 5 {
        Weekday::Sat
    } else {
        Weekday::Sun
    }
}

/// The weekday of a date; day 0 of the timeline is a Monday.
pub open spec fn weekday_of(d: Date) -> Weekday {
    weekday_of_index(day_index(d) % 7)
}

pub proof fn lemma_days_before_year_bounds(y: int)
    requires
        1 <= y,
    ensures
        365 * (y - 1) <= days_before_year(y) <= 366 * (y - 1),
    decreases y,
{
    if y > 1 {
        lemma_days_before_year_bounds(y - 1);
    }
}

pub proof fn lemma_days_before_month_bounds(y: int, m: int)
    requires
        1 <= m,
    ensures
        0 <= days_before_month(y, m) <= 31 * (m - 1),
    decreases m,
{
    if m > 1 {
        lemma_days_before_month_bounds(y, m - 1);
    }
}

pub proof fn lemma_days_before_year_le(y1: int, y2: int)
    requires
        y1 <= y2,
    ensures
        days_before_year(y1) <= days_before_year(y2),
    decreases y2 - y1,
{
    if y1 < y2 {
        lemma_days_before_year_le(y1, y2 - 1);
    }
}

pub proof fn lemma_days_before_month_le(y: int, m1: int, m2: int)
    requires
        m1 <= m2,
    ensures
        days_before_month(y, m1) <= days_before_month(y, m2),
    decreases m2 - m1,
{
    if m1 < m2 {
        lemma_days_before_month_le(y, m1, m2 - 1);
    }
}

/// The twelve months of a year sum to the year's length.
pub proof fn lemma_year_months(y: int)
    ensures
        days_before_month(y, 13) == year_len(y),
{
    reveal_with_fuel(days_before_month, 13);
}

/// A well-formed date lies inside its own year on the timeline.
pub proof fn lemma_day_in_year(d: Date)
    requires
        date_wf(d),
    ensures
        days_before_year(d.year as int) <= day_index(d),
        day_index(d) < days_before_year(d.year as int) + year_len(d.year as int),
        day_index(d) < day_limit(),
{
    let y = d.year as int;
    let m = d.month as int;
    lemma_days_before_month_le(y, 1, m);
    assert(days_before_month(y, m + 1) == days_before_month(y, m) + month_len(y, m));
    lemma_days_before_month_le(y, m + 1, 13);
    lemma_year_months(y);
    lemma_days_before_year_le(y + 1, 10000);
    assert(days_before_year(y + 1) == days_before_year(y) + year_len(y));
}

/// The day index identifies a well-formed date uniquely.
pub proof fn lemma_day_index_injective(a: Date, b: Date)
    requires
        date_wf(a),
        date_wf(b),
        day_index(a) == day_index(b),
    ensures
        a == b,
{
    lemma_day_in_year(a);
    lemma_day_in_year(b);
    if a.year < b.year {
        lemma_days_before_year_le(a.year as int + 1, b.year as int);
        assert(days_before_year(a.year as int + 1) == days_before_year(a.year as int) + year_len(
            a.year as int,
        ));
        assert(false);
    }
    if b.year < a.year {
        lemma_days_before_year_le(b.year as int + 1, a.year as int);
        assert(days_before_year(b.year as int + 1) == days_before_year(b.year as int) + year_len(
            b.year as int,
        ));
        assert(false);
    }
    let y = a.year as int;
    if a.month < b.month {
        assert(days_before_month(y, a.month as int + 1) == days_before_month(y, a.month as int)
            + month_len(y, a.month as int));
        lemma_days_before_month_le(y, a.month as int + 1, b.month as int);
        assert(false);
    }
    if b.month < a.month {
        assert(days_before_month(y, b.month as int + 1) == days_before_month(y, b.month as int)
            + month_len(y, b.month as int));
        lemma_days_before_month_le(y, b.month as int + 1, a.month as int);
        assert(false);
    }
}

/// The civil second count identifies a well-formed timestamp up to its
/// offset.
pub proof fn lemma_ts_seconds_injective(a: Timestamp, b: Timestamp)
    requires
        ts_wf(a),
        ts_wf(b),
        ts_seconds(a) == ts_seconds(b),
        a.offset_minutes == b.offset_minutes,
    ensures
        a == b,
{
    if day_index(ts_date(a)) == day_index(ts_date(b)) {
        lemma_day_index_injective(ts_date(a), ts_date(b));
    } else {
        assert(false);
    }
}

/// A well-formed timestamp's civil second count lies on the representable
/// timeline.
pub proof fn lemma_ts_seconds_bounds(t: Timestamp)
    requires
        ts_wf(t),
    ensures
        0 <= ts_seconds(t),
        ts_seconds(t) < sec_limit(),
        sec_limit() <= 316192377600,
{
    lemma_day_in_year(ts_date(t));
    lemma_days_before_year_bounds(ts_date(t).year as int);
    lemma_days_before_year_bounds(10000);
}

/// The well-formed timestamp at a civil second count, under an offset.
pub open spec fn ts_of(s: int, off: int) -> Timestamp {
    choose|t: Timestamp| ts_wf(t) && ts_seconds(t) == s && t.offset_minutes == off
}

/// A well-formed timestamp is the one `ts_of` names at its own second
/// count and offset.
pub proof fn lemma_ts_of_unique(t: Timestamp)
    requires
        ts_wf(t),
    ensures
        ts_of(ts_seconds(t), t.offset_minutes as int) == t,
{
    let s = ts_seconds(t);
    let off = t.offset_minutes as int;
    assert(exists|u: Timestamp| ts_wf(u) && ts_seconds(u) == s && u.offset_minutes == off) by {
        assert(ts_wf(t) && ts_seconds(t) == s && t.offset_minutes == off);
    }
    let u = ts_of(s, off);
    assert(ts_wf(u) && ts_seconds(u) == s && u.offset_minutes == off);
    lemma_ts_seconds_injective(u, t);
}

pub fn leap_year(y: u32) -> (r: bool)
    ensures
        r == is_leap_year(y as int),
{
    (y % 4 == 0 && y % 100 != 0) || y % 400 == 0
}

pub fn year_len_x(y: u32) -> (r: u32)
    ensures
        r == year_len(y as int),
{
    if leap_year(y) {
        366
    } else {
        365
    }
}

pub fn month_len_x(y: u32, m: u32) -> (r: u32)
    ensures
        r == month_len(y as int, m as int),
{
    if m == 2 {
        if leap_year(y) {
            29
        } else {
            28
        }
    } else if m == 4 || m == 6 || m == 9 || m == 11 {
        30
    } else {
        31
    }
}

/// The day index of a date.
pub fn date_to_days(d: &Date) -> (r: u32)
    requires
        date_wf(*d),
    ensures
        r == day_index(*d),
{
    proof {
        lemma_day_in_year(*d);
        lemma_days_before_year_bounds(d.year as int);
        lemma_days_before_month_bounds(d.year as int, d.month as int);
    }
    let mut y: u32 = 1;
    let mut acc: u32 = 0;
    while y < d.year
        invariant
            1 <= y <= d.year <= 9999,
            acc == days_before_year(y as int),
        decreases d.year - y,
    {
        proof {
            lemma_days_before_year_bounds(y as int + 1);
        }
        assert(days_before_year(y as int + 1) == days_before_year(y as int) + year_len(y as int));
        acc = acc + year_len_x(y);
        y = y + 1;
    }
    let mut m: u32 = 1;
    while m < d.month
        invariant
            1 <= m <= d.month <= 12,
            y == d.year,
            date_wf(*d),
            acc == days_before_year(y as int) + days_before_month(y as int, m as int),
            acc <= 366 * 9998 + 31 * 12,
        decreases d.month - m,
    {
        proof {
            lemma_days_before_year_bounds(y as int);
            lemma_days_before_month_bounds(y as int, m as int + 1);
        }
        assert(days_before_month(y as int, m as int + 1) == days_before_month(y as int, m as int)
            + month_len(y as int, m as int));
        acc = acc + month_len_x(y, m);
        m = m + 1;
    }
    acc + d.day - 1
}

/// The date at a day index.
pub fn days_to_date(days: u32) -> (r: Date)
    requires
        days < day_limit(),
    ensures
        date_wf(r),
        day_index(r) == days,
{
    let mut y: u32 = 1;
    let mut rem: u32 = days;
    loop
        invariant
            1 <= y <= 9999,
            days_before_year(y as int) + rem == days,
            days < day_limit(),
        ensures
            1 <= y <= 9999,
            days_before_year(y as int) + rem == days,
            rem < year_len(y as int),
        decreases rem,
    {
        let yl: u32 = year_len_x(y);
        if rem < yl {
            break ;
        }
        proof {
            if y == 9999 {
                assert(days_before_year(10000) == days_before_year(9999) + year_len(9999));
                assert(false);
            }
            assert(days_before_year(y as int + 1) == days_before_year(y as int) + year_len(
                y as int,
            ));
        }
        rem = rem - yl;
        y = y + 1;
    }
    let ghost rem0 = rem as int;
    let mut m: u32 = 1;
    loop
        invariant
            1 <= m <= 12,
            1 <= y <= 9999,
            days_before_month(y as int, m as int) + rem == rem0,
            rem0 < year_len(y as int),
            days_before_year(y as int) + rem0 == days,
        ensures
            1 <= m <= 12,
            1 <= y <= 9999,
            days_before_month(y as int, m as int) + rem == rem0,
            days_before_year(y as int) + rem0 == days,
            rem < month_len(y as int, m as int),
        decreases rem,
    {
        let ml: u32 = month_len_x(y, m);
        if rem < ml {
            break ;
        }
        proof {
            assert(days_before_month(y as int, m as int + 1) == days_before_month(
                y as int,
                m as int,
            ) + month_len(y as int, m as int));
            if m == 12 {
                lemma_year_months(y as int);
                assert(false);
            }
        }
        rem = rem - ml;
        m = m + 1;
    }
    Date { year: y, month: m, day: rem + 1 }
}

/// The weekday at a date.
pub fn date_weekday(d: &Date) -> (r: Weekday)
    requires
        date_wf(*d),
    ensures
        r == weekday_of(*d),
{
    let days: u32 = date_to_days(d);
    let n: u32 = days % 7;
    match n {
        0 => Weekday::Mon,
        1 => Weekday::Tue,
        2 => Weekday::Wed,
        3 => Weekday::Thu,
        4 => Weekday::Fri,
        5 => Weekday::Sat,
        _ => Weekday::Sun,
    }
}

/// The weekday at a weekday index (0 is Monday).
pub fn weekday_from_index(n: u32) -> (r: Weekday)
    requires
        n < 7,
    ensures
        r == weekday_of_index(n as int),
{
    match n {
        0 => Weekday::Mon,
        1 => Weekday::Tue,
        2 => Weekday::Wed,
        3 => Weekday::Thu,
        4 => Weekday::Fri,
        5 => Weekday::Sat,
        _ => Weekday::Sun,
    }
}

/// The civil second count of a timestamp.
pub fn ts_to_secs(t: &Timestamp) -> (r: i64)
    requires
        ts_wf(*t),
    ensures
        r == ts_seconds(*t),
{
    let d = Date { year: t.year, month: t.month, day: t.day };
    proof {
        lemma_day_in_year(d);
        lemma_days_before_year_bounds(10000);
    }
    let days: u32 = date_to_days(&d);
    (days as i64) * 86400 + (t.hour as i64) * 3600 + (t.minute as i64) * 60 + (t.second as i64)
}

/// The unique well-formed timestamp at a civil second count, under a given
/// offset.
pub fn secs_to_ts(s: i64, offset_minutes: i32) -> (r: Timestamp)
    requires
        0 <= s < sec_limit(),
        -1440 < offset_minutes < 1440,
    ensures
        ts_wf(r),
        ts_seconds(r) == s,
        r.offset_minutes == offset_minutes,
{
    proof {
        lemma_days_before_year_bounds(10000);
    }
    let su: u64 = s as u64;
    let days: u64 = su / 86400;
    let rem: u64 = su % 86400;
    assert(days < day_limit());
    let d: Date = days_to_date(days as u32);
    let hour: u64 = rem / 3600;
    let minute: u64 = (rem % 3600) / 60;
    let second: u64 = rem % 60;
    assert(days * 86400 + hour * 3600 + minute * 60 + second == su);
    Timestamp {
        year: d.year,
        month: d.month,
        day: d.day,
        hour: hour as u32,
        minute: minute as u32,
        second: second as u32,
        offset_minutes,
    }
}

} // verus!

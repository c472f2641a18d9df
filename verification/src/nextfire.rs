//! The next-fire calculator: turns a time label, an optional date label or
//! repeat-day set, and a lead time into the next instant an alarm must fire,
//! relative to a reference "now".
//!
//! All "is this in the past" comparisons use the reference shifted forward
//! by the lead, so the effective alarm instant moves earlier by the lead
//! while due-detection still compares against the unshifted clock.
//!
//! The calculator works in civil time under a fixed offset: every computed
//! instant carries the offset the reference instant was read under, and no
//! time-zone database is consulted. Civil times that a zone's transition
//! rules would skip or repeat therefore do not arise in this model; the
//! invalid-local-time error remains for instants the calendar model cannot
//! represent at all (a year outside 1 through 9999).

use vstd::prelude::*;
use crate::AlarmError;
use crate::calendar::{
    Date, Timestamp, Weekday, date_wf, day_index, day_limit, days_before_year, month_len,
    lemma_day_in_year, lemma_days_before_year_bounds, lemma_days_before_year_le, sec_limit,
    ts_date, ts_seconds, ts_wf, date_to_days, secs_to_ts, ts_to_secs, weekday_from_index,
    weekday_of_index,
};
use crate::text::{spec_trim, trim_str};
use crate::timefmt::{all_digits, parse_num, pow10, spec_parse_num};

verus! {

/// The default lead time, in minutes, of a payload that names none.
pub fn default_lead_minutes() -> (r: i64)
    ensures
        r == 3,
{
    3
}

pub open spec fn clamp_lead(lead: int) -> int {
    if lead < 0 {
        0
    } else if lead > 720 {
        720
    } else {
        lead
    }
}

/// Forces a lead time into the accepted range of 0 to 720 minutes.
pub fn clamp_lead_minutes(value: i64) -> (r: i64)
    ensures
        r == clamp_lead(value as int),
{
    if value < 0 {
        0
    } else if value > 720 {
        720
    } else {
        value
    }
}

/// The hour and minute a `HH:MM` label denotes, if it is exactly of that
/// form.
pub open spec fn spec_parse_time(s: Seq<char>) -> Option<(int, int)> {
    if s.len() != 5 {
        None
    } else if !(s[2] == ':' && all_digits(s.subrange(0, 2)) && all_digits(s.subrange(3, 5))) {
        None
    } else {
        let hh = spec_parse_num(s.subrange(0, 2));
        let mm = spec_parse_num(s.subrange(3, 5));
        if hh < 24 && mm < 60 {
            Some((hh, mm))
        } else {
            None
        }
    }
}

/// Reads a wall-clock label of the exact form `HH:MM`.
pub fn parse_time_label(label: &str) -> (r: Result<(u32, u32), AlarmError>)
    ensures
        match r {
            Ok(p) => spec_parse_time(label@) == Some((p.0 as int, p.1 as int)) && p.0 < 24 && p.1
                < 60,
            Err(e) => spec_parse_time(label@) is None && e == AlarmError::InvalidTimeFormat,
        },
{
    if label.unicode_len() != 5 {
        return Err(AlarmError::InvalidTimeFormat);
    }
    if label.get_char(2) != ':' {
        return Err(AlarmError::InvalidTimeFormat);
    }
    let hh = match parse_num(label, 0, 2) {
        Some(n) => n,
        None => {
            return Err(AlarmError::InvalidTimeFormat);
        },
    };
    let mm = match parse_num(label, 3, 2) {
        Some(n) => n,
        None => {
            return Err(AlarmError::InvalidTimeFormat);
        },
    };
    if hh < 24 && mm < 60 {
        Ok((hh as u32, mm as u32))
    } else {
        Err(AlarmError::InvalidTimeFormat)
    }
}

/// The date a `YYYY-MM-DD` label denotes; a shapely label naming no real
/// calendar day is rejected as a format error, and year zero, which the
/// local calendar cannot represent, as an invalid local time.
pub open spec fn spec_parse_date(s: Seq<char>) -> Result<Date, AlarmError> {
    if s.len() != 10 {
        Err(AlarmError::InvalidDateFormat)
    } else if !(s[4] == '-' && s[7] == '-' && all_digits(s.subrange(0, 4)) && all_digits(
        s.subrange(5, 7),
    ) && all_digits(s.subrange(8, 10))) {
        Err(AlarmError::InvalidDateFormat)
    } else {
        let y = spec_parse_num(s.subrange(0, 4));
        let m = spec_parse_num(s.subrange(5, 7));
        let d = spec_parse_num(s.subrange(8, 10));
        if !(1 <= m <= 12 && 1 <= d <= month_len(y, m)) {
            Err(AlarmError::InvalidDateFormat)
        } else if y == 0 {
            Err(AlarmError::AmbiguousOrInvalidLocalTime)
        } else {
            Ok(Date { year: y as u32, month: m as u32, day: d as u32 })
        }
    }
}

/// Reads a date label of the exact form `YYYY-MM-DD`.
pub fn parse_date_label(label: &str) -> (r: Result<Date, AlarmError>)
    ensures
        r == spec_parse_date(label@),
        r is Ok ==> date_wf(r->Ok_0),
{
    if label.unicode_len() != 10 {
        return Err(AlarmError::InvalidDateFormat);
    }
    if label.get_char(4) != '-' || label.get_char(7) != '-' {
        return Err(AlarmError::InvalidDateFormat);
    }
    let y = match parse_num(label, 0, 4) {
        Some(n) => n,
        None => {
            return Err(AlarmError::InvalidDateFormat);
        },
    };
    let m = match parse_num(label, 5, 2) {
        Some(n) => n,
        None => {
            return Err(AlarmError::InvalidDateFormat);
        },
    };
    let d = match parse_num(label, 8, 2) {
        Some(n) => n,
        None => {
            return Err(AlarmError::InvalidDateFormat);
        },
    };
    let ml: u32 = crate::calendar::month_len_x(y as u32, m as u32);
    proof {
        crate::timefmt::lemma_pow10_le(2, 8);
        assert(pow10(4) == 10000 && pow10(2) == 100) by {
            reveal_with_fuel(pow10, 5);
        }
    }
    if !(1 <= m && m <= 12 && 1 <= d && d <= ml as u64) {
        return Err(AlarmError::InvalidDateFormat);
    }
    if y == 0 {
        return Err(AlarmError::AmbiguousOrInvalidLocalTime);
    }
    Ok(Date { year: y as u32, month: m as u32, day: d as u32 })
}

/// The first offset within the two-week horizon whose day is in the repeat
/// set and whose candidate instant lies strictly after the adjusted
/// reference; the result is the candidate's civil second count.
pub open spec fn spec_search(
    adj_day: int,
    tod: int,
    adj: int,
    days: Seq<Weekday>,
    o: int,
) -> Option<int>
    decreases 14 - o,
{
    if o < 0 || o >= 14 {
        None
    } else {
        let cand = (adj_day + o) * 86400 + tod;
        if days.contains(weekday_of_index((adj_day + o) % 7)) && cand > adj {
            Some(cand)
        } else {
            spec_search(adj_day, tod, adj, days, o + 1)
        }
    }
}

pub proof fn lemma_search_future(adj_day: int, tod: int, adj: int, days: Seq<Weekday>, o: int)
    ensures
        spec_search(adj_day, tod, adj, days, o) matches Some(c) ==> c > adj,
    decreases 14 - o,
{
    if 0 <= o < 14 {
        lemma_search_future(adj_day, tod, adj, days, o + 1);
    }
}

pub open spec fn opt_view(s: Option<&str>) -> Option<Seq<char>> {
    match s {
        Some(v) => Some(v@),
        None => None,
    }
}

/// The effective date label: a missing or whitespace-only label counts as
/// absent.
pub open spec fn spec_effective_date(date: Option<Seq<char>>) -> Option<Seq<char>> {
    match date {
        Some(dl) => if spec_trim(dl).len() > 0 {
            Some(spec_trim(dl))
        } else {
            None
        },
        None => None,
    }
}

/// The outcome of the next-fire computation, as the civil second count of
/// the returned instant or the error.
pub open spec fn spec_next_fire(
    time: Seq<char>,
    date: Option<Seq<char>>,
    repeat_enabled: bool,
    days: Seq<Weekday>,
    lead: int,
    base: Timestamp,
) -> Result<int, AlarmError> {
    match spec_parse_time(time) {
        None => Err(AlarmError::InvalidTimeFormat),
        Some((hh, mm)) => {
            let lead2 = clamp_lead(lead);
            let adj = ts_seconds(base) + lead2 * 60;
            let tod = hh * 3600 + mm * 60;
            if repeat_enabled && days.len() > 0 {
                match spec_search(adj / 86400, tod, adj, days, 0) {
                    Some(c) => Ok(c - lead2 * 60),
                    None => Err(AlarmError::NoFeasibleOccurrence),
                }
            } else {
                match spec_effective_date(date) {
                    Some(ds) => match spec_parse_date(ds) {
                        Err(e) => Err(e),
                        Ok(d) => {
                            let cand = day_index(d) * 86400 + tod;
                            if cand <= adj {
                                Err(AlarmError::DateInPast)
                            } else {
                                Ok(cand - lead2 * 60)
                            }
                        },
                    },
                    None => {
                        let cand0 = (adj / 86400) * 86400 + tod;
                        let cand = if cand0 <= adj {
                            cand0 + 86400
                        } else {
                            cand0
                        };
                        Ok(cand - lead2 * 60)
                    },
                }
            }
        },
    }
}

/// Computes the next instant an alarm must fire, strictly after `base`.
///
/// In repeat mode the calendar is scanned day by day over a two-week
/// horizon; with an explicit date the instant must lie strictly after the
/// adjusted reference; otherwise today's occurrence is taken, rolled
/// forward by exactly one day when it has already passed.
#[verifier::rlimit(100)]
pub fn compute_next_fire(
    time_label: &str,
    date_label: Option<&str>,
    repeat_enabled: bool,
    repeat_days: &Vec<Weekday>,
    lead_minutes: i64,
    base: &Timestamp,
) -> (r: Result<Timestamp, AlarmError>)
    requires
        ts_wf(*base),
        base.year <= 9998,
    ensures
        match r {
            Ok(t) => spec_next_fire(
                time_label@,
                opt_view(date_label),
                repeat_enabled,
                repeat_days@,
                lead_minutes as int,
                *base,
            ) == Ok::<int, AlarmError>(ts_seconds(t)) && ts_wf(t) && t.offset_minutes
                == base.offset_minutes,
            Err(e) => spec_next_fire(
                time_label@,
                opt_view(date_label),
                repeat_enabled,
                repeat_days@,
                lead_minutes as int,
                *base,
            ) == Err::<int, AlarmError>(e),
        },
{
    let ghost gdate = opt_view(date_label);
    let (hh, mm) = match parse_time_label(time_label) {
        Ok(p) => p,
        Err(e) => {
            return Err(e);
        },
    };
    let lead: i64 = clamp_lead_minutes(lead_minutes);
    let base_secs: i64 = ts_to_secs(base);
    proof {
        lemma_day_in_year(ts_date(*base));
        lemma_days_before_year_bounds(base.year as int);
        lemma_days_before_year_le(base.year as int + 1, 9999);
        lemma_days_before_year_bounds(9999);
        assert(days_before_year(base.year as int + 1) == days_before_year(base.year as int)
            + crate::calendar::year_len(base.year as int));
        assert(days_before_year(10000) == days_before_year(9999) + crate::calendar::year_len(9999));
        assert(0 <= day_index(ts_date(*base)) < days_before_year(9999));
        assert(0 <= base_secs < days_before_year(9999) * 86400);
    }
    let adj: i64 = base_secs + lead * 60;
    let adju: u64 = adj as u64;
    let adj_day: u64 = adju / 86400;
    let tod: i64 = (hh as i64) * 3600 + (mm as i64) * 60;
    proof {
        assert(adj_day * 86400 + adju % 86400 == adju);
        assert(adju < (days_before_year(9999) + 1) * 86400);
        assert(adj_day * 86400 < (days_before_year(9999) + 1) * 86400);
        assert(adj_day <= days_before_year(9999));
    }
    if repeat_enabled && repeat_days.len() > 0 {
        let mut o: u64 = 0;
        while o < 14
            invariant
                o <= 14,
                ts_wf(*base),
                base.year <= 9998,
                adj == base_secs + lead * 60,
                base_secs == ts_seconds(*base),
                0 <= base_secs,
                0 <= lead <= 720,
                lead == clamp_lead(lead_minutes as int),
                spec_parse_time(time_label@) == Some((hh as int, mm as int)),
                repeat_enabled && repeat_days@.len() > 0,
                adju == adj,
                adj_day == adj / 86400,
                adj_day <= days_before_year(9999),
                tod == (hh as int) * 3600 + (mm as int) * 60,
                0 <= tod < 86400,
                spec_search(adj_day as int, tod as int, adj as int, repeat_days@, 0)
                    == spec_search(adj_day as int, tod as int, adj as int, repeat_days@, o as int),
            decreases 14 - o,
        {
            let day_num: u64 = adj_day + o;
            proof {
                lemma_days_before_year_bounds(9999);
                lemma_days_before_year_bounds(10000);
                assert(days_before_year(10000) == days_before_year(9999) + crate::calendar::year_len(
                    9999,
                ));
            }
            let wd: Weekday = weekday_from_index((day_num % 7) as u32);
            let cand: i64 = (day_num * 86400) as i64 + tod;
            if contains_day(repeat_days, wd) && cand > adj {
                let fire: i64 = cand - lead * 60;
                proof {
                    assert(day_num < day_limit());
                    assert(fire > base_secs >= 0);
                    assert(fire < day_limit() * 86400);
                    assert(repeat_days@.contains(weekday_of_index((adj_day as int + o as int)
                        % 7)));
                    assert(spec_search(adj_day as int, tod as int, adj as int, repeat_days@, o as int)
                        == Some(cand as int));
                    assert(spec_next_fire(
                        time_label@,
                        opt_view(date_label),
                        repeat_enabled,
                        repeat_days@,
                        lead_minutes as int,
                        *base,
                    ) == Ok::<int, AlarmError>(fire as int));
                }
                let t: Timestamp = secs_to_ts(fire, base.offset_minutes);
                return Ok(t);
            }
            proof {
                assert(spec_search(adj_day as int, tod as int, adj as int, repeat_days@, o as int)
                    == spec_search(
                    adj_day as int,
                    tod as int,
                    adj as int,
                    repeat_days@,
                    o as int + 1,
                ));
            }
            o = o + 1;
        }
        return Err(AlarmError::NoFeasibleOccurrence);
    }
    let effective: Option<String> = match date_label {
        Some(dl) => {
            let trimmed: String = trim_str(dl);
            if trimmed.unicode_len() > 0 {
                Some(trimmed)
            } else {
                None
            }
        },
        None => None,
    };
    match effective {
        Some(ds) => {
            let d: Date = match parse_date_label(ds.as_str()) {
                Ok(d) => d,
                Err(e) => {
                    return Err(e);
                },
            };
            proof {
                lemma_day_in_year(d);
            }
            let days: u32 = date_to_days(&d);
            let cand: i64 = (days as i64) * 86400 + tod;
            if cand <= adj {
                Err(AlarmError::DateInPast)
            } else {
                let fire: i64 = cand - lead * 60;
                let t: Timestamp = secs_to_ts(fire, base.offset_minutes);
                Ok(t)
            }
        },
        None => {
            let cand0: i64 = (adj_day * 86400) as i64 + tod;
            proof {
                assert(adj_day * 86400 + adju % 86400 == adju);
                assert(cand0 + 86400 > adj);
            }
            let cand: i64 = if cand0 <= adj {
                cand0 + 86400
            } else {
                cand0
            };
            let fire: i64 = cand - lead * 60;
            proof {
                assert(cand > adj);
                assert(fire > base_secs >= 0);
                assert(fire < day_limit() * 86400);
            }
            let t: Timestamp = secs_to_ts(fire, base.offset_minutes);
            Ok(t)
        },
    }
}

/// Whether a weekday is in a repeat set.
pub fn contains_day(days: &Vec<Weekday>, w: Weekday) -> (r: bool)
    ensures
        r == days@.contains(w),
{
    let mut i: usize = 0;
    while i < days.len()
        invariant
            i <= days@.len(),
            forall|j: int| 0 <= j < i ==> days@[j] != w,
        decreases days@.len() - i,
    {
        if days[i] == w {
            return true;
        }
        i = i + 1;
    }
    false
}

/// Whatever the mode, a computed instant plus the clamped lead lies
/// strictly after the reference instant.
pub proof fn lemma_next_fire_future(
    time: Seq<char>,
    date: Option<Seq<char>>,
    repeat_enabled: bool,
    days: Seq<Weekday>,
    lead: int,
    base: Timestamp,
)
    ensures
        spec_next_fire(time, date, repeat_enabled, days, lead, base) matches Ok(s) ==> s
            + clamp_lead(lead) * 60 > ts_seconds(base),
{
    let r = spec_next_fire(time, date, repeat_enabled, days, lead, base);
    if r is Ok {
        let (hh, mm) = spec_parse_time(time)->Some_0;
        let lead2 = clamp_lead(lead);
        let adj = ts_seconds(base) + lead2 * 60;
        let tod = hh * 3600 + mm * 60;
        assert(all_digits(time.subrange(0, 2)) && all_digits(time.subrange(3, 5)));
        crate::timefmt::lemma_parse_num_nonneg(time.subrange(0, 2));
        crate::timefmt::lemma_parse_num_nonneg(time.subrange(3, 5));
        if repeat_enabled && days.len() > 0 {
            lemma_search_future(adj / 86400, tod, adj, days, 0);
        } else if spec_effective_date(date) is None {
            let cand0 = (adj / 86400) * 86400 + tod;
            assert(adj == 86400 * (adj / 86400) + adj % 86400);
            assert(cand0 + 86400 > adj);
        }
    }
}

} // verus!

//! The bridge to the host environment: the current local wall-clock time
//! and fresh alarm identifiers. These are the only places the library
//! relies on outside code.

use vstd::prelude::*;
use chrono::{Datelike, Timelike};
use crate::calendar::{Timestamp, month_len, ts_wf};
use crate::timefmt::{corrupt_suffix, spec_corrupt_suffix};

verus! {

/// Relies on chrono's `Local::now`: the returned datetime carries a valid
/// proleptic-Gregorian calendar date (day within its month), a time of day
/// with minutes and seconds below sixty, and the local UTC offset in
/// seconds, which chrono keeps strictly within one day of zero.
#[verifier::external_body]
fn local_now_raw() -> (r: (i32, u32, u32, u32, u32, u32, i32))
    ensures
        1 <= r.1 <= 12,
        1 <= r.2 && r.2 <= month_len(r.0 as int, r.1 as int),
        r.3 < 24,
        r.4 < 60,
        r.5 < 60,
        -86400 < r.6 < 86400,
{
    let t = chrono::Local::now();
    (t.year(), t.month(), t.day(), t.hour(), t.minute(), t.second(), t.offset().local_minus_utc())
}

/// Relies on uuid's `Uuid::new_v4` and its display form: a fresh random
/// identifier in the hyphenated form, which is 36 characters long.
#[verifier::external_body]
pub(crate) fn fresh_id() -> (r: String)
    ensures
        r@.len() == 36,
{
    uuid::Uuid::new_v4().to_string()
}

/// The current local wall-clock time, if the host clock lies within the
/// supported calendar range of years 1 through 9999.
pub fn now_timestamp() -> (r: Option<Timestamp>)
    ensures
        r matches Some(t) ==> ts_wf(t),
{
    let (y, mo, d, h, mi, s, off) = local_now_raw();
    if y < 1 || y > 9999 {
        return None;
    }
    let off_min: i32 = if off >= 0 {
        off / 60
    } else {
        -((-off) / 60)
    };
    let t = Timestamp {
        year: y as u32,
        month: mo,
        day: d,
        hour: h,
        minute: mi,
        second: s,
        offset_minutes: off_min,
    };
    proof {
        assert(month_len(y as u32 as int, mo as int) == month_len(y as int, mo as int));
    }
    Some(t)
}

/// The quarantine suffix for a damaged store document discovered at this
/// moment: `corrupt-` and the local time compacted. With the host clock
/// out of the supported range the calendar's first instant stands in.
pub fn quarantine_suffix() -> (r: String)
    ensures
        exists|t: Timestamp| r@ == spec_corrupt_suffix(t),
{
    let t: Timestamp = match now_timestamp() {
        Some(t) => t,
        None => Timestamp {
            year: 1,
            month: 1,
            day: 1,
            hour: 0,
            minute: 0,
            second: 0,
            offset_minutes: 0,
        },
    };
    let r = corrupt_suffix(&t);
    proof {
        assert(r@ == spec_corrupt_suffix(t));
    }
    r
}

} // verus!

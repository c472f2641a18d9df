//! The alarm record and the creation payload.

use vstd::prelude::*;
use crate::calendar::Weekday;

verus! {

/// A persisted alarm definition.
pub struct Alarm {
    /// Opaque unique identifier, assigned at creation.
    pub id: String,
    /// Free-text label, trimmed of surrounding whitespace.
    pub title: String,
    /// Wall-clock time of day in `HH:MM` form.
    pub time_label: String,
    /// Cached absolute fire instant, in the stored timestamp form; the
    /// single value due-detection compares against.
    pub next_fire_time: String,
    /// Optional associated link, an opaque payload.
    pub url: Option<String>,
    /// True only if `repeat_days` is non-empty.
    pub repeat_enabled: bool,
    /// Weekdays the alarm repeats on.
    pub repeat_days: Vec<Weekday>,
    /// Minutes to ring before the nominal time, between 0 and 720.
    pub lead_minutes: i64,
}

/// The mathematical shadow of an alarm record.
pub ghost struct AlarmV {
    pub id: Seq<char>,
    pub title: Seq<char>,
    pub time_label: Seq<char>,
    pub next_fire_time: Seq<char>,
    pub url: Option<Seq<char>>,
    pub repeat_enabled: bool,
    pub repeat_days: Seq<Weekday>,
    pub lead_minutes: int,
}

pub open spec fn opt_str_view(u: Option<String>) -> Option<Seq<char>> {
    match u {
        Some(s) => Some(s@),
        None => None,
    }
}

impl View for Alarm {
    type V = AlarmV;

    open spec fn view(&self) -> AlarmV {
        AlarmV {
            id: self.id@,
            title: self.title@,
            time_label: self.time_label@,
            next_fire_time: self.next_fire_time@,
            url: opt_str_view(self.url),
            repeat_enabled: self.repeat_enabled,
            repeat_days: self.repeat_days@,
            lead_minutes: self.lead_minutes as int,
        }
    }
}

pub open spec fn alarms_view(s: Seq<Alarm>) -> Seq<AlarmV> {
    s.map_values(|a: Alarm| a@)
}

/// Copies a weekday list.
pub fn copy_days(v: &Vec<Weekday>) -> (r: Vec<Weekday>)
    ensures
        r@ == v@,
{
    let mut r: Vec<Weekday> = Vec::new();
    let mut i: usize = 0;
    while i < v.len()
        invariant
            i <= v@.len(),
            r@ == v@.take(i as int),
        decreases v@.len() - i,
    {
        r.push(v[i]);
        proof {
            assert(v@.take(i as int + 1) =~= v@.take(i as int).push(v@[i as int]));
        }
        i = i + 1;
    }
    proof {
        assert(v@.take(v@.len() as int) =~= v@);
    }
    r
}

/// Copies an optional string.
pub fn copy_opt_str(u: &Option<String>) -> (r: Option<String>)
    ensures
        opt_str_view(r) == opt_str_view(*u),
        r is Some <==> *u is Some,
{
    match u {
        Some(s) => Some(s.clone()),
        None => None,
    }
}

impl Clone for Alarm {
    /// A clone carries the same record.
    fn clone(&self) -> (r: Self)
        ensures
            r@ == self@,
    {
        Alarm {
            id: self.id.clone(),
            title: self.title.clone(),
            time_label: self.time_label.clone(),
            next_fire_time: self.next_fire_time.clone(),
            url: copy_opt_str(&self.url),
            repeat_enabled: self.repeat_enabled,
            repeat_days: copy_days(&self.repeat_days),
            lead_minutes: self.lead_minutes,
        }
    }
}

/// What create, update and import accept: the user-entered description of
/// an alarm.
pub struct NewAlarmPayload {
    pub title: String,
    pub time_label: String,
    /// Optional one-shot date override of the form `YYYY-MM-DD`.
    pub date_label: Option<String>,
    pub url: Option<String>,
    pub repeat_enabled: bool,
    pub repeat_days: Vec<Weekday>,
    pub lead_minutes: i64,
}

/// The mathematical shadow of a payload.
pub ghost struct PayloadV {
    pub title: Seq<char>,
    pub time_label: Seq<char>,
    pub date_label: Option<Seq<char>>,
    pub url: Option<Seq<char>>,
    pub repeat_enabled: bool,
    pub repeat_days: Seq<Weekday>,
    pub lead_minutes: int,
}

impl View for NewAlarmPayload {
    type V = PayloadV;

    open spec fn view(&self) -> PayloadV {
        PayloadV {
            title: self.title@,
            time_label: self.time_label@,
            date_label: opt_str_view(self.date_label),
            url: opt_str_view(self.url),
            repeat_enabled: self.repeat_enabled,
            repeat_days: self.repeat_days@,
            lead_minutes: self.lead_minutes as int,
        }
    }
}

} // verus!

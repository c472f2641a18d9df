//! A recurring/one-shot alarm scheduling engine.
//!
//! The engine turns a wall-clock time label (and optionally a date or a set
//! of weekdays) into the next absolute instant an alarm must fire, tracks
//! which alarms have fired but are not yet acknowledged, and renders the
//! alarm collection to a durable text document with corruption recovery.

pub mod alarm;
pub mod calendar;
pub mod codec;
pub mod host;
pub mod nextfire;
pub mod store;
pub mod text;
pub mod timefmt;

pub use alarm::{Alarm, NewAlarmPayload};
pub use calendar::{Date, Timestamp, Weekday};
pub use nextfire::{clamp_lead_minutes, compute_next_fire, default_lead_minutes, parse_date_label,
    parse_time_label};
pub use store::AlarmStore;

use vstd::prelude::*;

verus! {

/// Everything that can go wrong while validating a payload or computing
/// the next fire instant of an alarm.
#[derive(Clone, Copy, Debug, PartialEq, Eq, Structural)]
pub enum AlarmError {
    /// The time label is not of the exact `HH:MM` form.
    InvalidTimeFormat,
    /// The date label is not of the exact `YYYY-MM-DD` form, or names no
    /// real calendar day.
    InvalidDateFormat,
    /// The requested date and time lie at or before the adjusted reference
    /// instant.
    DateInPast,
    /// No occurrence of the repeat schedule exists within the two-week
    /// search horizon.
    NoFeasibleOccurrence,
    /// The local calendar cannot represent the requested instant.
    AmbiguousOrInvalidLocalTime,
    /// Repeat mode is enabled but no weekday is given.
    ValidationError,
    /// The alarm addressed by id does not exist.
    NotFound,
}

impl AlarmError {
    /// The user-facing message of this error.
    pub fn message(&self) -> String {
        match self {
            AlarmError::InvalidTimeFormat => "時刻の解析に失敗しました。".to_owned(),
            AlarmError::InvalidDateFormat => "日付の解析に失敗しました。".to_owned(),
            AlarmError::DateInPast => "指定した日時は過去です。".to_owned(),
            AlarmError::NoFeasibleOccurrence => "次回の発火時刻を計算できませんでした。".to_owned(),
            AlarmError::AmbiguousOrInvalidLocalTime => "無効な日付です。".to_owned(),
            AlarmError::ValidationError => "繰り返しが ON の場合は曜日を 1 つ以上指定してください。".to_owned(),
            AlarmError::NotFound => "指定されたアラームが見つかりません。".to_owned(),
        }
    }
}

} // verus!

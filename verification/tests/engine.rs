use alarm_engine::{compute_next_fire, parse_date_label, parse_time_label, AlarmError, Timestamp,
    Weekday};

fn ts(year: u32, month: u32, day: u32, hour: u32, minute: u32, second: u32) -> Timestamp {
    Timestamp { year, month, day, hour, minute, second, offset_minutes: 0 }
}

#[test]
fn compute_next_fire_with_date_label_respects_lead_minutes() {
    let base = ts(2025, 1, 1, 10, 0, 0);
    let next = compute_next_fire("11:00", Some("2025-01-01"), false, &vec![], 15, &base)
        .expect("should compute");
    assert_eq!(next, ts(2025, 1, 1, 10, 45, 0));
}

#[test]
fn compute_next_fire_with_date_label_rejects_past_after_lead() {
    let base = ts(2025, 1, 1, 10, 0, 0);
    let err = compute_next_fire("10:10", Some("2025-01-01"), false, &vec![], 15, &base)
        .expect_err("should reject past datetime");
    assert!(err.message().contains("過去"), "unexpected error: {}", err.message());
}

#[test]
fn parse_date_label_rejects_invalid_format() {
    let err = parse_date_label("2025/01/01").expect_err("should fail");
    assert!(err.message().contains("日付"), "unexpected error: {}", err.message());
}

#[test]
fn parse_time_label_accepts_exact_form_only() {
    assert_eq!(parse_time_label("08:05"), Ok((8, 5)));
    assert_eq!(parse_time_label("23:59"), Ok((23, 59)));
    assert_eq!(parse_time_label("8:05"), Err(AlarmError::InvalidTimeFormat));
    assert_eq!(parse_time_label("24:00"), Err(AlarmError::InvalidTimeFormat));
    assert_eq!(parse_time_label("12:60"), Err(AlarmError::InvalidTimeFormat));
    assert_eq!(parse_time_label("12-30"), Err(AlarmError::InvalidTimeFormat));
    assert_eq!(parse_time_label(""), Err(AlarmError::InvalidTimeFormat));
}

#[test]
fn parse_date_label_checks_the_calendar() {
    assert!(parse_date_label("2025-02-28").is_ok());
    assert_eq!(parse_date_label("2025-02-29"), Err(AlarmError::InvalidDateFormat));
    assert!(parse_date_label("2024-02-29").is_ok());
    assert_eq!(parse_date_label("2025-13-01"), Err(AlarmError::InvalidDateFormat));
    assert_eq!(parse_date_label("2025-00-10"), Err(AlarmError::InvalidDateFormat));
    assert_eq!(
        parse_date_label("0000-01-01"),
        Err(AlarmError::AmbiguousOrInvalidLocalTime)
    );
}

#[test]
fn compute_next_fire_rejects_bad_time_label() {
    let base = ts(2025, 1, 1, 10, 0, 0);
    let err = compute_next_fire("eleven", None, false, &vec![], 0, &base).expect_err("bad label");
    assert_eq!(err, AlarmError::InvalidTimeFormat);
}

#[test]
fn compute_next_fire_rolls_to_tomorrow_when_time_has_passed() {
    let base = ts(2025, 1, 1, 23, 45, 0);
    let next = compute_next_fire("23:30", None, false, &vec![], 0, &base).expect("should compute");
    assert_eq!(next, ts(2025, 1, 2, 23, 30, 0));
}

#[test]
fn compute_next_fire_today_when_time_still_ahead() {
    let base = ts(2025, 1, 1, 9, 0, 0);
    let next = compute_next_fire("11:30", None, false, &vec![], 0, &base).expect("should compute");
    assert_eq!(next, ts(2025, 1, 1, 11, 30, 0));
}

#[test]
fn compute_next_fire_lead_shifts_effective_instant() {
    // 10:00 with a 30-minute lead rings at 09:30; at 09:45 that moment has
    // passed, so the alarm rolls to tomorrow 09:30.
    let base = ts(2025, 1, 1, 9, 45, 0);
    let next = compute_next_fire("10:00", None, false, &vec![], 30, &base).expect("should compute");
    assert_eq!(next, ts(2025, 1, 2, 9, 30, 0));
}

#[test]
fn compute_next_fire_clamps_lead_minutes() {
    // An absurd lead is clamped to 720 minutes, never an error.
    let base = ts(2025, 1, 1, 9, 0, 0);
    let next = compute_next_fire("10:00", Some("2025-01-03"), false, &vec![], 100000, &base)
        .expect("should compute");
    assert_eq!(next, ts(2025, 1, 2, 22, 0, 0));
    let next2 = compute_next_fire("10:00", Some("2025-01-03"), false, &vec![], -50, &base)
        .expect("should compute");
    assert_eq!(next2, ts(2025, 1, 3, 10, 0, 0));
}

#[test]
fn compute_next_fire_repeat_skips_to_named_weekday() {
    // 2025-01-07 is a Tuesday; an 08:00 alarm repeating on Mondays must
    // wait for Monday the 13th, not ring the same week.
    let base = ts(2025, 1, 7, 9, 0, 0);
    let next = compute_next_fire("08:00", None, true, &vec![Weekday::Mon], 0, &base)
        .expect("should compute");
    assert_eq!(next, ts(2025, 1, 13, 8, 0, 0));
}

#[test]
fn compute_next_fire_repeat_same_day_later_time() {
    // A Wednesday alarm for later today fires today.
    let base = ts(2025, 1, 1, 7, 0, 0);
    let next = compute_next_fire("09:15", None, true, &vec![Weekday::Wed], 0, &base)
        .expect("should compute");
    assert_eq!(next, ts(2025, 1, 1, 9, 15, 0));
}

#[test]
fn compute_next_fire_repeat_ignores_date_label() {
    let base = ts(2025, 1, 7, 9, 0, 0);
    let next = compute_next_fire("08:00", Some("2025-03-01"), true, &vec![Weekday::Mon], 0, &base)
        .expect("should compute");
    assert_eq!(next, ts(2025, 1, 13, 8, 0, 0));
}

#[test]
fn compute_next_fire_empty_repeat_set_falls_back() {
    // At the calculator level repeat mode needs a non-empty weekday set;
    // without one the plain next-occurrence rule applies. The store's
    // write paths reject such a payload before ever reaching this point.
    let base = ts(2025, 1, 1, 9, 0, 0);
    let next = compute_next_fire("10:00", None, true, &vec![], 0, &base).expect("should compute");
    assert_eq!(next, ts(2025, 1, 1, 10, 0, 0));
}

#[test]
fn compute_next_fire_blank_date_label_ignored() {
    let base = ts(2025, 1, 1, 9, 0, 0);
    let next = compute_next_fire("10:00", Some("   "), false, &vec![], 0, &base)
        .expect("should compute");
    assert_eq!(next, ts(2025, 1, 1, 10, 0, 0));
}

#[test]
fn compute_next_fire_date_at_exact_adjusted_instant_is_past() {
    // The due comparison is <=: a candidate equal to the adjusted
    // reference is already in the past.
    let base = ts(2025, 1, 1, 10, 0, 0);
    let err = compute_next_fire("10:00", Some("2025-01-01"), false, &vec![], 0, &base)
        .expect_err("should reject");
    assert_eq!(err, AlarmError::DateInPast);
}

#[test]
fn compute_next_fire_crosses_month_and_leap_day() {
    let base = ts(2024, 2, 28, 23, 50, 0);
    let next = compute_next_fire("23:40", None, false, &vec![], 0, &base).expect("should compute");
    assert_eq!(next, ts(2024, 2, 29, 23, 40, 0));
    let base2 = ts(2025, 2, 28, 23, 50, 0);
    let next2 = compute_next_fire("23:40", None, false, &vec![], 0, &base2)
        .expect("should compute");
    assert_eq!(next2, ts(2025, 3, 1, 23, 40, 0));
}

#[test]
fn stored_timestamp_form_round_trips() {
    let t = Timestamp {
        year: 2025,
        month: 6,
        day: 30,
        hour: 23,
        minute: 59,
        second: 58,
        offset_minutes: -330,
    };
    let s = alarm_engine::timefmt::render_ts(&t);
    assert_eq!(s, "2025-06-30T23:59:58-05:30");
    assert_eq!(alarm_engine::timefmt::parse_ts(&s), Some(t));
    assert_eq!(alarm_engine::timefmt::parse_ts("2025-13-01T00:00:00+00:00"), None);
    assert_eq!(alarm_engine::timefmt::parse_ts("2025-06-30 23:59:58-05:30"), None);
    assert_eq!(alarm_engine::timefmt::parse_ts("garbage"), None);
}

#[test]
fn stored_timestamp_order_is_string_order() {
    let earlier = alarm_engine::timefmt::render_ts(&ts(2025, 9, 30, 23, 59, 59));
    let later = alarm_engine::timefmt::render_ts(&ts(2025, 10, 1, 0, 0, 0));
    assert!(earlier < later);
}

#[test]
fn quarantine_suffix_names_the_moment() {
    let s = alarm_engine::host::quarantine_suffix();
    assert!(s.starts_with("corrupt-"));
    assert_eq!(s.chars().count(), 22);
    assert!(s["corrupt-".len()..].chars().all(|c| c.is_ascii_digit()));
}

#[test]
fn compute_next_fire_keeps_offset_of_reference() {
    let base = Timestamp {
        year: 2025,
        month: 1,
        day: 1,
        hour: 10,
        minute: 0,
        second: 0,
        offset_minutes: 540,
    };
    let next = compute_next_fire("11:00", Some("2025-01-01"), false, &vec![], 15, &base)
        .expect("should compute");
    assert_eq!(next.offset_minutes, 540);
    assert_eq!((next.hour, next.minute), (10, 45));
}

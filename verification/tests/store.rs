use alarm_engine::{Alarm, AlarmError, AlarmStore, NewAlarmPayload, Timestamp, Weekday};
use alarm_engine::timefmt::parse_ts;

fn ts(year: u32, month: u32, day: u32, hour: u32, minute: u32, second: u32) -> Timestamp {
    Timestamp { year, month, day, hour, minute, second, offset_minutes: 0 }
}

fn payload(
    title: &str,
    time_label: &str,
    date_label: Option<&str>,
    repeat_enabled: bool,
    repeat_days: Vec<Weekday>,
    lead_minutes: i64,
) -> NewAlarmPayload {
    NewAlarmPayload {
        title: title.to_string(),
        time_label: time_label.to_string(),
        date_label: date_label.map(|s| s.to_string()),
        url: None,
        repeat_enabled,
        repeat_days,
        lead_minutes,
    }
}

fn assert_same_alarm(a: &Alarm, b: &Alarm) {
    assert_eq!(a.id, b.id);
    assert_eq!(a.title, b.title);
    assert_eq!(a.time_label, b.time_label);
    assert_eq!(a.next_fire_time, b.next_fire_time);
    assert_eq!(a.url, b.url);
    assert_eq!(a.repeat_enabled, b.repeat_enabled);
    assert_eq!(a.repeat_days.len(), b.repeat_days.len());
    assert_eq!(a.lead_minutes, b.lead_minutes);
}

#[test]
fn new_store_from_nothing_is_empty() {
    let (store, quarantine) = AlarmStore::new(None);
    assert!(!quarantine);
    assert!(store.list().is_empty());
    let (store2, quarantine2) = AlarmStore::new(Some("   \n  "));
    assert!(!quarantine2);
    assert!(store2.list().is_empty());
}

#[test]
fn corrupted_document_yields_empty_store_and_quarantine() {
    let (store, quarantine) = AlarmStore::new(Some("this is not an alarm document"));
    assert!(quarantine);
    assert!(store.list().is_empty());
}

#[test]
fn save_and_reload_round_trips_the_collection() {
    let (mut store, _) = AlarmStore::new(None);
    let now = ts(2025, 1, 1, 9, 0, 0);
    store
        .create_at(
            payload("  morning  ", "10:30", None, false, vec![], 5),
            "id-one".to_string(),
            &now,
        )
        .expect("create");
    store
        .create_at(
            payload("weekly", "08:00", None, true, vec![Weekday::Mon, Weekday::Fri], 0),
            "id-two".to_string(),
            &now,
        )
        .expect("create");
    let mut with_url = payload("linked", "12:00", Some("2025-06-01"), false, vec![], 720);
    with_url.url = Some("https://example.com/x?q=1".to_string());
    store
        .create_at(with_url, "id-three".to_string(), &now)
        .expect("create");
    let doc = store.render();
    let (reloaded, quarantine) = AlarmStore::new(Some(doc.as_str()));
    assert!(!quarantine);
    let original = store.list();
    let reread = reloaded.list();
    assert_eq!(original.len(), reread.len());
    for (a, b) in original.iter().zip(reread.iter()) {
        assert_same_alarm(a, b);
    }
}

#[test]
fn round_trip_keeps_odd_titles_and_urls() {
    let (mut store, _) = AlarmStore::new(None);
    let now = ts(2025, 1, 1, 9, 0, 0);
    let mut p = payload("title with\nnewline and 日本語", "07:45", None, false, vec![], 3);
    p.url = Some("with spaces and 🦀".to_string());
    store.create_at(p, "odd".to_string(), &now).expect("create");
    let doc = store.render();
    let (reloaded, quarantine) = AlarmStore::new(Some(doc.as_str()));
    assert!(!quarantine);
    let reread = reloaded.list();
    assert_eq!(reread.len(), 1);
    assert_eq!(reread[0].title, "title with\nnewline and 日本語");
    assert_eq!(reread[0].url.as_deref(), Some("with spaces and 🦀"));
}

#[test]
fn list_is_sorted_by_next_fire_and_idempotent() {
    let (mut store, _) = AlarmStore::new(None);
    let now = ts(2025, 1, 1, 9, 0, 0);
    store
        .create_at(payload("late", "22:00", None, false, vec![], 0), "a".to_string(), &now)
        .expect("create");
    store
        .create_at(payload("early", "10:00", None, false, vec![], 0), "b".to_string(), &now)
        .expect("create");
    store
        .create_at(payload("middle", "15:00", None, false, vec![], 0), "c".to_string(), &now)
        .expect("create");
    let first = store.list();
    let titles: Vec<&str> = first.iter().map(|a| a.title.as_str()).collect();
    assert_eq!(titles, vec!["early", "middle", "late"]);
    for w in first.windows(2) {
        assert!(w[0].next_fire_time <= w[1].next_fire_time);
    }
    let second = store.list();
    assert_eq!(first.len(), second.len());
    for (a, b) in first.iter().zip(second.iter()) {
        assert_same_alarm(a, b);
    }
}

#[test]
fn created_record_is_normalized() {
    let (mut store, _) = AlarmStore::new(None);
    let now = ts(2025, 1, 1, 9, 0, 0);
    store
        .create_at(
            payload("  spaced out  ", " 10:30 ", None, false, vec![], 9999),
            "norm".to_string(),
            &now,
        )
        .expect("create");
    let list = store.list();
    assert_eq!(list[0].title, "spaced out");
    assert_eq!(list[0].time_label, "10:30");
    assert_eq!(list[0].lead_minutes, 720);
    assert!(!list[0].repeat_enabled);
    // With the clamped 720-minute lead the 10:30 occurrence shifted to
    // before "now", so the alarm is armed for tomorrow 10:30, ringing 720
    // minutes early.
    assert_eq!(list[0].next_fire_time, "2025-01-01T22:30:00+00:00");
}

#[test]
fn create_rejects_repeat_without_weekdays() {
    let (mut store, _) = AlarmStore::new(None);
    let now = ts(2025, 1, 1, 9, 0, 0);
    let err = store
        .create_at(payload("x", "10:00", None, true, vec![], 0), "v1".to_string(), &now)
        .expect_err("repeat with no weekday is a validation error");
    assert_eq!(err, AlarmError::ValidationError);
    assert!(store.list().is_empty());
}

#[test]
fn import_aborts_on_repeat_without_weekdays() {
    let (mut store, _) = AlarmStore::new(None);
    let now = ts(2025, 1, 1, 9, 0, 0);
    let err = store
        .import_many_at(
            vec![
                payload("fine", "11:00", None, false, vec![], 0),
                payload("coupled", "12:00", None, true, vec![], 0),
            ],
            vec!["y1".to_string(), "y2".to_string()],
            false,
            &now,
        )
        .expect_err("the bad coupling fails the whole batch");
    assert_eq!(err, AlarmError::ValidationError);
    assert!(store.list().is_empty());
}

#[test]
fn update_title_trims_unicode_whitespace() {
    let (mut store, _) = AlarmStore::new(None);
    let now = ts(2025, 1, 1, 9, 0, 0);
    store
        .create_at(payload("old", "10:00", None, false, vec![], 0), "w1".to_string(), &now)
        .expect("create");
    store
        .update_title("w1", "\u{3000}\u{2003}wide\u{00a0}\u{2028}")
        .expect("update");
    assert_eq!(store.list()[0].title, "wide");
}

#[test]
fn failed_rearm_still_clears_ringing() {
    // A repeat record loaded with an unreadable time label: due-detection
    // reports it, its re-arm fails, yet the id leaves the ringing set, so
    // the next round reports it again rather than silencing it forever.
    let enc = |s: &str| format!("{:08}{}", s.chars().count(), s);
    let record = format!(
        "{}{}{}{}NT{}0{}\n",
        enc("r1"),
        enc("odd"),
        enc("bad label"),
        enc("2025-01-01T09:00:00+00:00"),
        "00000001",
        "000"
    );
    let doc = format!("{:08}{}", 1, record);
    let (mut store, quarantine) = AlarmStore::new(Some(doc.as_str()));
    assert!(!quarantine);
    let due = store.due_alarms_at(&ts(2025, 1, 1, 9, 30, 0));
    assert_eq!(due.len(), 1);
    let err = store
        .acknowledge_at("r1", &ts(2025, 1, 1, 9, 31, 0))
        .expect_err("the stored time label cannot be re-armed");
    assert_eq!(err, AlarmError::InvalidTimeFormat);
    assert_eq!(store.list().len(), 1, "a failed re-arm removes nothing");
    let again = store.due_alarms_at(&ts(2025, 1, 1, 9, 32, 0));
    assert_eq!(again.len(), 1, "the id left the ringing set despite the failure");
}

#[test]
fn create_at_surfaces_calculator_errors() {
    let (mut store, _) = AlarmStore::new(None);
    let now = ts(2025, 1, 1, 9, 0, 0);
    let err = store
        .create_at(payload("x", "25:00", None, false, vec![], 0), "e1".to_string(), &now)
        .expect_err("bad time");
    assert_eq!(err, AlarmError::InvalidTimeFormat);
    let err2 = store
        .create_at(payload("x", "10:00", Some("2024-12-31"), false, vec![], 0), "e2".to_string(), &now)
        .expect_err("past date");
    assert_eq!(err2, AlarmError::DateInPast);
    assert!(store.list().is_empty());
}

#[test]
fn delete_is_quiet_on_absent_id() {
    let (mut store, _) = AlarmStore::new(None);
    let now = ts(2025, 1, 1, 9, 0, 0);
    store
        .create_at(payload("keep", "10:00", None, false, vec![], 0), "kept".to_string(), &now)
        .expect("create");
    store.delete("nobody");
    assert_eq!(store.list().len(), 1);
    store.delete("kept");
    assert!(store.list().is_empty());
}

#[test]
fn update_title_trims_and_reports_not_found() {
    let (mut store, _) = AlarmStore::new(None);
    let now = ts(2025, 1, 1, 9, 0, 0);
    store
        .create_at(payload("old", "10:00", None, false, vec![], 0), "t1".to_string(), &now)
        .expect("create");
    store.update_title("t1", "  new name  ").expect("update");
    assert_eq!(store.list()[0].title, "new name");
    let err = store.update_title("missing", "x").expect_err("absent");
    assert_eq!(err, AlarmError::NotFound);
}

#[test]
fn update_at_enforces_repeat_weekday_coupling() {
    let (mut store, _) = AlarmStore::new(None);
    let now = ts(2025, 1, 1, 9, 0, 0);
    store
        .create_at(payload("a", "10:00", None, false, vec![], 0), "u1".to_string(), &now)
        .expect("create");
    let err = store
        .update_at("u1", payload("a", "10:00", None, true, vec![], 0), &now)
        .expect_err("repeat without weekday");
    assert_eq!(err, AlarmError::ValidationError);
    assert_eq!(store.list()[0].repeat_enabled, false);
}

#[test]
fn update_at_recomputes_and_keeps_id() {
    let (mut store, _) = AlarmStore::new(None);
    let now = ts(2025, 1, 1, 9, 0, 0);
    store
        .create_at(payload("a", "10:00", None, false, vec![], 0), "u2".to_string(), &now)
        .expect("create");
    store
        .update_at("u2", payload("b", "11:00", Some("2025-02-01"), false, vec![], 30), &now)
        .expect("update");
    let list = store.list();
    assert_eq!(list[0].id, "u2");
    assert_eq!(list[0].title, "b");
    assert_eq!(list[0].next_fire_time, "2025-02-01T10:30:00+00:00");
    let err = store
        .update_at("ghost", payload("b", "11:00", None, false, vec![], 0), &now)
        .expect_err("absent id");
    assert_eq!(err, AlarmError::NotFound);
}

#[test]
fn due_detection_marks_and_never_repeats() {
    let (mut store, _) = AlarmStore::new(None);
    let created = ts(2025, 1, 1, 9, 0, 0);
    store
        .create_at(payload("soon", "09:30", None, false, vec![], 0), "d1".to_string(), &created)
        .expect("create");
    let before = store.due_alarms_at(&ts(2025, 1, 1, 9, 15, 0));
    assert!(before.is_empty());
    let at = store.due_alarms_at(&ts(2025, 1, 1, 9, 30, 0));
    assert_eq!(at.len(), 1);
    assert_eq!(at[0].id, "d1");
    let again = store.due_alarms_at(&ts(2025, 1, 1, 9, 31, 0));
    assert!(again.is_empty(), "an already ringing alarm must not be reported twice");
}

#[test]
fn due_detection_skips_unreadable_cached_instant() {
    // A record whose cached fire time does not parse is skipped for the
    // round, never fatal and never dropped.
    let enc = |s: &str| format!("{:08}{}", s.chars().count(), s);
    let record = format!(
        "{}{}{}{}NF{}{}\n",
        enc("bad1"),
        enc("broken"),
        enc("10:00"),
        enc("not a timestamp"),
        "00000000",
        "003"
    );
    let doc = format!("{:08}{}", 1, record);
    let (mut store, quarantine) = AlarmStore::new(Some(doc.as_str()));
    assert!(!quarantine);
    assert_eq!(store.list().len(), 1);
    let due = store.due_alarms_at(&ts(2025, 1, 1, 12, 0, 0));
    assert!(due.is_empty());
    assert_eq!(store.list().len(), 1);
}

#[test]
fn due_detection_compares_instants_across_offsets() {
    let (mut store, _) = AlarmStore::new(None);
    let created = Timestamp {
        year: 2025,
        month: 1,
        day: 1,
        hour: 9,
        minute: 0,
        second: 0,
        offset_minutes: 540,
    };
    store
        .create_at(payload("tokyo", "09:30", None, false, vec![], 0), "o1".to_string(), &created)
        .expect("create");
    // 09:30 at +09:00 is 00:30 UTC; a clock reading 00:15 UTC is early,
    // 00:30 UTC is due.
    let early = store.due_alarms_at(&ts(2025, 1, 1, 0, 15, 0));
    assert!(early.is_empty());
    let due = store.due_alarms_at(&ts(2025, 1, 1, 0, 30, 0));
    assert_eq!(due.len(), 1);
}

#[test]
fn acknowledge_consumes_one_shot() {
    let (mut store, _) = AlarmStore::new(None);
    let created = ts(2025, 1, 1, 9, 0, 0);
    store
        .create_at(payload("once", "09:30", None, false, vec![], 0), "one".to_string(), &created)
        .expect("create");
    let due = store.due_alarms_at(&ts(2025, 1, 1, 9, 30, 0));
    assert_eq!(due.len(), 1);
    store.acknowledge_at("one", &ts(2025, 1, 1, 9, 31, 0)).expect("acknowledge");
    assert!(store.list().is_empty());
    let later = store.due_alarms_at(&ts(2025, 1, 1, 9, 32, 0));
    assert!(later.is_empty(), "a consumed one-shot alarm never fires again");
}

#[test]
fn acknowledge_rearms_repeat_alarm() {
    let (mut store, _) = AlarmStore::new(None);
    let created = ts(2025, 1, 1, 7, 0, 0);
    store
        .create_at(
            payload("daily-wed", "09:15", None, true, vec![Weekday::Wed], 0),
            "rep".to_string(),
            &created,
        )
        .expect("create");
    let due = store.due_alarms_at(&ts(2025, 1, 1, 9, 15, 0));
    assert_eq!(due.len(), 1);
    let ack_at = ts(2025, 1, 1, 9, 16, 0);
    store.acknowledge_at("rep", &ack_at).expect("acknowledge");
    let list = store.list();
    assert_eq!(list.len(), 1, "a repeat alarm is never removed by acknowledgment");
    assert_eq!(list[0].next_fire_time, "2025-01-08T09:15:00+00:00");
    let fresh = parse_ts(list[0].next_fire_time.as_str()).expect("stored instant parses");
    assert!(
        (fresh.year, fresh.month, fresh.day) > (ack_at.year, ack_at.month, ack_at.day),
        "re-armed instant lies after the acknowledgment"
    );
    let quiet = store.due_alarms_at(&ts(2025, 1, 1, 9, 17, 0));
    assert!(quiet.is_empty());
}

#[test]
fn acknowledge_absent_id_only_clears_ringing() {
    let (mut store, _) = AlarmStore::new(None);
    store.acknowledge_at("ghost", &ts(2025, 1, 1, 9, 0, 0)).expect("no-op");
    assert!(store.list().is_empty());
}

#[test]
fn import_replaces_or_appends_atomically() {
    let (mut store, _) = AlarmStore::new(None);
    let now = ts(2025, 1, 1, 9, 0, 0);
    store
        .create_at(payload("old", "10:00", None, false, vec![], 0), "old1".to_string(), &now)
        .expect("create");
    store
        .import_many_at(
            vec![
                payload("in-a", "11:00", None, false, vec![], 0),
                payload("in-b", "12:00", None, false, vec![], 0),
            ],
            vec!["ia".to_string(), "ib".to_string()],
            false,
            &now,
        )
        .expect("append import");
    assert_eq!(store.list().len(), 3);
    store
        .import_many_at(
            vec![payload("fresh", "13:00", None, false, vec![], 0)],
            vec!["f1".to_string()],
            true,
            &now,
        )
        .expect("replace import");
    let list = store.list();
    assert_eq!(list.len(), 1);
    assert_eq!(list[0].title, "fresh");
}

#[test]
fn import_aborts_whole_batch_on_one_bad_payload() {
    let (mut store, _) = AlarmStore::new(None);
    let now = ts(2025, 1, 1, 9, 0, 0);
    let err = store
        .import_many_at(
            vec![
                payload("fine", "11:00", None, false, vec![], 0),
                payload("broken", "nope", None, false, vec![], 0),
            ],
            vec!["x1".to_string(), "x2".to_string()],
            false,
            &now,
        )
        .expect_err("one bad payload fails the import");
    assert_eq!(err, AlarmError::InvalidTimeFormat);
    assert!(store.list().is_empty(), "an aborted import applies nothing");
}

#[test]
fn render_is_stable_text() {
    let (mut store, _) = AlarmStore::new(None);
    let now = ts(2025, 1, 1, 9, 0, 0);
    store
        .create_at(payload("a", "10:00", None, false, vec![], 3), "r1".to_string(), &now)
        .expect("create");
    let doc1 = store.render();
    let doc2 = store.render();
    assert_eq!(doc1, doc2);
    assert!(doc1.starts_with("00000001"));
    assert!(doc1.contains("2025-01-01T09:57:00+00:00"));
}

#[test]
fn create_against_host_clock_assigns_fresh_id() {
    let (mut store, _) = AlarmStore::new(None);
    store
        .create(payload("real clock", "00:00", None, false, vec![], 0))
        .expect("create with host clock");
    let list = store.list();
    assert_eq!(list.len(), 1);
    assert_eq!(list[0].id.chars().count(), 36);
    assert!(parse_ts(list[0].next_fire_time.as_str()).is_some());
    store
        .create(payload("another", "00:00", None, false, vec![], 0))
        .expect("create again");
    let list2 = store.list();
    assert_ne!(list2[0].id, list2[1].id);
}

//! Calendar events, alarms of the manager, and epoch utilities.
use thumos::civil::civil_from_days;
use thumos::heorte::{
    day_label, decompose_epoch, format_date, format_time_hhmm, utf8_truncate_len, CalendarEvent,
    DayLabel, HeorteManager, MAX_TITLE_LEN,
};

#[test]
fn add_event_increments_id() {
    let mut mgr = HeorteManager::new();
    let id1 = mgr.add_event(b"Meeting", 1_000_000, 60, false);
    let id2 = mgr.add_event(b"Lunch", 2_000_000, 30, false);
    assert_eq!(id1, 1, "first event ID must be 1");
    assert_eq!(id2, 2, "second event ID must be 2");
    assert_eq!(mgr.events().len(), 2, "must have 2 events");
}

#[test]
fn events_sorted_by_start_time() {
    let mut mgr = HeorteManager::new();
    mgr.add_event(b"Later", 2_000_000, 60, false);
    mgr.add_event(b"Earlier", 1_000_000, 30, false);
    let events = mgr.events();
    assert!(
        events[0].start_epoch < events[1].start_epoch,
        "events must be sorted by start_epoch"
    );
    assert_eq!(events[0].title_str(), "Earlier");
    assert_eq!(events[1].title_str(), "Later");
}

#[test]
fn remove_event_works() {
    let mut mgr = HeorteManager::new();
    let id = mgr.add_event(b"Delete me", 1_000_000, 60, false);
    assert!(mgr.remove_event(id), "must remove existing event");
    assert!(
        mgr.events().is_empty(),
        "events must be empty after removal"
    );
    assert!(!mgr.remove_event(id), "removing again must return false");
}

#[test]
fn event_title_truncation() {
    let long_title = [b'A'; 100];
    let event = CalendarEvent::new(1, &long_title, 0, 0, false);
    assert_eq!(
        event.title_len as usize, MAX_TITLE_LEN,
        "title must be truncated"
    );
}

#[test]
fn event_title_truncation_preserves_valid_utf8_prefix() {
    let mut long_title = vec![b'A'; 63];
    long_title.extend_from_slice("é".as_bytes());
    let event = CalendarEvent::new(1, &long_title, 0, 0, false);
    assert_eq!(
        event.title_len as usize, 63,
        "truncation must back off to the last full codepoint, not split it"
    );
    assert_eq!(event.title_str().len(), 63);
    assert!(event.title_str().chars().all(|c| c == 'A'));
}

#[test]
fn event_is_active() {
    let event = CalendarEvent::new(1, b"Test", 1000, 60, false);
    assert!(event.is_active(1000), "must be active at start");
    assert!(event.is_active(3000), "must be active during event");
    assert!(!event.is_active(4600), "must not be active at end");
    assert!(!event.is_active(999), "must not be active before start");
}

#[test]
fn check_alarms_auto_disables_oneshot() {
    let mut mgr = HeorteManager::new();
    mgr.add_alarm(6, 30, b"Once", true, 0);

    let firing = mgr.check_alarms(23400);
    assert_eq!(firing.len(), 1, "one alarm must fire");

    assert!(!mgr.alarms()[0].enabled, "one-shot alarm must auto-disable");

    let firing2 = mgr.check_alarms(23400);
    assert!(firing2.is_empty(), "disabled alarm must not fire again");
}

#[test]
fn toggle_alarm_works() {
    let mut mgr = HeorteManager::new();
    let id = mgr.add_alarm(7, 0, b"Test", true, 0);
    let new_state = mgr.toggle_alarm(id);
    assert_eq!(new_state, Some(false), "toggle must disable");

    let new_state2 = mgr.toggle_alarm(id);
    assert_eq!(new_state2, Some(true), "toggle again must enable");

    let missing = mgr.toggle_alarm(999);
    assert_eq!(missing, None, "toggle non-existent must return None");
}

#[test]
fn decompose_epoch_known() {
    let (h, m, y, mo, d) = decompose_epoch(1_767_225_600);
    assert_eq!((y, mo, d, h, m), (2026, 1, 1, 0, 0));
}

#[test]
fn decompose_epoch_large_value_completes_in_o1() {
    let (_, _, year, month, day) = decompose_epoch(u64::MAX / 2);
    assert_eq!(
        year,
        u16::MAX,
        "year must saturate rather than wrap or panic"
    );
    assert!((1..=12).contains(&month), "month must stay in valid range");
    assert!((1..=31).contains(&day), "day must stay in valid range");
}

#[test]
fn day_label_today_tomorrow() {
    let current = 86400 * 10;
    let today_event = 86400 * 10 + 3600;
    let tomorrow_event = 86400 * 11 + 7200;
    let other_event = 86400 * 15;

    assert!(matches!(day_label(today_event, current), DayLabel::Today));
    assert!(matches!(
        day_label(tomorrow_event, current),
        DayLabel::Tomorrow
    ));
    assert!(matches!(day_label(other_event, current), DayLabel::Date(_)));
}

#[test]
fn find_event_works() {
    let mut mgr = HeorteManager::new();
    let id = mgr.add_event(b"Find me", 1_000_000, 60, false);
    assert!(mgr.find_event(id).is_some(), "must find existing event");
    assert_eq!(mgr.find_event(id).map(|e| e.title_str()), Some("Find me"));
    assert!(mgr.find_event(999).is_none(), "must not find non-existent");
}

#[test]
fn upcoming_events_filters() {
    let mut mgr = HeorteManager::new();
    mgr.add_event(b"Past", 1000, 10, false);
    mgr.add_event(b"Active", 5000, 60, false);
    mgr.add_event(b"Future", 10000, 30, false);

    let upcoming = mgr.upcoming_events(6000);
    assert_eq!(upcoming.len(), 2, "must hold active and future events");
    assert_eq!(upcoming[0].title_str(), "Active");
    assert_eq!(upcoming[1].title_str(), "Future");
}

#[test]
fn dates_around_leap_days() {
    assert_eq!(civil_from_days(0), (1970, 1, 1));
    assert_eq!(civil_from_days(58), (1970, 2, 28));
    assert_eq!(civil_from_days(59), (1970, 3, 1));
    assert_eq!(civil_from_days(789), (1972, 2, 29));
    assert_eq!(civil_from_days(11_016), (2000, 2, 29));
    assert_eq!(civil_from_days(11_017), (2000, 3, 1));
    assert_eq!(civil_from_days(47_540), (2100, 2, 28));
    assert_eq!(civil_from_days(47_541), (2100, 3, 1));
}

#[test]
fn every_day_of_four_centuries_has_the_next_date() {
    let mut last = civil_from_days(0);
    for days in 1..146_097u64 {
        let now = civil_from_days(days);
        let next_in_month = now.0 == last.0 && now.1 == last.1 && now.2 == last.2 + 1;
        let next_month = now.0 == last.0 && now.1 == last.1 + 1 && now.2 == 1 && last.2 >= 28;
        let next_year = now.0 == last.0 + 1 && (now.1, now.2) == (1, 1) && (last.1, last.2) == (12, 31);
        assert!(next_in_month || next_month || next_year, "day {days}");
        last = now;
    }
    assert_eq!(last, (2369, 12, 31));
}

#[test]
fn epoch_zero_is_all_zeros() {
    assert_eq!(decompose_epoch(0), (0, 0, 0, 0, 0));
    assert_eq!(decompose_epoch(1), (0, 0, 1970, 1, 1));
    assert_eq!(decompose_epoch(86_399), (23, 59, 1970, 1, 1));
}

#[test]
fn dates_and_times_are_padded() {
    assert_eq!(&format_date(2026, 1, 9), b"2026-01-09");
    assert_eq!(&format_date(7, 12, 31), b"0007-12-31");
    assert_eq!(&format_time_hhmm(7, 5), b"07:05");
}

#[test]
fn labels_are_texts() {
    assert_eq!(day_label(0, 0).as_str(), "TODAY");
    assert_eq!(day_label(86_400, 0).as_str(), "TOMORROW");
    assert_eq!(day_label(0, 86_400 * 3).as_str(), "0000-00-00");
    assert_eq!(
        day_label(1_767_225_600, 0).to_string(),
        "2026-01-01"
    );
    assert_eq!(DayLabel::Date([0xFF; 10]).as_str(), "????-??-??");
}

#[test]
fn events_that_start_together_keep_their_order() {
    let mut mgr = HeorteManager::new();
    mgr.add_event(b"b", 500, 0, false);
    mgr.add_event(b"a", 100, 0, false);
    mgr.add_event(b"c", 500, 0, true);
    mgr.add_event(b"d", 300, 0, false);
    let titles: Vec<&str> = mgr.events().iter().map(|e| e.title_str()).collect();
    assert_eq!(titles, vec!["a", "d", "b", "c"]);
    assert!(mgr.remove_event(2));
    assert_eq!(mgr.add_event(b"e", 0, 0, false), 5, "numbers are not reused");
    assert!(mgr.find_event(2).is_none());
    assert_eq!(mgr.events().len(), 4);
}

#[test]
fn events_without_a_valid_title_show_none() {
    let event = CalendarEvent::new(1, &[0xFF, 0xFE], 100, 2, false);
    assert_eq!(event.title_str(), "");
    assert_eq!(event.to_string(), "");
    assert_eq!(event.end_epoch(), 220);
    assert_eq!(CalendarEvent::new(1, b"x", 86_400 * 5 + 1, 0, true).day_index(), 5);
}

#[test]
fn truncation_never_splits_a_character() {
    assert_eq!(utf8_truncate_len("aé".as_bytes(), 2), 1);
    assert_eq!(utf8_truncate_len("aé".as_bytes(), 3), 3);
    assert_eq!(utf8_truncate_len("日本".as_bytes(), 5), 3);
    assert_eq!(utf8_truncate_len("日本".as_bytes(), 2), 0);
    assert_eq!(utf8_truncate_len(b"", 4), 0);
}

#[test]
fn alarms_are_removed_by_number() {
    let mut mgr = HeorteManager::new();
    let a = mgr.add_alarm(1, 2, b"a", true, 0);
    let b = mgr.add_alarm(3, 4, b"b", true, 0x7F);
    assert!(mgr.remove_alarm(a));
    assert!(!mgr.remove_alarm(a));
    assert_eq!(mgr.alarms().len(), 1);
    assert_eq!(mgr.alarms()[0].id, b);
    assert_eq!(mgr.check_alarms(3 * 3600 + 4 * 60), vec![b]);
    assert!(mgr.alarms()[0].enabled, "a repeating alarm stays armed");
}

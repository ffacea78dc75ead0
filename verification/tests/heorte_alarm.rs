//! Alarms.
use thumos::heorte::SECS_PER_DAY;
use thumos::heorte_alarm::{day_mask, day_of_week, Alarm};

#[test]
fn alarm_fires_at_correct_time() {
    let alarm = Alarm::new(1, 6, 30, b"Wake up", true, 0);

    let epoch_630 = 23400;
    assert!(alarm.should_fire(epoch_630), "alarm must fire at 06:30");

    let epoch_631 = 23460;
    assert!(!alarm.should_fire(epoch_631), "alarm must not fire at 06:31");
}

#[test]
fn alarm_disabled_does_not_fire() {
    let alarm = Alarm::new(1, 6, 30, b"Wake up", false, 0);
    let epoch_630 = 23400;
    assert!(!alarm.should_fire(epoch_630), "disabled alarm must not fire");
}

#[test]
fn alarm_label_truncation_preserves_valid_utf8_prefix() {
    let mut long_label = vec![b'A'; 31];
    long_label.extend_from_slice("é".as_bytes());
    let alarm = Alarm::new(1, 6, 30, &long_label, true, 0);
    assert_eq!(
        alarm.label_len as usize, 31,
        "truncation must back off to the last full codepoint, not split it"
    );
    assert_eq!(alarm.label_str().len(), 31);
    assert!(alarm.label_str().chars().all(|c| c == 'A'));
}

#[test]
fn alarm_repeat_mask_works() {
    let alarm = Alarm::new(1, 8, 0, b"Work", true, day_mask::WEEKDAYS);

    let thursday_0800 = 28800u64;
    assert!(alarm.should_fire(thursday_0800), "Thursday must fire for weekday alarm");

    let saturday_0800 = 2 * SECS_PER_DAY + 28800;
    assert!(!alarm.should_fire(saturday_0800), "Saturday must not fire for weekday alarm");

    let sunday_0800 = 3 * SECS_PER_DAY + 28800;
    assert!(!alarm.should_fire(sunday_0800), "Sunday must not fire for weekday alarm");
}

#[test]
fn alarm_repeat_labels() {
    assert_eq!(Alarm::new(1, 0, 0, b"", true, 0).repeat_label(), "Once");
    assert_eq!(Alarm::new(1, 0, 0, b"", true, day_mask::DAILY).repeat_label(), "Daily");
    assert_eq!(Alarm::new(1, 0, 0, b"", true, day_mask::WEEKDAYS).repeat_label(), "Weekdays");
    assert_eq!(Alarm::new(1, 0, 0, b"", true, day_mask::MON | day_mask::WED).repeat_label(), "Custom");
}

#[test]
fn day_of_week_known_dates() {
    assert_eq!(day_of_week(0), 4, "1970-01-01 must be Thursday");
    assert_eq!(day_of_week(3 * SECS_PER_DAY), 0, "1970-01-04 must be Sunday");
}

#[test]
fn times_are_clamped_and_labels_shown() {
    let alarm = Alarm::new(1, 99, 99, b"Late", true, 0);
    assert_eq!((alarm.hour, alarm.minute), (23, 59));
    assert_eq!(alarm.to_string(), "23:59 Late");
    let early = Alarm::new(2, 6, 5, &[0xFF], true, 0);
    assert_eq!(early.label_str(), "");
    assert_eq!(early.to_string(), "06:05 ");
}

#[test]
fn each_day_has_its_bit() {
    let masks = [
        day_mask::SUN,
        day_mask::MON,
        day_mask::TUE,
        day_mask::WED,
        day_mask::THU,
        day_mask::FRI,
        day_mask::SAT,
    ];
    for day in 0..7u64 {
        let epoch = (3 + day) * SECS_PER_DAY;
        assert_eq!(day_of_week(epoch) as u64, day);
        for (i, mask) in masks.iter().enumerate() {
            let alarm = Alarm::new(1, 0, 0, b"", true, *mask);
            assert_eq!(alarm.should_fire(epoch), i as u64 == day);
        }
    }
    assert_eq!(
        day_mask::WEEKDAYS,
        day_mask::MON | day_mask::TUE | day_mask::WED | day_mask::THU | day_mask::FRI
    );
    assert_eq!(
        day_mask::DAILY,
        day_mask::WEEKDAYS | day_mask::SAT | day_mask::SUN
    );
}

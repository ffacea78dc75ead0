//! Timer and stopwatch.
use thumos::heorte_timer::{format_elapsed_ms, format_lap_ms, Stopwatch, Timer, MAX_LAPS};

#[test]
fn timer_countdown_updates() {
    let mut timer = Timer::new();
    timer.set_duration(300);
    assert_eq!(timer.remaining_secs, 300);

    timer.start(1000);
    assert!(timer.running);

    let expired = timer.update(61_000);
    assert!(!expired, "timer must not be expired yet");
    assert_eq!(
        timer.remaining_secs, 240,
        "must have 240s remaining after 60s"
    );
}

#[test]
fn timer_expires() {
    let mut timer = Timer::new();
    timer.set_duration(10);
    timer.start(0);

    let expired = timer.update(10_000);
    assert!(expired, "timer must expire after full duration");
    assert_eq!(timer.remaining_secs, 0);
    assert!(!timer.running, "timer must stop when expired");
}

#[test]
fn timer_pause_resume() {
    let mut timer = Timer::new();
    timer.set_duration(60);
    timer.start(0);
    timer.pause(5_000);
    assert!(!timer.running);
    assert_eq!(timer.remaining_secs, 55);

    timer.start(10_000);
    let expired = timer.update(20_000);
    assert!(!expired);
    assert_eq!(timer.remaining_secs, 45);
}

#[test]
fn timer_reset_clears() {
    let mut timer = Timer::new();
    timer.set_duration(120);
    timer.start(0);
    timer.update(30_000);
    timer.reset();
    assert_eq!(
        timer.remaining_secs, 120,
        "reset must restore full duration"
    );
    assert!(!timer.running, "reset must stop timer");
}

#[test]
fn timer_format_remaining() {
    let mut timer = Timer::new();
    timer.set_duration(332);
    let buf = timer.format_remaining();
    assert_eq!(&buf, b"05:32", "must format as MM:SS");

    timer.set_duration(0);
    let buf = timer.format_remaining();
    assert_eq!(&buf, b"00:00");
}

#[test]
fn timer_sub_second_polls_accumulate_at_500ms() {
    let mut timer = Timer::new();
    timer.set_duration(2);
    timer.start(0);

    assert!(!timer.update(500), "must not expire after 500ms");
    assert!(!timer.update(1_000), "must not expire after 1000ms");
    assert!(!timer.update(1_500), "must not expire after 1500ms");
    assert!(
        timer.update(2_000),
        "must expire after exactly 2000ms (4th call)"
    );
}

#[test]
fn timer_sub_second_polls_accumulate_at_100ms() {
    let mut timer = Timer::new();
    timer.set_duration(2);
    timer.start(0);

    let mut expired = false;
    for i in 1..=20 {
        expired = timer.update(i * 100);
    }
    assert!(
        expired,
        "timer polled at 100ms intervals must expire after 20 calls (2000ms)"
    );
}

#[test]
fn stopwatch_lap_records() {
    let mut sw = Stopwatch::new();
    sw.start(0);
    sw.lap(3_000);
    sw.lap(7_000);
    sw.lap(10_000);

    assert_eq!(sw.laps.len(), 3, "must have 3 laps");
    let durations = sw.lap_durations();
    assert_eq!(durations.len(), 3);
    assert_eq!(durations[0], (1, 3_000), "lap 1 must be 3s");
    assert_eq!(durations[1], (2, 4_000), "lap 2 must be 4s");
    assert_eq!(durations[2], (3, 3_000), "lap 3 must be 3s");
}

#[test]
fn stopwatch_elapsed_accumulates() {
    let mut sw = Stopwatch::new();
    sw.start(0);
    sw.stop(5_000);
    assert_eq!(sw.elapsed_ms, 5_000);

    sw.start(10_000);
    sw.stop(13_000);
    assert_eq!(
        sw.elapsed_ms, 8_000,
        "elapsed must accumulate across stop/start"
    );
}

#[test]
fn stopwatch_reset() {
    let mut sw = Stopwatch::new();
    sw.start(0);
    sw.lap(1_000);
    sw.stop(2_000);
    sw.reset();
    assert_eq!(sw.elapsed_ms, 0, "reset must clear elapsed");
    assert!(sw.laps.is_empty(), "reset must clear laps");
    assert!(!sw.running, "reset must stop stopwatch");
}

#[test]
fn stopwatch_max_laps() {
    let mut sw = Stopwatch::new();
    sw.start(0);
    for i in 1..=55 {
        sw.lap(i * 1000);
    }
    assert_eq!(sw.laps.len(), MAX_LAPS, "must cap at MAX_LAPS");
}

#[test]
fn stopwatch_lap_while_stopped() {
    let mut sw = Stopwatch::new();
    sw.lap(1_000);
    assert!(sw.laps.is_empty(), "lap while stopped must be ignored");
}

#[test]
fn format_elapsed_ms_works() {
    let ms = 12 * 60 * 1000 + 34 * 1000 + 567;
    let buf = format_elapsed_ms(ms);
    let s = core::str::from_utf8(&buf).unwrap_or("");
    assert_eq!(s, "00:12:34.567");
}

#[test]
fn format_lap_ms_works() {
    let ms = 3 * 60 * 1000 + 21 * 1000 + 443;
    let buf = format_lap_ms(ms);
    let s = core::str::from_utf8(&buf).unwrap_or("");
    assert_eq!(s, "03:21.443");
}

#[test]
fn an_idle_timer_reports_what_it_is() {
    let mut timer = Timer::new();
    assert!(!timer.update(5_000), "a timer without a duration never expires");
    timer.start(0);
    assert!(!timer.running, "there is nothing to count down");
    timer.set_duration(1);
    timer.start(100);
    timer.start(900);
    assert_eq!(timer.started_tick, 100, "a running timer is not restarted");
    assert!(timer.update(1_100));
    assert!(timer.expired());
    assert!(timer.update(1_200), "it stays expired");
    timer.reset();
    assert!(!timer.expired());
    assert_eq!(timer.to_string(), "00:01");
}

#[test]
fn a_very_late_update_expires_the_timer() {
    let mut timer = Timer::new();
    timer.set_duration(10);
    timer.start(0);
    assert!(timer.update(4_294_967_296_000));
    assert_eq!(timer.remaining_secs, 0);
}

#[test]
fn clocks_that_run_backwards_count_nothing() {
    let mut timer = Timer::new();
    timer.set_duration(10);
    timer.start(5_000);
    assert!(!timer.update(1_000));
    assert_eq!(timer.remaining_secs, 10);
    let mut sw = Stopwatch::new();
    sw.start(5_000);
    assert_eq!(sw.current_elapsed(1_000), 0);
    sw.stop(1_000);
    assert_eq!(sw.elapsed_ms, 0);
}

#[test]
fn times_are_capped_for_display() {
    let mut timer = Timer::new();
    timer.set_duration(u32::MAX);
    assert_eq!(&timer.format_remaining(), b"99:15");
    assert_eq!(&format_elapsed_ms(u64::MAX), b"99:25:51.615");
    assert_eq!(&format_lap_ms(u64::MAX), b"99:51.615");
}

#[test]
fn a_stopwatch_shows_its_minutes() {
    let mut sw = Stopwatch::new();
    sw.start(0);
    sw.stop(6_061_000);
    assert_eq!(sw.to_string(), "101:01");
    assert_eq!(&sw.format_elapsed(9_999_999), b"01:41:01.000");
}

#[test]
fn full_lap_lists_drop_the_oldest() {
    let mut sw = Stopwatch::new();
    sw.start(0);
    for i in 1..=52 {
        sw.lap(i * 1000);
    }
    assert_eq!(sw.laps[0], 3_000);
    assert_eq!(sw.laps[MAX_LAPS - 1], 52_000);
    assert_eq!(sw.lap_durations()[0], (1, 3_000));
    assert_eq!(sw.lap_durations()[1], (2, 1_000));
}

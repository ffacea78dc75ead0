//! What the calendar, the alarms, the timer and the stopwatch promise.
use crate::civil::{
    capped_year, day_number, days_before_month, days_before_year, days_in_month, is_date_of,
    is_leap, shows_date, valid_date,
};
use crate::heorte::{
    clean_prefix_len, date_text, is_date_text, law_clean_cut_is_the_largest, place, EventModel,
    HeorteModel,
};
use crate::heorte_alarm::{hour_of, minute_of, names_day, weekday_of, AlarmModel};
use crate::heorte_timer::{digit, elapsed_text, lap_duration, lap_text, StopwatchModel, Timer};
use vstd::prelude::*;

verus! {

// ---------------------------------------------------------------------------
// Calendar
// ---------------------------------------------------------------------------

proof fn lemma_place_bounds(events: Seq<EventModel>, start: u64)
    ensures
        0 <= place(events, start) <= events.len(),
        forall|i: int|
            place(events, start) <= i < events.len() ==> (#[trigger] events[i]).start_epoch > start,
        place(events, start) > 0 ==> events[place(events, start) - 1].start_epoch <= start,
    decreases events.len(),
{
    if events.len() > 0 && events.last().start_epoch > start {
        lemma_place_bounds(events.drop_last(), start);
        assert forall|i: int| place(events, start) <= i < events.len() implies (
        #[trigger] events[i]).start_epoch > start by {
            if i < events.len() - 1 {
                assert(events.drop_last()[i] == events[i]);
            }
        }
    }
}

/// Law: an event is entered as it was given, under the next number, behind all that start no
/// later and in front of all that start later; without it the calendar is what it was. Its
/// title is the start of the given one, and all of it where that has no more than sixty-four
/// bytes.
pub proof fn law_events_are_entered_as_given(
    m: HeorteModel,
    title: Seq<u8>,
    start: u64,
    minutes: u16,
    all_day: bool,
)
    requires
        m.next_event_id < u32::MAX,
    ensures
        ({
            let after = m.with_event(title, start, minutes, all_day);
            exists|p: int|
                {
                    &&& 0 <= p < after.events.len()
                    &&& (#[trigger] after.events[p]).id == m.next_event_id
                    &&& after.events[p].start_epoch == start
                    &&& after.events[p].duration_min == minutes
                    &&& after.events[p].all_day == all_day
                    &&& after.events[p].title.is_prefix_of(title)
                    &&& after.events[p].title.len() <= 64
                    &&& title.len() <= 64 ==> after.events[p].title == title
                    &&& after.events.remove(p) == m.events
                    &&& p > 0 ==> after.events[p - 1].start_epoch <= start
                    &&& p + 1 < after.events.len() ==> after.events[p + 1].start_epoch > start
                }
        }),
        m.with_event(title, start, minutes, all_day).next_event_id == m.next_event_id + 1,
        m.with_event(title, start, minutes, all_day).alarms == m.alarms,
        m.with_event(title, start, minutes, all_day).timer == m.timer,
        m.with_event(title, start, minutes, all_day).stopwatch == m.stopwatch,
        m.with_event(title, start, minutes, all_day).next_alarm_id == m.next_alarm_id,
{
    lemma_place_bounds(m.events, start);
    let after = m.with_event(title, start, minutes, all_day);
    let p = place(m.events, start);
    law_texts_are_cut_cleanly(title, 64);
    assert(after.events.remove(p) =~= m.events);
    assert(after.events[p].id == m.next_event_id);
}

/// Law: a text is cut within its limit and in front of no byte that continues a character; a
/// text within the limit is kept whole.
pub proof fn law_texts_are_cut_cleanly(text: Seq<u8>, max: int)
    requires
        0 <= max,
    ensures
        0 <= clean_prefix_len(text, max) <= text.len(),
        clean_prefix_len(text, max) <= max,
        text.len() <= max ==> clean_prefix_len(text, max) == text.len(),
        text.len() > max && !(0x80 <= text[max] <= 0xBF) ==> clean_prefix_len(text, max) == max,
        0 < clean_prefix_len(text, max) < text.len() ==> !(0x80 <= text[clean_prefix_len(text, max)]
            <= 0xBF),
        text.len() > max ==> forall|i: int|
            clean_prefix_len(text, max) < i <= max ==> 0x80 <= #[trigger] text[i] <= 0xBF,
{
    let n = if text.len() <= max {
        text.len() as int
    } else {
        max
    };
    law_clean_cut_is_the_largest(text, n);
    if text.len() > max {
        assert forall|i: int| clean_prefix_len(text, max) < i <= max implies 0x80
            <= #[trigger] text[i] <= 0xBF by {
            assert(!crate::heorte::cuts_cleanly(text, i));
        }
    }
}

/// Law: an event ends its minutes after its start. It is upcoming until it ends, or where it
/// starts now or later; upcoming events come in the order of the calendar, all of them.
pub proof fn law_upcoming_events_are_not_over(m: HeorteModel, now: u64)
    ensures
        forall|e: EventModel| #[trigger] e.end() == e.start_epoch + 60 * e.duration_min,
        m.upcoming(now) == m.events.filter(
            |e: EventModel| e.start_epoch + 60 * e.duration_min > now || e.start_epoch >= now,
        ),
{
    let p = |e: EventModel| e.is_upcoming(now);
    let q = |e: EventModel| e.start_epoch + 60 * e.duration_min > now || e.start_epoch >= now;
    assert forall|e: EventModel| #[trigger] p(e) == q(e) by {}
    lemma_same_filter(m.events, p, q);
}

proof fn lemma_same_filter<A>(s: Seq<A>, p: spec_fn(A) -> bool, q: spec_fn(A) -> bool)
    requires
        forall|a: A| #[trigger] p(a) == q(a),
    ensures
        s.filter(p) == s.filter(q),
    decreases s.len(),
{
    reveal(Seq::filter);
    if s.len() > 0 {
        lemma_same_filter(s.drop_last(), p, q);
        assert(p(s.last()) == q(s.last()));
    }
}

/// Law: a removed event or alarm is taken out of its list and the others stay in order.
pub proof fn law_removal_takes_one_number_out(m: HeorteModel, id: u32)
    ensures
        m.without_event(id).events == m.events.filter(|e: EventModel| e.id != id),
        m.without_event(id).alarms == m.alarms,
        m.without_event(id).next_event_id == m.next_event_id,
        m.without_alarm(id).alarms == m.alarms.filter(|a: AlarmModel| a.id != id),
        m.without_alarm(id).events == m.events,
        m.without_alarm(id).next_alarm_id == m.next_alarm_id,
{
}

// ---------------------------------------------------------------------------
// Alarms
// ---------------------------------------------------------------------------

/// Whether a repeat mask has the bit of a day of the week set; Sunday has the lowest.
pub open spec fn repeats_on(mask: u8, day: int) -> bool {
    if day == 0 {
        mask % 2 == 1
    } else if day == 1 {
        mask / 2 % 2 == 1
    } else if day == 2 {
        mask / 4 % 2 == 1
    } else if day == 3 {
        mask / 8 % 2 == 1
    } else if day == 4 {
        mask / 16 % 2 == 1
    } else if day == 5 {
        mask / 32 % 2 == 1
    } else {
        mask / 64 % 2 == 1
    }
}

proof fn lemma_bits(mask: u8, day: int)
    requires
        0 <= day < 7,
    ensures
        names_day(mask, day) == repeats_on(mask, day),
{
    assert((mask & (1u8 << 0u8) != 0) == (mask % 2 == 1) && (mask & (1u8 << 1u8) != 0) == (mask / 2
        % 2 == 1) && (mask & (1u8 << 2u8) != 0) == (mask / 4 % 2 == 1) && (mask & (1u8 << 3u8) != 0)
        == (mask / 8 % 2 == 1) && (mask & (1u8 << 4u8) != 0) == (mask / 16 % 2 == 1) && (mask & (1u8
        << 5u8) != 0) == (mask / 32 % 2 == 1) && (mask & (1u8 << 6u8) != 0) == (mask / 64 % 2 == 1))
        by (bit_vector);
}

/// Law: at a second of a minute of an hour of a day the clock shows just these; the first day
/// was a Thursday.
pub proof fn law_clocks_show_the_time_of_day(day: int, hour: int, minute: int, second: int)
    requires
        0 <= day,
        0 <= hour < 24,
        0 <= minute < 60,
        0 <= second < 60,
        day * 86_400 + hour * 3_600 + minute * 60 + second <= u64::MAX,
    ensures
        ({
            let epoch = (day * 86_400 + hour * 3_600 + minute * 60 + second) as u64;
            &&& hour_of(epoch) == hour
            &&& minute_of(epoch) == minute
            &&& weekday_of(epoch) == (day + 4) % 7
        }),
{
    let rest = hour * 3_600 + minute * 60 + second;
    let epoch = day * 86_400 + rest;
    assert(epoch / 86_400 == day && epoch % 86_400 == rest);
    assert(rest / 3_600 == hour && rest % 3_600 == minute * 60 + second);
    assert(epoch % 3_600 == minute * 60 + second);
    assert((minute * 60 + second) / 60 == minute);
}

/// Law: an alarm rings in every second of its minute and at no other time, on the days of its
/// mask, or on any day where it has none; one that is switched off never rings.
pub proof fn law_alarms_ring_in_their_minute(
    a: AlarmModel,
    day: int,
    hour: int,
    minute: int,
    second: int,
)
    requires
        0 <= day,
        0 <= hour < 24,
        0 <= minute < 60,
        0 <= second < 60,
        day * 86_400 + hour * 3_600 + minute * 60 + second <= u64::MAX,
    ensures
        a.fires_at((day * 86_400 + hour * 3_600 + minute * 60 + second) as u64) <==> a.enabled
            && a.hour == hour && a.minute == minute && (a.repeat_days == 0 || repeats_on(
            a.repeat_days,
            (day + 4) % 7,
        )),
{
    law_clocks_show_the_time_of_day(day, hour, minute, second);
    lemma_bits(a.repeat_days, (day + 4) % 7);
}

/// Law: an alarm is set as it was given; an hour beyond the day becomes the last, and so does a
/// minute beyond the hour. The label is the start of the given one, and all of it where that
/// has no more than thirty-two bytes. It goes behind the others under the next number.
pub proof fn law_alarms_are_set_as_given(
    m: HeorteModel,
    hour: u8,
    minute: u8,
    label: Seq<u8>,
    enabled: bool,
    repeat_days: u8,
)
    requires
        m.next_alarm_id < u32::MAX,
    ensures
        ({
            let after = m.with_alarm(hour, minute, label, enabled, repeat_days);
            let a = after.alarms.last();
            &&& after.alarms.len() == m.alarms.len() + 1
            &&& after.alarms.drop_last() == m.alarms
            &&& after.next_alarm_id == m.next_alarm_id + 1
            &&& after.events == m.events
            &&& a.id == m.next_alarm_id
            &&& hour <= 23 ==> a.hour == hour
            &&& hour > 23 ==> a.hour == 23
            &&& minute <= 59 ==> a.minute == minute
            &&& minute > 59 ==> a.minute == 59
            &&& a.enabled == enabled
            &&& a.repeat_days == repeat_days
            &&& a.label.is_prefix_of(label)
            &&& a.label.len() <= 32
            &&& label.len() <= 32 ==> a.label == label
        }),
{
    law_texts_are_cut_cleanly(label, 32);
    let after = m.with_alarm(hour, minute, label, enabled, repeat_days);
    assert(after.alarms.drop_last() =~= m.alarms);
    if label.len() <= 32 {
        assert(label.take(label.len() as int) =~= label);
    }
}

proof fn lemma_filtered<A>(s: Seq<A>, p: spec_fn(A) -> bool, k: int)
    requires
        0 <= k < s.filter(p).len(),
    ensures
        p(s.filter(p)[k]),
        exists|j: int| 0 <= j < s.len() && s[j] == s.filter(p)[k],
    decreases s.len(),
{
    reveal(Seq::filter);
    if s.len() > 0 {
        let front = s.drop_last();
        if k < front.filter(p).len() {
            lemma_filtered(front, p, k);
            let j = choose|j: int| 0 <= j < front.len() && front[j] == front.filter(p)[k];
            assert(s[j] == front[j]);
        } else {
            assert(s[s.len() - 1] == s.filter(p)[k]);
        }
    }
}

/// Law: a check names exactly the alarms that ring, and switches off those of them that ring
/// once; nothing else of any alarm changes.
pub proof fn law_a_check_names_what_rings(m: HeorteModel, epoch: u64, i: int)
    requires
        m.ok(),
        0 <= i < m.alarms.len(),
    ensures
        m.ringing(epoch).contains(m.alarms[i].id) <==> m.alarms[i].fires_at(epoch),
        ({
            let a = m.checked_at(epoch).alarms[i];
            &&& a.enabled == (m.alarms[i].enabled && !(m.alarms[i].fires_at(epoch)
                && m.alarms[i].repeat_days == 0))
            &&& a.id == m.alarms[i].id
            &&& a.hour == m.alarms[i].hour
            &&& a.minute == m.alarms[i].minute
            &&& a.label == m.alarms[i].label
            &&& a.repeat_days == m.alarms[i].repeat_days
        }),
        m.checked_at(epoch).alarms.len() == m.alarms.len(),
        m.checked_at(epoch).events == m.events,
{
    let p = |a: AlarmModel| a.fires_at(epoch);
    let rung = m.alarms.filter(p);
    broadcast use vstd::seq_lib::group_filter_ensures;

    if m.alarms[i].fires_at(epoch) {
        assert(p(m.alarms[i]));
        assert(rung.contains(m.alarms[i]));
        let k = choose|k: int| 0 <= k < rung.len() && rung[k] == m.alarms[i];
        assert(m.ringing(epoch)[k] == m.alarms[i].id);
    }
    if m.ringing(epoch).contains(m.alarms[i].id) {
        let k = choose|k: int|
            0 <= k < m.ringing(epoch).len() && m.ringing(epoch)[k] == m.alarms[i].id;
        assert(rung[k].id == m.alarms[i].id);
        lemma_filtered(m.alarms, p, k);
        let j = choose|j: int| 0 <= j < m.alarms.len() && m.alarms[j] == rung[k];
        assert(m.alarms[j].id == m.alarms[i].id);
        assert(j == i);
    }
}

// ---------------------------------------------------------------------------
// Timer and stopwatch
// ---------------------------------------------------------------------------

/// Law: a started timer counts its seconds down with the clock and stops at zero; a second
/// is a thousand ticks.
pub proof fn law_timers_count_down(t: Timer, start: u64, now: u64)
    requires
        !t.running,
        t.remaining_secs > 0,
        start <= now,
    ensures
        ({
            let (after, expired) = t.started(start).updated(now);
            let passed = (now - start) / 1000;
            &&& after.remaining_secs == (if passed < t.remaining_secs {
                t.remaining_secs - passed
            } else {
                0
            })
            &&& after.running == (passed < t.remaining_secs)
            &&& expired == (passed >= t.remaining_secs)
            &&& after.duration_secs == t.duration_secs
        }),
{
}

/// Law: a paused timer that is resumed goes on where it was: what passed in between does not
/// count.
pub proof fn law_pauses_do_not_count(t: Timer, start: u64, pause: u64, resume: u64, now: u64)
    requires
        !t.running,
        t.remaining_secs > 0,
        start <= pause,
        resume <= now,
        (pause - start) / 1000 < t.remaining_secs,
    ensures
        t.started(start).paused(pause).started(resume).updated(now).1 == ((pause - start) / 1000 + (
        now - resume) / 1000 >= t.remaining_secs),
        t.started(start).paused(pause).remaining_secs == t.remaining_secs - (pause - start) / 1000,
        !t.started(start).paused(pause).running,
{
}

/// Law: a timer of a duration shows it and stands still; one without seconds left does not
/// start, and time alone changes nothing of a timer that stands still.
pub proof fn law_set_timers_stand_still(secs: u32, now: u64)
    ensures
        Timer::of_duration(secs).remaining_secs == secs,
        Timer::of_duration(secs).duration_secs == secs,
        !Timer::of_duration(secs).running,
        Timer::of_duration(secs).updated(now).0 == Timer::of_duration(secs),
        Timer::of_duration(0).started(now) == Timer::of_duration(0),
        secs > 0 ==> Timer::of_duration(secs).started(now).running,
{
}

/// The number that two digits stand for.
pub open spec fn pair(a: u8, b: u8) -> int {
    10 * (a - 0x30) + (b - 0x30)
}

/// Whether bytes are digits.
pub open spec fn digits2(a: u8, b: u8) -> bool {
    0x30 <= a <= 0x39 && 0x30 <= b <= 0x39
}

/// Law: below a hundred minutes the remaining time is shown as minutes and seconds that make
/// it up, in two digits each with a colon between them; above, the minutes stay at 99.
pub proof fn law_remaining_time_reads_back(t: Timer)
    ensures
        ({
            let s = t.remaining_text();
            &&& s.len() == 5
            &&& s[2] == 0x3A
            &&& digits2(s[0], s[1]) && digits2(s[3], s[4])
            &&& pair(s[3], s[4]) < 60
            &&& t.remaining_secs < 6_000 ==> 60 * pair(s[0], s[1]) + pair(s[3], s[4])
                == t.remaining_secs
            &&& t.remaining_secs >= 6_000 ==> pair(s[0], s[1]) == 99 && pair(s[3], s[4])
                == t.remaining_secs % 60
        }),
{
}

/// Two digits of a number below a hundred, and three of one below a thousand.
proof fn lemma_shown(n: int)
    requires
        0 <= n,
    ensures
        n < 100 ==> digits2(digit(n / 10), digit(n)) && pair(digit(n / 10), digit(n)) == n,
        n < 1000 ==> digits2(digit(n / 100), digit(n / 10)) && digits2(digit(n / 10), digit(n))
            && 100 * (digit(n / 100) - 0x30) + pair(digit(n / 10), digit(n)) == n,
{
}

/// Law: below a hundred hours the elapsed time is shown as hours, minutes, seconds and
/// thousandths that make it up.
pub proof fn law_elapsed_time_reads_back(ms: int)
    requires
        0 <= ms,
    ensures
        ({
            let s = elapsed_text(ms);
            let millis = 100 * (s[9] - 0x30) + pair(s[10], s[11]);
            &&& s.len() == 12
            &&& s[2] == 0x3A && s[5] == 0x3A && s[8] == 0x2E
            &&& digits2(s[0], s[1]) && digits2(s[3], s[4]) && digits2(s[6], s[7]) && digits2(
                s[9],
                s[10],
            ) && digits2(s[10], s[11])
            &&& pair(s[3], s[4]) < 60 && pair(s[6], s[7]) < 60
            &&& ms < 360_000_000 ==> 3_600_000 * pair(s[0], s[1]) + 60_000 * pair(s[3], s[4]) + 1_000
                * pair(s[6], s[7]) + millis == ms
            &&& ms >= 360_000_000 ==> pair(s[0], s[1]) == 99
        }),
{
    let secs = ms / 1000;
    let h = secs / 3600;
    let m = secs % 3600 / 60;
    lemma_shown(crate::heorte_timer::at_most_99(h));
    lemma_shown(m);
    lemma_shown(secs % 60);
    lemma_shown(ms % 1000);
    assert(secs == 3600 * h + 60 * m + secs % 60);
    assert(ms == 1000 * secs + ms % 1000);
    assert(ms < 360_000_000 <==> h <= 99);
}

/// Law: below a hundred minutes a lap is shown as minutes, seconds and thousandths that make
/// it up.
pub proof fn law_lap_time_reads_back(ms: int)
    requires
        0 <= ms,
    ensures
        ({
            let s = lap_text(ms);
            let millis = 100 * (s[6] - 0x30) + pair(s[7], s[8]);
            &&& s.len() == 9
            &&& s[2] == 0x3A && s[5] == 0x2E
            &&& digits2(s[0], s[1]) && digits2(s[3], s[4]) && digits2(s[6], s[7]) && digits2(
                s[7],
                s[8],
            )
            &&& pair(s[3], s[4]) < 60
            &&& ms < 6_000_000 ==> 60_000 * pair(s[0], s[1]) + 1_000 * pair(s[3], s[4]) + millis
                == ms
            &&& ms >= 6_000_000 ==> pair(s[0], s[1]) == 99
        }),
{
    let secs = ms / 1000;
    let m = secs / 60;
    lemma_shown(crate::heorte_timer::at_most_99(m));
    lemma_shown(secs % 60);
    lemma_shown(ms % 1000);
    assert(secs == 60 * m + secs % 60);
    assert(ms == 1000 * secs + ms % 1000);
}

/// Law: a running stopwatch shows what it had and the ticks since it was started; a stopped one
/// shows what it had when it was stopped. Starting a running one and stopping a stopped one
/// change nothing.
pub proof fn law_stopwatches_count_the_ticks(w: StopwatchModel, start: u64, now: u64)
    requires
        start <= now,
        w.elapsed_ms + (now - start) <= u64::MAX,
    ensures
        !w.running ==> w.started(start).elapsed_at(now) == w.elapsed_ms + (now - start),
        !w.running ==> w.started(start).stopped(now).elapsed_ms == w.elapsed_ms + (now - start),
        !w.running ==> !w.started(start).stopped(now).running,
        !w.running ==> w.started(start).laps == w.laps && w.started(start).stopped(now).laps
            == w.laps,
        !w.running ==> w.stopped(now) == w && w.elapsed_at(now) == w.elapsed_ms && w.lapped(now)
            == w,
        w.running ==> w.started(start) == w,
{
}

/// Law: a lap is what the watch shows, behind the laps before it; beyond fifty the oldest goes.
/// Recording one does not stop the watch.
pub proof fn law_laps_are_what_the_watch_shows(w: StopwatchModel, now: u64)
    requires
        w.running,
        w.laps.len() <= 50,
        w.elapsed_at(now) <= u64::MAX,
    ensures
        w.lapped(now).laps.last() == w.elapsed_at(now),
        w.laps.len() < 50 ==> w.lapped(now).laps.drop_last() == w.laps,
        w.laps.len() == 50 ==> w.lapped(now).laps.drop_last() == w.laps.skip(1),
        w.lapped(now).running,
        w.lapped(now).elapsed_ms == w.elapsed_ms,
        w.lapped(now).started_tick == w.started_tick,
{
    if w.laps.len() < 50 {
        assert(w.lapped(now).laps.drop_last() =~= w.laps);
    } else {
        assert(w.lapped(now).laps.drop_last() =~= w.laps.skip(1));
    }
}

/// The sum of the first laps.
pub open spec fn laps_sum(laps: Seq<u64>, n: int) -> int
    decreases n,
{
    if n <= 0 {
        0
    } else {
        laps_sum(laps, n - 1) + lap_duration(laps, n - 1)
    }
}

/// Law: the laps make up the time that was shown at the last of them.
pub proof fn law_laps_add_up(laps: Seq<u64>, n: int)
    requires
        1 <= n <= laps.len(),
        forall|i: int, j: int| 0 <= i <= j < laps.len() ==> laps[i] <= laps[j],
    ensures
        laps_sum(laps, n) == laps[n - 1],
    decreases n,
{
    if n > 1 {
        law_laps_add_up(laps, n - 1);
    } else {
        assert(laps_sum(laps, 0) == 0);
    }
}

// ---------------------------------------------------------------------------
// Dates
// ---------------------------------------------------------------------------

/// Law: a date is written with four digits for the year and two each for month and day, with
/// dashes between them, and reads back.
pub proof fn law_dates_read_back(year: u16, month: u8, day: u8)
    requires
        year <= 9999,
        month <= 99,
        day <= 99,
    ensures
        ({
            let s = date_text(year, month, day);
            &&& s.len() == 10
            &&& s[4] == 0x2D && s[7] == 0x2D
            &&& digits2(s[0], s[1]) && digits2(s[2], s[3]) && digits2(s[5], s[6]) && digits2(
                s[8],
                s[9],
            )
            &&& 100 * pair(s[0], s[1]) + pair(s[2], s[3]) == year
            &&& pair(s[5], s[6]) == month
            &&& pair(s[8], s[9]) == day
        }),
{
}

/// Law: every fourth year is a leap year, but of the full centuries only every fourth. Four
/// hundred years have 146097 days. Thirty days have April, June, September and November,
/// twenty-eight has February and one more in leap years, and the rest thirty-one.
pub proof fn law_the_calendar_is_gregorian(y: int, m: int)
    requires
        0 <= y,
        1 <= m <= 12,
    ensures
        y % 4 != 0 ==> !is_leap(y),
        y % 4 == 0 && y % 100 != 0 ==> is_leap(y),
        y % 100 == 0 && y % 400 != 0 ==> !is_leap(y),
        y % 400 == 0 ==> is_leap(y),
        days_before_year(y + 400) - days_before_year(y) == 146_097,
        m == 4 || m == 6 || m == 9 || m == 11 ==> days_in_month(y, m) == 30,
        m == 2 ==> days_in_month(y, m) == (if is_leap(y) {
            29int
        } else {
            28
        }),
        m == 1 || m == 3 || m == 5 || m == 7 || m == 8 || m == 10 || m == 12 ==> days_in_month(y, m)
            == 31,
        day_number(y, m, days_in_month(y, m)) + 1 == day_number(
            if m == 12 {
                y + 1
            } else {
                y
            },
            if m == 12 {
                1
            } else {
                m + 1
            },
            1,
        ),
        day_number(y, m, 2) == day_number(y, m, 1) + 1,
{
    assert(y % 400 == 0 ==> y % 100 == 0);
    assert(y % 100 == 0 ==> y % 4 == 0);
    assert((y + 403) / 4 == (y + 3) / 4 + 100);
    assert((y + 499) / 100 == (y + 99) / 100 + 4);
    assert((y + 799) / 400 == (y + 399) / 400 + 1);
    if m == 12 {
        crate::civil::law_year_length(y);
        assert(days_before_month(y, 13) == days_before_month(y, 12) + days_in_month(y, 12));
        assert(days_before_month(y + 1, 1) == 0);
    } else {
        assert(days_before_month(y, m + 1) == days_before_month(y, m) + days_in_month(y, m));
    }
}

/// Law: a fresh planner has no events, no alarms, a timer of no time and a stopwatch at zero,
/// and numbers what comes from one on.
pub proof fn law_a_fresh_planner_is_empty()
    ensures
        ({
            let m = HeorteModel::fresh();
            &&& m.events.len() == 0 && m.alarms.len() == 0
            &&& m.next_event_id == 1 && m.next_alarm_id == 1
            &&& m.timer == Timer::of_duration(0)
            &&& m.stopwatch.elapsed_ms == 0 && !m.stopwatch.running && m.stopwatch.laps.len() == 0
                && m.stopwatch.started_tick == 0
        }),
{
}

/// Law: an event is there under its number, and under no number that no event has.
pub proof fn law_events_are_there_under_their_number(m: HeorteModel, i: int, id: u32)
    ensures
        0 <= i < m.events.len() ==> m.has_event(m.events[i].id),
        (forall|k: int| 0 <= k < m.events.len() ==> (#[trigger] m.events[k]).id != id)
            ==> !m.has_event(id),
{
}

/// Law: a moment on a day of the calendar is shown as the date of that day; the moment zero is
/// shown as no date.
pub proof fn law_moments_are_shown_as_their_date(
    epoch: u64,
    y: int,
    m: u8,
    d: u8,
    text: Seq<u8>,
)
    requires
        0 <= y <= 9999,
        valid_date(y, m as int, d as int),
        day_number(y, m as int, d as int) == epoch as int / 86_400,
    ensures
        epoch != 0 ==> (is_date_text(epoch, text) <==> text == date_text(y as u16, m, d)),
        is_date_text(0, text) <==> text == seq![
            0x30u8,
            0x30,
            0x30,
            0x30,
            0x2D,
            0x30,
            0x30,
            0x2D,
            0x30,
            0x30,
        ],
{
    let days = epoch as int / 86_400;
    assert(is_date_of(days, y, m as int, d as int));
    assert(capped_year(y) == y as u16);
    assert(shows_date(days, y as u16, m, d));
    if epoch != 0 && is_date_text(epoch, text) {
        let (year, month, day) = choose|year: u16, month: u8, day: u8| #[trigger]
            shows_date(days, year, month, day) && text == date_text(year, month, day);
        crate::civil::law_date_is_unique(days, y as u16, m, d, year, month, day);
    }
    assert(date_text(0, 0, 0) =~= seq![
        0x30u8,
        0x30,
        0x30,
        0x30,
        0x2D,
        0x30,
        0x30,
        0x2D,
        0x30,
        0x30,
    ]);
}

} // verus!

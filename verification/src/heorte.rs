//! Heorte: calendar, alarm, timer, and stopwatch engine.
//!
//! The times marked for human attention: calendar events, alarms, one countdown
//! timer and one stopwatch. Alarm logic is in [`crate::heorte_alarm`], timer and
//! stopwatch are in [`crate::heorte_timer`], the calendar is in [`crate::civil`].
use crate::civil::{civil_from_days, shows_date};
use crate::heorte_alarm::{hour_of, minute_of, Alarm, AlarmModel};
use crate::heorte_timer::{Stopwatch, StopwatchModel, Timer};
use crate::text::{byte_range, read_text_or, text_or};
use vstd::prelude::*;

verus! {

broadcast use vstd::string::group_string_axioms;

/// Maximum title length for calendar events (bytes).
pub const MAX_TITLE_LEN: usize = 64;

/// Seconds per minute.
pub const SECS_PER_MIN: u64 = 60;

/// Seconds per hour.
pub const SECS_PER_HOUR: u64 = 3600;

/// Seconds per day.
pub const SECS_PER_DAY: u64 = 86400;

/// Whether cutting bytes at a length leaves no character in two: the cut is at
/// the end, at the start, or in front of a byte that starts a character.
pub open spec fn cuts_cleanly(bytes: Seq<u8>, len: int) -> bool {
    len == 0 || len == bytes.len() || !(0x80 <= bytes[len] <= 0xBF)
}

/// The largest length up to `n` at which bytes can be cut cleanly.
pub open spec fn clean_cut(bytes: Seq<u8>, n: int) -> int
    decreases n,
{
    if n <= 0 || cuts_cleanly(bytes, n) {
        n
    } else {
        clean_cut(bytes, n - 1)
    }
}

/// The largest prefix length of bytes, capped at `max_len`, that does not split
/// a multi-byte character.
pub open spec fn clean_prefix_len(bytes: Seq<u8>, max_len: int) -> int {
    clean_cut(
        bytes,
        if bytes.len() <= max_len {
            bytes.len() as int
        } else {
            max_len
        },
    )
}

/// Law: a clean cut is clean, and no longer one within the limit is.
pub proof fn law_clean_cut_is_the_largest(bytes: Seq<u8>, n: int)
    requires
        0 <= n <= bytes.len(),
    ensures
        0 <= clean_cut(bytes, n) <= n,
        cuts_cleanly(bytes, clean_cut(bytes, n)),
        forall|m: int| clean_cut(bytes, n) < m <= n ==> !#[trigger] cuts_cleanly(bytes, m),
    decreases n,
{
    if n > 0 && !cuts_cleanly(bytes, n) {
        law_clean_cut_is_the_largest(bytes, n - 1);
    }
}

/// Return the largest prefix length of `bytes` (capped at `max_len`) that does
/// not split a multi-byte character.
pub fn utf8_truncate_len(bytes: &[u8], max_len: usize) -> (len: usize)
    ensures
        len == clean_prefix_len(bytes@, max_len as int),
        len <= bytes@.len(),
        len <= max_len,
{
    let mut len: usize = if bytes.len() <= max_len {
        bytes.len()
    } else {
        max_len
    };
    if len == bytes.len() {
        return len;
    }
    while len > 0 && 0x80 <= bytes[len] && bytes[len] <= 0xBF
        invariant
            len < bytes@.len(),
            len <= max_len < bytes@.len(),
            clean_cut(bytes@, max_len as int) == clean_cut(bytes@, len as int),
        decreases len,
    {
        len -= 1;
    }
    len
}

// ---------------------------------------------------------------------------
// Calendar event
// ---------------------------------------------------------------------------

/// A calendar event with fixed-size title buffer.
///
/// Events are sorted by `start_epoch` for agenda display. The `id` is locally
/// unique and auto-incremented by [`HeorteManager`].
#[derive(Debug, Clone)]
pub struct CalendarEvent {
    /// Locally unique event identifier, auto-incremented.
    pub id: u32,
    /// Event title stored as raw bytes (UTF-8).
    pub title: [u8; MAX_TITLE_LEN],
    /// Number of valid bytes in `title`.
    pub title_len: u8,
    /// Start time as Unix epoch seconds.
    pub start_epoch: u64,
    /// Duration in minutes (0 for instantaneous events).
    pub duration_min: u16,
    /// Whether this is an all-day event (time portion ignored for display).
    pub all_day: bool,
}

/// What a calendar event says.
#[verifier::ext_equal]
pub ghost struct EventModel {
    pub id: u32,
    pub title: Seq<u8>,
    pub start_epoch: u64,
    pub duration_min: u16,
    pub all_day: bool,
}

impl View for CalendarEvent {
    type V = EventModel;

    open spec fn view(&self) -> EventModel {
        EventModel {
            id: self.id,
            title: self.title@.take(self.title_len as int),
            start_epoch: self.start_epoch,
            duration_min: self.duration_min,
            all_day: self.all_day,
        }
    }
}

impl EventModel {
    /// An event as it is entered: the title is cut.
    pub open spec fn entered(
        id: u32,
        title: Seq<u8>,
        start_epoch: u64,
        duration_min: u16,
        all_day: bool,
    ) -> EventModel {
        EventModel {
            id,
            title: title.take(clean_prefix_len(title, MAX_TITLE_LEN as int)),
            start_epoch,
            duration_min,
            all_day,
        }
    }

    /// When the event is over.
    pub open spec fn end(self) -> int {
        self.start_epoch + self.duration_min * 60
    }

    /// Whether the event is not over, or starts later.
    pub open spec fn is_upcoming(self, from_epoch: u64) -> bool {
        self.end() > from_epoch || self.start_epoch >= from_epoch
    }
}

impl CalendarEvent {
    /// Whether the title length lies within the buffer.
    pub open spec fn wf(self) -> bool {
        self.title_len <= MAX_TITLE_LEN
    }

    /// Create a new calendar event.
    ///
    /// `title_bytes` is truncated to [`MAX_TITLE_LEN`] if longer, backing off to
    /// the last full character so truncation never splits one.
    pub fn new(
        id: u32,
        title_bytes: &[u8],
        start_epoch: u64,
        duration_min: u16,
        all_day: bool,
    ) -> (r: Self)
        ensures
            r.wf(),
            r@ == EventModel::entered(id, title_bytes@, start_epoch, duration_min, all_day),
            forall|i: int| r.title_len <= i < MAX_TITLE_LEN ==> r.title@[i] == 0,
    {
        let mut title: [u8; MAX_TITLE_LEN] = [0u8; MAX_TITLE_LEN];
        let len: usize = utf8_truncate_len(title_bytes, MAX_TITLE_LEN);
        let mut i: usize = 0;
        while i < len
            invariant
                i <= len <= MAX_TITLE_LEN,
                len <= title_bytes@.len(),
                title@.take(i as int) == title_bytes@.take(i as int),
                forall|j: int| i <= j < MAX_TITLE_LEN ==> title@[j] == 0,
            decreases len - i,
        {
            title[i] = title_bytes[i];
            i += 1;
            assert(title@.take(i as int) =~= title_bytes@.take(i - 1).push(title_bytes@[i - 1]));
            assert(title_bytes@.take(i as int) =~= title_bytes@.take(i - 1).push(
                title_bytes@[i - 1],
            ));
        }
        CalendarEvent { id, title, title_len: len as u8, start_epoch, duration_min, all_day }
    }

    /// Return the title as a `&str`, or an empty string if not valid UTF-8.
    pub fn title_str(&self) -> (r: &str)
        requires
            self.wf(),
        ensures
            r@ == text_or(self@.title, ""@),
    {
        read_text_or(byte_range(self.title.as_slice(), 0, self.title_len as usize), "")
    }

    /// The title as text of its own.
    pub fn to_string(&self) -> (r: String)
        requires
            self.wf(),
        ensures
            r@ == text_or(self@.title, ""@),
    {
        self.title_str().to_owned()
    }

    /// End epoch (start + duration). Returns `start_epoch` if duration is 0.
    pub fn end_epoch(&self) -> (r: u64)
        requires
            self@.end() <= u64::MAX,
        ensures
            r == self@.end(),
    {
        self.start_epoch + self.duration_min as u64 * SECS_PER_MIN
    }

    /// Whether this event is active (happening now) at the given epoch.
    pub fn is_active(&self, current_epoch: u64) -> (r: bool)
        requires
            self@.end() <= u64::MAX,
        ensures
            r == (self.start_epoch <= current_epoch < self@.end()),
    {
        current_epoch >= self.start_epoch && current_epoch < self.end_epoch()
    }

    /// Extract the day (as days since Unix epoch) for grouping, in 32 bits.
    pub fn day_index(&self) -> (r: u32)
        ensures
            r == (self.start_epoch as int / 86_400) % 0x1_0000_0000,
    {
        let days: u64 = self.start_epoch / SECS_PER_DAY;
        (days % 0x1_0000_0000) as u32
    }
}

// ---------------------------------------------------------------------------
// Heorte manager
// ---------------------------------------------------------------------------

/// Central manager for calendar events, alarms, timer, and stopwatch.
///
/// Event and alarm IDs are auto-incremented and never reused within a session.
pub struct HeorteManager {
    /// Calendar events, sorted by `start_epoch`.
    events: Vec<CalendarEvent>,
    /// Alarm definitions.
    alarms: Vec<Alarm>,
    /// Countdown timer.
    timer: Timer,
    /// Stopwatch.
    stopwatch: Stopwatch,
    /// Next event ID to assign.
    next_event_id: u32,
    /// Next alarm ID to assign.
    next_alarm_id: u32,
}

/// What the manager holds.
#[verifier::ext_equal]
pub ghost struct HeorteModel {
    pub events: Seq<EventModel>,
    pub alarms: Seq<AlarmModel>,
    pub timer: Timer,
    pub stopwatch: StopwatchModel,
    pub next_event_id: u32,
    pub next_alarm_id: u32,
}

/// What a list of events says.
pub open spec fn event_models(events: Seq<CalendarEvent>) -> Seq<EventModel> {
    events.map_values(|e: CalendarEvent| e@)
}

/// What a list of alarms says.
pub open spec fn alarm_models(alarms: Seq<Alarm>) -> Seq<AlarmModel> {
    alarms.map_values(|a: Alarm| a@)
}

/// Where an event that starts at `start` goes in a sorted list: behind all that
/// start no later.
pub open spec fn place(events: Seq<EventModel>, start: u64) -> int
    decreases events.len(),
{
    if events.len() == 0 || events.last().start_epoch <= start {
        events.len() as int
    } else {
        place(events.drop_last(), start)
    }
}

/// Whether events are sorted by start time.
pub open spec fn sorted(events: Seq<EventModel>) -> bool {
    forall|i: int, j: int|
        0 <= i <= j < events.len() ==> events[i].start_epoch <= events[j].start_epoch
}

impl HeorteModel {
    /// Events are sorted, and each event and alarm has a number of its own, which
    /// was given out before.
    pub open spec fn ok(self) -> bool {
        &&& sorted(self.events)
        &&& forall|i: int|
            0 <= i < self.events.len() ==> #[trigger] self.events[i].id < self.next_event_id
        &&& forall|i: int, j: int|
            0 <= i < j < self.events.len() ==> self.events[i].id != self.events[j].id
        &&& forall|i: int|
            0 <= i < self.alarms.len() ==> #[trigger] self.alarms[i].id < self.next_alarm_id
        &&& forall|i: int, j: int|
            0 <= i < j < self.alarms.len() ==> self.alarms[i].id != self.alarms[j].id
    }

    /// A manager without events and alarms.
    pub open spec fn fresh() -> HeorteModel {
        HeorteModel {
            events: Seq::empty(),
            alarms: Seq::empty(),
            timer: Timer::of_duration(0),
            stopwatch: StopwatchModel::zero(),
            next_event_id: 1,
            next_alarm_id: 1,
        }
    }

    /// The manager after an event was added.
    pub open spec fn with_event(
        self,
        title: Seq<u8>,
        start_epoch: u64,
        duration_min: u16,
        all_day: bool,
    ) -> HeorteModel {
        HeorteModel {
            events: self.events.insert(
                place(self.events, start_epoch),
                EventModel::entered(
                    self.next_event_id,
                    title,
                    start_epoch,
                    duration_min,
                    all_day,
                ),
            ),
            next_event_id: (self.next_event_id + 1) as u32,
            ..self
        }
    }

    /// The manager after the event with a number was removed.
    pub open spec fn without_event(self, id: u32) -> HeorteModel {
        HeorteModel { events: self.events.filter(|e: EventModel| e.id != id), ..self }
    }

    /// Whether an event with a number exists.
    pub open spec fn has_event(self, id: u32) -> bool {
        exists|i: int| 0 <= i < self.events.len() && #[trigger] self.events[i].id == id
    }

    /// The events that are not over at an epoch.
    pub open spec fn upcoming(self, from_epoch: u64) -> Seq<EventModel> {
        self.events.filter(|e: EventModel| e.is_upcoming(from_epoch))
    }

    /// The manager after an alarm was added.
    pub open spec fn with_alarm(
        self,
        hour: u8,
        minute: u8,
        label: Seq<u8>,
        enabled: bool,
        repeat_days: u8,
    ) -> HeorteModel {
        HeorteModel {
            alarms: self.alarms.push(
                AlarmModel::set(self.next_alarm_id, hour, minute, label, enabled, repeat_days),
            ),
            next_alarm_id: (self.next_alarm_id + 1) as u32,
            ..self
        }
    }

    /// The manager after the alarm with a number was removed.
    pub open spec fn without_alarm(self, id: u32) -> HeorteModel {
        HeorteModel { alarms: self.alarms.filter(|a: AlarmModel| a.id != id), ..self }
    }

    /// Whether an alarm with a number exists.
    pub open spec fn has_alarm(self, id: u32) -> bool {
        exists|i: int| 0 <= i < self.alarms.len() && #[trigger] self.alarms[i].id == id
    }

    /// The manager after the alarm at a position was switched on or off.
    pub open spec fn with_alarm_switched(self, i: int, enabled: bool) -> HeorteModel {
        HeorteModel {
            alarms: self.alarms.update(i, AlarmModel { enabled, ..self.alarms[i] }),
            ..self
        }
    }

    /// The numbers of the alarms that ring at an epoch.
    pub open spec fn ringing(self, epoch: u64) -> Seq<u32> {
        self.alarms.filter(|a: AlarmModel| a.fires_at(epoch)).map_values(|a: AlarmModel| a.id)
    }

    /// The manager after the alarms were checked at an epoch.
    pub open spec fn checked_at(self, epoch: u64) -> HeorteModel {
        HeorteModel { alarms: self.alarms.map_values(|a: AlarmModel| a.checked_at(epoch)), ..self }
    }
}

/// Filtering the models of a list is filtering the list.
proof fn lemma_filter_models<A, B>(
    s: Seq<A>,
    f: spec_fn(A) -> B,
    p: spec_fn(A) -> bool,
    q: spec_fn(B) -> bool,
)
    requires
        forall|x: A| #[trigger] p(x) == q(f(x)),
    ensures
        s.filter(p).map_values(f) == s.map_values(f).filter(q),
    decreases s.len(),
{
    reveal(Seq::filter);
    if s.len() > 0 {
        lemma_filter_models(s.drop_last(), f, p, q);
        assert(s.map_values(f).drop_last() =~= s.drop_last().map_values(f));
        assert(s.map_values(f).last() == f(s.last()));
        assert(p(s.last()) == q(f(s.last())));
        assert(s.filter(p).map_values(f) =~= s.map_values(f).filter(q));
    } else {
        assert(s.filter(p).map_values(f) =~= s.map_values(f).filter(q));
    }
}

/// Filtering one more item.
proof fn lemma_filter_step<A>(s: Seq<A>, k: int, p: spec_fn(A) -> bool)
    requires
        0 <= k < s.len(),
    ensures
        s.take(k + 1).filter(p) == (if p(s[k]) {
            s.take(k).filter(p).push(s[k])
        } else {
            s.take(k).filter(p)
        }),
        s.take(k).filter(p).len() <= k,
{
    reveal(Seq::filter);
    assert(s.take(k + 1).drop_last() =~= s.take(k));
    lemma_filter_shortens(s.take(k), p);
}

proof fn lemma_filter_shortens<A>(s: Seq<A>, p: spec_fn(A) -> bool)
    ensures
        s.filter(p).len() <= s.len(),
    decreases s.len(),
{
    reveal(Seq::filter);
    if s.len() > 0 {
        lemma_filter_shortens(s.drop_last(), p);
    }
}

/// Every item that passes a filter was in the list, in the same order.
proof fn lemma_filter_keeps<A>(s: Seq<A>, p: spec_fn(A) -> bool) -> (at: spec_fn(int) -> int)
    ensures
        forall|i: int|
            #![trigger at(i)]
            #![trigger s.filter(p)[i]]
            0 <= i < s.filter(p).len() ==> 0 <= at(i) < s.len() && s.filter(p)[i] == s[at(i)] && p(
                s[at(i)],
            ),
        forall|i: int, j: int| 0 <= i < j < s.filter(p).len() ==> #[trigger] at(i) < #[trigger] at(j),
    decreases s.len(),
{
    reveal(Seq::filter);
    if s.len() == 0 {
        |i: int| i
    } else {
        let shorter = s.drop_last();
        let before = lemma_filter_keeps(shorter, p);
        let n = shorter.filter(p).len();
        let at = |i: int|
            if i < n {
                before(i)
            } else {
                s.len() - 1
            };
        assert forall|i: int|
            #![trigger at(i)]
            0 <= i < s.filter(p).len() implies 0 <= at(i) < s.len() && s.filter(p)[i] == s[at(i)]
            && p(s[at(i)]) by {
            if i < n {
                assert(shorter.filter(p)[i] == shorter[before(i)]);
                assert(shorter[before(i)] == s[before(i)]);
            }
        }
        assert forall|i: int, j: int| 0 <= i < j < s.filter(p).len() implies #[trigger] at(i)
            < #[trigger] at(j) by {
            if j < n {
                assert(before(i) < before(j));
            } else {
                assert(shorter.filter(p)[i] == shorter[before(i)]);
            }
        }
        at
    }
}

/// The place of an event in a sorted list: what starts no later is before it,
/// what starts later behind it.
proof fn lemma_place(events: Seq<EventModel>, start: u64)
    requires
        sorted(events),
    ensures
        0 <= place(events, start) <= events.len(),
        forall|i: int|
            0 <= i < place(events, start) ==> #[trigger] events[i].start_epoch <= start,
        forall|i: int|
            place(events, start) <= i < events.len() ==> #[trigger] events[i].start_epoch > start,
    decreases events.len(),
{
    if events.len() > 0 && events.last().start_epoch > start {
        assert(sorted(events.drop_last()));
        lemma_place(events.drop_last(), start);
        assert forall|i: int| place(events, start) <= i < events.len() implies #[trigger] events[
            i].start_epoch > start by {
            if i < events.len() - 1 {
                assert(events.drop_last()[i] == events[i]);
            }
        }
        assert forall|i: int| 0 <= i < place(events, start) implies #[trigger] events[i].start_epoch
            <= start by {
            assert(events.drop_last()[i] == events[i]);
        }
    } else if events.len() > 0 {
        assert forall|i: int| 0 <= i < place(events, start) implies #[trigger] events[i].start_epoch
            <= start by {
            assert(events[i].start_epoch <= events[events.len() - 1].start_epoch);
        }
    }
}

/// Law: events stay sorted by start time when one is added, each keeps a number of
/// its own, and what was entered before keeps its place among events that start at
/// the same time.
pub proof fn law_added_events_stay_sorted(
    m: HeorteModel,
    title: Seq<u8>,
    start_epoch: u64,
    duration_min: u16,
    all_day: bool,
)
    requires
        m.ok(),
        m.next_event_id < u32::MAX,
    ensures
        m.with_event(title, start_epoch, duration_min, all_day).ok(),
        m.with_event(title, start_epoch, duration_min, all_day).events.len() == m.events.len() + 1,
        forall|i: int|
            0 <= i < m.events.len() && m.events[i].start_epoch <= start_epoch
                ==> #[trigger] m.with_event(
                title,
                start_epoch,
                duration_min,
                all_day,
            ).events[i] == m.events[i],
        !m.has_event(m.next_event_id),
{
    lemma_place(m.events, start_epoch);
    let after = m.with_event(title, start_epoch, duration_min, all_day);
    let p = place(m.events, start_epoch);
    let e = EventModel::entered(m.next_event_id, title, start_epoch, duration_min, all_day);
    assert forall|i: int| 0 <= i < after.events.len() implies #[trigger] after.events[i] == (if i
        < p {
        m.events[i]
    } else if i == p {
        e
    } else {
        m.events[i - 1]
    }) by {}
}

/// Law: an added event is found under its number until it is removed, and nothing
/// else is removed with it.
pub proof fn law_removed_event_is_gone(m: HeorteModel, id: u32)
    requires
        m.ok(),
    ensures
        m.without_event(id).ok(),
        !m.without_event(id).has_event(id),
        forall|other: u32|
            other != id ==> (#[trigger] m.without_event(id).has_event(other) == m.has_event(other)),
{
    let p = |e: EventModel| e.id != id;
    let at = lemma_filter_keeps(m.events, p);
    let after = m.without_event(id);
    assert forall|i: int, j: int| 0 <= i <= j < after.events.len() implies after.events[i].start_epoch
        <= after.events[j].start_epoch by {
        assert(at(i) <= at(j));
    }
    assert forall|i: int, j: int| 0 <= i < j < after.events.len() implies after.events[i].id
        != after.events[j].id by {
        assert(at(i) < at(j));
    }
    assert forall|other: u32| other != id implies (#[trigger] after.has_event(other)
        == m.has_event(other)) by {
        if m.has_event(other) {
            let i = choose|i: int| 0 <= i < m.events.len() && #[trigger] m.events[i].id == other;
            broadcast use vstd::seq_lib::group_filter_ensures;

            assert(p(m.events[i]));
            assert(after.events.contains(m.events[i]));
        }
        if after.has_event(other) {
            let i = choose|i: int|
                0 <= i < after.events.len() && #[trigger] after.events[i].id == other;
            assert(m.events[at(i)].id == other);
        }
    }
}

/// Law: alarms keep numbers of their own when one is added or removed, and a
/// removed alarm is gone.
pub proof fn law_alarms_keep_their_numbers(
    m: HeorteModel,
    hour: u8,
    minute: u8,
    label: Seq<u8>,
    enabled: bool,
    repeat_days: u8,
    id: u32,
)
    requires
        m.ok(),
        m.next_alarm_id < u32::MAX,
    ensures
        m.with_alarm(hour, minute, label, enabled, repeat_days).ok(),
        !m.has_alarm(m.next_alarm_id),
        m.without_alarm(id).ok(),
        !m.without_alarm(id).has_alarm(id),
{
    lemma_without_alarm(m, id);
}

proof fn lemma_without_alarm(m: HeorteModel, id: u32)
    requires
        m.ok(),
    ensures
        m.without_alarm(id).ok(),
        !m.without_alarm(id).has_alarm(id),
{
    let p = |a: AlarmModel| a.id != id;
    let at = lemma_filter_keeps(m.alarms, p);
    let after = m.without_alarm(id);
    assert forall|i: int, j: int| 0 <= i < j < after.alarms.len() implies after.alarms[i].id
        != after.alarms[j].id by {
        assert(at(i) < at(j));
    }
}

/// Law: an alarm that rings once rings in one check only: where it rang, the next
/// check, at whatever time, does not name it.
pub proof fn law_one_shot_is_named_once(m: HeorteModel, first: u64, later: u64, i: int)
    requires
        m.ok(),
        0 <= i < m.alarms.len(),
        m.alarms[i].repeat_days == 0,
        m.alarms[i].fires_at(first),
    ensures
        m.checked_at(first).ok(),
        m.ringing(first).contains(m.alarms[i].id),
        !m.checked_at(first).ringing(later).contains(m.alarms[i].id),
{
    let after = m.checked_at(first);
    let now = |a: AlarmModel| a.fires_at(first);
    broadcast use vstd::seq_lib::group_filter_ensures;

    assert(now(m.alarms[i]));
    let rung = m.alarms.filter(now);
    assert(rung.contains(m.alarms[i]));
    let k = choose|k: int| 0 <= k < rung.len() && rung[k] == m.alarms[i];
    assert(m.ringing(first)[k] == m.alarms[i].id);
    let then_q = |a: AlarmModel| a.fires_at(later);
    let at = lemma_filter_keeps(after.alarms, then_q);
    if after.ringing(later).contains(m.alarms[i].id) {
        let r = after.alarms.filter(then_q);
        let k2 = choose|k: int|
            0 <= k < after.ringing(later).len() && after.ringing(later)[k] == m.alarms[i].id;
        assert(r[k2] == after.alarms[at(k2)]);
        assert(after.alarms[at(k2)].id == m.alarms[at(k2)].id);
        assert(at(k2) == i);
        assert(false);
    }
}

impl View for HeorteManager {
    type V = HeorteModel;

    closed spec fn view(&self) -> HeorteModel {
        HeorteModel {
            events: event_models(self.events@),
            alarms: alarm_models(self.alarms@),
            timer: self.timer,
            stopwatch: self.stopwatch@,
            next_event_id: self.next_event_id,
            next_alarm_id: self.next_alarm_id,
        }
    }
}

impl HeorteManager {
    /// Whether all titles and labels lie within their buffers.
    closed spec fn buffers_ok(&self) -> bool {
        &&& forall|i: int| 0 <= i < self.events@.len() ==> #[trigger] self.events@[i].wf()
        &&& forall|i: int| 0 <= i < self.alarms@.len() ==> #[trigger] self.alarms@[i].wf()
    }

    /// The invariant of the manager.
    pub closed spec fn wf(&self) -> bool {
        self.buffers_ok() && self@.ok()
    }

    /// The invariant covers the order of the events and the numbers of events and
    /// alarms.
    pub proof fn lemma_wf(&self)
        requires
            self.wf(),
        ensures
            self@.ok(),
    {
    }

    /// Create a new empty heorte manager.
    pub fn new() -> (r: Self)
        ensures
            r.wf(),
            r@ == HeorteModel::fresh(),
    {
        let r = HeorteManager {
            events: Vec::new(),
            alarms: Vec::new(),
            timer: Timer::new(),
            stopwatch: Stopwatch::new(),
            next_event_id: 1,
            next_alarm_id: 1,
        };
        assert(r@ =~= HeorteModel::fresh());
        r
    }

    /// Add a calendar event. Returns the assigned event ID.
    pub fn add_event(
        &mut self,
        title: &[u8],
        start_epoch: u64,
        duration_min: u16,
        all_day: bool,
    ) -> (id: u32)
        requires
            old(self).wf(),
            old(self)@.next_event_id < u32::MAX,
        ensures
            final(self).wf(),
            id == old(self)@.next_event_id,
            final(self)@ == old(self)@.with_event(title@, start_epoch, duration_min, all_day),
    {
        let id: u32 = self.next_event_id;
        self.next_event_id = self.next_event_id + 1;
        let event = CalendarEvent::new(id, title, start_epoch, duration_min, all_day);
        proof {
            law_added_events_stay_sorted(old(self)@, title@, start_epoch, duration_min, all_day);
        }
        self.events.push(event);
        assert(event_models(self.events@) =~= old(self)@.events.push(event@));
        assert(event_models(self.events@).drop_last() =~= old(self)@.events);
        self.sort_events();
        id
    }

    /// Bring the event that was added last to its place: events are sorted by
    /// `start_epoch`, and stay in insertion order where they start together.
    fn sort_events(&mut self)
        requires
            old(self).events@.len() > 0,
            old(self).buffers_ok(),
            sorted(event_models(old(self).events@).drop_last()),
        ensures
            final(self).buffers_ok(),
            final(self)@ == (HeorteModel {
                events: event_models(old(self).events@).drop_last().insert(
                    place(
                        event_models(old(self).events@).drop_last(),
                        old(self).events@.last().start_epoch,
                    ),
                    old(self).events@.last()@,
                ),
                ..old(self)@
            }),
    {
        let ghost given = self.events@;
        let ghost models = event_models(given).drop_last();
        let mut at: usize = self.events.len() - 1;
        let start: u64 = self.events[at].start_epoch;
        proof {
            assert(models.take(at as int) =~= models);
        }
        while at > 0 && self.events[at - 1].start_epoch > start
            invariant
                at < self.events@.len(),
                self.events@ == given,
                models == event_models(given).drop_last(),
                place(models, start) == place(models.take(at as int), start),
            decreases at,
        {
            at -= 1;
            assert(models.take(at + 1).drop_last() =~= models.take(at as int));
            assert(models.take(at + 1).last() == given[at as int]@);
        }
        proof {
            if at > 0 {
                assert(models.take(at as int).last() == given[at - 1]@);
            }
            assert(place(models, start) == at);
        }
        let last = self.events.pop();
        if let Some(event) = last {
            self.events.insert(at, event);
            assert(event == given.last());
            assert(self.events@ =~= given.drop_last().insert(at as int, given.last()));
            assert(event_models(self.events@) =~= models.insert(at as int, given.last()@));
            assert forall|i: int| 0 <= i < self.events@.len() implies #[trigger] self.events@[
                i].wf() by {
                if i < at {
                    assert(given[i].wf());
                } else if i > at {
                    assert(given[i - 1].wf());
                } else {
                    assert(given[given.len() - 1].wf());
                }
            }
        }
    }

    /// Remove an event by ID. Returns `true` if found and removed.
    pub fn remove_event(&mut self, id: u32) -> (found: bool)
        requires
            old(self).wf(),
        ensures
            final(self).wf(),
            found == old(self)@.has_event(id),
            final(self)@ == old(self)@.without_event(id),
    {
        let ghost given = self.events@;
        let ghost p = |e: CalendarEvent| e.id != id;
        let mut found = false;
        let mut i: usize = 0;
        let ghost mut k: int = 0;
        assert(given.take(0).filter(p) =~= Seq::empty()) by {
            reveal(Seq::filter);
        }
        assert(given.skip(0) =~= given);
        while i < self.events.len()
            invariant
                0 <= k <= given.len(),
                i == given.take(k).filter(p).len(),
                self.events@ == given.take(k).filter(p) + given.skip(k),
                p == (|e: CalendarEvent| e.id != id),
                found == (exists|j: int| 0 <= j < k && (#[trigger] given[j]).id == id),
                self.alarms == old(self).alarms,
                self.timer == old(self).timer,
                self.stopwatch == old(self).stopwatch,
                self.next_event_id == old(self).next_event_id,
                self.next_alarm_id == old(self).next_alarm_id,
            decreases given.len() - k,
        {
            assert(self.events@[i as int] == given[k]);
            proof {
                lemma_filter_step(given, k, p);
            }
            if self.events[i].id == id {
                self.events.remove(i);
                assert(self.events@ =~= given.take(k).filter(p) + given.skip(k + 1));
                found = true;
            } else {
                i += 1;
                assert(self.events@ =~= given.take(k).filter(p).push(given[k]) + given.skip(k + 1));
            }
            proof {
                k = k + 1;
            }
        }
        proof {
            assert(k == given.len());
            assert(given.take(k) =~= given);
            assert(self.events@ =~= given.filter(p));
            let q = |e: EventModel| e.id != id;
            lemma_filter_models(given, |e: CalendarEvent| e@, p, q);
            law_removed_event_is_gone(old(self)@, id);
            let at = lemma_filter_keeps(given, p);
            assert forall|j: int| 0 <= j < self.events@.len() implies #[trigger] self.events@[
                j].wf() by {
                assert(self.events@[j] == given[at(j)]);
            }
            if found {
                let j = choose|j: int| 0 <= j < k && (#[trigger] given[j]).id == id;
                assert(old(self)@.events[j].id == id);
            }
            if old(self)@.has_event(id) {
                let j = choose|j: int|
                    0 <= j < old(self)@.events.len() && #[trigger] old(self)@.events[j].id == id;
                assert(given[j].id == id);
            }
        }
        found
    }

    /// List all events, sorted by start time.
    pub fn events(&self) -> (r: &[CalendarEvent])
        requires
            self.wf(),
        ensures
            event_models(r@) == self@.events,
            forall|i: int| 0 <= i < r@.len() ==> #[trigger] r@[i].wf(),
    {
        self.events.as_slice()
    }

    /// List events occurring on or after the given epoch, sorted by start time.
    pub fn upcoming_events(&self, from_epoch: u64) -> (r: Vec<&CalendarEvent>)
        requires
            self.wf(),
            forall|i: int| 0 <= i < self@.events.len() ==> #[trigger] self@.events[i].end() <= u64::MAX,
        ensures
            r@.map_values(|e: &CalendarEvent| e@) == self@.upcoming(from_epoch),
            forall|i: int| 0 <= i < r@.len() ==> #[trigger] r@[i].wf(),
    {
        let ghost models = self@.events;
        let ghost p = |e: EventModel| e.is_upcoming(from_epoch);
        let ghost view = |e: &CalendarEvent| e@;
        let mut r: Vec<&CalendarEvent> = Vec::new();
        let mut i: usize = 0;
        assert(models.take(0).filter(p) =~= Seq::empty()) by {
            reveal(Seq::filter);
        }
        while i < self.events.len()
            invariant
                i <= self.events@.len(),
                models == self@.events,
                self.wf(),
                forall|k: int| 0 <= k < models.len() ==> #[trigger] models[k].end() <= u64::MAX,
                p == (|e: EventModel| e.is_upcoming(from_epoch)),
                view == (|e: &CalendarEvent| e@),
                r@.map_values(view) == models.take(i as int).filter(p),
                forall|k: int| 0 <= k < r@.len() ==> #[trigger] r@[k].wf(),
            decreases self.events@.len() - i,
        {
            let e = &self.events[i];
            assert(models[i as int] == e@);
            assert(self.events@[i as int].wf());
            proof {
                lemma_filter_step(models, i as int, p);
            }
            if e.end_epoch() > from_epoch || e.start_epoch >= from_epoch {
                let ghost before = r@;
                r.push(e);
                assert(r@.map_values(view) =~= before.map_values(view).push(e@));
            }
            i += 1;
        }
        assert(models.take(i as int) =~= models);
        r
    }

    /// Find an event by ID.
    pub fn find_event(&self, id: u32) -> (r: Option<&CalendarEvent>)
        requires
            self.wf(),
        ensures
            match r {
                Some(e) => e.wf() && e@.id == id && self@.events.contains(e@),
                None => !self@.has_event(id),
            },
    {
        let mut i: usize = 0;
        while i < self.events.len()
            invariant
                i <= self.events@.len(),
                self.wf(),
                forall|j: int| 0 <= j < i ==> #[trigger] self.events@[j].id != id,
            decreases self.events@.len() - i,
        {
            if self.events[i].id == id {
                assert(self@.events[i as int] == self.events@[i as int]@);
                assert(self.events@[i as int].wf());
                return Some(&self.events[i]);
            }
            i += 1;
        }
        assert forall|j: int| 0 <= j < self@.events.len() implies #[trigger] self@.events[j].id
            != id by {
            assert(self.events@[j].id != id);
        }
        None
    }

    /// Add an alarm. Returns the assigned alarm ID.
    pub fn add_alarm(
        &mut self,
        hour: u8,
        minute: u8,
        label: &[u8],
        enabled: bool,
        repeat_days: u8,
    ) -> (id: u32)
        requires
            old(self).wf(),
            old(self)@.next_alarm_id < u32::MAX,
        ensures
            final(self).wf(),
            id == old(self)@.next_alarm_id,
            final(self)@ == old(self)@.with_alarm(hour, minute, label@, enabled, repeat_days),
    {
        proof {
            law_alarms_keep_their_numbers(
                self@,
                hour,
                minute,
                label@,
                enabled,
                repeat_days,
                0,
            );
        }
        let id: u32 = self.next_alarm_id;
        self.next_alarm_id = self.next_alarm_id + 1;
        let alarm = Alarm::new(id, hour, minute, label, enabled, repeat_days);
        self.alarms.push(alarm);
        assert(alarm_models(self.alarms@) =~= old(self)@.alarms.push(alarm@));
        id
    }

    /// Remove an alarm by ID. Returns `true` if found and removed.
    pub fn remove_alarm(&mut self, id: u32) -> (found: bool)
        requires
            old(self).wf(),
        ensures
            final(self).wf(),
            found == old(self)@.has_alarm(id),
            final(self)@ == old(self)@.without_alarm(id),
    {
        let ghost given = self.alarms@;
        let ghost p = |a: Alarm| a.id != id;
        let mut found = false;
        let mut i: usize = 0;
        let ghost mut k: int = 0;
        assert(given.take(0).filter(p) =~= Seq::empty()) by {
            reveal(Seq::filter);
        }
        assert(given.skip(0) =~= given);
        while i < self.alarms.len()
            invariant
                0 <= k <= given.len(),
                i == given.take(k).filter(p).len(),
                self.alarms@ == given.take(k).filter(p) + given.skip(k),
                p == (|a: Alarm| a.id != id),
                found == (exists|j: int| 0 <= j < k && (#[trigger] given[j]).id == id),
                self.events == old(self).events,
                self.timer == old(self).timer,
                self.stopwatch == old(self).stopwatch,
                self.next_event_id == old(self).next_event_id,
                self.next_alarm_id == old(self).next_alarm_id,
            decreases given.len() - k,
        {
            assert(self.alarms@[i as int] == given[k]);
            proof {
                lemma_filter_step(given, k, p);
            }
            if self.alarms[i].id == id {
                self.alarms.remove(i);
                assert(self.alarms@ =~= given.take(k).filter(p) + given.skip(k + 1));
                found = true;
            } else {
                i += 1;
                assert(self.alarms@ =~= given.take(k).filter(p).push(given[k]) + given.skip(k + 1));
            }
            proof {
                k = k + 1;
            }
        }
        proof {
            assert(k == given.len());
            assert(given.take(k) =~= given);
            assert(self.alarms@ =~= given.filter(p));
            let q = |a: AlarmModel| a.id != id;
            lemma_filter_models(given, |a: Alarm| a@, p, q);
            lemma_without_alarm(old(self)@, id);
            let at = lemma_filter_keeps(given, p);
            assert forall|j: int| 0 <= j < self.alarms@.len() implies #[trigger] self.alarms@[
                j].wf() by {
                assert(self.alarms@[j] == given[at(j)]);
            }
            if found {
                let j = choose|j: int| 0 <= j < k && (#[trigger] given[j]).id == id;
                assert(old(self)@.alarms[j].id == id);
            }
            if old(self)@.has_alarm(id) {
                let j = choose|j: int|
                    0 <= j < old(self)@.alarms.len() && #[trigger] old(self)@.alarms[j].id == id;
                assert(given[j].id == id);
            }
        }
        found
    }

    /// Toggle an alarm's enabled state by ID. Returns the new state, or `None` if
    /// the alarm was not found.
    pub fn toggle_alarm(&mut self, id: u32) -> (r: Option<bool>)
        requires
            old(self).wf(),
        ensures
            final(self).wf(),
            match r {
                Some(enabled) => exists|i: int|
                    0 <= i < old(self)@.alarms.len() && #[trigger] old(self)@.alarms[i].id == id
                        && enabled == !old(self)@.alarms[i].enabled && final(self)@ == old(
                        self,
                    )@.with_alarm_switched(i, enabled),
                None => !old(self)@.has_alarm(id) && final(self)@ == old(self)@,
            },
    {
        let mut i: usize = 0;
        while i < self.alarms.len()
            invariant
                i <= self.alarms@.len(),
                *self == *old(self),
                self.wf(),
                forall|j: int| 0 <= j < i ==> #[trigger] self.alarms@[j].id != id,
            decreases self.alarms@.len() - i,
        {
            if self.alarms[i].id == id {
                assert(self.alarms@[i as int].wf());
                let alarm = &mut self.alarms[i];
                alarm.enabled = !alarm.enabled;
                let enabled: bool = alarm.enabled;
                proof {
                    assert(old(self)@.alarms[i as int] == old(self).alarms@[i as int]@);
                    assert(alarm_models(self.alarms@) =~= old(self)@.with_alarm_switched(
                        i as int,
                        enabled,
                    ).alarms);
                    assert(self@ =~= old(self)@.with_alarm_switched(i as int, enabled));
                    assert forall|j: int| 0 <= j < self.alarms@.len() implies #[trigger]
                        self.alarms@[j].wf() by {
                        assert(old(self).alarms@[j].wf());
                    }
                }
                return Some(enabled);
            }
            i += 1;
        }
        assert forall|j: int| 0 <= j < self@.alarms.len() implies #[trigger] self@.alarms[j].id
            != id by {
            assert(self.alarms@[j].id != id);
        }
        None
    }

    /// List all alarms.
    pub fn alarms(&self) -> (r: &[Alarm])
        requires
            self.wf(),
        ensures
            alarm_models(r@) == self@.alarms,
            forall|i: int| 0 <= i < r@.len() ==> #[trigger] r@[i].wf(),
    {
        self.alarms.as_slice()
    }

    /// Check which alarms should fire at the given epoch.
    ///
    /// Returns a list of alarm IDs that match. One-shot alarms (`repeat_days` ==
    /// 0) are auto-disabled after firing.
    pub fn check_alarms(&mut self, current_epoch: u64) -> (r: Vec<u32>)
        requires
            old(self).wf(),
        ensures
            final(self).wf(),
            r@ == old(self)@.ringing(current_epoch),
            final(self)@ == old(self)@.checked_at(current_epoch),
    {
        let ghost models = self@.alarms;
        let ghost p = |a: AlarmModel| a.fires_at(current_epoch);
        let ghost number = |a: AlarmModel| a.id;
        let mut firing: Vec<u32> = Vec::new();
        let mut i: usize = 0;
        assert(models.take(0).filter(p) =~= Seq::empty()) by {
            reveal(Seq::filter);
        }
        while i < self.alarms.len()
            invariant
                i <= models.len(),
                self.alarms@.len() == models.len(),
                models == old(self)@.alarms,
                p == (|a: AlarmModel| a.fires_at(current_epoch)),
                number == (|a: AlarmModel| a.id),
                firing@ == models.take(i as int).filter(p).map_values(number),
                forall|j: int| 0 <= j < self.alarms@.len() ==> #[trigger] self.alarms@[j].wf(),
                forall|j: int|
                    0 <= j < i ==> (#[trigger] self.alarms@[j])@ == models[j].checked_at(
                        current_epoch,
                    ),
                forall|j: int| i <= j < models.len() ==> (#[trigger] self.alarms@[j])@ == models[j],
                self.events == old(self).events,
                self.timer == old(self).timer,
                self.stopwatch == old(self).stopwatch,
                self.next_event_id == old(self).next_event_id,
                self.next_alarm_id == old(self).next_alarm_id,
            decreases models.len() - i,
        {
            assert(self.alarms@[i as int]@ == models[i as int]);
            proof {
                lemma_filter_step(models, i as int, p);
            }
            if self.alarms[i].should_fire(current_epoch) {
                let ghost before = models.take(i as int).filter(p);
                firing.push(self.alarms[i].id);
                assert(firing@ =~= before.push(models[i as int]).map_values(number));
                if self.alarms[i].repeat_days == 0 {
                    let ghost given = self.alarms@;
                    assert(given[i as int].wf());
                    let alarm = &mut self.alarms[i];
                    alarm.enabled = false;
                    assert forall|j: int| 0 <= j < self.alarms@.len() implies #[trigger]
                        self.alarms@[j].wf() by {
                        assert(given[j].wf());
                    }
                }
            }
            i += 1;
        }
        proof {
            assert(models.take(i as int) =~= models);
            assert(self@ =~= old(self)@.checked_at(current_epoch));
        }
        firing
    }

    /// Mutable access to the timer.
    pub fn timer_mut(&mut self) -> (r: &mut Timer)
        ensures
            *r == old(self)@.timer,
            final(self)@ == (HeorteModel { timer: *final(r), ..old(self)@ }),
            old(self).wf() ==> final(self).wf(),
    {
        &mut self.timer
    }

    /// Immutable access to the timer.
    pub fn timer(&self) -> (r: &Timer)
        ensures
            *r == self@.timer,
    {
        &self.timer
    }

    /// Mutable access to the stopwatch.
    pub fn stopwatch_mut(&mut self) -> (r: &mut Stopwatch)
        ensures
            r@ == old(self)@.stopwatch,
            final(self)@ == (HeorteModel { stopwatch: final(r)@, ..old(self)@ }),
            old(self).wf() ==> final(self).wf(),
    {
        &mut self.stopwatch
    }

    /// Immutable access to the stopwatch.
    pub fn stopwatch(&self) -> (r: &Stopwatch)
        ensures
            r@ == self@.stopwatch,
    {
        &self.stopwatch
    }
}

// ---------------------------------------------------------------------------
// Epoch decomposition
// ---------------------------------------------------------------------------

/// Decompose Unix epoch seconds into `(hour, minute, year, month, day)`, in
/// constant time. Epoch 0 gives zeros; `year` is capped at `u16::MAX`.
pub fn decompose_epoch(epoch: u64) -> (r: (u8, u8, u16, u8, u8))
    ensures
        epoch == 0 ==> r == (0u8, 0u8, 0u16, 0u8, 0u8),
        epoch != 0 ==> r.0 == hour_of(epoch) && r.1 == minute_of(epoch) && shows_date(
            epoch as int / 86_400,
            r.2,
            r.3,
            r.4,
        ),
{
    if epoch == 0 {
        return (0, 0, 0, 0, 0);
    }
    let day_secs: u64 = epoch % SECS_PER_DAY;
    let hour: u8 = (day_secs / SECS_PER_HOUR) as u8;
    let minute: u8 = ((day_secs % SECS_PER_HOUR) / SECS_PER_MIN) as u8;
    assert(day_secs as int % 3_600 == epoch as int % 3_600);
    let days: u64 = epoch / SECS_PER_DAY;
    let (year, month, day) = civil_from_days(days);
    (hour, minute, year, month, day)
}

/// A date as `YYYY-MM-DD`.
pub open spec fn date_text(year: u16, month: u8, day: u8) -> Seq<u8> {
    seq![
        (0x30 + year / 1000) as u8,
        (0x30 + year / 100 % 10) as u8,
        (0x30 + year / 10 % 10) as u8,
        (0x30 + year % 10) as u8,
        0x2D,
        (0x30 + month / 10) as u8,
        (0x30 + month % 10) as u8,
        0x2D,
        (0x30 + day / 10) as u8,
        (0x30 + day % 10) as u8,
    ]
}

/// Format date as "YYYY-MM-DD" into a fixed buffer.
pub fn format_date(year: u16, month: u8, day: u8) -> (r: [u8; 10])
    ensures
        r@ == date_text(year, month, day),
{
    [
        0x30 + (year / 1000) as u8,
        0x30 + ((year / 100) % 10) as u8,
        0x30 + ((year / 10) % 10) as u8,
        0x30 + (year % 10) as u8,
        0x2D,
        0x30 + month / 10,
        0x30 + month % 10,
        0x2D,
        0x30 + day / 10,
        0x30 + day % 10,
    ]
}

/// Format time as "HH:MM" into a fixed buffer.
pub fn format_time_hhmm(hour: u8, minute: u8) -> (r: [u8; 5])
    ensures
        r@ == seq![
            (0x30 + hour / 10) as u8,
            (0x30 + hour % 10) as u8,
            0x3A,
            (0x30 + minute / 10) as u8,
            (0x30 + minute % 10) as u8,
        ],
{
    [0x30 + hour / 10, 0x30 + hour % 10, 0x3A, 0x30 + minute / 10, 0x30 + minute % 10]
}

/// Day label for agenda grouping.
#[derive(Debug, Clone)]
pub enum DayLabel {
    /// Same day as reference epoch.
    Today,
    /// Day after reference epoch.
    Tomorrow,
    /// Formatted date for other days.
    Date([u8; 10]),
}

/// Whether a text is the date of an epoch. Epoch 0 has the date of zeros.
pub open spec fn is_date_text(epoch: u64, text: Seq<u8>) -> bool {
    if epoch == 0 {
        text == date_text(0, 0, 0)
    } else {
        exists|year: u16, month: u8, day: u8| #[trigger]
            shows_date(epoch as int / 86_400, year, month, day) && text == date_text(
                year,
                month,
                day,
            )
    }
}

/// Compute a day label relative to a reference epoch: today, tomorrow, or the date
/// of any other day.
pub fn day_label(event_epoch: u64, current_epoch: u64) -> (r: DayLabel)
    ensures
        r is Today <==> event_epoch as int / 86_400 == current_epoch as int / 86_400,
        r is Tomorrow <==> event_epoch as int / 86_400 == current_epoch as int / 86_400 + 1,
        r matches DayLabel::Date(text) ==> is_date_text(event_epoch, text@),
{
    let event_day: u64 = event_epoch / SECS_PER_DAY;
    let current_day: u64 = current_epoch / SECS_PER_DAY;
    if event_day == current_day {
        DayLabel::Today
    } else if event_day == current_day + 1 {
        DayLabel::Tomorrow
    } else {
        let (_, _, y, m, d) = decompose_epoch(event_epoch);
        let text = format_date(y, m, d);
        assert(is_date_text(event_epoch, text@));
        DayLabel::Date(text)
    }
}

impl DayLabel {
    /// Return a displayable string.
    pub fn as_str(&self) -> (r: &str)
        ensures
            r@ == (match *self {
                DayLabel::Today => "TODAY"@,
                DayLabel::Tomorrow => "TOMORROW"@,
                DayLabel::Date(text) => text_or(text@, "????-??-??"@),
            }),
    {
        match self {
            DayLabel::Today => "TODAY",
            DayLabel::Tomorrow => "TOMORROW",
            DayLabel::Date(buf) => read_text_or(buf.as_slice(), "????-??-??"),
        }
    }

    /// The label as text of its own.
    pub fn to_string(&self) -> (r: String)
        ensures
            r@ == (match *self {
                DayLabel::Today => "TODAY"@,
                DayLabel::Tomorrow => "TOMORROW"@,
                DayLabel::Date(text) => text_or(text@, "????-??-??"@),
            }),
    {
        self.as_str().to_owned()
    }
}

} // verus!

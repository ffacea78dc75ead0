//! Timer and stopwatch for the Heorte engine.
//!
//! Both use tick-based timing: callers pass the current kernel tick count in
//! milliseconds and the engine computes elapsed time from deltas.
use crate::text::{ascii, push_two_digits, read_text_or, text_or, two_digits};
use vstd::prelude::*;

verus! {

broadcast use vstd::string::group_string_axioms;

/// Maximum number of stopwatch laps stored. The oldest is evicted beyond this.
pub const MAX_LAPS: usize = 50;

/// The milliseconds from one tick to another, none where time ran backwards.
pub open spec fn ticks_between(from: u64, to: u64) -> int {
    if to >= from {
        to - from
    } else {
        0
    }
}

/// One decimal digit as a character.
pub open spec fn digit(n: int) -> u8 {
    (0x30 + n % 10) as u8
}

/// The smaller of a number and 99.
pub open spec fn at_most_99(n: int) -> int {
    if n < 99 {
        n
    } else {
        99
    }
}

// ---------------------------------------------------------------------------
// Timer
// ---------------------------------------------------------------------------

/// Countdown timer.
#[derive(Debug, Clone)]
pub struct Timer {
    /// Total duration in seconds.
    pub duration_secs: u32,
    /// Remaining seconds.
    pub remaining_secs: u32,
    /// Whether the timer is actively counting down.
    pub running: bool,
    /// Kernel tick (ms) up to which the countdown has been taken into account.
    pub started_tick: u64,
}

impl Timer {
    /// The timer after it was brought up to date, and whether it has expired.
    ///
    /// Only whole seconds are consumed: the rest of a second stays in front of
    /// the next update.
    pub open spec fn updated(self, current_tick: u64) -> (Timer, bool) {
        let elapsed = ticks_between(self.started_tick, current_tick) / 1000;
        if !self.running {
            (self, self.remaining_secs == 0 && self.duration_secs > 0)
        } else if elapsed >= self.remaining_secs {
            (Timer { remaining_secs: 0, running: false, ..self }, true)
        } else {
            (
                Timer {
                    remaining_secs: (self.remaining_secs - elapsed) as u32,
                    started_tick: (self.started_tick + elapsed * 1000) as u64,
                    ..self
                },
                false,
            )
        }
    }

    /// The timer after the countdown was started or resumed.
    pub open spec fn started(self, current_tick: u64) -> Timer {
        if !self.running && self.remaining_secs > 0 {
            Timer { running: true, started_tick: current_tick, ..self }
        } else {
            self
        }
    }

    /// The timer after the countdown was paused.
    pub open spec fn paused(self, current_tick: u64) -> Timer {
        if self.running {
            Timer { running: false, ..self.updated(current_tick).0 }
        } else {
            self
        }
    }

    /// A timer that shows a duration and stands still.
    pub open spec fn of_duration(secs: u32) -> Timer {
        Timer { duration_secs: secs, remaining_secs: secs, running: false, started_tick: 0 }
    }

    /// The remaining time as it is displayed.
    pub open spec fn remaining_text(self) -> Seq<u8> {
        let m = at_most_99(self.remaining_secs as int / 60);
        let s = self.remaining_secs as int % 60;
        seq![digit(m / 10), digit(m), 0x3A, digit(s / 10), digit(s)]
    }

    /// Create a new timer with zero duration.
    pub fn new() -> (r: Self)
        ensures
            r == Timer::of_duration(0),
    {
        Timer { duration_secs: 0, remaining_secs: 0, running: false, started_tick: 0 }
    }

    /// Set the timer duration and reset state.
    pub fn set_duration(&mut self, secs: u32)
        ensures
            *final(self) == Timer::of_duration(secs),
    {
        self.duration_secs = secs;
        self.remaining_secs = secs;
        self.running = false;
        self.started_tick = 0;
    }

    /// Start or resume the countdown from the current tick.
    pub fn start(&mut self, current_tick: u64)
        ensures
            *final(self) == old(self).started(current_tick),
    {
        if !self.running && self.remaining_secs > 0 {
            self.running = true;
            self.started_tick = current_tick;
        }
    }

    /// Pause the countdown, preserving remaining time.
    pub fn pause(&mut self, current_tick: u64)
        ensures
            *final(self) == old(self).paused(current_tick),
    {
        if self.running {
            self.update(current_tick);
            self.running = false;
        }
    }

    /// Reset the timer to its original duration.
    pub fn reset(&mut self)
        ensures
            *final(self) == Timer::of_duration(old(self).duration_secs),
    {
        self.remaining_secs = self.duration_secs;
        self.running = false;
        self.started_tick = 0;
    }

    /// Update remaining seconds from the current tick. Returns `true` if the
    /// timer has expired (reached zero).
    pub fn update(&mut self, current_tick: u64) -> (expired: bool)
        ensures
            (*final(self), expired) == old(self).updated(current_tick),
    {
        if !self.running {
            return self.remaining_secs == 0 && self.duration_secs > 0;
        }
        let elapsed_ms: u64 = current_tick.saturating_sub(self.started_tick);
        let elapsed_secs: u64 = elapsed_ms / 1000;
        if elapsed_secs >= self.remaining_secs as u64 {
            self.remaining_secs = 0;
            self.running = false;
            return true;
        }
        self.remaining_secs = self.remaining_secs - elapsed_secs as u32;
        // Only the consumed whole seconds are counted, so that a timer polled
        // faster than once a second still advances.
        self.started_tick = self.started_tick + elapsed_secs * 1000;
        false
    }

    /// Whether the timer has expired.
    pub fn expired(&self) -> (r: bool)
        ensures
            r == (self.duration_secs > 0 && self.remaining_secs == 0 && !self.running),
    {
        self.duration_secs > 0 && self.remaining_secs == 0 && !self.running
    }

    /// Format remaining time as `MM:SS`.
    pub fn format_remaining(&self) -> (r: [u8; 5])
        ensures
            r@ == self.remaining_text(),
    {
        let whole: u32 = self.remaining_secs / 60;
        let m: u32 = if whole < 99 {
            whole
        } else {
            99
        };
        let s: u32 = self.remaining_secs % 60;
        [
            0x30 + (m / 10) as u8,
            0x30 + (m % 10) as u8,
            0x3A,
            0x30 + (s / 10) as u8,
            0x30 + (s % 10) as u8,
        ]
    }

    /// The remaining time as text.
    pub fn to_string(&self) -> (r: String)
        ensures
            r@ == text_or(self.remaining_text(), "??:??"@),
    {
        let buf = self.format_remaining();
        read_text_or(buf.as_slice(), "??:??").to_owned()
    }
}

/// Law: a timer that was started with some seconds left expires exactly when
/// that many seconds have passed.
pub proof fn law_timer_expires_on_time(t: Timer, start: u64, now: u64)
    requires
        !t.running,
        t.remaining_secs > 0,
        start <= now,
    ensures
        t.started(start).updated(now).1 == (now - start >= 1000 * t.remaining_secs),
{
}

/// Law: polling loses no time. A running timer that is updated twice is where one
/// update at the later tick would have brought it, however short the interval.
pub proof fn law_polling_loses_no_time(t: Timer, t1: u64, t2: u64)
    requires
        t.running,
        t.started_tick <= t1 <= t2,
    ensures
        ({
            let twice = t.updated(t1).0.updated(t2).0;
            let once = t.updated(t2).0;
            &&& twice.remaining_secs == once.remaining_secs
            &&& twice.running == once.running
            &&& once.running ==> twice == once
        }),
        t.duration_secs > 0 ==> t.updated(t1).0.updated(t2).1 == t.updated(t2).1,
{
    let a = (t1 - t.started_tick) / 1000;
    let whole = (t2 - t.started_tick) / 1000;
    let b = (t2 - t.started_tick - a * 1000) / 1000;
    assert(whole == a + b);
    if a < t.remaining_secs {
        let mid = t.updated(t1).0;
        assert(mid.started_tick == t.started_tick + a * 1000);
        assert(mid.remaining_secs == t.remaining_secs - a);
        assert(ticks_between(mid.started_tick, t2) / 1000 == b);
        if b < mid.remaining_secs {
            assert(mid.started_tick + b * 1000 == t.started_tick + whole * 1000);
        }
    }
}

/// Law: a paused timer keeps its remaining seconds, whenever it is polled, until
/// it is started again.
pub proof fn law_pause_keeps_the_remaining_time(t: Timer, pause: u64, now: u64)
    requires
        t.running,
    ensures
        t.paused(pause).updated(now).0 == t.paused(pause),
        t.paused(pause).remaining_secs == t.updated(pause).0.remaining_secs,
{
}

// ---------------------------------------------------------------------------
// Stopwatch
// ---------------------------------------------------------------------------

/// Count-up stopwatch with lap recording.
#[derive(Debug, Clone)]
pub struct Stopwatch {
    /// Total elapsed milliseconds (accumulated across start/stop cycles).
    pub elapsed_ms: u64,
    /// Whether the stopwatch is currently running.
    pub running: bool,
    /// Kernel tick (ms) when the stopwatch was last started or resumed.
    pub started_tick: u64,
    /// Cumulative lap split times in milliseconds.
    pub laps: Vec<u64>,
}

/// What a stopwatch shows.
#[verifier::ext_equal]
pub ghost struct StopwatchModel {
    pub elapsed_ms: u64,
    pub running: bool,
    pub started_tick: u64,
    pub laps: Seq<u64>,
}

impl View for Stopwatch {
    type V = StopwatchModel;

    open spec fn view(&self) -> StopwatchModel {
        StopwatchModel {
            elapsed_ms: self.elapsed_ms,
            running: self.running,
            started_tick: self.started_tick,
            laps: self.laps@,
        }
    }
}

impl StopwatchModel {
    /// A stopwatch in the stopped state, at zero.
    pub open spec fn zero() -> StopwatchModel {
        StopwatchModel { elapsed_ms: 0, running: false, started_tick: 0, laps: Seq::empty() }
    }

    /// The total elapsed time at a tick.
    pub open spec fn elapsed_at(self, current_tick: u64) -> int {
        if self.running {
            self.elapsed_ms + ticks_between(self.started_tick, current_tick)
        } else {
            self.elapsed_ms as int
        }
    }

    /// The stopwatch after it was started or resumed.
    pub open spec fn started(self, current_tick: u64) -> StopwatchModel {
        if self.running {
            self
        } else {
            StopwatchModel { running: true, started_tick: current_tick, ..self }
        }
    }

    /// The stopwatch after it was stopped.
    pub open spec fn stopped(self, current_tick: u64) -> StopwatchModel {
        if self.running {
            StopwatchModel {
                elapsed_ms: self.elapsed_at(current_tick) as u64,
                running: false,
                ..self
            }
        } else {
            self
        }
    }

    /// The stopwatch after a lap was recorded.
    pub open spec fn lapped(self, current_tick: u64) -> StopwatchModel {
        if !self.running {
            self
        } else {
            let kept = if self.laps.len() >= MAX_LAPS {
                self.laps.drop_first()
            } else {
                self.laps
            };
            StopwatchModel { laps: kept.push(self.elapsed_at(current_tick) as u64), ..self }
        }
    }
}

/// The time between two split times.
pub open spec fn lap_duration(laps: Seq<u64>, i: int) -> int {
    if i == 0 {
        laps[0] as int
    } else {
        ticks_between(laps[i - 1], laps[i])
    }
}

impl Stopwatch {
    /// Create a new stopwatch in the stopped state.
    pub fn new() -> (r: Self)
        ensures
            r@ == StopwatchModel::zero(),
    {
        Stopwatch { elapsed_ms: 0, running: false, started_tick: 0, laps: Vec::new() }
    }

    /// Start or resume the stopwatch.
    pub fn start(&mut self, current_tick: u64)
        ensures
            final(self)@ == old(self)@.started(current_tick),
    {
        if !self.running {
            self.running = true;
            self.started_tick = current_tick;
        }
    }

    /// Stop the stopwatch, preserving elapsed time.
    pub fn stop(&mut self, current_tick: u64)
        requires
            old(self)@.elapsed_at(current_tick) <= u64::MAX,
        ensures
            final(self)@ == old(self)@.stopped(current_tick),
    {
        if self.running {
            self.elapsed_ms = self.elapsed_ms + current_tick.saturating_sub(self.started_tick);
            self.running = false;
        }
    }

    /// Reset the stopwatch to zero.
    pub fn reset(&mut self)
        ensures
            final(self)@ == StopwatchModel::zero(),
    {
        self.elapsed_ms = 0;
        self.running = false;
        self.started_tick = 0;
        self.laps.clear();
    }

    /// Record a lap at the current tick.
    ///
    /// Stores the cumulative elapsed time as a lap marker. If the lap list is
    /// full, the oldest lap is removed.
    pub fn lap(&mut self, current_tick: u64)
        requires
            old(self)@.elapsed_at(current_tick) <= u64::MAX,
        ensures
            final(self)@ == old(self)@.lapped(current_tick),
    {
        if !self.running {
            return ;
        }
        let current_elapsed: u64 = self.elapsed_ms + current_tick.saturating_sub(self.started_tick);
        if self.laps.len() >= MAX_LAPS {
            self.laps.remove(0);
            assert(self.laps@ =~= old(self).laps@.drop_first());
        }
        self.laps.push(current_elapsed);
    }

    /// Get the current total elapsed time in milliseconds.
    pub fn current_elapsed(&self, current_tick: u64) -> (r: u64)
        requires
            self@.elapsed_at(current_tick) <= u64::MAX,
        ensures
            r == self@.elapsed_at(current_tick),
    {
        if self.running {
            self.elapsed_ms + current_tick.saturating_sub(self.started_tick)
        } else {
            self.elapsed_ms
        }
    }

    /// Get per-lap duration (delta between consecutive laps) in milliseconds, as
    /// `(lap_number, duration_ms)` pairs, 1-indexed.
    pub fn lap_durations(&self) -> (r: Vec<(usize, u64)>)
        ensures
            r@ == Seq::new(
                self.laps@.len(),
                |i: int| ((i + 1) as usize, lap_duration(self.laps@, i) as u64),
            ),
    {
        let mut result: Vec<(usize, u64)> = Vec::with_capacity(self.laps.len());
        let mut prev: u64 = 0;
        let mut i: usize = 0;
        while i < self.laps.len()
            invariant
                i <= self.laps@.len(),
                result@ == Seq::new(
                    i as nat,
                    |j: int| ((j + 1) as usize, lap_duration(self.laps@, j) as u64),
                ),
                prev == (if i == 0 {
                    0
                } else {
                    self.laps@[i - 1]
                }),
            decreases self.laps@.len() - i,
        {
            let cumulative: u64 = self.laps[i];
            result.push((i + 1, cumulative.saturating_sub(prev)));
            prev = cumulative;
            i += 1;
        }
        result
    }

    /// Format elapsed time as `HH:MM:SS.mmm`.
    pub fn format_elapsed(&self, current_tick: u64) -> (r: [u8; 12])
        requires
            self@.elapsed_at(current_tick) <= u64::MAX,
        ensures
            r@ == elapsed_text(self@.elapsed_at(current_tick)),
    {
        format_elapsed_ms(self.current_elapsed(current_tick))
    }

    /// The time that was accumulated, as `MM:SS`.
    pub fn to_string(&self) -> (r: String)
        ensures
            r@ == ascii(two_digits(self.elapsed_ms as nat / 1000 / 60)) + ":"@ + ascii(
                two_digits(self.elapsed_ms as nat / 1000 % 60),
            ),
    {
        let secs: u64 = self.elapsed_ms / 1000;
        let mut out = String::new();
        push_two_digits(&mut out, secs / 60);
        out.append(":");
        push_two_digits(&mut out, secs % 60);
        assert(out@ =~= ascii(two_digits((secs / 60) as nat)) + ":"@ + ascii(
            two_digits((secs % 60) as nat),
        ));
        out
    }
}

/// Milliseconds as `HH:MM:SS.mmm`, with at most 99 hours.
pub open spec fn elapsed_text(ms: int) -> Seq<u8> {
    let secs = ms / 1000;
    let millis = ms % 1000;
    let h = at_most_99(secs / 3600);
    let m = secs % 3600 / 60;
    let s = secs % 60;
    seq![
        digit(h / 10),
        digit(h),
        0x3A,
        digit(m / 10),
        digit(m),
        0x3A,
        digit(s / 10),
        digit(s),
        0x2E,
        digit(millis / 100),
        digit(millis / 10),
        digit(millis),
    ]
}

/// Milliseconds as `MM:SS.mmm`, with at most 99 minutes.
pub open spec fn lap_text(ms: int) -> Seq<u8> {
    let secs = ms / 1000;
    let millis = ms % 1000;
    let m = at_most_99(secs / 60);
    let s = secs % 60;
    seq![
        digit(m / 10),
        digit(m),
        0x3A,
        digit(s / 10),
        digit(s),
        0x2E,
        digit(millis / 100),
        digit(millis / 10),
        digit(millis),
    ]
}

/// Format milliseconds as `HH:MM:SS.mmm`.
pub fn format_elapsed_ms(ms: u64) -> (r: [u8; 12])
    ensures
        r@ == elapsed_text(ms as int),
{
    let total_secs: u64 = ms / 1000;
    let millis: u64 = ms % 1000;
    let whole: u64 = total_secs / 3600;
    let hours: u64 = if whole < 99 {
        whole
    } else {
        99
    };
    let minutes: u64 = (total_secs % 3600) / 60;
    let seconds: u64 = total_secs % 60;
    [
        0x30 + (hours / 10) as u8,
        0x30 + (hours % 10) as u8,
        0x3A,
        0x30 + (minutes / 10) as u8,
        0x30 + (minutes % 10) as u8,
        0x3A,
        0x30 + (seconds / 10) as u8,
        0x30 + (seconds % 10) as u8,
        0x2E,
        0x30 + (millis / 100) as u8,
        0x30 + ((millis / 10) % 10) as u8,
        0x30 + (millis % 10) as u8,
    ]
}

/// Format milliseconds as `MM:SS.mmm` (compact, for lap display).
pub fn format_lap_ms(ms: u64) -> (r: [u8; 9])
    ensures
        r@ == lap_text(ms as int),
{
    let total_secs: u64 = ms / 1000;
    let millis: u64 = ms % 1000;
    let whole: u64 = total_secs / 60;
    let minutes: u64 = if whole < 99 {
        whole
    } else {
        99
    };
    let seconds: u64 = total_secs % 60;
    [
        0x30 + (minutes / 10) as u8,
        0x30 + (minutes % 10) as u8,
        0x3A,
        0x30 + (seconds / 10) as u8,
        0x30 + (seconds % 10) as u8,
        0x2E,
        0x30 + (millis / 100) as u8,
        0x30 + ((millis / 10) % 10) as u8,
        0x30 + (millis % 10) as u8,
    ]
}

/// Law: time accumulates across start/stop cycles, and none passes while the
/// stopwatch stands still.
pub proof fn law_stopwatch_accumulates(w: StopwatchModel, start: u64, stop: u64, now: u64)
    requires
        !w.running,
        start <= stop,
        w.elapsed_ms + (stop - start) <= u64::MAX,
    ensures
        w.started(start).stopped(stop).elapsed_at(now) == w.elapsed_ms + (stop - start),
{
}

/// Law: a stopwatch never holds more laps than it may, and a lap that was just
/// recorded is its last.
pub proof fn law_laps_are_bounded(w: StopwatchModel, now: u64)
    requires
        w.laps.len() <= MAX_LAPS,
        w.running,
        w.elapsed_at(now) <= u64::MAX,
    ensures
        w.lapped(now).laps.len() <= MAX_LAPS,
        w.lapped(now).laps.last() == w.elapsed_at(now),
{
}

} // verus!

//! Alarm subsystem for the Heorte engine.
use crate::heorte::{
    clean_prefix_len, utf8_truncate_len, SECS_PER_DAY, SECS_PER_HOUR, SECS_PER_MIN,
};
use crate::text::{
    ascii, byte_range, push_two_digits, read_text_or, text_or, two_digits,
};
use vstd::prelude::*;

pub mod day_mask;

verus! {

broadcast use vstd::string::group_string_axioms;

/// Maximum label length for alarms (bytes).
pub const MAX_LABEL_LEN: usize = 32;

/// An alarm set to fire at a specific time of day.
///
/// `repeat_days` is a bitmask where bit 0 = Sunday through bit 6 = Saturday.
/// A value of 0 means the alarm fires once and then auto-disables.
#[derive(Debug, Clone)]
pub struct Alarm {
    /// Locally unique alarm identifier, auto-incremented.
    pub id: u32,
    /// Hour of day (0-23).
    pub hour: u8,
    /// Minute of hour (0-59).
    pub minute: u8,
    /// Alarm label stored as raw bytes (UTF-8).
    pub label: [u8; MAX_LABEL_LEN],
    /// Number of valid bytes in `label`.
    pub label_len: u8,
    /// Whether this alarm is armed.
    pub enabled: bool,
    /// Day-of-week repeat bitmask. 0 = one-shot, auto-disables after firing.
    pub repeat_days: u8,
}

/// What an alarm says.
#[verifier::ext_equal]
pub ghost struct AlarmModel {
    pub id: u32,
    pub hour: u8,
    pub minute: u8,
    pub label: Seq<u8>,
    pub enabled: bool,
    pub repeat_days: u8,
}

impl View for Alarm {
    type V = AlarmModel;

    open spec fn view(&self) -> AlarmModel {
        AlarmModel {
            id: self.id,
            hour: self.hour,
            minute: self.minute,
            label: self.label@.take(self.label_len as int),
            enabled: self.enabled,
            repeat_days: self.repeat_days,
        }
    }
}

/// The hour of the day at an epoch.
pub open spec fn hour_of(epoch: u64) -> int {
    epoch as int % 86_400 / 3_600
}

/// The minute of the hour at an epoch.
pub open spec fn minute_of(epoch: u64) -> int {
    epoch as int % 3_600 / 60
}

/// The day of the week at an epoch, counted from Sunday.
pub open spec fn weekday_of(epoch: u64) -> int {
    (epoch as int / 86_400 + 4) % 7
}

/// Whether a repeat mask names a day of the week.
pub open spec fn names_day(mask: u8, day: int) -> bool {
    mask & (1u8 << (day as u8)) != 0
}

impl AlarmModel {
    /// An alarm as it is set: the time of day is clamped, the label cut.
    pub open spec fn set(
        id: u32,
        hour: u8,
        minute: u8,
        label: Seq<u8>,
        enabled: bool,
        repeat_days: u8,
    ) -> AlarmModel {
        AlarmModel {
            id,
            hour: if hour < 23 {
                hour
            } else {
                23
            },
            minute: if minute < 59 {
                minute
            } else {
                59
            },
            label: label.take(clean_prefix_len(label, MAX_LABEL_LEN as int)),
            enabled,
            repeat_days,
        }
    }

    /// Whether the alarm rings at an epoch.
    pub open spec fn fires_at(self, epoch: u64) -> bool {
        &&& self.enabled
        &&& self.hour == hour_of(epoch)
        &&& self.minute == minute_of(epoch)
        &&& self.repeat_days == 0 || names_day(self.repeat_days, weekday_of(epoch))
    }

    /// The alarm after an epoch was checked: one that rings once is off.
    pub open spec fn checked_at(self, epoch: u64) -> AlarmModel {
        if self.fires_at(epoch) && self.repeat_days == 0 {
            AlarmModel { enabled: false, ..self }
        } else {
            self
        }
    }
}

impl Alarm {
    /// Whether the label length lies within the buffer.
    pub open spec fn wf(self) -> bool {
        self.label_len <= MAX_LABEL_LEN
    }

    /// Create a new alarm.
    ///
    /// `label_bytes` is truncated to [`MAX_LABEL_LEN`] if longer.
    pub fn new(
        id: u32,
        hour: u8,
        minute: u8,
        label_bytes: &[u8],
        enabled: bool,
        repeat_days: u8,
    ) -> (r: Self)
        ensures
            r.wf(),
            r@ == AlarmModel::set(id, hour, minute, label_bytes@, enabled, repeat_days),
            forall|i: int| r.label_len <= i < MAX_LABEL_LEN ==> r.label@[i] == 0,
    {
        let mut label: [u8; MAX_LABEL_LEN] = [0u8; MAX_LABEL_LEN];
        let len: usize = utf8_truncate_len(label_bytes, MAX_LABEL_LEN);
        let mut i: usize = 0;
        while i < len
            invariant
                i <= len <= MAX_LABEL_LEN,
                len <= label_bytes@.len(),
                label@.take(i as int) == label_bytes@.take(i as int),
                forall|j: int| i <= j < MAX_LABEL_LEN ==> label@[j] == 0,
            decreases len - i,
        {
            label[i] = label_bytes[i];
            i += 1;
            assert(label@.take(i as int) =~= label_bytes@.take(i - 1).push(label_bytes@[i - 1]));
            assert(label_bytes@.take(i as int) =~= label_bytes@.take(i - 1).push(
                label_bytes@[i - 1],
            ));
        }
        Alarm {
            id,
            hour: if hour < 23 {
                hour
            } else {
                23
            },
            minute: if minute < 59 {
                minute
            } else {
                59
            },
            label,
            label_len: len as u8,
            enabled,
            repeat_days,
        }
    }

    /// Return the label as a `&str`, or an empty string if not valid UTF-8.
    pub fn label_str(&self) -> (r: &str)
        requires
            self.wf(),
        ensures
            r@ == text_or(self@.label, ""@),
    {
        read_text_or(byte_range(self.label.as_slice(), 0, self.label_len as usize), "")
    }

    /// Check whether this alarm should fire at the given epoch.
    ///
    /// Returns `true` if the alarm is enabled and the current time-of-day
    /// matches the alarm's hour:minute. If `repeat_days` is non-zero, also
    /// checks whether the current day-of-week is in the bitmask.
    pub fn should_fire(&self, current_epoch: u64) -> (r: bool)
        ensures
            r == self@.fires_at(current_epoch),
    {
        if !self.enabled {
            return false;
        }
        let day_secs: u64 = current_epoch % SECS_PER_DAY;
        let current_hour: u8 = (day_secs / SECS_PER_HOUR) as u8;
        let current_minute: u8 = ((day_secs % SECS_PER_HOUR) / SECS_PER_MIN) as u8;
        assert(day_secs as int % 3_600 == current_epoch as int % 3_600);
        if current_hour != self.hour || current_minute != self.minute {
            return false;
        }
        if self.repeat_days == 0 {
            return true;
        }
        let dow: u8 = day_of_week(current_epoch);
        (self.repeat_days & (1u8 << dow)) != 0
    }

    /// Human-readable repeat description.
    pub fn repeat_label(&self) -> (r: &'static str)
        ensures
            r@ == (if self.repeat_days == 0 {
                "Once"@
            } else if self.repeat_days == day_mask::DAILY {
                "Daily"@
            } else if self.repeat_days == day_mask::WEEKDAYS {
                "Weekdays"@
            } else {
                "Custom"@
            }),
    {
        if self.repeat_days == 0 {
            "Once"
        } else if self.repeat_days == day_mask::DAILY {
            "Daily"
        } else if self.repeat_days == day_mask::WEEKDAYS {
            "Weekdays"
        } else {
            "Custom"
        }
    }

    /// The alarm as `HH:MM label`.
    pub fn to_string(&self) -> (r: String)
        requires
            self.wf(),
        ensures
            r@ == ascii(two_digits(self.hour as nat)) + ":"@ + ascii(
                two_digits(self.minute as nat),
            ) + " "@ + text_or(self@.label, ""@),
    {
        let mut out = String::new();
        push_two_digits(&mut out, self.hour as u64);
        assert(out@ =~= ascii(two_digits(self.hour as nat)));
        out.append(":");
        push_two_digits(&mut out, self.minute as u64);
        out.append(" ");
        out.append(self.label_str());
        out
    }
}

/// Compute day of week from Unix epoch seconds.
///
/// Returns 0 = Sunday, 1 = Monday, ..., 6 = Saturday. The Unix epoch
/// (1970-01-01) was a Thursday (day 4).
pub fn day_of_week(epoch: u64) -> (r: u8)
    ensures
        r == weekday_of(epoch),
        r < 7,
{
    let days: u64 = epoch / SECS_PER_DAY;
    ((days + 4) % 7) as u8
}

/// Law: the day of the week recurs after seven days and moves on by one each day.
pub proof fn law_weekdays_cycle(epoch: u64)
    requires
        epoch + 7 * 86_400 <= u64::MAX,
    ensures
        weekday_of((epoch + 7 * 86_400) as u64) == weekday_of(epoch),
        weekday_of((epoch + 86_400) as u64) == (weekday_of(epoch) + 1) % 7,
{
}

/// Law: an alarm that rings once is off after it rang, so it does not ring again.
pub proof fn law_one_shot_rings_once(a: AlarmModel, first: u64, later: u64)
    requires
        a.repeat_days == 0,
        a.fires_at(first),
    ensures
        !a.checked_at(first).fires_at(later),
{
}

/// Law: a repeating alarm stays armed.
pub proof fn law_repeating_alarm_stays_armed(a: AlarmModel, epoch: u64)
    requires
        a.repeat_days != 0,
    ensures
        a.checked_at(epoch) == a,
{
}

/// Law: an alarm on every day rings on each day of the week, and one on weekdays
/// from Monday to Friday.
pub proof fn law_masks_name_their_days(day: int)
    requires
        0 <= day < 7,
    ensures
        names_day(day_mask::DAILY, day),
        names_day(day_mask::WEEKDAYS, day) == (1 <= day <= 5),
{
    let d = day as u8;
    assert(0x7Fu8 & (1u8 << d) != 0) by (bit_vector)
        requires
            d < 7,
    ;
    assert((0x3Eu8 & (1u8 << d) != 0) == (1 <= d && d <= 5)) by (bit_vector)
        requires
            d < 7,
    ;
}

} // verus!

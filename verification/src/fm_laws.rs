//! What the FM radio does when it is tuned, sought with and saved.
use crate::fm_radio::{
    in_band, snapped, stepped, FmError, FmHwOps, FmModel, FmState, NullFmHw, FM_DEFAULT_FREQ_KHZ,
    FM_MAX_VOLUME, FM_PRESET_COUNT,
};
use vstd::prelude::*;

verus! {

/// Whether volume and presets are what they were.
pub open spec fn keeps_settings<H>(a: FmModel<H>, b: FmModel<H>) -> bool {
    a.volume == b.volume && a.presets == b.presets && a.preset_count == b.preset_count
}

/// Law: the band reaches from 87.5 to 108 MHz. A frequency in it is rounded to a tenth of a
/// megahertz, one half way up.
pub proof fn law_frequencies_are_rounded_to_channels(freq: u32)
    ensures
        in_band(freq) <==> 87_500 <= freq <= 108_000,
        in_band(freq) ==> in_band(snapped(freq)) && snapped(freq) % 100 == 0 && freq - 50
            < snapped(freq) <= freq + 50,
        in_band(freq) && freq % 100 == 0 ==> snapped(freq) == freq,
        in_band(freq) && freq % 100 == 50 ==> snapped(freq) == freq + 50,
{
}

/// Law: a radio that is on is tuned to the channel of a frequency in the band where the
/// receiver follows, and stays as it was where it does not; a frequency outside the band is
/// refused before the receiver is asked.
pub proof fn law_tuning_goes_to_the_channel<H: FmHwOps>(m: FmModel<H>, freq: u32)
    requires
        m.state != FmState::Off,
    ensures
        ({
            let (r, outcome) = m.after_tune(freq);
            &&& keeps_settings(r, m)
            &&& !(87_500 <= freq <= 108_000) ==> r == m && outcome == Err::<(), FmError>(
                FmError::FrequencyOutOfRange,
            )
            &&& 87_500 <= freq <= 108_000 ==> {
                &&& outcome is Ok <==> m.hw.tuned(snapped(freq)).1 is Ok
                &&& outcome matches Err(e) ==> m.hw.tuned(snapped(freq)).1 == Err::<(), FmError>(e)
                &&& r.hw == m.hw.tuned(snapped(freq)).0
                &&& outcome is Ok ==> r.state == (FmState::Tuned { frequency_khz: snapped(freq) })
                &&& outcome is Err ==> r.state == m.state
            }
        }),
{
}

/// Law: a radio that is off is on after power up where the receiver came up, and still off
/// where it did not; one that is on stays as it is. Power down is the other way round.
pub proof fn law_power_switches_the_receiver<H: FmHwOps>(m: FmModel<H>)
    ensures
        m.state != FmState::Off ==> m.after_power_on() == (m, Ok::<(), FmError>(())),
        m.state == FmState::Off ==> m.after_power_off() == (m, Ok::<(), FmError>(())),
        m.state == FmState::Off ==> {
            let (r, outcome) = m.after_power_on();
            &&& outcome is Ok <==> m.hw.powered_on().1 is Ok
            &&& outcome matches Err(e) ==> m.hw.powered_on().1 == Err::<(), FmError>(e)
            &&& r.hw == m.hw.powered_on().0
            &&& outcome is Ok ==> r.state == FmState::On
            &&& outcome is Err ==> r.state == FmState::Off
            &&& keeps_settings(r, m)
        },
        m.state != FmState::Off ==> {
            let (r, outcome) = m.after_power_off();
            &&& outcome is Ok <==> m.hw.powered_off().1 is Ok
            &&& outcome matches Err(e) ==> m.hw.powered_off().1 == Err::<(), FmError>(e)
            &&& r.hw == m.hw.powered_off().0
            &&& outcome is Ok ==> r.state == FmState::Off
            &&& outcome is Err ==> r.state == m.state
            &&& keeps_settings(r, m)
        },
{
}

/// The frequency that a seek starts from.
pub open spec fn seek_start(state: FmState, otherwise: u32) -> u32 {
    match state {
        FmState::Tuned { frequency_khz } => frequency_khz,
        _ => otherwise,
    }
}

/// The channel one up, with the lowest behind the highest.
pub open spec fn one_up(freq: u32) -> u32 {
    if freq >= 108_000 {
        87_500
    } else if freq > 107_900 {
        108_000
    } else {
        (freq + 100) as u32
    }
}

/// The channel one down, with the highest before the lowest.
pub open spec fn one_down(freq: u32) -> u32 {
    if freq <= 87_500 {
        108_000
    } else if freq < 87_600 {
        87_500
    } else {
        (freq - 100) as u32
    }
}

/// Law: a seek goes to the station that the receiver found, where that lies in the band.
/// Where it found none the radio goes one channel on, round the end of the band, upwards or
/// downwards; other failures are passed on and the radio stays.
pub proof fn law_seeks_go_to_the_station_or_one_on<H: FmHwOps>(m: FmModel<H>)
    requires
        m.state != FmState::Off,
        m.wf(),
    ensures
        ({
            let (r, outcome) = m.after_seek_up();
            let (hw, found) = m.hw.sought_up();
            let next = one_up(seek_start(m.state, 87_500));
            &&& keeps_settings(r, m)
            &&& found matches Ok(f) ==> (if in_band(f) {
                outcome == Ok::<u32, FmError>(f) && r.state == (FmState::Tuned { frequency_khz: f })
                    && r.hw == hw
            } else {
                outcome == Err::<u32, FmError>(FmError::FrequencyOutOfRange) && r.state == m.state
            })
            &&& found == Err::<u32, FmError>(FmError::NoStationFound) && hw.tuned(next).1 is Ok
                ==> outcome == Ok::<u32, FmError>(next) && r.state == (FmState::Tuned {
                frequency_khz: next,
            })
            &&& found is Err && found != Err::<u32, FmError>(FmError::NoStationFound) ==> outcome
                == found && r.state == m.state
        }),
        ({
            let (r, outcome) = m.after_seek_down();
            let (hw, found) = m.hw.sought_down();
            let next = one_down(seek_start(m.state, 108_000));
            &&& keeps_settings(r, m)
            &&& found matches Ok(f) ==> (if in_band(f) {
                outcome == Ok::<u32, FmError>(f) && r.state == (FmState::Tuned { frequency_khz: f })
                    && r.hw == hw
            } else {
                outcome == Err::<u32, FmError>(FmError::FrequencyOutOfRange) && r.state == m.state
            })
            &&& found == Err::<u32, FmError>(FmError::NoStationFound) && hw.tuned(next).1 is Ok
                ==> outcome == Ok::<u32, FmError>(next) && r.state == (FmState::Tuned {
                frequency_khz: next,
            })
            &&& found is Err && found != Err::<u32, FmError>(FmError::NoStationFound) ==> outcome
                == found && r.state == m.state
        }),
{
}

/// Law: saving puts the frequency that the radio is tuned to into its slot, and nothing else
/// changes; there are six slots. Only a tuned radio can save.
pub proof fn law_saving_fills_the_slot<H: FmHwOps>(m: FmModel<H>, index: int, other: int)
    requires
        m.wf(),
        0 <= index,
        0 <= other < 6,
    ensures
        ({
            let (r, outcome) = m.after_save(index);
            &&& r.state == m.state && r.volume == m.volume && r.hw == m.hw
            &&& outcome is Ok <==> index < 6 && m.state is Tuned
            &&& outcome is Err ==> r == m
            &&& index >= 6 ==> outcome == Err::<(), FmError>(FmError::InvalidPreset)
            &&& index < 6 && m.state == FmState::Off ==> outcome == Err::<(), FmError>(
                FmError::NotPowered,
            )
            &&& index < 6 && (m.state == FmState::On || m.state == FmState::Scanning) ==> outcome
                == Err::<(), FmError>(FmError::InvalidState)
            &&& outcome is Ok ==> r.presets[other] == (if other == index {
                Some(m.state->frequency_khz)
            } else {
                m.presets[other]
            })
            &&& outcome is Ok ==> r.preset_count == (if index + 1 > m.preset_count {
                index + 1
            } else {
                m.preset_count
            })
        }),
{
}

/// Law: a slot that is filled is recalled by a radio that is on, an empty one by none; what is
/// recalled is what the receiver is tuned to. Recalling changes no slot.
pub proof fn law_recalling_tunes_to_the_slot<H: FmHwOps>(m: FmModel<H>, index: int)
    requires
        m.wf(),
        0 <= index,
    ensures
        ({
            let (r, outcome) = m.after_recall(index);
            let filled = index < 6 && m.presets[index] is Some;
            &&& keeps_settings(r, m)
            &&& !filled ==> r == m && outcome == Err::<u32, FmError>(FmError::InvalidPreset)
            &&& filled && m.state == FmState::Off ==> r == m && outcome == Err::<u32, FmError>(
                FmError::NotPowered,
            )
            &&& filled && m.state != FmState::Off ==> {
                let freq = m.presets[index]->0;
                &&& r.hw == m.hw.tuned(freq).0
                &&& m.hw.tuned(freq).1 is Ok ==> outcome == Ok::<u32, FmError>(freq) && r.state == (
                FmState::Tuned { frequency_khz: freq })
                &&& m.hw.tuned(freq).1 matches Err(e) ==> outcome == Err::<u32, FmError>(e)
                    && r.state == m.state
            }
        }),
{
    if index < 6 && m.presets[index] is Some {
        assert(in_band(m.presets[index]->0));
    }
}

/// Law: a step moves a frequency on and wraps at the upper end of the band to the lower.
pub proof fn law_steps_wrap_in_the_band(freq: u32, step: int)
    requires
        in_band(freq),
        -20_500 <= step <= 20_500,
    ensures
        87_500 <= freq + step < 108_000 ==> stepped(freq, step) == freq + step,
        freq + step >= 108_000 && freq + step < 128_500 ==> stepped(freq, step) == freq + step
            - 20_500,
        freq + step < 87_500 ==> stepped(freq, step) == freq + step + 20_500,
{
    let offset = freq - 87_500 + step;
    if offset < 0 {
        assert(offset % 20_500 == offset + 20_500);
    } else if offset >= 20_500 && offset < 41_000 {
        assert(offset % 20_500 == offset - 20_500);
    }
}

/// Law: a fresh radio is off, half loud and without stations.
pub proof fn law_fresh_radios_are_silent<H: FmHwOps>(hw: H)
    ensures
        FmModel::fresh(hw).state == FmState::Off,
        FmModel::fresh(hw).volume == 8,
        FmModel::fresh(hw).preset_count == 0,
        FmModel::fresh(hw).presets.len() == 6,
        forall|i: int| 0 <= i < 6 ==> (#[trigger] FmModel::fresh(hw).presets[i]) is None,
{
}

/// Law: the hardware starts at the low end of the band, the volume goes from silence to
/// fifteen, and six stations can be kept.
pub proof fn law_the_limits_of_the_radio()
    ensures
        FM_DEFAULT_FREQ_KHZ == 88_000,
        in_band(FM_DEFAULT_FREQ_KHZ),
        FM_MAX_VOLUME == 15,
        FM_PRESET_COUNT == 6,
{
}

/// Law: the stand-in hardware is on exactly after it was turned on, is tuned to what it is told,
/// and seeks to the next channel, at the ends of the band to the other end.
pub proof fn law_the_stand_in_does_as_told(hw: NullFmHw, freq: u32)
    requires
        in_band(hw.current_freq),
    ensures
        hw.powered_on().0.powered && hw.powered_on().1 is Ok,
        !hw.powered_off().0.powered && hw.powered_off().1 is Ok,
        hw.powered_on().0.current_freq == hw.current_freq,
        hw.tuned(freq).0.current_freq == freq && hw.tuned(freq).1 is Ok,
        hw.tuned(freq).0.powered == hw.powered,
        hw.current_freq < 107_900 ==> hw.sought_up().1 == Ok::<u32, FmError>(
            (hw.current_freq + 100) as u32,
        ),
        hw.current_freq == 107_900 ==> hw.sought_up().1 == Ok::<u32, FmError>(87_500),
        87_600 <= hw.current_freq < 108_000 ==> hw.sought_down().1 == Ok::<u32, FmError>(
            (hw.current_freq - 100) as u32,
        ),
        hw.current_freq == 87_500 ==> hw.sought_down().1 == Ok::<u32, FmError>(107_900),
        hw.sought_up().1 matches Ok(f) && f == hw.sought_up().0.current_freq,
        hw.sought_down().1 matches Ok(f) && f == hw.sought_down().0.current_freq,
        hw.strength() == -55,
{
    law_steps_wrap_in_the_band(hw.current_freq, 100);
    law_steps_wrap_in_the_band(hw.current_freq, -100);
}

} // verus!

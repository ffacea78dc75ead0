//! FM radio receiver controller.
//!
//! [`FmRadio`] keeps power, tuning, presets and volume over a hardware backend.
//! Frequencies are whole kHz in the broadcast band of 87.5 to 108.0 MHz.
use crate::text::{ascii, decimal, push_decimal};
use vstd::prelude::*;

verus! {

broadcast use vstd::string::group_string_axioms;

/// Minimum FM frequency in kHz (87.5 MHz).
pub const FM_FREQ_MIN_KHZ: u32 = 87_500;

/// Maximum FM frequency in kHz (108.0 MHz).
pub const FM_FREQ_MAX_KHZ: u32 = 108_000;

/// FM channel step in kHz (0.1 MHz).
pub const FM_STEP_KHZ: u32 = 100;

/// Frequency of a backend that was not tuned yet, in kHz (88.0 MHz).
pub const FM_DEFAULT_FREQ_KHZ: u32 = 88_000;

/// Number of preset slots.
pub const FM_PRESET_COUNT: usize = 6;

/// Maximum volume level.
pub const FM_MAX_VOLUME: u8 = 15;

/// Default volume level.
pub const FM_DEFAULT_VOLUME: u8 = 8;

/// MMIO base address of the combo chip.
pub const CONSYS_BASE: usize = 0x1800_0000;

/// FM radio errors.
#[derive(Debug, Clone, Copy, PartialEq, Eq, Structural)]
pub enum FmError {
    /// FM hardware did not respond or returned an error.
    HardwareError,
    /// FM radio is not powered on.
    NotPowered,
    /// Frequency is outside the valid FM band (87.5-108.0 MHz).
    FrequencyOutOfRange,
    /// Seek completed without finding a station.
    NoStationFound,
    /// Invalid preset index.
    InvalidPreset,
    /// FM radio is in an invalid state for this operation.
    InvalidState,
}

impl FmError {
    /// What the error is called in diagnostics.
    pub open spec fn message(self) -> Seq<char> {
        match self {
            FmError::HardwareError => "FM hardware error"@,
            FmError::NotPowered => "FM radio not powered"@,
            FmError::FrequencyOutOfRange => "frequency out of FM band range"@,
            FmError::NoStationFound => "no FM station found"@,
            FmError::InvalidPreset => "invalid preset index"@,
            FmError::InvalidState => "FM radio in invalid state"@,
        }
    }

    /// The diagnostic text of the error.
    pub fn to_string(&self) -> (r: String)
        ensures
            r@ == self.message(),
    {
        match self {
            FmError::HardwareError => "FM hardware error".to_owned(),
            FmError::NotPowered => "FM radio not powered".to_owned(),
            FmError::FrequencyOutOfRange => "frequency out of FM band range".to_owned(),
            FmError::NoStationFound => "no FM station found".to_owned(),
            FmError::InvalidPreset => "invalid preset index".to_owned(),
            FmError::InvalidState => "FM radio in invalid state".to_owned(),
        }
    }
}

/// FM radio receiver state.
#[derive(Debug, Clone, Copy, PartialEq, Eq, Structural)]
pub enum FmState {
    /// FM radio is powered off.
    Off,
    /// FM radio is powered on but not tuned to a specific frequency.
    On,
    /// Actively scanning for the next/previous station.
    Scanning,
    /// Tuned to a specific frequency.
    Tuned {
        /// Current frequency in kHz.
        frequency_khz: u32,
    },
}

impl Default for FmState {
    fn default() -> (r: Self)
        ensures
            r == FmState::Off,
    {
        FmState::Off
    }
}

impl FmState {
    /// The state in words.
    pub open spec fn text(self) -> Seq<char> {
        match self {
            FmState::Off => "off"@,
            FmState::On => "on"@,
            FmState::Scanning => "scanning"@,
            FmState::Tuned { frequency_khz } => "tuned to "@ + ascii(
                decimal((frequency_khz / 1000) as nat),
            ) + "."@ + ascii(decimal(((frequency_khz % 1000) / 100) as nat)) + " MHz"@,
        }
    }

    /// The state in words.
    pub fn to_string(&self) -> (r: String)
        ensures
            r@ == self.text(),
    {
        match self {
            FmState::Off => "off".to_owned(),
            FmState::On => "on".to_owned(),
            FmState::Scanning => "scanning".to_owned(),
            FmState::Tuned { frequency_khz } => {
                let (mhz, frac) = freq_to_display(*frequency_khz);
                let mut out = "tuned to ".to_owned();
                push_decimal(&mut out, mhz as u64);
                out.append(".");
                push_decimal(&mut out, frac as u64);
                out.append(" MHz");
                out
            },
        }
    }
}

/// Whether a frequency lies in the FM band.
pub open spec fn in_band(freq_khz: u32) -> bool {
    FM_FREQ_MIN_KHZ <= freq_khz <= FM_FREQ_MAX_KHZ
}

// ---------------------------------------------------------------------------
// Hardware backends
// ---------------------------------------------------------------------------

/// The operations of an FM receiver. For each there is a description of what it
/// does to the receiver and what it reports.
pub trait FmHwOps: Sized {
    /// Whether the backend is in a state that its operations keep.
    spec fn hw_ok(&self) -> bool;

    /// What powering on does.
    spec fn powered_on(self) -> (Self, Result<(), FmError>);

    /// What powering off does.
    spec fn powered_off(self) -> (Self, Result<(), FmError>);

    /// What tuning does.
    spec fn tuned(self, freq_khz: u32) -> (Self, Result<(), FmError>);

    /// What an upward seek does.
    spec fn sought_up(self) -> (Self, Result<u32, FmError>);

    /// What a downward seek does.
    spec fn sought_down(self) -> (Self, Result<u32, FmError>);

    /// The signal strength.
    spec fn strength(&self) -> i8;

    /// Power on the FM receiver.
    fn power_on(&mut self) -> (r: Result<(), FmError>)
        requires
            old(self).hw_ok(),
        ensures
            final(self).hw_ok(),
            (*final(self), r) == (*old(self)).powered_on(),
    ;

    /// Power off the FM receiver.
    fn power_off(&mut self) -> (r: Result<(), FmError>)
        requires
            old(self).hw_ok(),
        ensures
            final(self).hw_ok(),
            (*final(self), r) == (*old(self)).powered_off(),
    ;

    /// Tune to a frequency of the band (in kHz).
    fn tune(&mut self, freq_khz: u32) -> (r: Result<(), FmError>)
        requires
            old(self).hw_ok(),
            in_band(freq_khz),
        ensures
            final(self).hw_ok(),
            (*final(self), r) == (*old(self)).tuned(freq_khz),
    ;

    /// Seek upward: the frequency of the next station found (in kHz).
    fn seek_up(&mut self) -> (r: Result<u32, FmError>)
        requires
            old(self).hw_ok(),
        ensures
            final(self).hw_ok(),
            (*final(self), r) == (*old(self)).sought_up(),
    ;

    /// Seek downward: the frequency of the next station found (in kHz).
    fn seek_down(&mut self) -> (r: Result<u32, FmError>)
        requires
            old(self).hw_ok(),
        ensures
            final(self).hw_ok(),
            (*final(self), r) == (*old(self)).sought_down(),
    ;

    /// Read the received signal strength indicator (RSSI) in dBm.
    fn get_rssi(&self) -> (r: i8)
        ensures
            r == self.strength(),
    ;
}

/// FM receiver of the combo chip. Seeks find nothing and there is no signal as
/// long as the chip is not driven.
#[derive(Debug)]
pub struct FmHw {
    /// MMIO base address of the combo chip.
    pub consys_base: usize,
    /// Current tuned frequency in kHz.
    pub current_freq: u32,
}

impl FmHw {
    /// Create a new FM hardware handle.
    pub fn new() -> (r: Self)
        ensures
            r == (FmHw { consys_base: CONSYS_BASE, current_freq: FM_DEFAULT_FREQ_KHZ }),
    {
        FmHw { consys_base: CONSYS_BASE, current_freq: FM_DEFAULT_FREQ_KHZ }
    }
}

impl FmHwOps for FmHw {
    open spec fn hw_ok(&self) -> bool {
        true
    }

    open spec fn powered_on(self) -> (Self, Result<(), FmError>) {
        (self, Ok(()))
    }

    open spec fn powered_off(self) -> (Self, Result<(), FmError>) {
        (self, Ok(()))
    }

    open spec fn tuned(self, freq_khz: u32) -> (Self, Result<(), FmError>) {
        (FmHw { current_freq: freq_khz, ..self }, Ok(()))
    }

    open spec fn sought_up(self) -> (Self, Result<u32, FmError>) {
        (self, Err(FmError::NoStationFound))
    }

    open spec fn sought_down(self) -> (Self, Result<u32, FmError>) {
        (self, Err(FmError::NoStationFound))
    }

    open spec fn strength(&self) -> i8 {
        -100i8
    }

    fn power_on(&mut self) -> (r: Result<(), FmError>) {
        Ok(())
    }

    fn power_off(&mut self) -> (r: Result<(), FmError>) {
        Ok(())
    }

    fn tune(&mut self, freq_khz: u32) -> (r: Result<(), FmError>) {
        self.current_freq = freq_khz;
        Ok(())
    }

    fn seek_up(&mut self) -> (r: Result<u32, FmError>) {
        Err(FmError::NoStationFound)
    }

    fn seek_down(&mut self) -> (r: Result<u32, FmError>) {
        Err(FmError::NoStationFound)
    }

    fn get_rssi(&self) -> (r: i8) {
        -100
    }
}

/// FM backend for emulation: seeks step by one channel and wrap at the band
/// edges.
#[derive(Debug)]
pub struct NullFmHw {
    /// Whether the receiver is powered.
    pub powered: bool,
    /// Current tuned frequency in kHz.
    pub current_freq: u32,
}

impl NullFmHw {
    /// Create a powered-off null backend at the default frequency.
    pub fn new() -> (r: Self)
        ensures
            r == (NullFmHw { powered: false, current_freq: FM_DEFAULT_FREQ_KHZ }),
            r.hw_ok(),
    {
        NullFmHw { powered: false, current_freq: FM_DEFAULT_FREQ_KHZ }
    }
}

/// The frequency `step` kHz on, within the band without its upper edge.
pub open spec fn stepped(freq_khz: u32, step: int) -> u32 {
    (FM_FREQ_MIN_KHZ + (freq_khz - FM_FREQ_MIN_KHZ + step) % 20_500) as u32
}

/// Step a seek by `step` kHz, wrapping at the band edges.
pub fn seek_step(freq_khz: u32, step: i32) -> (r: u32)
    requires
        in_band(freq_khz),
        -20_500 <= step <= 20_500,
    ensures
        r == stepped(freq_khz, step as int),
        in_band(r),
{
    let span: i32 = (FM_FREQ_MAX_KHZ - FM_FREQ_MIN_KHZ) as i32;
    let offset: i32 = (freq_khz - FM_FREQ_MIN_KHZ) as i32 + step;
    let shifted: i32 = offset + span;
    let wrapped: i32 = shifted % span;
    assert(wrapped == (freq_khz - FM_FREQ_MIN_KHZ + step) % 20_500);
    FM_FREQ_MIN_KHZ + wrapped as u32
}

impl FmHwOps for NullFmHw {
    open spec fn hw_ok(&self) -> bool {
        in_band(self.current_freq)
    }

    open spec fn powered_on(self) -> (Self, Result<(), FmError>) {
        (NullFmHw { powered: true, ..self }, Ok(()))
    }

    open spec fn powered_off(self) -> (Self, Result<(), FmError>) {
        (NullFmHw { powered: false, ..self }, Ok(()))
    }

    open spec fn tuned(self, freq_khz: u32) -> (Self, Result<(), FmError>) {
        (NullFmHw { current_freq: freq_khz, ..self }, Ok(()))
    }

    open spec fn sought_up(self) -> (Self, Result<u32, FmError>) {
        let next = stepped(self.current_freq, 100);
        (NullFmHw { current_freq: next, ..self }, Ok(next))
    }

    open spec fn sought_down(self) -> (Self, Result<u32, FmError>) {
        let next = stepped(self.current_freq, -100);
        (NullFmHw { current_freq: next, ..self }, Ok(next))
    }

    open spec fn strength(&self) -> i8 {
        -55i8
    }

    fn power_on(&mut self) -> (r: Result<(), FmError>) {
        self.powered = true;
        Ok(())
    }

    fn power_off(&mut self) -> (r: Result<(), FmError>) {
        self.powered = false;
        Ok(())
    }

    fn tune(&mut self, freq_khz: u32) -> (r: Result<(), FmError>) {
        self.current_freq = freq_khz;
        Ok(())
    }

    fn seek_up(&mut self) -> (r: Result<u32, FmError>) {
        self.current_freq = seek_step(self.current_freq, 100);
        Ok(self.current_freq)
    }

    fn seek_down(&mut self) -> (r: Result<u32, FmError>) {
        self.current_freq = seek_step(self.current_freq, -100);
        Ok(self.current_freq)
    }

    fn get_rssi(&self) -> (r: i8) {
        -55
    }
}

/// The FM backend that the booted kernel uses under emulation.
pub type BootFmHw = NullFmHw;

/// FM backend whose answers are set beforehand.
#[derive(Debug)]
pub struct MockFmHw {
    /// Whether power_on succeeds.
    pub power_on_ok: bool,
    /// Current tuned frequency.
    pub tuned_freq: u32,
    /// RSSI value to return.
    pub rssi: i8,
    /// Frequency returned by seek_up (None = no station found).
    pub seek_up_result: Option<u32>,
    /// Frequency returned by seek_down (None = no station found).
    pub seek_down_result: Option<u32>,
}

impl MockFmHw {
    /// Create a new mock with all operations succeeding.
    pub fn new() -> (r: Self)
        ensures
            r == (MockFmHw {
                power_on_ok: true,
                tuned_freq: FM_DEFAULT_FREQ_KHZ,
                rssi: -60i8,
                seek_up_result: None,
                seek_down_result: None,
            }),
    {
        MockFmHw {
            power_on_ok: true,
            tuned_freq: FM_DEFAULT_FREQ_KHZ,
            rssi: -60,
            seek_up_result: None,
            seek_down_result: None,
        }
    }
}

impl FmHwOps for MockFmHw {
    open spec fn hw_ok(&self) -> bool {
        true
    }

    open spec fn powered_on(self) -> (Self, Result<(), FmError>) {
        (
            self,
            if self.power_on_ok {
                Ok(())
            } else {
                Err(FmError::HardwareError)
            },
        )
    }

    open spec fn powered_off(self) -> (Self, Result<(), FmError>) {
        (self, Ok(()))
    }

    open spec fn tuned(self, freq_khz: u32) -> (Self, Result<(), FmError>) {
        (MockFmHw { tuned_freq: freq_khz, ..self }, Ok(()))
    }

    open spec fn sought_up(self) -> (Self, Result<u32, FmError>) {
        match self.seek_up_result {
            Some(freq) => (MockFmHw { tuned_freq: freq, ..self }, Ok(freq)),
            None => (self, Err(FmError::NoStationFound)),
        }
    }

    open spec fn sought_down(self) -> (Self, Result<u32, FmError>) {
        match self.seek_down_result {
            Some(freq) => (MockFmHw { tuned_freq: freq, ..self }, Ok(freq)),
            None => (self, Err(FmError::NoStationFound)),
        }
    }

    open spec fn strength(&self) -> i8 {
        self.rssi
    }

    fn power_on(&mut self) -> (r: Result<(), FmError>) {
        if self.power_on_ok {
            Ok(())
        } else {
            Err(FmError::HardwareError)
        }
    }

    fn power_off(&mut self) -> (r: Result<(), FmError>) {
        Ok(())
    }

    fn tune(&mut self, freq_khz: u32) -> (r: Result<(), FmError>) {
        self.tuned_freq = freq_khz;
        Ok(())
    }

    fn seek_up(&mut self) -> (r: Result<u32, FmError>) {
        match self.seek_up_result {
            Some(freq) => {
                self.tuned_freq = freq;
                Ok(freq)
            },
            None => Err(FmError::NoStationFound),
        }
    }

    fn seek_down(&mut self) -> (r: Result<u32, FmError>) {
        match self.seek_down_result {
            Some(freq) => {
                self.tuned_freq = freq;
                Ok(freq)
            },
            None => Err(FmError::NoStationFound),
        }
    }

    fn get_rssi(&self) -> (r: i8) {
        self.rssi
    }
}

// ---------------------------------------------------------------------------
// The controller
// ---------------------------------------------------------------------------

/// FM radio controller: power, tuning, seeking, presets and volume.
#[derive(Debug)]
pub struct FmRadio<H: FmHwOps> {
    /// Current FM state.
    state: FmState,
    /// Preset frequencies in kHz. `None` marks an unset slot.
    presets: [Option<u32>; 6],
    /// One more than the highest slot that was ever saved.
    preset_count: u8,
    /// Current volume level (0-15).
    volume: u8,
    /// FM hardware backend.
    hw: H,
}

/// What an [`FmRadio`] stands for.
#[verifier::ext_equal]
pub struct FmModel<H> {
    pub state: FmState,
    pub presets: Seq<Option<u32>>,
    pub preset_count: int,
    pub volume: int,
    pub hw: H,
}

impl<H: FmHwOps> View for FmRadio<H> {
    type V = FmModel<H>;

    closed spec fn view(&self) -> FmModel<H> {
        FmModel {
            state: self.state,
            presets: self.presets@,
            preset_count: self.preset_count as int,
            volume: self.volume as int,
            hw: self.hw,
        }
    }
}

/// The channel nearest to a frequency.
pub open spec fn snapped(freq_khz: u32) -> u32 {
    if freq_khz <= FM_FREQ_MIN_KHZ {
        FM_FREQ_MIN_KHZ
    } else {
        let f = FM_FREQ_MIN_KHZ + (freq_khz - FM_FREQ_MIN_KHZ + 50) / 100 * 100;
        if f <= FM_FREQ_MAX_KHZ {
            f as u32
        } else {
            FM_FREQ_MAX_KHZ
        }
    }
}

impl<H: FmHwOps> FmModel<H> {
    /// A radio that is off, without presets.
    pub open spec fn fresh(hw: H) -> FmModel<H> {
        FmModel {
            state: FmState::Off,
            presets: Seq::new(6, |i: int| None::<u32>),
            preset_count: 0,
            volume: FM_DEFAULT_VOLUME as int,
            hw,
        }
    }

    /// Volume and slot count are within their limits, every frequency that is kept
    /// lies in the band, and the last slot that counts is filled.
    pub open spec fn wf(self) -> bool {
        &&& 0 <= self.volume <= FM_MAX_VOLUME
        &&& self.presets.len() == FM_PRESET_COUNT
        &&& 0 <= self.preset_count <= FM_PRESET_COUNT
        &&& self.state matches FmState::Tuned { frequency_khz } ==> in_band(frequency_khz)
        &&& forall|i: int|
            0 <= i < self.presets.len() ==> ((#[trigger] self.presets[i]) matches Some(f)
                ==> in_band(f) && i < self.preset_count)
        &&& self.preset_count > 0 ==> self.presets[self.preset_count - 1] is Some
        &&& self.hw.hw_ok()
    }

    /// With the backend in another state.
    pub open spec fn with_hw(self, hw: H) -> FmModel<H> {
        FmModel { hw, ..self }
    }

    /// Tuned to a frequency, with the backend in another state.
    pub open spec fn tuned_to(self, hw: H, freq_khz: u32) -> FmModel<H> {
        FmModel { hw, state: FmState::Tuned { frequency_khz: freq_khz }, ..self }
    }

    /// The radio and the outcome after powering on.
    pub open spec fn after_power_on(self) -> (FmModel<H>, Result<(), FmError>) {
        if self.state != FmState::Off {
            (self, Ok(()))
        } else {
            match self.hw.powered_on() {
                (hw, Ok(())) => (FmModel { state: FmState::On, hw, ..self }, Ok(())),
                (hw, Err(e)) => (self.with_hw(hw), Err(e)),
            }
        }
    }

    /// The radio and the outcome after powering off.
    pub open spec fn after_power_off(self) -> (FmModel<H>, Result<(), FmError>) {
        if self.state == FmState::Off {
            (self, Ok(()))
        } else {
            match self.hw.powered_off() {
                (hw, Ok(())) => (FmModel { state: FmState::Off, hw, ..self }, Ok(())),
                (hw, Err(e)) => (self.with_hw(hw), Err(e)),
            }
        }
    }

    /// The radio and the outcome after tuning.
    pub open spec fn after_tune(self, freq_khz: u32) -> (FmModel<H>, Result<(), FmError>) {
        if self.state == FmState::Off {
            (self, Err(FmError::NotPowered))
        } else if !in_band(freq_khz) {
            (self, Err(FmError::FrequencyOutOfRange))
        } else {
            match self.hw.tuned(snapped(freq_khz)) {
                (hw, Ok(())) => (self.tuned_to(hw, snapped(freq_khz)), Ok(())),
                (hw, Err(e)) => (self.with_hw(hw), Err(e)),
            }
        }
    }

    /// The radio and the outcome after a seek that the backend answered: a found
    /// station counts if it lies in the band; where none was found, the radio
    /// steps on to `fallback`.
    pub open spec fn after_seek(
        self,
        answer: (H, Result<u32, FmError>),
        fallback: u32,
    ) -> (FmModel<H>, Result<u32, FmError>) {
        match answer {
            (hw, Ok(freq)) => if in_band(freq) {
                (self.tuned_to(hw, freq), Ok(freq))
            } else {
                (self.with_hw(hw), Err(FmError::FrequencyOutOfRange))
            },
            (hw, Err(FmError::NoStationFound)) => match hw.tuned(fallback) {
                (hw, Ok(())) => (self.tuned_to(hw, fallback), Ok(fallback)),
                (hw, Err(e)) => (self.with_hw(hw), Err(e)),
            },
            (hw, Err(e)) => (self.with_hw(hw), Err(e)),
        }
    }

    /// The channel above the current one; behind the last comes the first.
    pub open spec fn channel_above(self) -> u32 {
        let current = match self.state {
            FmState::Tuned { frequency_khz } => frequency_khz,
            _ => FM_FREQ_MIN_KHZ,
        };
        if current >= FM_FREQ_MAX_KHZ {
            FM_FREQ_MIN_KHZ
        } else if current + FM_STEP_KHZ <= FM_FREQ_MAX_KHZ {
            (current + FM_STEP_KHZ) as u32
        } else {
            FM_FREQ_MAX_KHZ
        }
    }

    /// The channel below the current one; before the first comes the last.
    pub open spec fn channel_below(self) -> u32 {
        let current = match self.state {
            FmState::Tuned { frequency_khz } => frequency_khz,
            _ => FM_FREQ_MAX_KHZ,
        };
        if current <= FM_FREQ_MIN_KHZ {
            FM_FREQ_MAX_KHZ
        } else if current - FM_STEP_KHZ >= FM_FREQ_MIN_KHZ {
            (current - FM_STEP_KHZ) as u32
        } else {
            FM_FREQ_MIN_KHZ
        }
    }

    /// The radio and the outcome after an upward seek.
    pub open spec fn after_seek_up(self) -> (FmModel<H>, Result<u32, FmError>) {
        if self.state == FmState::Off {
            (self, Err(FmError::NotPowered))
        } else {
            self.after_seek(self.hw.sought_up(), self.channel_above())
        }
    }

    /// The radio and the outcome after a downward seek.
    pub open spec fn after_seek_down(self) -> (FmModel<H>, Result<u32, FmError>) {
        if self.state == FmState::Off {
            (self, Err(FmError::NotPowered))
        } else {
            self.after_seek(self.hw.sought_down(), self.channel_below())
        }
    }

    /// The radio and the outcome after saving the current frequency.
    pub open spec fn after_save(self, index: int) -> (FmModel<H>, Result<(), FmError>) {
        if index >= FM_PRESET_COUNT {
            (self, Err(FmError::InvalidPreset))
        } else {
            match self.state {
                FmState::Tuned { frequency_khz } => (
                    FmModel {
                        presets: self.presets.update(index, Some(frequency_khz)),
                        preset_count: if index >= self.preset_count {
                            index + 1
                        } else {
                            self.preset_count
                        },
                        ..self
                    },
                    Ok(()),
                ),
                FmState::Off => (self, Err(FmError::NotPowered)),
                _ => (self, Err(FmError::InvalidState)),
            }
        }
    }

    /// The radio and the outcome after recalling a preset: it is tuned to the frequency
    /// that the slot holds, on the channel grid or off it.
    pub open spec fn after_recall(self, index: int) -> (FmModel<H>, Result<u32, FmError>) {
        if index >= FM_PRESET_COUNT || index >= self.preset_count || self.presets[index] is None {
            (self, Err(FmError::InvalidPreset))
        } else {
            let freq = self.presets[index]->0;
            if !in_band(freq) {
                (self, Err(FmError::FrequencyOutOfRange))
            } else if self.state == FmState::Off {
                (self, Err(FmError::NotPowered))
            } else {
                match self.hw.tuned(freq) {
                    (hw, Ok(())) => (self.tuned_to(hw, freq), Ok(freq)),
                    (hw, Err(e)) => (self.with_hw(hw), Err(e)),
                }
            }
        }
    }
}

impl<H: FmHwOps> FmRadio<H> {
    /// Create a new FM radio controller with the given hardware backend.
    pub fn new(hw: H) -> (r: Self)
        ensures
            r@ == FmModel::fresh(hw),
            hw.hw_ok() ==> r@.wf(),
    {
        let r = FmRadio {
            state: FmState::Off,
            presets: [None, None, None, None, None, None],
            preset_count: 0,
            volume: FM_DEFAULT_VOLUME,
            hw,
        };
        assert(r@ =~= FmModel::fresh(hw));
        r
    }

    /// Return the current FM state.
    pub fn state(&self) -> (r: FmState)
        ensures
            r == self@.state,
    {
        self.state
    }

    /// Return the current volume level (0-15).
    pub fn volume(&self) -> (r: u8)
        ensures
            r == self@.volume,
    {
        self.volume
    }

    /// Return the current tuned frequency in kHz, if tuned.
    pub fn frequency(&self) -> (r: Option<u32>)
        ensures
            r == (match self@.state {
                FmState::Tuned { frequency_khz } => Some(frequency_khz),
                _ => None::<u32>,
            }),
    {
        match self.state {
            FmState::Tuned { frequency_khz } => Some(frequency_khz),
            _ => None,
        }
    }

    /// Return the preset frequencies up to the highest slot that was ever saved.
    /// `None` marks an unset slot.
    pub fn presets(&self) -> (r: &[Option<u32>])
        requires
            self@.wf(),
        ensures
            r@ == self@.presets.take(self@.preset_count),
            r@.len() > 0 ==> r@.last() is Some,
    {
        vstd::slice::slice_subrange(self.presets.as_slice(), 0, self.preset_count as usize)
    }

    /// Return the number of preset slots up to the highest that was ever saved.
    pub fn preset_count(&self) -> (r: u8)
        ensures
            r == self@.preset_count,
    {
        self.preset_count
    }

    /// Return the current RSSI (signal strength) in dBm.
    pub fn rssi(&self) -> (r: i8)
        ensures
            r == self@.hw.strength(),
    {
        self.hw.get_rssi()
    }

    /// Power on the FM radio; nothing happens where it is on.
    pub fn power_on(&mut self) -> (r: Result<(), FmError>)
        requires
            old(self)@.wf(),
        ensures
            (final(self)@, r) == old(self)@.after_power_on(),
            final(self)@.wf(),
    {
        match self.state {
            FmState::Off => {},
            _ => {
                return Ok(());
            },
        }
        match self.hw.power_on() {
            Ok(()) => {
                self.state = FmState::On;
                Ok(())
            },
            Err(e) => Err(e),
        }
    }

    /// Power off the FM radio; nothing happens where it is off.
    pub fn power_off(&mut self) -> (r: Result<(), FmError>)
        requires
            old(self)@.wf(),
        ensures
            (final(self)@, r) == old(self)@.after_power_off(),
            final(self)@.wf(),
    {
        match self.state {
            FmState::Off => {
                return Ok(());
            },
            _ => {},
        }
        match self.hw.power_off() {
            Ok(()) => {
                self.state = FmState::Off;
                Ok(())
            },
            Err(e) => Err(e),
        }
    }

    /// Tune to the channel nearest to a frequency of the band (in kHz).
    pub fn tune(&mut self, freq_khz: u32) -> (r: Result<(), FmError>)
        requires
            old(self)@.wf(),
        ensures
            (final(self)@, r) == old(self)@.after_tune(freq_khz),
            final(self)@.wf(),
    {
        match self.state {
            FmState::Off => {
                return Err(FmError::NotPowered);
            },
            _ => {},
        }
        if freq_khz < FM_FREQ_MIN_KHZ || freq_khz > FM_FREQ_MAX_KHZ {
            return Err(FmError::FrequencyOutOfRange);
        }
        let channel: u32 = snap_to_step(freq_khz);
        match self.hw.tune(channel) {
            Ok(()) => {
                self.state = FmState::Tuned { frequency_khz: channel };
                Ok(())
            },
            Err(e) => Err(e),
        }
    }

    /// Take over what the backend answered to a seek.
    fn settle(&mut self, answer: Result<u32, FmError>, fallback: u32) -> (r: Result<u32, FmError>)
        requires
            old(self)@.wf(),
            in_band(fallback),
        ensures
            (final(self)@, r) == old(self)@.after_seek((old(self)@.hw, answer), fallback),
            final(self)@.wf(),
    {
        match answer {
            Ok(freq) => {
                if freq < FM_FREQ_MIN_KHZ || freq > FM_FREQ_MAX_KHZ {
                    return Err(FmError::FrequencyOutOfRange);
                }
                self.state = FmState::Tuned { frequency_khz: freq };
                Ok(freq)
            },
            Err(FmError::NoStationFound) => match self.hw.tune(fallback) {
                Ok(()) => {
                    self.state = FmState::Tuned { frequency_khz: fallback };
                    Ok(fallback)
                },
                Err(e) => Err(e),
            },
            Err(e) => Err(e),
        }
    }

    /// Seek upward for the next station. Where the backend finds none, step to
    /// the next channel, from the last one to the first.
    pub fn seek_up(&mut self) -> (r: Result<u32, FmError>)
        requires
            old(self)@.wf(),
        ensures
            (final(self)@, r) == old(self)@.after_seek_up(),
            final(self)@.wf(),
    {
        let current: u32 = match self.state {
            FmState::Off => {
                return Err(FmError::NotPowered);
            },
            FmState::Tuned { frequency_khz } => frequency_khz,
            _ => FM_FREQ_MIN_KHZ,
        };
        let answer = self.hw.seek_up();
        let next: u32 = if current >= FM_FREQ_MAX_KHZ {
            FM_FREQ_MIN_KHZ
        } else if current + FM_STEP_KHZ <= FM_FREQ_MAX_KHZ {
            current + FM_STEP_KHZ
        } else {
            FM_FREQ_MAX_KHZ
        };
        self.settle(answer, next)
    }

    /// Seek downward for the next station. Where the backend finds none, step to
    /// the previous channel, from the first one to the last.
    pub fn seek_down(&mut self) -> (r: Result<u32, FmError>)
        requires
            old(self)@.wf(),
        ensures
            (final(self)@, r) == old(self)@.after_seek_down(),
            final(self)@.wf(),
    {
        let current: u32 = match self.state {
            FmState::Off => {
                return Err(FmError::NotPowered);
            },
            FmState::Tuned { frequency_khz } => frequency_khz,
            _ => FM_FREQ_MAX_KHZ,
        };
        let answer = self.hw.seek_down();
        let prev: u32 = if current <= FM_FREQ_MIN_KHZ {
            FM_FREQ_MAX_KHZ
        } else if current - FM_STEP_KHZ >= FM_FREQ_MIN_KHZ {
            current - FM_STEP_KHZ
        } else {
            FM_FREQ_MIN_KHZ
        };
        self.settle(answer, prev)
    }

    /// Save the current frequency to a preset slot (0-5).
    pub fn save_preset(&mut self, index: usize) -> (r: Result<(), FmError>)
        requires
            old(self)@.wf(),
        ensures
            (final(self)@, r) == old(self)@.after_save(index as int),
            final(self)@.wf(),
    {
        if index >= FM_PRESET_COUNT {
            return Err(FmError::InvalidPreset);
        }
        let freq: u32 = match self.state {
            FmState::Tuned { frequency_khz } => frequency_khz,
            FmState::Off => {
                return Err(FmError::NotPowered);
            },
            _ => {
                return Err(FmError::InvalidState);
            },
        };
        self.presets[index] = Some(freq);
        if index >= self.preset_count as usize {
            self.preset_count = (index + 1) as u8;
        }
        Ok(())
    }

    /// Recall a preset: tune to the frequency stored in the given slot.
    pub fn recall_preset(&mut self, index: usize) -> (r: Result<u32, FmError>)
        requires
            old(self)@.wf(),
        ensures
            (final(self)@, r) == old(self)@.after_recall(index as int),
            final(self)@.wf(),
    {
        if index >= FM_PRESET_COUNT {
            return Err(FmError::InvalidPreset);
        }
        if index >= self.preset_count as usize {
            return Err(FmError::InvalidPreset);
        }
        let freq: u32 = match self.presets[index] {
            Some(f) => f,
            None => {
                return Err(FmError::InvalidPreset);
            },
        };
        if freq < FM_FREQ_MIN_KHZ || freq > FM_FREQ_MAX_KHZ {
            return Err(FmError::FrequencyOutOfRange);
        }
        match self.state {
            FmState::Off => {
                return Err(FmError::NotPowered);
            },
            _ => {},
        }
        match self.hw.tune(freq) {
            Ok(()) => {
                self.state = FmState::Tuned { frequency_khz: freq };
                Ok(freq)
            },
            Err(e) => Err(e),
        }
    }

    /// Set the volume level; values above 15 are clamped to 15.
    pub fn set_volume(&mut self, level: u8)
        requires
            old(self)@.wf(),
        ensures
            final(self)@ == (FmModel {
                volume: if level <= FM_MAX_VOLUME {
                    level as int
                } else {
                    FM_MAX_VOLUME as int
                },
                ..old(self)@
            }),
            final(self)@.wf(),
    {
        self.volume = if level <= FM_MAX_VOLUME {
            level
        } else {
            FM_MAX_VOLUME
        };
    }

    /// Increase volume by 1, clamped to the maximum.
    pub fn volume_up(&mut self)
        requires
            old(self)@.wf(),
        ensures
            final(self)@ == (FmModel {
                volume: if old(self)@.volume < FM_MAX_VOLUME {
                    old(self)@.volume + 1
                } else {
                    FM_MAX_VOLUME as int
                },
                ..old(self)@
            }),
            final(self)@.wf(),
    {
        if self.volume < FM_MAX_VOLUME {
            self.volume = self.volume + 1;
        }
    }

    /// Decrease volume by 1, clamped to 0.
    pub fn volume_down(&mut self)
        requires
            old(self)@.wf(),
        ensures
            final(self)@ == (FmModel {
                volume: if old(self)@.volume > 0 {
                    old(self)@.volume - 1
                } else {
                    0
                },
                ..old(self)@
            }),
            final(self)@.wf(),
    {
        self.volume = self.volume.saturating_sub(1);
    }
}

/// Snap a frequency to the nearest channel.
pub fn snap_to_step(freq_khz: u32) -> (r: u32)
    requires
        freq_khz + 50 <= u32::MAX,
    ensures
        r == snapped(freq_khz),
        in_band(r),
{
    if freq_khz <= FM_FREQ_MIN_KHZ {
        return FM_FREQ_MIN_KHZ;
    }
    let offset: u32 = freq_khz - FM_FREQ_MIN_KHZ;
    let steps: u32 = (offset + 50) / FM_STEP_KHZ;
    let channel: u32 = FM_FREQ_MIN_KHZ + steps * FM_STEP_KHZ;
    if channel <= FM_FREQ_MAX_KHZ {
        channel
    } else {
        FM_FREQ_MAX_KHZ
    }
}

/// Split a frequency in kHz for display: whole MHz and tenths.
pub fn freq_to_display(freq_khz: u32) -> (r: (u32, u32))
    ensures
        r == ((freq_khz / 1000) as u32, ((freq_khz % 1000) / 100) as u32),
{
    (freq_khz / 1000, (freq_khz % 1000) / 100)
}

// ---------------------------------------------------------------------------
// Laws
// ---------------------------------------------------------------------------

/// Law: a channel of the band is not moved by snapping, and no channel is nearer
/// to a frequency than the one it is snapped to.
pub proof fn law_snap_is_nearest(freq_khz: u32, channel: u32)
    requires
        in_band(freq_khz),
        in_band(channel),
        (channel - FM_FREQ_MIN_KHZ) % 100 == 0,
    ensures
        in_band(snapped(freq_khz)),
        (snapped(freq_khz) - FM_FREQ_MIN_KHZ) % 100 == 0,
        freq_khz == channel ==> snapped(freq_khz) == channel,
        distance(freq_khz, snapped(freq_khz)) <= distance(freq_khz, channel),
{
}

/// How far two frequencies lie apart.
pub open spec fn distance(a: u32, b: u32) -> int {
    if a <= b {
        b - a
    } else {
        a - b
    }
}

/// Law: a station that was saved is recalled as long as its slot keeps it, whatever was
/// done to the other slots: the radio is back on the frequency, unless the backend
/// refuses to tune.
pub proof fn law_saved_preset_is_recalled<H: FmHwOps>(
    m: FmModel<H>,
    index: int,
    elsewhere: FmModel<H>,
)
    requires
        m.wf(),
        0 <= index < FM_PRESET_COUNT,
        m.state is Tuned,
        elsewhere.presets[index] == m.after_save(index).0.presets[index],
        elsewhere.preset_count > index,
        elsewhere.state != FmState::Off,
    ensures
        m.after_save(index).1 is Ok,
        ({
            let freq = m.state->frequency_khz;
            match elsewhere.hw.tuned(freq).1 {
                Ok(()) => elsewhere.after_recall(index).1 == Ok::<u32, FmError>(freq)
                    && elsewhere.after_recall(index).0.state == m.state,
                Err(e) => elsewhere.after_recall(index).1 == Err::<u32, FmError>(e)
                    && elsewhere.after_recall(index).0.state == elsewhere.state,
            }
        }),
{
    assert(elsewhere.presets[index] == Some(m.state->frequency_khz));
}

/// Law: what a malfunctioning receiver reports never takes the radio out of the
/// band: after any seek, a tuned radio is tuned within it.
pub proof fn law_seeks_stay_in_band<H: FmHwOps>(m: FmModel<H>)
    requires
        m.wf(),
    ensures
        m.after_seek_up().0.state matches FmState::Tuned { frequency_khz } ==> in_band(
            frequency_khz,
        ),
        m.after_seek_down().0.state matches FmState::Tuned { frequency_khz } ==> in_band(
            frequency_khz,
        ),
        m.after_seek_up().1 matches Ok(f) ==> in_band(f),
        m.after_seek_down().1 matches Ok(f) ==> in_band(f),
{
}

/// Law: no later save into another slot takes a saved station away.
pub proof fn law_saves_leave_other_slots_alone<H: FmHwOps>(
    m: FmModel<H>,
    index: int,
    other: int,
)
    requires
        m.wf(),
        0 <= index < FM_PRESET_COUNT,
        0 <= other,
        other != index,
    ensures
        m.after_save(other).0.presets[index] == m.presets[index],
        m.after_save(other).0.preset_count >= m.preset_count,
{
}

/// Law: a radio that is off refuses to tune, to seek and to save.
pub proof fn law_off_refuses<H: FmHwOps>(m: FmModel<H>, freq_khz: u32, index: int)
    requires
        m.state == FmState::Off,
        index < FM_PRESET_COUNT,
    ensures
        m.after_tune(freq_khz) == (m, Err::<(), FmError>(FmError::NotPowered)),
        m.after_seek_up() == (m, Err::<u32, FmError>(FmError::NotPowered)),
        m.after_seek_down() == (m, Err::<u32, FmError>(FmError::NotPowered)),
        m.after_save(index) == (m, Err::<(), FmError>(FmError::NotPowered)),
{
}

} // verus!

//! FM radio.
use thumos::fm_radio::{
    freq_to_display, seek_step, snap_to_step, BootFmHw, FmError, FmHw, FmRadio, FmState, MockFmHw,
    FM_DEFAULT_VOLUME, FM_FREQ_MAX_KHZ, FM_FREQ_MIN_KHZ, FM_MAX_VOLUME,
};

fn make_radio() -> FmRadio<MockFmHw> {
    FmRadio::new(MockFmHw::new())
}

#[test]
fn starts_off() {
    let radio = make_radio();
    assert_eq!(
        radio.state(),
        FmState::Off,
        "new FM radio must start in Off state"
    );
}

#[test]
fn power_on_transitions_to_on() {
    let mut radio = make_radio();
    let result = radio.power_on();
    assert!(result.is_ok(), "power_on must succeed");
    assert_eq!(radio.state(), FmState::On);
}

#[test]
fn power_off_transitions_to_off() {
    let mut radio = make_radio();
    radio.power_on().ok();
    radio.tune(98_500).ok();
    let result = radio.power_off();
    assert!(result.is_ok(), "power_off must succeed");
    assert_eq!(radio.state(), FmState::Off);
}

#[test]
fn tune_sets_frequency() {
    let mut radio = make_radio();
    radio.power_on().ok();
    let result = radio.tune(98_500);
    assert!(result.is_ok(), "tune to valid frequency must succeed");
    assert_eq!(
        radio.state(),
        FmState::Tuned {
            frequency_khz: 98_500
        },
        "state must be Tuned with correct frequency"
    );
    assert_eq!(radio.frequency(), Some(98_500));
}

#[test]
fn tune_when_off_fails() {
    let mut radio = make_radio();
    let result = radio.tune(98_500);
    assert_eq!(
        result,
        Err(FmError::NotPowered),
        "tune when off must return NotPowered"
    );
}

#[test]
fn frequency_bounds_checked() {
    let mut radio = make_radio();
    radio.power_on().ok();

    let result = radio.tune(80_000);
    assert_eq!(
        result,
        Err(FmError::FrequencyOutOfRange),
        "frequency below 87.5 MHz must be rejected"
    );

    let result = radio.tune(120_000);
    assert_eq!(
        result,
        Err(FmError::FrequencyOutOfRange),
        "frequency above 108.0 MHz must be rejected"
    );

    let result = radio.tune(87_500);
    assert!(result.is_ok(), "87.5 MHz must be accepted");

    let result = radio.tune(108_000);
    assert!(result.is_ok(), "108.0 MHz must be accepted");
}

#[test]
fn preset_save_and_recall() {
    let mut radio = make_radio();
    radio.power_on().ok();
    radio.tune(98_500).ok();

    let result = radio.save_preset(0);
    assert!(result.is_ok(), "save_preset must succeed");
    assert_eq!(radio.preset_count(), 1);

    radio.tune(101_500).ok();
    radio.save_preset(1).ok();
    assert_eq!(radio.preset_count(), 2);

    let result = radio.recall_preset(0);
    assert!(result.is_ok(), "recall_preset must succeed");
    assert_eq!(
        result,
        Ok(98_500),
        "recalled frequency must match saved value"
    );
    assert_eq!(radio.frequency(), Some(98_500));
}

#[test]
fn preset_invalid_index() {
    let mut radio = make_radio();
    radio.power_on().ok();
    radio.tune(88_000).ok();

    let result = radio.save_preset(6);
    assert_eq!(
        result,
        Err(FmError::InvalidPreset),
        "preset index 6 (out of 0-5) must be rejected"
    );
}

#[test]
fn recall_empty_preset_fails() {
    let mut radio = make_radio();
    radio.power_on().ok();
    let result = radio.recall_preset(0);
    assert_eq!(
        result,
        Err(FmError::InvalidPreset),
        "recalling an unsaved preset must fail"
    );
}

#[test]
fn seek_wraps_at_bounds() {
    let mut radio = make_radio();
    radio.power_on().ok();

    radio.tune(FM_FREQ_MAX_KHZ).ok();

    let result = radio.seek_up();
    assert!(result.is_ok(), "seek_up from max must succeed (wrap)");
    let freq = result.unwrap_or(0);
    assert_eq!(
        freq, FM_FREQ_MIN_KHZ,
        "seek_up from max must wrap to minimum"
    );

    radio.tune(FM_FREQ_MIN_KHZ).ok();

    let result = radio.seek_down();
    assert!(result.is_ok(), "seek_down from min must succeed (wrap)");
    let freq = result.unwrap_or(0);
    assert_eq!(
        freq, FM_FREQ_MAX_KHZ,
        "seek_down from min must wrap to maximum"
    );
}

#[test]
fn seek_with_station_found() {
    let mut hw = MockFmHw::new();
    hw.seek_up_result = Some(99_500);
    let mut radio = FmRadio::new(hw);
    radio.power_on().ok();
    radio.tune(88_000).ok();

    let result = radio.seek_up();
    assert_eq!(result, Ok(99_500), "seek_up must return found station");
    assert_eq!(radio.frequency(), Some(99_500));
}

#[test]
fn seek_up_rejects_out_of_range_hardware_frequency() {
    let mut hw = MockFmHw::new();
    hw.seek_up_result = Some(50_000);
    let mut radio = FmRadio::new(hw);
    radio.power_on().ok();
    radio.tune(90_000).ok();

    let result = radio.seek_up();
    assert_eq!(
        result,
        Err(FmError::FrequencyOutOfRange),
        "seek_up must reject an out-of-band hardware-returned \
         frequency"
    );
    assert_eq!(
        radio.state(),
        FmState::Tuned {
            frequency_khz: 90_000
        },
        "state must be unchanged when the hardware result is rejected"
    );
}

#[test]
fn seek_down_rejects_out_of_range_hardware_frequency() {
    let mut hw = MockFmHw::new();
    hw.seek_down_result = Some(200_000);
    let mut radio = FmRadio::new(hw);
    radio.power_on().ok();
    radio.tune(90_000).ok();

    let result = radio.seek_down();
    assert_eq!(
        result,
        Err(FmError::FrequencyOutOfRange),
        "seek_down must reject an out-of-band hardware-returned \
         frequency"
    );
    assert_eq!(
        radio.state(),
        FmState::Tuned {
            frequency_khz: 90_000
        },
        "state must be unchanged when the hardware result is rejected"
    );
}

#[test]
fn volume_control() {
    let mut radio = make_radio();
    assert_eq!(radio.volume(), FM_DEFAULT_VOLUME);

    radio.set_volume(12);
    assert_eq!(radio.volume(), 12);

    radio.set_volume(255);
    assert_eq!(radio.volume(), FM_MAX_VOLUME, "volume must clamp to max");

    radio.set_volume(0);
    assert_eq!(radio.volume(), 0);
}

#[test]
fn volume_up_down() {
    let mut radio = make_radio();
    radio.set_volume(0);
    radio.volume_up();
    assert_eq!(radio.volume(), 1);

    radio.set_volume(FM_MAX_VOLUME);
    radio.volume_up();
    assert_eq!(
        radio.volume(),
        FM_MAX_VOLUME,
        "volume_up at max must not overflow"
    );

    radio.volume_down();
    assert_eq!(radio.volume(), FM_MAX_VOLUME - 1);

    radio.set_volume(0);
    radio.volume_down();
    assert_eq!(radio.volume(), 0, "volume_down at 0 must not underflow");
}

#[test]
fn seek_when_off_fails() {
    let mut radio = make_radio();
    assert_eq!(
        radio.seek_up(),
        Err(FmError::NotPowered),
        "seek_up when off must return NotPowered"
    );
    assert_eq!(
        radio.seek_down(),
        Err(FmError::NotPowered),
        "seek_down when off must return NotPowered"
    );
}

#[test]
fn freq_display_format() {
    let (mhz, frac) = freq_to_display(98_500);
    assert_eq!(mhz, 98);
    assert_eq!(frac, 5);

    let (mhz, frac) = freq_to_display(107_900);
    assert_eq!(mhz, 107);
    assert_eq!(frac, 9);

    let (mhz, frac) = freq_to_display(88_000);
    assert_eq!(mhz, 88);
    assert_eq!(frac, 0);
}

#[test]
fn snap_to_step_works() {
    assert_eq!(snap_to_step(98_550), 98_600, "must snap up to nearest step");
    assert_eq!(
        snap_to_step(98_540),
        98_500,
        "must snap down to nearest step"
    );
    assert_eq!(snap_to_step(98_500), 98_500, "exact step must not change");
    assert_eq!(snap_to_step(87_500), 87_500, "min freq must not change");
    assert_eq!(snap_to_step(108_000), 108_000, "max freq must not change");
}

#[test]
fn power_on_is_idempotent() {
    let mut radio = make_radio();
    radio.power_on().ok();
    let result = radio.power_on();
    assert!(
        result.is_ok(),
        "duplicate power_on must succeed (idempotent)"
    );
    assert_eq!(radio.state(), FmState::On);
}

#[test]
fn power_off_is_idempotent() {
    let mut radio = make_radio();
    let result = radio.power_off();
    assert!(result.is_ok(), "power_off when already off must succeed");
    assert_eq!(radio.state(), FmState::Off);
}

#[test]
fn save_preset_when_off_fails() {
    let mut radio = make_radio();
    let result = radio.save_preset(0);
    assert_eq!(
        result,
        Err(FmError::NotPowered),
        "save_preset when off must return NotPowered"
    );
}

#[test]
fn save_preset_when_not_tuned_fails() {
    let mut radio = make_radio();
    radio.power_on().ok();
    let result = radio.save_preset(0);
    assert_eq!(
        result,
        Err(FmError::InvalidState),
        "save_preset when not tuned must return InvalidState"
    );
}

#[test]
fn preset_non_contiguous_index() {
    let mut radio = make_radio();
    radio.power_on().ok();
    radio.tune(92_300).ok();
    let result = radio.save_preset(3);
    assert!(result.is_ok(), "saving to non-contiguous slot must succeed");
    assert_eq!(
        radio.preset_count(),
        4,
        "preset_count must reflect the highest used index + 1"
    );
}

#[test]
fn recall_preset_uninitialized_non_contiguous_slot_returns_invalid_preset() {
    let mut radio = make_radio();
    radio.power_on().ok();
    radio.tune(92_300).ok();
    radio.save_preset(3).ok();
    assert_eq!(radio.preset_count(), 4);

    let result = radio.recall_preset(1);
    assert_eq!(
        result,
        Err(FmError::InvalidPreset),
        "an unset-but-in-range slot must return the documented \
         InvalidPreset, not FrequencyOutOfRange"
    );
}

#[test]
fn fm_state_display() {
    assert_eq!(FmState::Off.to_string(), "off");
    assert_eq!(FmState::On.to_string(), "on");
    assert_eq!(
        FmState::Tuned {
            frequency_khz: 98_500
        }
        .to_string(),
        "tuned to 98.5 MHz"
    );
}

#[test]
fn a_failing_power_on_leaves_the_radio_off() {
    let mut hw = MockFmHw::new();
    hw.power_on_ok = false;
    let mut radio = FmRadio::new(hw);
    assert_eq!(radio.power_on(), Err(FmError::HardwareError));
    assert_eq!(radio.state(), FmState::Off);
}

#[test]
fn the_emulated_backend_steps_by_one_channel() {
    let mut radio = FmRadio::new(BootFmHw::new());
    radio.power_on().expect("power on");
    radio.tune(103_300).expect("tune");
    assert_eq!(radio.seek_up(), Ok(103_400));
    assert_eq!(radio.seek_down(), Ok(103_300));
    assert_eq!(seek_step(103_300, 100), 103_400);
}

#[test]
fn without_a_station_a_seek_moves_by_one_channel() {
    let mut radio = FmRadio::new(FmHw::new());
    radio.power_on().expect("power on");
    radio.tune(90_000).expect("tune");
    assert_eq!(radio.seek_up(), Ok(90_100));
    assert_eq!(radio.seek_down(), Ok(90_000));
    assert_eq!(radio.rssi(), -100);
}

#[test]
fn saved_presets_are_listed() {
    let mut radio = FmRadio::new(MockFmHw::new());
    radio.power_on().expect("power on");
    radio.tune(92_300).expect("tune");
    radio.save_preset(2).expect("save");
    assert_eq!(radio.presets(), &[None, None, Some(92_300)]);
    assert_eq!(radio.recall_preset(6), Err(FmError::InvalidPreset));
    radio.power_off().expect("power off");
    assert_eq!(radio.recall_preset(2), Err(FmError::NotPowered));
}

#[test]
fn errors_have_texts() {
    assert_eq!(FmError::HardwareError.to_string(), "FM hardware error");
    assert_eq!(FmError::NoStationFound.to_string(), "no FM station found");
    assert_eq!(FmError::NotPowered.to_string(), "FM radio not powered");
}

#[test]
fn a_station_off_the_grid_is_recalled_where_it_was() {
    let mut hw = MockFmHw::new();
    hw.seek_up_result = Some(99_550);
    let mut radio = FmRadio::new(hw);
    radio.power_on().expect("power");
    assert_eq!(radio.seek_up(), Ok(99_550));
    radio.save_preset(0).expect("save");
    radio.tune(101_000).expect("tune");
    radio.save_preset(3).expect("save");
    assert_eq!(radio.recall_preset(0), Ok(99_550));
    assert_eq!(radio.frequency(), Some(99_550));
    assert_eq!(radio.recall_preset(3), Ok(101_000));
    radio.power_off().expect("power");
    assert_eq!(radio.recall_preset(0), Err(FmError::NotPowered));
}

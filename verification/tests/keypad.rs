//! Boot keypad.
use thumos::board::{GPIO_BASE, GPIO_DIN_BASE, GPIO_DOUT_BASE};
use thumos::keypad::{
    column_register, gpio_reg, init_changes, release_row, select_row, BootKeypad, Debounce,
    GpioChange, Key, KeyMatrix, DEBOUNCE_THRESHOLD, KEY_MAP,
};

fn scan_n(kp: &mut BootKeypad, matrix: KeyMatrix, n: usize) -> Option<Key> {
    let mut out = None;
    for _ in 0..n {
        out = kp.poll_with_matrix(matrix);
    }
    out
}

#[test]
fn press_confirms_after_threshold_and_reports_once() {
    let mut kp = BootKeypad::new();
    let mut m = KeyMatrix::none();
    m.set(0, 0, true);

    for _ in 0..(DEBOUNCE_THRESHOLD - 1) {
        assert_eq!(kp.poll_with_matrix(m), None, "sub-threshold must not emit");
    }
    assert_eq!(kp.poll_with_matrix(m), Some(Key::Num1));
    assert_eq!(scan_n(&mut kp, m, 10), None, "a held key must not re-emit");
}

#[test]
fn release_rearms_the_key() {
    let mut kp = BootKeypad::new();
    let mut m = KeyMatrix::none();
    m.set(1, 1, true);

    scan_n(&mut kp, m, DEBOUNCE_THRESHOLD as usize);
    assert_eq!(
        scan_n(&mut kp, KeyMatrix::none(), DEBOUNCE_THRESHOLD as usize + 2),
        None,
        "release emits nothing on the boot path"
    );
    assert_eq!(
        scan_n(&mut kp, m, DEBOUNCE_THRESHOLD as usize),
        Some(Key::Num5),
        "key must re-arm after release"
    );
}

#[test]
fn bounce_never_confirms() {
    let mut kp = BootKeypad::new();
    let mut m = KeyMatrix::none();
    m.set(2, 2, true);
    for _ in 0..20 {
        assert_eq!(kp.poll_with_matrix(m), None);
        assert_eq!(kp.poll_with_matrix(KeyMatrix::none()), None);
    }
}

#[test]
fn key_map_layout_is_the_phone_pad() {
    assert_eq!(KEY_MAP[0], [Key::Num1, Key::Num2, Key::Num3]);
    assert_eq!(KEY_MAP[1], [Key::Num4, Key::Num5, Key::Num6]);
    assert_eq!(KEY_MAP[2], [Key::Num7, Key::Num8, Key::Num9]);
    assert_eq!(KEY_MAP[3], [Key::Star, Key::Num0, Key::Hash]);
}

#[test]
fn gpio_reg_addressing_matches_the_mt67xx_bank_formula() {
    let (addr, mask) = gpio_reg(GPIO_DOUT_BASE, 8);
    assert_eq!(addr, GPIO_BASE + GPIO_DOUT_BASE);
    assert_eq!(mask, 1 << 8);
    let (addr, mask) = gpio_reg(GPIO_DIN_BASE, 40);
    assert_eq!(addr, GPIO_BASE + GPIO_DIN_BASE + 8);
    assert_eq!(mask, 1 << 8);
}

#[test]
fn first_confirmed_press_wins_the_cycle() {
    let mut kp = BootKeypad::new();
    let mut m = KeyMatrix::none();
    m.set(0, 0, true);
    m.set(3, 2, true);
    assert_eq!(
        scan_n(&mut kp, m, DEBOUNCE_THRESHOLD as usize),
        Some(Key::Num1),
        "scan order is row-major; Num1 precedes Hash"
    );
}

#[test]
fn keys_behind_the_first_press_wait_for_the_next_cycle() {
    let mut kp = BootKeypad::new();
    let mut m = KeyMatrix::none();
    m.set(0, 0, true);
    m.set(3, 2, true);
    assert_eq!(scan_n(&mut kp, m, 3), Some(Key::Num1));
    assert_eq!(kp.poll_with_matrix(m), Some(Key::Hash));
    assert_eq!(kp.poll_with_matrix(m), None);
}

#[test]
fn only_presses_are_told_after_three_readings() {
    let mut d = Debounce::new();
    assert_eq!(d.update(true), None);
    assert_eq!(d.update(true), None);
    assert_eq!(d.update(true), Some(true));
    assert_eq!(d.update(true), None);
    assert_eq!(d.update(false), None);
    assert_eq!(d.update(true), None);
    assert_eq!(d.update(false), None);
    assert_eq!(d.update(false), None);
    assert!(d.stable, "two readings are not enough");
    assert_eq!(d.update(false), None, "a release only changes the state");
    assert!(!d.stable);
    assert_eq!(d.update(true), None);
    assert_eq!(d.update(true), None);
    assert_eq!(d.update(true), Some(true));
}

#[test]
fn a_matrix_keeps_its_other_keys() {
    let mut m = KeyMatrix::none();
    for row in 0..4 {
        for col in 0..3 {
            assert!(!m.is_pressed(row, col));
            m.set(row, col, true);
            assert!(m.is_pressed(row, col));
        }
    }
    m.set(2, 1, false);
    assert!(!m.is_pressed(2, 1));
    assert!(m.is_pressed(2, 0) && m.is_pressed(2, 2) && m.is_pressed(1, 1));
}

#[test]
fn a_low_column_is_a_pressed_key() {
    let mut m = KeyMatrix::none();
    // Columns are bits 12 to 14 of their register.
    m.record_row(1, !(1u32 << 13));
    assert!(!m.is_pressed(1, 0));
    assert!(m.is_pressed(1, 1));
    assert!(!m.is_pressed(1, 2));
    assert!(!m.is_pressed(0, 1));
    m.record_row(1, u32::MAX);
    assert_eq!(m, KeyMatrix::none());
}

#[test]
fn rows_are_outputs_and_columns_pulled_up_inputs() {
    let changes = init_changes();
    assert_eq!(changes.len(), 4 * 2 + 3 * 3);
    assert_eq!(changes[0], GpioChange::Raise(GPIO_BASE + 8, 1 << 8));
    assert_eq!(
        changes[1],
        GpioChange::Raise(GPIO_BASE + GPIO_DOUT_BASE + 8, 1 << 8)
    );
    assert_eq!(changes[8], GpioChange::Lower(GPIO_BASE + 8, 1 << 12));
    assert_eq!(
        select_row(3),
        GpioChange::Lower(GPIO_BASE + GPIO_DOUT_BASE + 8, 1 << 11)
    );
    assert_eq!(
        release_row(3),
        GpioChange::Raise(GPIO_BASE + GPIO_DOUT_BASE + 8, 1 << 11)
    );
    assert_eq!(column_register(), GPIO_BASE + GPIO_DIN_BASE + 8);
}

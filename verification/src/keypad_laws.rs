//! What the boot keypad promises.
use crate::board::{
    col_pin, row_pin, GPIO_BASE, GPIO_DIN_BASE, GPIO_DIR_BASE, GPIO_DOUT_BASE, GPIO_PULLEN_BASE,
    GPIO_PULLSEL_BASE,
};
use crate::keypad::{
    col_setup, column_is_low, key_of, lowered, pin_mask, pin_register, raised, reported, row_setup,
    scanned, Debounce, GpioChange, Key, KeyMatrix,
};
use vstd::prelude::*;

verus! {

/// Law: the keys stand as on a telephone: the digits from one on in rows of three, zero between
/// star and hash in the last row.
pub proof fn law_keys_stand_as_on_a_telephone(n: int)
    requires
        0 <= n < 12,
    ensures
        n == 0 ==> key_of(n) == Key::Num1,
        n == 1 ==> key_of(n) == Key::Num2,
        n == 2 ==> key_of(n) == Key::Num3,
        n == 3 ==> key_of(n) == Key::Num4,
        n == 4 ==> key_of(n) == Key::Num5,
        n == 5 ==> key_of(n) == Key::Num6,
        n == 6 ==> key_of(n) == Key::Num7,
        n == 7 ==> key_of(n) == Key::Num8,
        n == 8 ==> key_of(n) == Key::Num9,
        n == 9 ==> key_of(n) == Key::Star,
        n == 10 ==> key_of(n) == Key::Num0,
        n == 11 ==> key_of(n) == Key::Hash,
        reported(Some(n)) == Some(key_of(n)),
        reported(None) is None,
{
}

/// Law: no two places of the matrix hold the same key.
pub proof fn law_keys_are_told_apart(a: int, b: int)
    requires
        0 <= a < 12,
        0 <= b < 12,
        key_of(a) == key_of(b),
    ensures
        a == b,
{
    law_keys_stand_as_on_a_telephone(a);
    law_keys_stand_as_on_a_telephone(b);
}

/// Law: thirty-two pins share a register, the registers of a bank are eight bytes apart, and
/// each pin has a bit of its own: register and bit tell which pin it is.
pub proof fn law_each_pin_has_a_bit_of_its_own(bank: int, a: int, b: int)
    requires
        0 <= a,
        0 <= b,
    ensures
        pin_register(bank, 0) == GPIO_BASE + bank,
        pin_register(bank, a + 32) == pin_register(bank, a) + 8,
        a / 32 == b / 32 <==> pin_register(bank, a) == pin_register(bank, b),
        pin_register(bank, a) == pin_register(bank, b) && pin_mask(a) == pin_mask(b) ==> a == b,
        pin_mask(a) != 0,
        pin_mask(0) == 1,
        a % 32 < 31 ==> pin_mask(a + 1) == 2 * pin_mask(a),
{
    assert((a + 32) / 32 == a / 32 + 1);
    let i = (a % 32) as u32;
    let j = (b % 32) as u32;
    assert(i < 32 && j < 32 && 1u32 << i == 1u32 << j ==> i == j) by (bit_vector);
    assert(i < 32 ==> 1u32 << i != 0) by (bit_vector);
    assert(1u32 << 0u32 == 1) by (bit_vector);
    if a % 32 < 31 {
        let k = (i + 1) as u32;
        assert((a + 1) % 32 == k);
        assert(1u32 << k == 2 * (1u32 << i)) by (bit_vector)
            requires
                k == i + 1,
                i < 31,
        ;
    }
}

/// Law: the rows and columns are on seven pins of their own, all of one register in each bank.
pub proof fn law_the_matrix_has_seven_pins(bank: int, row: int, col: int, other: int)
    requires
        0 <= row < 4,
        0 <= col < 3,
    ensures
        row_pin(row) == 40 + row,
        col_pin(col) == row_pin(4) + col,
        row_pin(row) != col_pin(col),
        pin_register(bank, row_pin(row)) == GPIO_BASE + bank + 8,
        pin_register(bank, col_pin(col)) == GPIO_BASE + bank + 8,
{
}

/// Law: a column is low exactly where its bit of the word is clear, whatever the other bits.
pub proof fn law_a_pressed_key_pulls_its_column_low(word: u32, col: int)
    requires
        0 <= col < 3,
    ensures
        column_is_low(word, col) <==> word & pin_mask(col_pin(col)) == 0,
{
    let c = (col_pin(col) % 32) as u32;
    assert(c < 32 ==> (!((word >> c) & 1 == 1) <==> word & (1u32 << c) == 0)) by (bit_vector);
}

/// Law: the matrix is configured pin by pin: each row becomes an output and is driven high,
/// each column an input with its pull-up, and nothing else is touched.
pub proof fn law_the_matrix_is_configured_pin_by_pin(row: int, col: int)
    requires
        0 <= row < 4,
        0 <= col < 3,
    ensures
        row_setup(4).len() == 8,
        row_setup(4)[2 * row] == GpioChange::Raise(
            (GPIO_BASE + GPIO_DIR_BASE + 8) as usize,
            pin_mask(40 + row),
        ),
        row_setup(4)[2 * row + 1] == GpioChange::Raise(
            (GPIO_BASE + GPIO_DOUT_BASE + 8) as usize,
            pin_mask(40 + row),
        ),
        col_setup(3).len() == 9,
        col_setup(3)[3 * col] == GpioChange::Lower(
            (GPIO_BASE + GPIO_DIR_BASE + 8) as usize,
            pin_mask(44 + col),
        ),
        col_setup(3)[3 * col + 1] == GpioChange::Raise(
            (GPIO_BASE + GPIO_PULLEN_BASE + 8) as usize,
            pin_mask(44 + col),
        ),
        col_setup(3)[3 * col + 2] == GpioChange::Raise(
            (GPIO_BASE + GPIO_PULLSEL_BASE + 8) as usize,
            pin_mask(44 + col),
        ),
{
    reveal_with_fuel(row_setup, 5);
    reveal_with_fuel(col_setup, 4);
    assert(row == 0 || row == 1 || row == 2 || row == 3);
    assert(col == 0 || col == 1 || col == 2);
}

/// Law: releasing a row undoes selecting it: both speak of the same bit of the output bank,
/// which no other row has.
pub proof fn law_rows_are_selected_one_at_a_time(row: int, other: int)
    requires
        0 <= row < 4,
        0 <= other < 4,
    ensures
        lowered(GPIO_DOUT_BASE, row_pin(row)) == GpioChange::Lower(
            (GPIO_BASE + GPIO_DOUT_BASE + 8) as usize,
            pin_mask(40 + row),
        ),
        raised(GPIO_DOUT_BASE, row_pin(row)) == GpioChange::Raise(
            (GPIO_BASE + GPIO_DOUT_BASE + 8) as usize,
            pin_mask(40 + row),
        ),
        lowered(GPIO_DOUT_BASE, row_pin(row)) == lowered(GPIO_DOUT_BASE, row_pin(other)) ==> row
            == other,
{
    law_each_pin_has_a_bit_of_its_own(GPIO_DOUT_BASE as int, row_pin(row), row_pin(other));
}

/// Law: the banks of the controller lie apart, each with room for its registers.
pub proof fn law_banks_lie_apart()
    ensures
        GPIO_DIR_BASE == 0,
        GPIO_DOUT_BASE == GPIO_DIR_BASE + 0x100,
        GPIO_DIN_BASE == GPIO_DOUT_BASE + 0x100,
        GPIO_PULLEN_BASE == GPIO_DIN_BASE + 0x100,
        GPIO_PULLSEL_BASE == GPIO_PULLEN_BASE + 0x100,
        GPIO_BASE == 0x1000_5000,
{
}

/// Whether a snapshot shows one key down and no other.
pub open spec fn only(matrix: KeyMatrix, key: int) -> bool {
    forall|k: int| 0 <= k < 12 ==> (#[trigger] matrix.has(k) <==> k == key)
}

/// The state of a key that was seen down in `n` polls after a rest.
pub open spec fn held(n: u8) -> Debounce {
    Debounce { stable: n >= 3, candidate: n >= 1, count: n }
}

/// Whether a key rests: released, with any number of readings that say so.
pub open spec fn resting(d: Debounce) -> bool {
    !d.stable && !d.candidate && d.count <= 3
}

/// One poll while only one key is down.
proof fn lemma_poll(states: Seq<Debounce>, matrix: KeyMatrix, key: int, n: u8, from: int)
    requires
        states.len() == 12,
        0 <= from <= 12,
        0 <= key < 12,
        n < 3,
        only(matrix, key),
        forall|k: int| 0 <= k < 12 && k != key ==> resting(#[trigger] states[k]),
        from <= key ==> if n == 0 {
            resting(states[key])
        } else {
            states[key] == held(n)
        },
    ensures
        ({
            let (next, told) = scanned(states, matrix, from);
            &&& next.len() == 12
            &&& forall|k: int| 0 <= k < 12 && k != key ==> resting(#[trigger] next[k])
            &&& next[key] == if from <= key {
                held((n + 1) as u8)
            } else {
                states[key]
            }
            &&& told == if from <= key && n == 2 {
                Some(key)
            } else {
                None::<int>
            }
        }),
    decreases 12 - from,
{
    if from < 12 {
        let (d, level) = states[from].fed(matrix.has(from));
        let next = states.update(from, d);
        assert(matrix.has(from) <==> from == key);
        if !(from == key && n == 2) {
            lemma_poll(next, matrix, key, n, from + 1);
        }
    }
}

/// Law: a key that is down in three polls in a row, while the others rest, is told in the third
/// of them and not before, and not again in a fourth.
pub proof fn law_three_polls_tell_a_key(states: Seq<Debounce>, matrix: KeyMatrix, key: int)
    requires
        states.len() == 12,
        forall|k: int| 0 <= k < 12 ==> resting(#[trigger] states[k]),
        0 <= key < 12,
        only(matrix, key),
    ensures
        ({
            let a = scanned(states, matrix, 0);
            let b = scanned(a.0, matrix, 0);
            let c = scanned(b.0, matrix, 0);
            &&& reported(a.1) is None
            &&& reported(b.1) is None
            &&& reported(c.1) == Some(key_of(key))
            &&& reported(scanned(c.0, matrix, 0).1) is None
        }),
{
    lemma_poll(states, matrix, key, 0, 0);
    let a = scanned(states, matrix, 0).0;
    lemma_poll(a, matrix, key, 1, 0);
    let b = scanned(a, matrix, 0).0;
    lemma_poll(b, matrix, key, 2, 0);
    let c = scanned(b, matrix, 0).0;
    assert forall|k: int| 0 <= k < 12 && matrix.has(k) implies (#[trigger] c[k]).stable by {
        assert(k == key);
    }
    crate::keypad::law_held_keys_stay_silent(c, matrix);
}

/// Law: a fresh keypad is at rest.
pub proof fn law_a_fresh_key_rests()
    ensures
        resting(Debounce::fresh()),
{
}

} // verus!

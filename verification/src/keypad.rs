//! Boot-time keypad matrix reader.
//!
//! A poll-based scan of the key matrix for the boot passphrase gate: each poll
//! takes one snapshot of the matrix, debounces every key and reports the first
//! newly confirmed press. There is no input queue and there are no release or
//! hold events.
use crate::board::{
    col_pin, keypad_col_pin, keypad_row_pin, row_pin, GPIO_BASE, GPIO_DIN_BASE, GPIO_DIR_BASE,
    GPIO_DOUT_BASE, GPIO_PULLEN_BASE, GPIO_PULLSEL_BASE,
};
use vstd::prelude::*;

verus! {

/// A key of the phone.
#[derive(Clone, Copy, PartialEq, Eq, Structural, Debug)]
pub enum Key {
    Num0,
    Num1,
    Num2,
    Num3,
    Num4,
    Num5,
    Num6,
    Num7,
    Num8,
    Num9,
    Star,
    Hash,
    /// Right soft key.
    Rsk,
    /// End call / power.
    End,
}

/// Number of row lines in the key matrix.
pub const ROW_COUNT: usize = 4;

/// Number of column lines in the key matrix.
pub const COL_COUNT: usize = 3;

/// Total keys in the matrix.
pub const KEY_COUNT: usize = 12;

/// Consecutive identical scans required before a transition is accepted.
pub const DEBOUNCE_THRESHOLD: u8 = 3;

/// Key lookup table indexed by `[row][col]`: the standard 4x3 phone layout.
pub const KEY_MAP: [[Key; COL_COUNT]; ROW_COUNT] = [
    [Key::Num1, Key::Num2, Key::Num3],
    [Key::Num4, Key::Num5, Key::Num6],
    [Key::Num7, Key::Num8, Key::Num9],
    [Key::Star, Key::Num0, Key::Hash],
];

/// The address of the register of a pin in the bank at `bank_base`.
pub open spec fn pin_register(bank_base: int, pin: int) -> int {
    GPIO_BASE + bank_base + pin / 32 * 8
}

/// The bit of a pin within its register.
pub open spec fn pin_mask(pin: int) -> u32 {
    1u32 << ((pin % 32) as u32)
}

/// Register address and bit mask for `pin` within the register bank at
/// `bank_base` (an offset from the GPIO base). Each register controls 32 pins; the
/// address stride is 8.
pub fn gpio_reg(bank_base: usize, pin: u8) -> (r: (usize, u32))
    requires
        pin_register(bank_base as int, pin as int) <= usize::MAX,
    ensures
        r.0 == pin_register(bank_base as int, pin as int),
        r.1 == pin_mask(pin as int),
{
    let bank: usize = (pin / 32) as usize;
    let bit: u32 = (pin % 32) as u32;
    (GPIO_BASE + bank_base + bank * 8, 1u32 << bit)
}

// ---------------------------------------------------------------------------
// Matrix snapshot
// ---------------------------------------------------------------------------

/// Snapshot of every matrix key's pressed state: bit `row * COL_COUNT + col` is
/// set when that key is currently pressed.
#[derive(Clone, Copy, PartialEq, Eq, Structural, Debug)]
pub struct KeyMatrix(u16);

impl KeyMatrix {
    /// Whether the key with a number is pressed.
    pub closed spec fn has(self, key: int) -> bool {
        (self.0 >> (key as u16)) & 1 == 1
    }

    /// All keys released.
    pub fn none() -> (r: Self)
        ensures
            forall|k: int| 0 <= k < 16 ==> !r.has(k),
    {
        assert forall|k: int| 0 <= k < 16 implies !KeyMatrix(0).has(k) by {
            let b = k as u16;
            assert((0u16 >> b) & 1 == 0) by (bit_vector);
        }
        KeyMatrix(0)
    }

    /// Whether the key at (`row`, `col`) is pressed in this snapshot.
    pub fn is_pressed(self, row: usize, col: usize) -> (r: bool)
        requires
            row * COL_COUNT + col < 16,
        ensures
            r == self.has(row * COL_COUNT + col),
    {
        let bit: u16 = (row * COL_COUNT + col) as u16;
        (self.0 >> bit) & 1 == 1
    }

    /// Set or clear the bit for (`row`, `col`).
    pub fn set(&mut self, row: usize, col: usize, pressed: bool)
        requires
            row * COL_COUNT + col < 16,
        ensures
            forall|k: int|
                0 <= k < 16 ==> final(self).has(k) == if k == row * COL_COUNT + col {
                    pressed
                } else {
                    old(self).has(k)
                },
    {
        let bit: u16 = (row * COL_COUNT + col) as u16;
        let ghost before = self.0;
        if pressed {
            self.0 = self.0 | (1u16 << bit);
            assert forall|k: int| 0 <= k < 16 implies self.has(k) == if k == bit {
                true
            } else {
                KeyMatrix(before).has(k)
            } by {
                let b = k as u16;
                assert(((before | (1u16 << bit)) >> b) & 1 == if b == bit {
                    1u16
                } else {
                    (before >> b) & 1
                }) by (bit_vector)
                    requires
                        b < 16,
                        bit < 16,
                ;
            }
        } else {
            self.0 = self.0 & !(1u16 << bit);
            assert forall|k: int| 0 <= k < 16 implies self.has(k) == if k == bit {
                false
            } else {
                KeyMatrix(before).has(k)
            } by {
                let b = k as u16;
                assert(((before & !(1u16 << bit)) >> b) & 1 == if b == bit {
                    0u16
                } else {
                    (before >> b) & 1
                }) by (bit_vector)
                    requires
                        b < 16,
                        bit < 16,
                ;
            }
        }
    }

    /// Take over the levels of one row, read from the data-in register while the
    /// row is driven low: a pressed key pulls its column low.
    pub fn record_row(&mut self, row: usize, din_word: u32)
        requires
            row < ROW_COUNT,
        ensures
            forall|k: int|
                0 <= k < 16 ==> final(self).has(k) == if row * COL_COUNT <= k < row * COL_COUNT
                    + COL_COUNT {
                    column_is_low(din_word, k - row * COL_COUNT)
                } else {
                    old(self).has(k)
                },
    {
        let mut col: usize = 0;
        while col < COL_COUNT
            invariant
                col <= COL_COUNT,
                row < ROW_COUNT,
                forall|k: int|
                    0 <= k < 16 ==> self.has(k) == if row * COL_COUNT <= k < row * COL_COUNT + col {
                        column_is_low(din_word, k - row * COL_COUNT)
                    } else {
                        old(self).has(k)
                    },
            decreases COL_COUNT - col,
        {
            let col_bit: u32 = (keypad_col_pin(col) % 32) as u32;
            let high: bool = (din_word >> col_bit) & 1 == 1;
            self.set(row, col, !high);
            col += 1;
        }
    }
}

/// Whether a column of the matrix reads low.
pub open spec fn column_is_low(din_word: u32, col: int) -> bool {
    !((din_word >> ((col_pin(col) % 32) as u32)) & 1 == 1)
}

// ---------------------------------------------------------------------------
// Debounce
// ---------------------------------------------------------------------------

/// Per-key debounce state: the accepted stable level plus the candidate level
/// accumulating confirmations.
#[derive(Clone, Copy, Debug)]
pub struct Debounce {
    /// The stable (accepted) pressed state.
    pub stable: bool,
    /// Candidate state currently accumulating confirmations.
    pub candidate: bool,
    /// Consecutive scans agreeing on `candidate`.
    pub count: u8,
}

impl Debounce {
    /// A released key without history.
    pub open spec fn fresh() -> Debounce {
        Debounce { stable: false, candidate: false, count: 0 }
    }

    /// The state after one raw reading, and `Some(true)` where it confirmed a press. A
    /// confirmed release only changes the state.
    pub open spec fn fed(self, pressed: bool) -> (Debounce, Option<bool>) {
        if pressed == self.candidate {
            let count = if self.count < DEBOUNCE_THRESHOLD {
                (self.count + 1) as u8
            } else {
                self.count
            };
            if count >= DEBOUNCE_THRESHOLD && pressed != self.stable {
                (
                    Debounce { stable: pressed, count, ..self },
                    if pressed {
                        Some(true)
                    } else {
                        None
                    },
                )
            } else {
                (Debounce { count, ..self }, None)
            }
        } else {
            (Debounce { candidate: pressed, count: 1, ..self }, None)
        }
    }

    /// The state after a history of readings.
    pub open spec fn after(readings: Seq<bool>) -> Debounce
        decreases readings.len(),
    {
        if readings.len() == 0 {
            Debounce::fresh()
        } else {
            Debounce::after(readings.drop_last()).fed(readings.last()).0
        }
    }

    /// Whether the last reading of a history confirmed a press.
    pub open spec fn confirms(readings: Seq<bool>) -> bool {
        readings.len() > 0 && Debounce::after(readings.drop_last()).fed(readings.last()).1 == Some(
            true,
        )
    }

    /// A released key without history.
    pub fn new() -> (r: Self)
        ensures
            r == Debounce::fresh(),
    {
        Debounce { stable: false, candidate: false, count: 0 }
    }

    /// Feed one raw reading. Returns `Some(true)` exactly on the scan that confirms a
    /// press; releases and sub-threshold wiggle only update internal state.
    pub fn update(&mut self, pressed: bool) -> (r: Option<bool>)
        ensures
            (*final(self), r) == old(self).fed(pressed),
    {
        if pressed == self.candidate {
            if self.count < DEBOUNCE_THRESHOLD {
                self.count = self.count + 1;
            }
            if self.count >= DEBOUNCE_THRESHOLD && pressed != self.stable {
                self.stable = pressed;
                if pressed {
                    return Some(true);
                }
            }
        } else {
            self.candidate = pressed;
            self.count = 1;
        }
        None
    }
}

/// Whether the last three readings of a history agree on a level.
pub open spec fn last_three_are(readings: Seq<bool>, level: bool) -> bool {
    let n = readings.len();
    n >= 3 && readings[n - 1] == level && readings[n - 2] == level && readings[n - 3] == level
}

/// The counter counts the agreeing readings at the end of a history, up to the
/// threshold.
proof fn lemma_count(readings: Seq<bool>)
    ensures
        ({
            let d = Debounce::after(readings);
            let n = readings.len();
            &&& d.count <= DEBOUNCE_THRESHOLD
            &&& d.count <= n
            &&& forall|k: int| 1 <= k <= d.count ==> #[trigger] readings[n - k] == d.candidate
            &&& n > 0 ==> d.count > 0
        }),
    decreases readings.len(),
{
    if readings.len() > 0 {
        let before = readings.drop_last();
        lemma_count(before);
        let d = Debounce::after(readings);
        let n = readings.len();
        assert forall|k: int| 1 <= k <= d.count implies #[trigger] readings[n - k]
            == d.candidate by {
            if k > 1 {
                assert(before[(n - 1) - (k - 1)] == readings[n - k]);
            }
        }
    }
}

/// The accepted level changes only where the last three scans agree on the new one.
proof fn lemma_level_change(readings: Seq<bool>)
    requires
        readings.len() > 0,
        Debounce::after(readings).stable != Debounce::after(readings.drop_last()).stable,
    ensures
        last_three_are(readings, Debounce::after(readings).stable),
{
    lemma_count(readings);
    let d = Debounce::after(readings);
    let n = readings.len();
    assert(d.candidate == d.stable);
    assert(d.count == 3);
    assert(readings[n - 1] == d.stable);
    assert(readings[n - 2] == d.stable);
    assert(readings[n - 3] == d.stable);
}

/// Law: a press is confirmed only where the last three scans see the key down.
pub proof fn law_press_needs_three_scans(readings: Seq<bool>)
    requires
        Debounce::confirms(readings),
    ensures
        last_three_are(readings, true),
{
    lemma_level_change(readings);
}

/// Law: a press is confirmed exactly where the key goes from released to pressed;
/// nothing else is ever told, and a release never is.
pub proof fn law_only_presses_are_told(d: Debounce, pressed: bool)
    ensures
        d.fed(pressed).1 == Some(true) <==> !d.stable && d.fed(pressed).0.stable,
        d.fed(pressed).1 == Some(true) || d.fed(pressed).1 is None,
        !pressed ==> d.fed(pressed).1 is None,
{
}

/// Law: three agreeing scans make the level stable.
pub proof fn law_three_scans_settle(readings: Seq<bool>, level: bool)
    requires
        last_three_are(readings, level),
    ensures
        Debounce::after(readings).stable == level,
{
    let a = readings.drop_last();
    let b = a.drop_last();
    let c = b.drop_last();
    assert(readings.last() == level && a.last() == level && b.last() == level);
    let d0 = Debounce::after(c);
    lemma_settled(c);
    let d1 = d0.fed(level).0;
    let d2 = d1.fed(level).0;
    let d3 = d2.fed(level).0;
    assert(Debounce::after(b) == d1);
    assert(Debounce::after(a) == d2);
    assert(Debounce::after(readings) == d3);
}

/// A counter at the threshold means that the candidate was accepted.
proof fn lemma_settled(readings: Seq<bool>)
    ensures
        Debounce::after(readings).count <= DEBOUNCE_THRESHOLD,
        Debounce::after(readings).count == DEBOUNCE_THRESHOLD ==> Debounce::after(readings).stable
            == Debounce::after(readings).candidate,
    decreases readings.len(),
{
    if readings.len() > 0 {
        lemma_settled(readings.drop_last());
    }
}

/// Law: a press is reported once. Between two reports of a press there are three
/// scans in a row in which the key is released.
pub proof fn law_press_needs_a_release_first(readings: Seq<bool>, first: int, second: int)
    requires
        0 < first < second <= readings.len(),
        Debounce::confirms(readings.take(first)),
        Debounce::confirms(readings.take(second)),
    ensures
        exists|k: int|
            first < k < second && #[trigger] last_three_are(readings.take(k), false),
{
    lemma_stays_stable(readings, first, second - 1);
    assert(readings.take(second).drop_last() =~= readings.take(second - 1));
}

/// After a confirmed press the key stays pressed unless three scans in a row say
/// otherwise.
proof fn lemma_stays_stable(readings: Seq<bool>, first: int, now: int)
    requires
        0 < first <= now <= readings.len(),
        Debounce::confirms(readings.take(first)),
    ensures
        Debounce::after(readings.take(now)).stable || exists|k: int|
            first < k <= now && #[trigger] last_three_are(readings.take(k), false),
    decreases now - first,
{
    if now > first {
        lemma_stays_stable(readings, first, now - 1);
        assert(readings.take(now).drop_last() =~= readings.take(now - 1));
        if Debounce::after(readings.take(now - 1)).stable && !Debounce::after(
            readings.take(now),
        ).stable {
            lemma_level_change(readings.take(now));
            assert(last_three_are(readings.take(now), false));
        }
    }
}

// ---------------------------------------------------------------------------
// Keypad
// ---------------------------------------------------------------------------

/// Boot keypad scanner: one scan cycle per poll, debounce per key, emits the first
/// confirmed press of the cycle.
pub struct BootKeypad {
    /// Per-key debounce state, laid out as `row * COL_COUNT + col`.
    debounce: [Debounce; KEY_COUNT],
}

impl View for BootKeypad {
    type V = Seq<Debounce>;

    closed spec fn view(&self) -> Seq<Debounce> {
        self.debounce@
    }
}

/// One scan cycle over the keys from `from` on: the debounce states behind it, and
/// the number of the first key whose press it confirmed. The keys behind that one
/// wait for the next cycle.
pub open spec fn scanned(states: Seq<Debounce>, matrix: KeyMatrix, from: int) -> (
    Seq<Debounce>,
    Option<int>,
)
    decreases states.len() - from,
{
    if from < 0 || from >= states.len() {
        (states, None)
    } else {
        let (d, level) = states[from].fed(matrix.has(from));
        let next = states.update(from, d);
        if level == Some(true) {
            (next, Some(from))
        } else {
            scanned(next, matrix, from + 1)
        }
    }
}

/// The key with a number in row-major order.
pub open spec fn key_of(number: int) -> Key {
    KEY_MAP@[number / 3]@[number % 3]
}

/// The key of a scan.
pub open spec fn reported(number: Option<int>) -> Option<Key> {
    match number {
        Some(k) => Some(key_of(k)),
        None => None,
    }
}

impl BootKeypad {
    /// A fresh scanner (all keys released, no history).
    pub fn new() -> (r: Self)
        ensures
            r@ == Seq::new(KEY_COUNT as nat, |i: int| Debounce::fresh()),
    {
        let fresh = Debounce::new();
        let r = BootKeypad { debounce: [fresh; KEY_COUNT] };
        assert(r@ =~= Seq::new(KEY_COUNT as nat, |i: int| Debounce::fresh()));
        r
    }

    /// Feed one raw matrix snapshot, get back `Some(key)` on the first
    /// newly-confirmed press this cycle.
    pub fn poll_with_matrix(&mut self, matrix: KeyMatrix) -> (r: Option<Key>)
        ensures
            final(self)@ == scanned(old(self)@, matrix, 0).0,
            r == reported(scanned(old(self)@, matrix, 0).1),
    {
        let mut row: usize = 0;
        while row < ROW_COUNT
            invariant
                row <= ROW_COUNT,
                scanned(old(self)@, matrix, 0) == scanned(self@, matrix, row * COL_COUNT),
            decreases ROW_COUNT - row,
        {
            let mut col: usize = 0;
            while col < COL_COUNT
                invariant
                    row < ROW_COUNT,
                    col <= COL_COUNT,
                    scanned(old(self)@, matrix, 0) == scanned(
                        self@,
                        matrix,
                        row * COL_COUNT + col,
                    ),
                decreases COL_COUNT - col,
            {
                let pressed: bool = matrix.is_pressed(row, col);
                let k: usize = row * COL_COUNT + col;
                let ghost before = self@;
                let mut slot = self.debounce[k];
                let level = slot.update(pressed);
                self.debounce[k] = slot;
                assert(self@ =~= before.update(k as int, slot));
                if let Some(true) = level {
                    assert(k as int / 3 == row && k as int % 3 == col);
                    return Some(KEY_MAP[row][col]);
                }
                col += 1;
            }
            row += 1;
        }
        None
    }
}

/// Where a scan reports a key, that key was confirmed, and no key before it in
/// row-major order was.
proof fn lemma_scanned(states: Seq<Debounce>, matrix: KeyMatrix, from: int)
    requires
        0 <= from <= states.len(),
    ensures
        scanned(states, matrix, from).0.len() == states.len(),
        match scanned(states, matrix, from).1 {
            Some(n) => from <= n < states.len() && states[n].fed(matrix.has(n)).1 == Some(true)
                && forall|k: int|
                from <= k < n ==> (#[trigger] states[k]).fed(matrix.has(k)).1 != Some(true),
            None => forall|k: int|
                from <= k < states.len() ==> (#[trigger] states[k]).fed(matrix.has(k)).1 != Some(
                    true,
                ),
        },
        forall|k: int|
            0 <= k < states.len() ==> #[trigger] scanned(states, matrix, from).0[k] == (if k < from
                || (scanned(states, matrix, from).1 matches Some(n) && k > n) {
                states[k]
            } else {
                states[k].fed(matrix.has(k)).0
            }),
    decreases states.len() - from,
{
    if from < states.len() {
        let (d, level) = states[from].fed(matrix.has(from));
        let next = states.update(from, d);
        if level != Some(true) {
            lemma_scanned(next, matrix, from + 1);
            assert forall|k: int| from < k < states.len() implies next[k] == #[trigger] states[k] by {
            }
        }
    }
}

/// Law: a poll reports a key exactly where a press is confirmed, and the first in
/// row-major order wins the cycle. The reported key is down in the snapshot and
/// was up before.
pub proof fn law_first_confirmed_press_wins(states: Seq<Debounce>, matrix: KeyMatrix)
    ensures
        match scanned(states, matrix, 0).1 {
            Some(n) => 0 <= n < states.len() && states[n].fed(matrix.has(n)).1 == Some(true)
                && matrix.has(n) && !states[n].stable && forall|k: int|
                0 <= k < n ==> (#[trigger] states[k]).fed(matrix.has(k)).1 != Some(true),
            None => forall|k: int|
                0 <= k < states.len() ==> (#[trigger] states[k]).fed(matrix.has(k)).1 != Some(
                    true,
                ),
        },
{
    lemma_scanned(states, matrix, 0);
}

/// Law: a held key is not reported again.
pub proof fn law_held_keys_stay_silent(states: Seq<Debounce>, matrix: KeyMatrix)
    requires
        forall|k: int| 0 <= k < states.len() && matrix.has(k) ==> (#[trigger] states[k]).stable,
    ensures
        scanned(states, matrix, 0).1 is None,
{
    lemma_scanned(states, matrix, 0);
}

// ---------------------------------------------------------------------------
// Register accesses
// ---------------------------------------------------------------------------

/// A change of a register: bits to set or bits to clear.
#[derive(Clone, Copy, PartialEq, Eq, Structural, Debug)]
pub enum GpioChange {
    /// Set the bits of the mask in the register at the address.
    Raise(usize, u32),
    /// Clear the bits of the mask in the register at the address.
    Lower(usize, u32),
}

/// Set the bit of a pin in a bank.
pub open spec fn raised(bank_base: usize, pin: int) -> GpioChange {
    GpioChange::Raise(pin_register(bank_base as int, pin) as usize, pin_mask(pin))
}

/// Clear the bit of a pin in a bank.
pub open spec fn lowered(bank_base: usize, pin: int) -> GpioChange {
    GpioChange::Lower(pin_register(bank_base as int, pin) as usize, pin_mask(pin))
}

/// The changes that configure the first rows: outputs driven high (inactive).
pub open spec fn row_setup(rows: int) -> Seq<GpioChange>
    decreases rows,
{
    if rows <= 0 {
        Seq::empty()
    } else {
        row_setup(rows - 1).push(raised(GPIO_DIR_BASE, row_pin(rows - 1))).push(
            raised(GPIO_DOUT_BASE, row_pin(rows - 1)),
        )
    }
}

/// The changes that configure the first columns: inputs with pull-up.
pub open spec fn col_setup(cols: int) -> Seq<GpioChange>
    decreases cols,
{
    if cols <= 0 {
        Seq::empty()
    } else {
        col_setup(cols - 1).push(lowered(GPIO_DIR_BASE, col_pin(cols - 1))).push(
            raised(GPIO_PULLEN_BASE, col_pin(cols - 1)),
        ).push(raised(GPIO_PULLSEL_BASE, col_pin(cols - 1)))
    }
}

/// The register changes that configure the matrix: rows as outputs driven high
/// (inactive), columns as inputs with pull-up.
pub fn init_changes() -> (r: Vec<GpioChange>)
    ensures
        r@ == row_setup(ROW_COUNT as int) + col_setup(COL_COUNT as int),
{
    let mut out: Vec<GpioChange> = Vec::new();
    let mut row: usize = 0;
    while row < ROW_COUNT
        invariant
            row <= ROW_COUNT,
            out@ == row_setup(row as int),
        decreases ROW_COUNT - row,
    {
        let pin: u8 = keypad_row_pin(row);
        let (dir_addr, dir_mask) = gpio_reg(GPIO_DIR_BASE, pin);
        out.push(GpioChange::Raise(dir_addr, dir_mask));
        let (dout_addr, dout_mask) = gpio_reg(GPIO_DOUT_BASE, pin);
        out.push(GpioChange::Raise(dout_addr, dout_mask));
        row += 1;
    }
    let mut col: usize = 0;
    assert(out@ =~= row_setup(ROW_COUNT as int) + col_setup(0));
    while col < COL_COUNT
        invariant
            col <= COL_COUNT,
            out@ == row_setup(ROW_COUNT as int) + col_setup(col as int),
        decreases COL_COUNT - col,
    {
        let pin: u8 = keypad_col_pin(col);
        let (dir_addr, dir_mask) = gpio_reg(GPIO_DIR_BASE, pin);
        out.push(GpioChange::Lower(dir_addr, dir_mask));
        let (pullen_addr, pullen_mask) = gpio_reg(GPIO_PULLEN_BASE, pin);
        out.push(GpioChange::Raise(pullen_addr, pullen_mask));
        let (pullsel_addr, pullsel_mask) = gpio_reg(GPIO_PULLSEL_BASE, pin);
        out.push(GpioChange::Raise(pullsel_addr, pullsel_mask));
        col += 1;
        assert(out@ =~= row_setup(ROW_COUNT as int) + col_setup(col as int));
    }
    out
}

/// The register change that selects a row for reading (driven low).
pub fn select_row(row: usize) -> (r: GpioChange)
    requires
        row < ROW_COUNT,
    ensures
        r == lowered(GPIO_DOUT_BASE, row_pin(row as int)),
{
    let (addr, mask) = gpio_reg(GPIO_DOUT_BASE, keypad_row_pin(row));
    GpioChange::Lower(addr, mask)
}

/// The register change that makes a row inactive again (driven high).
pub fn release_row(row: usize) -> (r: GpioChange)
    requires
        row < ROW_COUNT,
    ensures
        r == raised(GPIO_DOUT_BASE, row_pin(row as int)),
{
    let (addr, mask) = gpio_reg(GPIO_DOUT_BASE, keypad_row_pin(row));
    GpioChange::Raise(addr, mask)
}

/// The register from which the columns are read.
pub fn column_register() -> (r: usize)
    ensures
        forall|col: int|
            0 <= col < COL_COUNT ==> r == #[trigger] pin_register(
                GPIO_DIN_BASE as int,
                col_pin(col),
            ),
{
    gpio_reg(GPIO_DIN_BASE, keypad_col_pin(0)).0
}

} // verus!

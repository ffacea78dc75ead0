//! Board constants: memory map, GPIO banks, keypad pins, storage layout, display.
use vstd::prelude::*;

verus! {

/// First byte of physical memory.
pub const RAM_START: usize = 0x4000_0000;

/// First byte behind physical memory.
pub const RAM_END: usize = 0x8000_0000;

/// Where the kernel image is loaded.
pub const KERNEL_LOAD: usize = 0x4008_0000;

/// First byte behind the kernel image: user-accessible memory starts here.
pub const KERNEL_END: usize = 0x4100_0000;

/// Where user programs are mapped.
pub const USER_TEXT_BASE: usize = 0x5000_0000;

/// First sector of the userdata partition.
pub const LFS_PARTITION_START: u64 = 0x0014_0000;

/// Sectors of the userdata partition.
pub const LFS_PARTITION_SIZE: u64 = 0x0060_0000;

/// Sectors at the head of the userdata partition that hold the plaintext secrets
/// preamble once the device is provisioned.
pub const LFS_PREAMBLE_SECTORS: u64 = 1;

/// Display width in pixels.
pub const DISPLAY_WIDTH: usize = 240;

/// Display height in pixels.
pub const DISPLAY_HEIGHT: usize = 320;

/// Base of the GPIO controller.
pub const GPIO_BASE: usize = 0x1000_5000;

/// Direction bank (bit set = output).
pub const GPIO_DIR_BASE: usize = 0x000;

/// Data-out bank.
pub const GPIO_DOUT_BASE: usize = 0x100;

/// Data-in bank.
pub const GPIO_DIN_BASE: usize = 0x200;

/// Pull-enable bank.
pub const GPIO_PULLEN_BASE: usize = 0x300;

/// Pull-select bank (bit set = up).
pub const GPIO_PULLSEL_BASE: usize = 0x400;

/// The GPIO pin that drives a row of the key matrix.
pub open spec fn row_pin(row: int) -> int {
    40 + row
}

/// The GPIO pin that reads a column of the key matrix.
pub open spec fn col_pin(col: int) -> int {
    44 + col
}

/// The GPIO pin that drives a row of the key matrix.
pub fn keypad_row_pin(row: usize) -> (pin: u8)
    requires
        row < 4,
    ensures
        pin == row_pin(row as int),
{
    40 + row as u8
}

/// The GPIO pin that reads a column of the key matrix. All columns live in the
/// same 32-pin bank.
pub fn keypad_col_pin(col: usize) -> (pin: u8)
    requires
        col < 3,
    ensures
        pin == col_pin(col as int),
{
    44 + col as u8
}

} // verus!

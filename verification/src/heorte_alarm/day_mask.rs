//! Day-of-week bitmask constants for alarm repeat scheduling.
use vstd::prelude::*;

verus! {

/// Sunday (bit 0).
pub const SUN: u8 = 0x01;

/// Monday (bit 1).
pub const MON: u8 = 0x02;

/// Tuesday (bit 2).
pub const TUE: u8 = 0x04;

/// Wednesday (bit 3).
pub const WED: u8 = 0x08;

/// Thursday (bit 4).
pub const THU: u8 = 0x10;

/// Friday (bit 5).
pub const FRI: u8 = 0x20;

/// Saturday (bit 6).
pub const SAT: u8 = 0x40;

/// All weekdays (Mon-Fri).
pub const WEEKDAYS: u8 = 0x3E;

/// Every day.
pub const DAILY: u8 = 0x7F;

} // verus!

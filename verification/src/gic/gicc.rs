//! CPU interface registers.
use vstd::prelude::*;

verus! {

/// CPU interface control.
pub const CTLR: usize = 0x0C00_2000;

/// Interrupt priority mask.
pub const PMR: usize = 0x0C00_2004;

/// Interrupt acknowledge.
pub const IAR: usize = 0x0C00_200C;

/// End of interrupt.
pub const EOIR: usize = 0x0C00_2010;

} // verus!

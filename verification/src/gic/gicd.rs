//! Distributor registers.
use super::GICD_BASE;
use vstd::prelude::*;

verus! {

/// Distributor control.
pub const CTLR: usize = 0x0C00_0000;

/// Interrupt controller type.
pub const TYPER: usize = 0x0C00_0004;

/// Interrupt set-enable (32 IRQs per register).
pub fn isenabler(n: usize) -> (r: usize)
    requires
        GICD_BASE + 0x100 + n * 4 <= usize::MAX,
    ensures
        r == GICD_BASE + 0x100 + n * 4,
{
    GICD_BASE + 0x100 + n * 4
}

/// Interrupt clear-enable.
pub fn icenabler(n: usize) -> (r: usize)
    requires
        GICD_BASE + 0x180 + n * 4 <= usize::MAX,
    ensures
        r == GICD_BASE + 0x180 + n * 4,
{
    GICD_BASE + 0x180 + n * 4
}

/// Interrupt clear-pending.
pub fn icpendr(n: usize) -> (r: usize)
    requires
        GICD_BASE + 0x280 + n * 4 <= usize::MAX,
    ensures
        r == GICD_BASE + 0x280 + n * 4,
{
    GICD_BASE + 0x280 + n * 4
}

/// Interrupt priority (4 IRQs per register, 8 bits each).
pub fn ipriorityr(n: usize) -> (r: usize)
    requires
        GICD_BASE + 0x400 + n * 4 <= usize::MAX,
    ensures
        r == GICD_BASE + 0x400 + n * 4,
{
    GICD_BASE + 0x400 + n * 4
}

/// Interrupt processor target (4 IRQs per register, 8 bits each).
pub fn itargetsr(n: usize) -> (r: usize)
    requires
        GICD_BASE + 0x800 + n * 4 <= usize::MAX,
    ensures
        r == GICD_BASE + 0x800 + n * 4,
{
    GICD_BASE + 0x800 + n * 4
}

/// Interrupt configuration (16 IRQs per register, 2 bits each).
pub fn icfgr(n: usize) -> (r: usize)
    requires
        GICD_BASE + 0xC00 + n * 4 <= usize::MAX,
    ensures
        r == GICD_BASE + 0xC00 + n * 4,
{
    GICD_BASE + 0xC00 + n * 4
}

} // verus!

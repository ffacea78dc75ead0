//! The phone's security modes.
use vstd::prelude::*;

verus! {

/// How guarded the phone is.
#[derive(Debug, Clone, Copy, PartialEq, Eq, Structural)]
pub enum SecurityMode {
    /// Everyday use.
    Daily,
    /// Radio silence.
    Sentinel,
    /// Emergency lock-down.
    Panic,
}

} // verus!

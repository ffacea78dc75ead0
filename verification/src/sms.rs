//! Text message errors.
use vstd::prelude::*;

verus! {

/// Errors of the text message codec.
#[derive(Debug, Clone, Copy, PartialEq, Eq, Structural)]
pub enum SmsError {
    /// A character has no GSM-7 representation; its code point.
    Gsm7Encode(u32),
    /// Packed data is truncated.
    PduDecode,
}

} // verus!

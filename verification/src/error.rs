//! Reasons for which a recording cannot be decoded.

use vstd::prelude::*;

verus! {

/// Why decoding stopped.
#[derive(Clone, Copy, Debug, PartialEq, Eq, Structural)]
pub enum DecodeError {
    /// The bytes are not a wave container that can be read.
    UnreadableWav,
    /// Every sample has the same level, so the signal has no range to
    /// normalize over.
    ZeroRange,
    /// Fewer than eight periods were measured, too few to estimate the
    /// classification threshold.
    TooFewPeriods,
}

} // verus!

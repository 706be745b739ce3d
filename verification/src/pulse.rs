//! Classification of measured high-pulse widths, and the phase-timeout
//! bound on any single low- or high-wait.

use vstd::prelude::*;

verus! {

/// Longest high pulse (in microseconds) that still encodes a 0 bit.
pub const ZERO_MAX_MICROS: u64 = 30;

/// Any high pulse of this width (in microseconds) or longer is not a
/// valid data pulse and is skipped without emitting a bit.
pub const PULSE_MAX_MICROS: u64 = 80;

/// Bound (in milliseconds) on any single low-phase or high-phase wait;
/// past it the read attempt is abandoned.
pub const PHASE_TIMEOUT_MILLIS: u128 = 100;

/// What one measured high-pulse width (in microseconds) encodes:
/// `Some(1)` strictly between the two thresholds, `Some(0)` at or below
/// the lower one, `None` (no bit, no counter advance) at or above the
/// upper one.
pub open spec fn classify_spec(micros: u64) -> Option<u8> {
    if micros >= PULSE_MAX_MICROS {
        None
    } else if micros > ZERO_MAX_MICROS {
        Some(1u8)
    } else {
        Some(0u8)
    }
}

/// Classify one measured high-pulse width.
pub fn classify(micros: u64) -> (r: Option<u8>)
    ensures
        r == classify_spec(micros),
{
    if micros >= PULSE_MAX_MICROS {
        None
    } else if micros > ZERO_MAX_MICROS {
        Some(1)
    } else {
        Some(0)
    }
}

/// Whether a phase wait of the given elapsed time (in milliseconds) has
/// exceeded the timeout bound, so the read attempt must be abandoned.
pub fn phase_timed_out(elapsed_millis: u128) -> (r: bool)
    ensures
        r == (elapsed_millis > PHASE_TIMEOUT_MILLIS),
{
    elapsed_millis > PHASE_TIMEOUT_MILLIS
}

} // verus!

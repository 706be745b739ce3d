//! The start handshake: the fixed sequence of driven levels and holds
//! that requests a measurement cycle from the sensor.
//!
//! The plan is data: a list of pin actions for the embedding loop to
//! perform in order against the physical pin. The holds are coarse
//! sleeps and only need to exceed the protocol minimums; the sensor
//! tolerates longer holds.

use vstd::prelude::*;

verus! {

/// Hold (in microseconds) of the driven-low "ready" pulse that asks the
/// sensor for a measurement; the sensor's documented minimum is 20 ms,
/// and the extra 10 ms is safety margin.
pub const READY_PULSE_MICROS: u64 = 30000;

/// Hold (in microseconds) of the driven-high level after the ready
/// pulse.
pub const RELEASE_HOLD_MICROS: u64 = 20000;

/// Final driven-high hold (in microseconds) immediately before the pin
/// switches to input and the sensor takes over the line.
pub const PRE_INPUT_HOLD_MICROS: u64 = 40;

/// One action of the handshake plan, to be performed against the
/// physical pin: switch direction, drive a level, or hold for a while.
#[derive(Clone, Copy, Debug, PartialEq, Eq, Structural)]
pub enum PinAction {
    /// Switch the pin to output mode, driven by the host.
    SetOutput,
    /// Drive the line high; valid only in output mode.
    DriveHigh,
    /// Drive the line low; valid only in output mode.
    DriveLow,
    /// Keep the current level for this many microseconds.
    WaitMicros(u64),
    /// Switch the pin to input mode; the sensor then drives the line.
    SetInput,
}

/// The start handshake, in order: take the pin as output, drive high
/// (no minimum hold), drive low for the ready pulse, drive high again
/// and hold, keep high for the final short hold, then hand the line to
/// the sensor by switching to input.
pub fn start_signal_steps() -> (r: Vec<PinAction>)
    ensures
        r@ =~= seq![
            PinAction::SetOutput,
            PinAction::DriveHigh,
            PinAction::DriveLow,
            PinAction::WaitMicros(READY_PULSE_MICROS),
            PinAction::DriveHigh,
            PinAction::WaitMicros(RELEASE_HOLD_MICROS),
            PinAction::WaitMicros(PRE_INPUT_HOLD_MICROS),
            PinAction::SetInput,
        ],
{
    let mut steps: Vec<PinAction> = Vec::new();
    steps.push(PinAction::SetOutput);
    steps.push(PinAction::DriveHigh);
    steps.push(PinAction::DriveLow);
    steps.push(PinAction::WaitMicros(READY_PULSE_MICROS));
    steps.push(PinAction::DriveHigh);
    steps.push(PinAction::WaitMicros(RELEASE_HOLD_MICROS));
    steps.push(PinAction::WaitMicros(PRE_INPUT_HOLD_MICROS));
    steps.push(PinAction::SetInput);
    steps
}

} // verus!

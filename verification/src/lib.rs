//! Driver core for a single-wire, timing-encoded temperature/humidity
//! sensor (DHT11 family).
//!
//! The sensor speaks a protocol with no clock line and no framing bytes:
//! after a start handshake the host measures the width of each high pulse
//! on the data line and classifies it against fixed thresholds to recover
//! 40 data bits, which pack into four bytes (humidity integer, humidity
//! decimal, temperature integer, temperature decimal).
//!
//! This crate holds the protocol's decision logic: pulse classification,
//! the bit-sampling state machine, phase-timeout policy, the handshake
//! step plan, and the 40-bit decode. Driving the physical pin (GPIO
//! direction and level operations, busy-wait timing, sleeps) is electrical
//! I/O and lives with the embedding application, which feeds measured
//! pulse widths and timeout events into this crate.

pub mod handshake;
pub mod pulse;
pub mod reading;
pub mod sampler;

use vstd::prelude::*;

verus! {

/// Back-off (in milliseconds) between a failed read attempt and the
/// next one, applied by the embedding retry loop.
pub const RETRY_DELAY_MILLIS: u64 = 500;

} // verus!

use dht11::handshake::start_signal_steps;
use dht11::handshake::PinAction;
use dht11::handshake::PRE_INPUT_HOLD_MICROS;
use dht11::handshake::READY_PULSE_MICROS;
use dht11::handshake::RELEASE_HOLD_MICROS;
use dht11::pulse::classify;
use dht11::pulse::phase_timed_out;
use dht11::reading::decode;
use dht11::reading::pack_byte;
use dht11::sampler::run_attempt;
use dht11::sampler::BitCollector;
use dht11::sampler::PhaseEvent;
use dht11::RETRY_DELAY_MILLIS;

/// Width (µs) of a high pulse that encodes a 1, per the sensor's
/// documented timing.
const ONE_PULSE: u64 = 70;
/// Width (µs) of a high pulse that encodes a 0.
const ZERO_PULSE: u64 = 26;
/// Width (µs) of the acknowledgement pulse.
const ACK_PULSE: u64 = 85;

fn push_byte_bits(bits: &mut Vec<u8>, byte: u8) {
    for i in 0..8 {
        bits.push((byte >> (7 - i)) & 1);
    }
}

fn bits_for_bytes(bytes: [u8; 5]) -> Vec<u8> {
    let mut bits = Vec::new();
    for b in bytes {
        push_byte_bits(&mut bits, b);
    }
    bits
}

/// The event trace a well-behaved sensor produces: the acknowledgement
/// pulse, then one correctly timed pulse per data bit.
fn events_for_bytes(bytes: [u8; 5]) -> Vec<PhaseEvent> {
    let mut events = vec![PhaseEvent::Pulse(ACK_PULSE)];
    for bit in bits_for_bytes(bytes) {
        let width = if bit == 1 { ONE_PULSE } else { ZERO_PULSE };
        events.push(PhaseEvent::Pulse(width));
    }
    events
}

#[test]
fn classify_zero_region() {
    assert_eq!(classify(0), Some(0));
    assert_eq!(classify(26), Some(0));
    assert_eq!(classify(30), Some(0));
}

#[test]
fn classify_one_region() {
    assert_eq!(classify(31), Some(1));
    assert_eq!(classify(70), Some(1));
    assert_eq!(classify(79), Some(1));
}

#[test]
fn classify_skip_region() {
    assert_eq!(classify(80), None);
    assert_eq!(classify(85), None);
    assert_eq!(classify(100_000), None);
}

#[test]
fn phase_timeout_boundary() {
    assert!(!phase_timed_out(0));
    assert!(!phase_timed_out(100));
    assert!(phase_timed_out(101));
    assert!(phase_timed_out(5_000));
}

#[test]
fn pack_byte_big_endian() {
    // 01000101 reads as 69 with the most significant bit first.
    let bits = vec![0u8, 1, 0, 0, 0, 1, 0, 1];
    assert_eq!(pack_byte(&bits, 0), 69);
    let shifted = vec![0u8, 0, 0, 1, 0, 1, 1, 1, 0, 0];
    assert_eq!(pack_byte(&shifted, 2), 0b0101_1100);
}

#[test]
fn decode_example_reading() {
    // Humidity 69.0 %, temperature 23.5 °C; the fifth byte is the
    // sensor's checksum, which the decode ignores.
    let bits = bits_for_bytes([69, 0, 23, 5, 97]);
    assert_eq!(bits.len(), 40);
    let r = decode(&bits);
    assert_eq!(r.humidity_int, 69);
    assert_eq!(r.humidity_dec, 0);
    assert_eq!(r.temperature_int, 23);
    assert_eq!(r.temperature_dec, 5);
    assert_eq!(r.humidity_tenths(), 690);
    assert_eq!(r.temperature_tenths(), 235);
    let humidity = r.humidity_int as f32 + r.humidity_dec as f32 / 10.0;
    let temperature = r.temperature_int as f32 + r.temperature_dec as f32 / 10.0;
    assert_eq!(humidity, 69.0);
    assert_eq!(temperature, 23.5);
}

#[test]
fn decode_all_ones() {
    let bits = vec![1u8; 40];
    let r = decode(&bits);
    assert_eq!(r.humidity_int, 255);
    assert_eq!(r.humidity_dec, 255);
    assert_eq!(r.temperature_int, 255);
    assert_eq!(r.temperature_dec, 255);
}

#[test]
fn collector_discards_acknowledgement() {
    let mut c = BitCollector::new();
    assert_eq!(c.bit_count(), 0);
    assert!(!c.is_complete());
    // The first pulse is the acknowledgement, whatever its width.
    c.on_pulse(ACK_PULSE);
    assert_eq!(c.bit_count(), 0);
    // The next valid pulse is the first data bit.
    c.on_pulse(ONE_PULSE);
    assert_eq!(c.bit_count(), 1);
}

#[test]
fn collector_skips_wide_pulses() {
    let mut c = BitCollector::new();
    c.on_pulse(ACK_PULSE);
    c.on_pulse(ZERO_PULSE);
    assert_eq!(c.bit_count(), 1);
    // A pulse at or past the upper threshold emits no bit.
    c.on_pulse(80);
    c.on_pulse(500);
    assert_eq!(c.bit_count(), 1);
    c.on_pulse(ONE_PULSE);
    assert_eq!(c.bit_count(), 2);
}

#[test]
fn collector_completes_at_forty_bits() {
    let mut c = BitCollector::new();
    c.on_pulse(ACK_PULSE);
    for _ in 0..40 {
        assert!(!c.is_complete());
        c.on_pulse(ZERO_PULSE);
    }
    assert!(c.is_complete());
    assert_eq!(c.bit_count(), 40);
    let r = c.reading();
    assert_eq!(r.humidity_int, 0);
    assert_eq!(r.temperature_tenths(), 0);
}

#[test]
fn attempt_decodes_clean_trace() {
    let events = events_for_bytes([69, 0, 23, 5, 97]);
    assert_eq!(events.len(), 41);
    let r = run_attempt(&events).expect("a clean trace must decode");
    assert_eq!(r.humidity_int, 69);
    assert_eq!(r.humidity_dec, 0);
    assert_eq!(r.temperature_int, 23);
    assert_eq!(r.temperature_dec, 5);
}

#[test]
fn attempt_tolerates_skipped_pulses() {
    // Wide, invalid pulses in the middle of the train are skipped
    // without emitting bits, and the attempt still completes.
    let mut events = events_for_bytes([69, 0, 23, 5, 97]);
    events.insert(5, PhaseEvent::Pulse(120));
    events.insert(20, PhaseEvent::Pulse(90));
    let r = run_attempt(&events).expect("skipped pulses must not spoil the attempt");
    assert_eq!(r.humidity_int, 69);
    assert_eq!(r.temperature_int, 23);
}

#[test]
fn attempt_ignores_events_after_completion() {
    let mut events = events_for_bytes([42, 3, 19, 8, 72]);
    // Whatever trails the fortieth bit is never consumed.
    events.push(PhaseEvent::PhaseTimeout);
    events.push(PhaseEvent::Pulse(0));
    let r = run_attempt(&events).expect("trailing events must not spoil the attempt");
    assert_eq!(r.humidity_int, 42);
    assert_eq!(r.humidity_dec, 3);
    assert_eq!(r.temperature_int, 19);
    assert_eq!(r.temperature_dec, 8);
}

#[test]
fn attempt_fails_on_empty_trace() {
    let events: Vec<PhaseEvent> = Vec::new();
    assert_eq!(run_attempt(&events), None);
}

#[test]
fn attempt_fails_on_short_trace() {
    // Only 39 data pulses: the attempt never completes.
    let mut events = events_for_bytes([69, 0, 23, 5, 97]);
    events.pop();
    assert_eq!(run_attempt(&events), None);
}

#[test]
fn attempt_fails_on_immediate_timeout() {
    // A line that never rises out of the low state times out on the
    // very first wait.
    let events = vec![PhaseEvent::PhaseTimeout];
    assert_eq!(run_attempt(&events), None);
}

#[test]
fn attempt_fails_on_mid_trace_timeout() {
    let mut events = events_for_bytes([69, 0, 23, 5, 97]);
    // A timeout after ten collected bits abandons the whole attempt.
    events.truncate(11);
    events.push(PhaseEvent::PhaseTimeout);
    assert_eq!(run_attempt(&events), None);
}

#[test]
fn timeout_then_retry_succeeds() {
    // One stuck-low attempt, one back-off, then a clean retry: the
    // failed attempt leaves nothing behind that could bias the next.
    let first = vec![PhaseEvent::PhaseTimeout];
    assert_eq!(run_attempt(&first), None);
    assert_eq!(RETRY_DELAY_MILLIS, 500);
    let second = events_for_bytes([69, 0, 23, 5, 97]);
    let r = run_attempt(&second).expect("the retry must decode");
    assert_eq!(r.humidity_tenths(), 690);
    assert_eq!(r.temperature_tenths(), 235);
}

#[test]
fn repeated_attempts_are_independent() {
    let events = events_for_bytes([50, 1, 21, 9, 81]);
    let first = run_attempt(&events);
    let second = run_attempt(&events);
    assert_eq!(first, second);
    assert!(first.is_some());
}

#[test]
fn handshake_plan_sequence() {
    let steps = start_signal_steps();
    assert_eq!(
        steps,
        vec![
            PinAction::SetOutput,
            PinAction::DriveHigh,
            PinAction::DriveLow,
            PinAction::WaitMicros(READY_PULSE_MICROS),
            PinAction::DriveHigh,
            PinAction::WaitMicros(RELEASE_HOLD_MICROS),
            PinAction::WaitMicros(PRE_INPUT_HOLD_MICROS),
            PinAction::SetInput,
        ]
    );
    assert_eq!(READY_PULSE_MICROS, 30_000);
    assert_eq!(RELEASE_HOLD_MICROS, 20_000);
    assert_eq!(PRE_INPUT_HOLD_MICROS, 40);
}

//! The pulse-sampling state machine.
//!
//! After the start handshake the sensor drives the line, and the host
//! observes a series of phase events: either one full low/high cycle whose
//! high-phase width was measured, or a timeout of a single low- or
//! high-wait. The first measured high phase is the sensor's
//! acknowledgement pulse and is discarded; every later one is classified
//! into a bit or skipped. An attempt succeeds exactly when 40 bits have
//! been collected, and fails as soon as any phase wait times out.

use vstd::prelude::*;

use crate::pulse::classify;
use crate::pulse::classify_spec;
use crate::reading::all_bits;
use crate::reading::decode;
use crate::reading::decode_spec;
use crate::reading::BIT_COUNT;
use crate::reading::Dht11Reading;

verus! {

/// One observation made by the embedding loop while it watches the line:
/// a completed low/high cycle with the measured width of the high phase
/// (in microseconds), or a low- or high-wait that exceeded the phase
/// timeout bound.
#[derive(Clone, Copy, Debug, PartialEq, Eq, Structural)]
pub enum PhaseEvent {
    /// A full low/high cycle completed; the high phase lasted this many
    /// microseconds.
    Pulse(u64),
    /// A single low- or high-wait exceeded the timeout bound.
    PhaseTimeout,
}

/// Collects the data bits of one read attempt, one measured pulse at a
/// time. The first pulse fed in is treated as the sensor's
/// acknowledgement and discarded; later pulses are classified and either
/// append a bit or are skipped.
pub struct BitCollector {
    seen_response: bool,
    bits: Vec<u8>,
}

impl BitCollector {
    /// The bits collected so far, in order.
    pub closed spec fn collected(self) -> Seq<u8> {
        self.bits@
    }

    /// Whether the acknowledgement pulse has been consumed.
    pub closed spec fn seen_response(self) -> bool {
        self.seen_response
    }

    /// At most 40 bits are ever held, each of them 0 or 1.
    pub open spec fn wf(self) -> bool {
        &&& self.collected().len() <= BIT_COUNT
        &&& all_bits(self.collected())
    }

    /// Whether the attempt has collected its full 40 bits.
    pub open spec fn complete(self) -> bool {
        self.collected().len() == BIT_COUNT
    }

    /// A fresh attempt: no bits, acknowledgement not yet seen. Every
    /// attempt starts from this state, so nothing of a failed attempt
    /// can leak into the next one.
    pub fn new() -> (r: BitCollector)
        ensures
            r.collected() == Seq::<u8>::empty(),
            !r.seen_response(),
            r.wf(),
    {
        let r = BitCollector { seen_response: false, bits: Vec::new() };
        proof {
            assert(r.collected() =~= Seq::<u8>::empty());
        }
        r
    }

    /// How many bits have been collected so far.
    pub fn bit_count(&self) -> (r: usize)
        ensures
            r == self.collected().len(),
    {
        self.bits.len()
    }

    /// Whether the attempt has collected its full 40 bits.
    pub fn is_complete(&self) -> (r: bool)
        ensures
            r == self.complete(),
    {
        self.bits.len() == BIT_COUNT
    }

    /// Feed one measured high-pulse width (in microseconds) into the
    /// attempt. The first pulse is discarded as the acknowledgement;
    /// afterwards a pulse appends the bit it classifies to, or nothing
    /// if it is not a valid data pulse.
    pub fn on_pulse(&mut self, micros: u64)
        requires
            old(self).wf(),
            !old(self).complete(),
        ensures
            final(self).wf(),
            final(self).seen_response(),
            !old(self).seen_response() ==> final(self).collected() == old(self).collected(),
            old(self).seen_response() ==> final(self).collected() == (match classify_spec(
                micros,
            ) {
                Some(b) => old(self).collected().push(b),
                None => old(self).collected(),
            }),
    {
        if !self.seen_response {
            self.seen_response = true;
            return;
        }
        match classify(micros) {
            Some(b) => {
                self.bits.push(b);
            },
            None => {},
        }
    }

    /// Decode the collected bits; only a complete attempt may be decoded,
    /// so no partial reading can ever be produced.
    pub fn reading(&self) -> (r: Dht11Reading)
        requires
            self.wf(),
            self.complete(),
        ensures
            r == decode_spec(self.collected()),
    {
        decode(&self.bits)
    }
}

/// The state-machine meaning of a read attempt, from an intermediate
/// state: `seen` records whether the acknowledgement pulse has been
/// consumed and `bits` the bits collected so far. The attempt succeeds
/// with the collected bits once 40 are held; it fails on a phase timeout,
/// or when the events run out first.
pub open spec fn outcome_from(seen: bool, bits: Seq<u8>, events: Seq<PhaseEvent>) -> Option<
    Seq<u8>,
>
    decreases events.len(),
{
    if bits.len() >= BIT_COUNT {
        Some(bits)
    } else if events.len() == 0 {
        None
    } else {
        match events[0] {
            PhaseEvent::PhaseTimeout => None,
            PhaseEvent::Pulse(d) => if !seen {
                outcome_from(true, bits, events.drop_first())
            } else {
                match classify_spec(d) {
                    Some(b) => outcome_from(true, bits.push(b), events.drop_first()),
                    None => outcome_from(true, bits, events.drop_first()),
                }
            },
        }
    }
}

/// The outcome of one whole read attempt over the observed events,
/// started fresh: the 40 collected bits on success, or nothing.
pub open spec fn attempt_outcome(events: Seq<PhaseEvent>) -> Option<Seq<u8>> {
    outcome_from(false, Seq::<u8>::empty(), events)
}

/// Run one whole read attempt over the observed phase events: discard the
/// acknowledgement pulse, classify every later pulse, and decode once 40
/// bits are held. Returns a reading exactly when the events complete the
/// attempt before any phase timeout; a timeout or exhausted events yield
/// nothing, never a partial reading.
pub fn run_attempt(events: &Vec<PhaseEvent>) -> (r: Option<Dht11Reading>)
    ensures
        r is Some <==> attempt_outcome(events@) is Some,
        r matches Some(reading) ==> attempt_outcome(events@) matches Some(bits) && reading
            == decode_spec(bits),
{
    let n = events.len();
    let mut collector = BitCollector::new();
    let mut i: usize = 0;
    proof {
        assert(events@.skip(0) =~= events@);
    }
    while i < n
        invariant
            i <= n,
            n == events@.len(),
            collector.wf(),
            !collector.complete(),
            attempt_outcome(events@) == outcome_from(
                collector.seen_response(),
                collector.collected(),
                events@.skip(i as int),
            ),
        decreases n - i,
    {
        proof {
            assert(events@.skip(i as int).len() == n - i);
            assert(events@.skip(i as int)[0] == events@[i as int]);
            assert(events@.skip(i as int).drop_first() =~= events@.skip(i as int + 1));
        }
        match events[i] {
            PhaseEvent::PhaseTimeout => {
                return None;
            },
            PhaseEvent::Pulse(d) => {
                let ghost pre = collector;
                collector.on_pulse(d);
                proof {
                    assert(events@.skip(i as int)[0] == PhaseEvent::Pulse(d));
                    assert(outcome_from(
                        pre.seen_response(),
                        pre.collected(),
                        events@.skip(i as int),
                    ) == outcome_from(
                        true,
                        collector.collected(),
                        events@.skip(i as int + 1),
                    ));
                }
                if collector.is_complete() {
                    return Some(collector.reading());
                }
            },
        }
        i = i + 1;
    }
    proof {
        assert(events@.skip(n as int).len() == 0);
    }
    None
}

/// The widths of the measured pulses in an event series, in order.
pub open spec fn pulse_widths(events: Seq<PhaseEvent>) -> Seq<u64>
    decreases events.len(),
{
    if events.len() == 0 {
        Seq::empty()
    } else {
        (match events[0] {
            PhaseEvent::Pulse(d) => seq![d],
            PhaseEvent::PhaseTimeout => Seq::empty(),
        }) + pulse_widths(events.drop_first())
    }
}

/// The data bits a series of high-pulse widths classifies to, in order,
/// with invalid (wide) pulses skipped.
pub open spec fn classified_bits(widths: Seq<u64>) -> Seq<u8>
    decreases widths.len(),
{
    if widths.len() == 0 {
        Seq::empty()
    } else {
        (match classify_spec(widths[0]) {
            Some(b) => seq![b],
            None => Seq::empty(),
        }) + classified_bits(widths.drop_first())
    }
}

/// What the sampling loop means on a trace free of phase timeouts: the
/// attempt succeeds exactly when the pulses after the acknowledgement
/// classify to at least 40 data bits, and the collected sample is then
/// precisely the first 40 of them, in order.
pub proof fn lemma_clean_trace_outcome(events: Seq<PhaseEvent>)
    requires
        forall|k: int| 0 <= k < events.len() ==> events[k] is Pulse,
    ensures
        events.len() == 0 ==> attempt_outcome(events) is None,
        events.len() > 0 ==> {
            let bits = classified_bits(pulse_widths(events.drop_first()));
            &&& attempt_outcome(events) is Some <==> bits.len() >= BIT_COUNT
            &&& (attempt_outcome(events) matches Some(b) ==> b == bits.take(BIT_COUNT as int))
        },
{
    if events.len() > 0 {
        assert(events[0] is Pulse);
        lemma_outcome_from_pulses(Seq::<u8>::empty(), events.drop_first());
        let bits = classified_bits(pulse_widths(events.drop_first()));
        assert(Seq::<u8>::empty() + bits =~= bits);
    }
}

proof fn lemma_outcome_from_pulses(bits: Seq<u8>, events: Seq<PhaseEvent>)
    requires
        bits.len() <= BIT_COUNT,
        forall|k: int| 0 <= k < events.len() ==> events[k] is Pulse,
    ensures
        ({
            let all = bits + classified_bits(pulse_widths(events));
            if all.len() >= BIT_COUNT {
                outcome_from(true, bits, events) == Some(all.take(BIT_COUNT as int))
            } else {
                outcome_from(true, bits, events) is None
            }
        }),
    decreases events.len(),
{
    let widths = pulse_widths(events);
    let all = bits + classified_bits(widths);
    if bits.len() == BIT_COUNT {
        assert(all.take(BIT_COUNT as int) =~= bits);
    } else if events.len() == 0 {
        assert(classified_bits(widths) =~= Seq::<u8>::empty());
        assert(all.len() < BIT_COUNT);
    } else {
        let d = events[0]->0;
        assert(events[0] == PhaseEvent::Pulse(d));
        let rest = events.drop_first();
        assert(forall|k: int| 0 <= k < rest.len() ==> rest[k] is Pulse);
        assert(widths == seq![d] + pulse_widths(rest));
        assert(widths[0] == d);
        assert(widths.drop_first() =~= pulse_widths(rest));
        match classify_spec(d) {
            Some(b) => {
                assert(classified_bits(widths) == seq![b] + classified_bits(pulse_widths(rest)));
                lemma_outcome_from_pulses(bits.push(b), rest);
                assert(bits.push(b) + classified_bits(pulse_widths(rest)) =~= all);
            },
            None => {
                assert(classified_bits(widths) == classified_bits(pulse_widths(rest)));
                lemma_outcome_from_pulses(bits, rest);
            },
        }
    }
}

/// On success a read attempt holds exactly 40 bits, each 0 or 1: never
/// fewer, never more, so no partial sample ever reaches the decoder.
pub proof fn lemma_success_collects_forty(events: Seq<PhaseEvent>)
    ensures
        attempt_outcome(events) matches Some(bits) ==> bits.len() == BIT_COUNT && all_bits(bits),
{
    lemma_outcome_from_forty(false, Seq::<u8>::empty(), events);
}

proof fn lemma_outcome_from_forty(seen: bool, bits: Seq<u8>, events: Seq<PhaseEvent>)
    requires
        bits.len() <= BIT_COUNT,
        all_bits(bits),
    ensures
        outcome_from(seen, bits, events) matches Some(b) ==> b.len() == BIT_COUNT && all_bits(b),
    decreases events.len(),
{
    if bits.len() >= BIT_COUNT || events.len() == 0 {
    } else {
        match events[0] {
            PhaseEvent::PhaseTimeout => {},
            PhaseEvent::Pulse(d) => {
                if !seen {
                    lemma_outcome_from_forty(true, bits, events.drop_first());
                } else {
                    match classify_spec(d) {
                        Some(b) => {
                            lemma_outcome_from_forty(true, bits.push(b), events.drop_first());
                        },
                        None => {
                            lemma_outcome_from_forty(true, bits, events.drop_first());
                        },
                    }
                }
            },
        }
    }
}

/// A phase timeout that arrives before the attempt is complete makes the
/// whole attempt fail: if the events up to the first timeout do not
/// already complete the attempt, the full event series cannot succeed.
pub proof fn lemma_timeout_aborts_attempt(events: Seq<PhaseEvent>, t: int)
    requires
        0 <= t < events.len(),
        events[t] is PhaseTimeout,
        forall|k: int| 0 <= k < t ==> events[k] is Pulse,
        attempt_outcome(events.take(t)) is None,
    ensures
        attempt_outcome(events) is None,
{
    lemma_outcome_from_timeout(false, Seq::<u8>::empty(), events, t);
}

proof fn lemma_outcome_from_timeout(seen: bool, bits: Seq<u8>, events: Seq<PhaseEvent>, t: int)
    requires
        0 <= t < events.len(),
        events[t] is PhaseTimeout,
        forall|k: int| 0 <= k < t ==> events[k] is Pulse,
        outcome_from(seen, bits, events.take(t)) is None,
    ensures
        outcome_from(seen, bits, events) is None,
    decreases t,
{
    if bits.len() >= BIT_COUNT {
        // Then the truncated attempt would already have succeeded.
        assert(outcome_from(seen, bits, events.take(t)) is Some);
    } else if t == 0 {
        assert(events[0] is PhaseTimeout);
    } else {
        assert(events.take(t)[0] == events[0]);
        assert(events[0] is Pulse);
        assert(events.take(t).drop_first() =~= events.drop_first().take(t - 1));
        assert(events.drop_first()[t - 1] == events[t]);
        assert(forall|k: int| 0 <= k < t - 1 ==> events.drop_first()[k] == events[k + 1]);
        match events[0] {
            PhaseEvent::PhaseTimeout => {},
            PhaseEvent::Pulse(d) => {
                if !seen {
                    lemma_outcome_from_timeout(true, bits, events.drop_first(), t - 1);
                } else {
                    match classify_spec(d) {
                        Some(b) => {
                            lemma_outcome_from_timeout(true, bits.push(b), events.drop_first(), t - 1);
                        },
                        None => {
                            lemma_outcome_from_timeout(true, bits, events.drop_first(), t - 1);
                        },
                    }
                }
            },
        }
    }
}

} // verus!

//! Decoding the 40 sampled bits into a structured reading.
//!
//! The bits pack big-endian (most significant bit first) into four 8-bit
//! fields in fixed order: humidity integer, humidity decimal, temperature
//! integer, temperature decimal. The sensor's trailing checksum byte is
//! deliberately not verified, matching the driver's documented behaviour:
//! a timing-valid but corrupted pulse train decodes without complaint.

use vstd::prelude::*;

verus! {

/// Number of data bits one read attempt must collect before decoding.
pub const BIT_COUNT: usize = 40;

/// One successful sensor reading. The sensor reports each quantity as an
/// integer part plus a decimal part in tenths, so the physical values are
/// `humidity_int + humidity_dec / 10` percent relative humidity and
/// `temperature_int + temperature_dec / 10` degrees Celsius.
#[derive(Clone, Copy, Debug, PartialEq, Eq, Structural)]
pub struct Dht11Reading {
    /// Integer part of the relative humidity, in percent.
    pub humidity_int: u8,
    /// Decimal part of the relative humidity, in tenths of a percent.
    pub humidity_dec: u8,
    /// Integer part of the temperature, in degrees Celsius.
    pub temperature_int: u8,
    /// Decimal part of the temperature, in tenths of a degree.
    pub temperature_dec: u8,
}

/// The value of a bit string read big-endian: the first bit is the most
/// significant.
pub open spec fn byte_value(bits: Seq<u8>) -> nat
    decreases bits.len(),
{
    if bits.len() == 0 {
        0
    } else {
        (2 * byte_value(bits.drop_last()) + bits.last()) as nat
    }
}

/// Two to the given power.
pub open spec fn two_to(n: nat) -> nat
    decreases n,
{
    if n == 0 {
        1nat
    } else {
        2 * two_to((n - 1) as nat)
    }
}

proof fn lemma_two_to_monotone(a: nat, b: nat)
    requires
        a <= b,
    ensures
        two_to(a) <= two_to(b),
    decreases b,
{
    if a < b && b > 0 {
        lemma_two_to_monotone(a, (b - 1) as nat);
    }
}

/// Every bit in the given range of the sequence is 0 or 1.
pub open spec fn all_bits(bits: Seq<u8>) -> bool {
    forall|i: int| 0 <= i < bits.len() ==> bits[i] <= 1
}

/// The reading that a 40-bit sample decodes to: the first four 8-bit
/// groups, read big-endian, in the fixed field order. Bits 32..40 are the
/// sensor's checksum byte, which this driver does not verify.
pub open spec fn decode_spec(bits: Seq<u8>) -> Dht11Reading
    recommends
        bits.len() >= 32,
{
    Dht11Reading {
        humidity_int: byte_value(bits.subrange(0, 8)) as u8,
        humidity_dec: byte_value(bits.subrange(8, 16)) as u8,
        temperature_int: byte_value(bits.subrange(16, 24)) as u8,
        temperature_dec: byte_value(bits.subrange(24, 32)) as u8,
    }
}

/// Pack the eight bits starting at `offset` into one byte, most
/// significant bit first.
pub fn pack_byte(bits: &Vec<u8>, offset: usize) -> (r: u8)
    requires
        offset + 8 <= bits@.len(),
        all_bits(bits@),
    ensures
        r as nat == byte_value(bits@.subrange(offset as int, offset as int + 8)),
{
    let n = bits.len();
    let mut acc: u8 = 0;
    let mut j: usize = 0;
    while j < 8
        invariant
            j <= 8,
            n == bits@.len(),
            offset + 8 <= n,
            all_bits(bits@),
            acc as nat == byte_value(bits@.subrange(offset as int, offset as int + j as int)),
            (acc as nat) < two_to(j as nat),
        decreases 8 - j,
    {
        proof {
            lemma_two_to_monotone(j as nat + 1, 8);
            assert(two_to(8) == 256) by {
                reveal_with_fuel(two_to, 9);
            }
            assert(
                bits@.subrange(offset as int, offset as int + j as int + 1).drop_last()
                    =~= bits@.subrange(offset as int, offset as int + j as int)
            );
            assert(bits@.subrange(offset as int, offset as int + j as int + 1).last()
                == bits@[offset as int + j as int]);
        }
        acc = 2 * acc + bits[offset + j];
        j = j + 1;
    }
    proof {
        assert(bits@.subrange(offset as int, offset as int + 8)
            =~= bits@.subrange(offset as int, offset as int + j as int));
    }
    acc
}

/// Decode a full 40-bit sample into a reading.
pub fn decode(bits: &Vec<u8>) -> (r: Dht11Reading)
    requires
        bits@.len() == BIT_COUNT,
        all_bits(bits@),
    ensures
        r == decode_spec(bits@),
{
    let humidity_int = pack_byte(bits, 0);
    let humidity_dec = pack_byte(bits, 8);
    let temperature_int = pack_byte(bits, 16);
    let temperature_dec = pack_byte(bits, 24);
    Dht11Reading { humidity_int, humidity_dec, temperature_int, temperature_dec }
}

impl Dht11Reading {
    /// The relative humidity in tenths of a percent: ten times the value
    /// `humidity_int + humidity_dec / 10` that the sensor reports.
    pub fn humidity_tenths(&self) -> (r: u16)
        ensures
            r == 10 * self.humidity_int + self.humidity_dec,
    {
        10 * (self.humidity_int as u16) + (self.humidity_dec as u16)
    }

    /// The temperature in tenths of a degree Celsius: ten times the value
    /// `temperature_int + temperature_dec / 10` that the sensor reports.
    pub fn temperature_tenths(&self) -> (r: u16)
        ensures
            r == 10 * self.temperature_int + self.temperature_dec,
    {
        10 * (self.temperature_int as u16) + (self.temperature_dec as u16)
    }
}

} // verus!

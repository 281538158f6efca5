//! Quantization of a temperature into a bounded fixed-point fraction.
//!
//! A temperature is handed over as truncated tenths of a degree Celsius
//! (the value times ten, truncated toward zero — exactly the information a
//! one-decimal reading carries).  Quantization builds a fraction over a
//! denominator of 1000; temperatures of 100.0 degrees and above do not fit
//! and are a hard error, never clamped.  The fraction is unsigned, so
//! temperatures below zero saturate to 0.

use vstd::prelude::*;

use crate::decimal::spec_render_tenths;
use crate::decimal::render_tenths;

verus! {

/// Quantization failed: the scaled numerator would not fit the fraction.
#[derive(Clone, Copy, PartialEq, Eq, Structural, Debug)]
pub enum EncodeError {
    OutOfRange,
}

/// A temperature as a fixed-point fraction in [0, 1): `numerator/1000`,
/// held as parts per million of the whole.
#[derive(Clone, Copy, PartialEq, Eq, Structural, Debug)]
pub struct QuantizedTemperature {
    ppm: u32,
}

/// The per-mille numerator for truncated tenths `deci`, or `None` when the
/// temperature is 100.0 degrees or more and does not fit the fraction.
pub open spec fn spec_quantize(deci: int) -> Option<int> {
    if deci >= 1000 {
        None
    } else if deci < 0 {
        Some(0)
    } else {
        Some(deci)
    }
}

impl QuantizedTemperature {
    /// Parts per million of the whole.
    pub closed spec fn ppm(self) -> u32 {
        self.ppm
    }

    /// The per-mille numerator of the fraction.
    pub open spec fn numerator(self) -> int {
        self.ppm() as int / 1000
    }

    /// The fraction is strictly below one and a whole number of thousandths.
    pub open spec fn well_formed(self) -> bool {
        self.ppm() % 1000 == 0 && self.ppm() < 1_000_000
    }

    /// The four-byte little-endian form of the parts-per-million count.
    pub open spec fn spec_encode(self) -> Seq<u8> {
        let p = self.ppm() as int;
        seq![
            (p % 256) as u8,
            ((p / 256) % 256) as u8,
            ((p / 65536) % 256) as u8,
            ((p / 16777216) % 256) as u8,
        ]
    }

    /// Recovers the temperature in tenths of a degree, the one decimal
    /// place the fraction preserves.
    pub fn deconstruct(&self) -> (r: u32)
        ensures
            r == self.numerator(),
    {
        self.ppm / 1000
    }

    /// Serializes the fraction for the inherent-data bag.
    pub fn encode(&self) -> (r: Vec<u8>)
        ensures
            r@ == self.spec_encode(),
    {
        let mut v: Vec<u8> = Vec::new();
        v.push((self.ppm % 256) as u8);
        v.push(((self.ppm / 256) % 256) as u8);
        v.push(((self.ppm / 65536) % 256) as u8);
        v.push(((self.ppm / 16777216) % 256) as u8);
        proof {
            assert(v@ =~= self.spec_encode());
        }
        v
    }

    /// The human-readable reading, e.g. `"18.6 °C"`.
    pub fn message(&self) -> (r: String)
        requires
            self.well_formed(),
        ensures
            r@ == self.spec_message(),
    {
        proof {
            reveal_strlit(" °C");
        }
        let deci = self.deconstruct();
        proof {
            assert(0 <= self.numerator() < 1000);
        }
        let mut m = render_tenths(deci as i64);
        m.append(" °C");
        m
    }

    /// What `message` reads: the tenths as a numeral, then the unit.
    pub open spec fn spec_message(self) -> Seq<char> {
        spec_render_tenths(self.numerator()) + " °C"@
    }
}

/// The parts-per-million count decoded from four little-endian bytes,
/// `None` when the length or the invariant does not hold: decoding is
/// fail-closed and never produces an out-of-range fraction.
pub open spec fn spec_decode(b: Seq<u8>) -> Option<int> {
    if b.len() == 4 {
        let p = b[0] + 256 * b[1] + 65536 * b[2] + 16777216 * b[3];
        if p < 1_000_000 && p % 1000 == 0 {
            Some(p)
        } else {
            None
        }
    } else {
        None
    }
}

/// Quantizes a temperature given as truncated tenths of a degree.
pub fn quantize(deci: i64) -> (r: Result<QuantizedTemperature, EncodeError>)
    ensures
        match r {
            Ok(q) => spec_quantize(deci as int) == Some(q.numerator()) && q.well_formed(),
            Err(e) => spec_quantize(deci as int) is None && e == EncodeError::OutOfRange,
        },
{
    if deci >= 1000 {
        Err(EncodeError::OutOfRange)
    } else if deci < 0 {
        Ok(QuantizedTemperature { ppm: 0 })
    } else {
        let q = QuantizedTemperature { ppm: (deci as u32) * 1000 };
        proof {
            assert(q.ppm() as int / 1000 == deci as int && q.ppm() % 1000 == 0) by (nonlinear_arith)
                requires
                    0 <= deci < 1000,
                    q.ppm() == deci * 1000,
            ;
        }
        Ok(q)
    }
}

/// Deserializes a fraction from the inherent-data bag, rejecting anything
/// malformed.
pub fn decode(bytes: &[u8]) -> (r: Option<QuantizedTemperature>)
    ensures
        match r {
            Some(q) => spec_decode(bytes@) == Some(q.ppm() as int) && q.well_formed(),
            None => spec_decode(bytes@) is None,
        },
{
    if bytes.len() != 4 {
        return None;
    }
    let p: u32 = bytes[0] as u32 + 256 * (bytes[1] as u32) + 65536 * (bytes[2] as u32) + 16777216
        * (bytes[3] as u32);
    if p < 1_000_000 && p % 1000 == 0 {
        Some(QuantizedTemperature { ppm: p })
    } else {
        None
    }
}

/// Serialization round-trips: decoding an encoded fraction gives it back.
pub proof fn lemma_decode_encode(q: QuantizedTemperature)
    requires
        q.well_formed(),
    ensures
        spec_decode(q.spec_encode()) == Some(q.ppm() as int),
{
    let p = q.ppm();
    assert(p % 256 + 256 * ((p / 256) % 256) + 65536 * ((p / 65536) % 256) + 16777216 * ((p
        / 16777216) % 256) == p) by (bit_vector);
}

/// Quantization is monotonic: of two in-range temperatures, the colder
/// never quantizes above the warmer.  It is deterministic by construction:
/// `quantize` is specified as a function of the tenths alone.
pub proof fn lemma_quantize_monotonic(t1: int, t2: int)
    requires
        t1 <= t2,
        spec_quantize(t1) is Some,
        spec_quantize(t2) is Some,
    ensures
        spec_quantize(t1)->Some_0 <= spec_quantize(t2)->Some_0,
{
}

} // verus!

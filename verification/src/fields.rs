//! The numeric fields of a location report.
//!
//! Angles are fixed-point degrees: `DEGREE` units are one degree. On the wire an angle counts
//! steps of 180 / 2^24 degrees, so with 24 fractional bits every field value is exact.

use vstd::arithmetic::div_mod::*;
use vstd::arithmetic::power::*;
use vstd::arithmetic::power2::*;
use vstd::bits::*;
use vstd::prelude::*;

verus! {

/// One degree in the fixed-point scale of all angles.
pub const DEGREE: i64 = 0x100_0000;

/// The angle between two neighbouring field values: 180 / 2^24 degrees.
pub const ANGLE_STEP: i64 = 180;

/// The number of bits of the latitude field.
pub const LATITUDE_BITS: u32 = 24;

/// The number of bits of the longitude field.
pub const LONGITUDE_BITS: u32 = 25;

/// A horizontal velocity in km/h, in the two ranges of its coding.
#[derive(Debug, Clone, Copy, PartialEq, Eq, Structural)]
pub enum HorizontalVelocity {
    /// A whole number of km/h.
    Linear { kmh: u32 },
    /// `16 * 1.038^exponent` km/h.
    Geometric { exponent: i32 },
}

impl HorizontalVelocity {
    /// The numerator of the velocity in km/h, over [`Self::kmh_denominator`].
    pub open spec fn kmh_numerator(self) -> int {
        match self {
            HorizontalVelocity::Linear { kmh } => kmh as int,
            HorizontalVelocity::Geometric { exponent } => if exponent >= 0 {
                16 * pow(1038, exponent as nat)
            } else {
                16 * pow(1000, (-exponent) as nat)
            },
        }
    }

    /// The denominator of the velocity in km/h.
    pub open spec fn kmh_denominator(self) -> int {
        match self {
            HorizontalVelocity::Linear { kmh } => 1,
            HorizontalVelocity::Geometric { exponent } => if exponent >= 0 {
                pow(1000, exponent as nat)
            } else {
                pow(1038, (-exponent) as nat)
            },
        }
    }
}

/// The two's complement reading of `raw` whose sign bit is the highest of `width` bits.
pub open spec fn signed_value(raw: nat, width: nat) -> int
    recommends
        width > 0,
{
    if (raw / pow2((width - 1) as nat)) % 2 == 1 {
        raw - pow2(width)
    } else {
        raw as int
    }
}

/// The fixed-point angle that a field of `width` bits stands for.
pub open spec fn angle(raw: nat, width: nat) -> int {
    ANGLE_STEP * signed_value(raw, width)
}

/// The velocity that a velocity field stands for.
pub open spec fn velocity(raw: nat) -> HorizontalVelocity {
    if raw < 29 {
        HorizontalVelocity::Linear { kmh: raw as u32 }
    } else {
        HorizontalVelocity::Geometric { exponent: (wrapped(raw) - 13) as i32 }
    }
}

/// An unsigned 32-bit integer read as a signed one.
pub open spec fn wrapped(raw: nat) -> int {
    if raw < 0x8000_0000 {
        raw as int
    } else {
        raw - 0x1_0000_0000
    }
}

/// A field of `width` bits is negative exactly if its value is in the upper half, and its
/// two's complement reading spans the integers from `-2^(width - 1)` up to `2^(width - 1)`.
pub proof fn lemma_signed_value(raw: nat, width: nat)
    requires
        width > 0,
        raw < pow2(width),
    ensures
        signed_value(raw, width) == if raw < pow2((width - 1) as nat) {
            raw as int
        } else {
            raw - pow2(width)
        },
        -pow2((width - 1) as nat) <= signed_value(raw, width) < pow2((width - 1) as nat),
{
    let half = pow2((width - 1) as nat);
    lemma_pow2_unfold(width);
    if raw < half {
        lemma_basic_div(raw as int, half as int);
    } else {
        lemma_div_is_ordered(half as int, raw as int, half as int);
        lemma_div_by_self(half as int);
        lemma_multiply_divide_lt(raw as int, half as int, 2);
    }
}

/// Reads the low `bits` bits of `raw` as a two's complement integer.
///
/// Bits of `raw` above the sign bit are not masked: they count with their full weight.
pub fn signed_field(raw: u32, bits: u32) -> (value: i64)
    requires
        1 <= bits <= 32,
    ensures
        value == signed_value(raw as nat, bits as nat),
        raw < pow2((bits - 1) as nat) ==> value == raw,
        pow2((bits - 1) as nat) <= raw < pow2(bits as nat) ==> value == raw - pow2(bits as nat),
{
    let top: u32 = bits - 1;
    let sign: u32 = 1u32 << top;
    proof {
        let shifted: u32 = raw >> top;
        lemma_u32_shr_is_div(raw, top);
        assert((raw & (1u32 << top) == 0) == (shifted % 2 == 0)) by (bit_vector)
            requires
                top < 32,
                shifted == raw >> top,
        ;
        lemma2_to64();
        lemma_u64_shl_is_mul(1, bits as u64);
        assert(1i64 << bits == 1u64 << (bits as u64)) by (bit_vector)
            requires
                bits <= 32,
        ;
        if raw < pow2(bits as nat) {
            lemma_signed_value(raw as nat, bits as nat);
        }
        lemma_pow2_unfold(bits as nat);
    }
    if raw & sign == 0 {
        raw as i64
    } else {
        raw as i64 - (1i64 << bits)
    }
}

/// The latitude that a latitude field stands for.
pub fn decode_lat(raw: u32) -> (lat: i64)
    ensures
        lat == angle(raw as nat, LATITUDE_BITS as nat),
        lat == 180 * signed_value(raw as nat, 24),
{
    proof {
        lemma2_to64();
    }
    signed_field(raw, LATITUDE_BITS) * ANGLE_STEP
}

/// The longitude that a longitude field stands for. It has one bit more than a latitude, and
/// the same angular scale.
pub fn decode_lon(raw: u32) -> (lon: i64)
    ensures
        lon == angle(raw as nat, LONGITUDE_BITS as nat),
        lon == 180 * signed_value(raw as nat, 25),
{
    proof {
        lemma2_to64();
    }
    signed_field(raw, LONGITUDE_BITS) * ANGLE_STEP
}

/// Whether a latitude and a longitude name a point of the globe.
pub fn valid_coord(lat: i64, lon: i64) -> (valid: bool)
    ensures
        valid == (-90 * DEGREE <= lat <= 90 * DEGREE && -180 * DEGREE <= lon <= 180 * DEGREE),
{
    -90 * DEGREE <= lat && lat <= 90 * DEGREE && -180 * DEGREE <= lon && lon <= 180 * DEGREE
}

/// The velocity that a velocity field stands for: up to 28 km/h in steps of 1 km/h, and from
/// there on in steps of 3.8 percent.
///
/// A `raw` value is read as a signed integer before its exponent is taken; the thirteen least
/// of these have no exponent.
pub fn horizontal_velocity(raw: u32) -> (speed: HorizontalVelocity)
    requires
        raw < 0x8000_0000 || 0x8000_000D <= raw,
    ensures
        speed == velocity(raw as nat),
        match speed {
            HorizontalVelocity::Linear { kmh } => raw < 29 && kmh == raw,
            HorizontalVelocity::Geometric { exponent } => {
                &&& raw >= 29
                &&& exponent == if raw < 0x8000_0000 {
                    raw - 13
                } else {
                    raw - 0x1_0000_000D
                }
            },
        },
{
    if raw < 29 {
        HorizontalVelocity::Linear { kmh: raw }
    } else {
        let signed: i32 = raw as i32;
        assert(signed == if raw >= 0x8000_0000u32 {
            raw - 0x1_0000_0000
        } else {
            raw as int
        }) by (bit_vector)
            requires
                signed == raw as i32,
        ;
        HorizontalVelocity::Geometric { exponent: signed - 13 }
    }
}

} // verus!

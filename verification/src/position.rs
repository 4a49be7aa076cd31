//! Position reports in SDS user data.

use crate::bits;
use crate::fields;
use crate::fields::{
    decode_lat,
    decode_lon,
    horizontal_velocity,
    valid_coord,
    HorizontalVelocity,
    LATITUDE_BITS,
    LONGITUDE_BITS,
};
use crate::reader;
use crate::reader::BitReader;
use vstd::arithmetic::power2::*;
use vstd::prelude::*;

verus! {

/// The SDS protocol identifier of LIP.
pub const LIP_PROTOCOL_ID: u8 = 0x0A;

/// The user data of a short data service (SDS) message.
#[derive(Debug, Clone, PartialEq)]
pub enum SdsUserData {
    /// 16 bits.
    Type1(u16),
    /// 32 bits.
    Type2(u32),
    /// 64 bits.
    Type3(u64),
    /// A length in bits, and the bytes that carry the bits.
    Type4(u16, Vec<u8>),
}

/// A position report. Angles are in the fixed-point degrees of [`crate::fields`].
#[derive(Debug, Clone, Copy, PartialEq, Eq, Structural)]
pub struct TetraLipPosition {
    pub lat: i64,
    pub lon: i64,
    pub speed_kmh: Option<HorizontalVelocity>,
    pub short_report: bool,
}

/// The bits of a Type-4 message: as many as it declares, or all there are if it declares more.
pub open spec fn message_bits(len_bits: u16, bytes: Seq<u8>) -> Seq<bool> {
    bits::bits_of(bytes).take(reader::available(bytes.len(), len_bits as nat) as int)
}

/// The number of bits of time data, by its type. The fourth type is reserved.
pub open spec fn time_data_bits(time_type: nat) -> Option<int> {
    if time_type == 0 {
        Some(0)
    } else if time_type == 1 {
        Some(2)
    } else if time_type == 2 {
        Some(22)
    } else {
        None
    }
}

/// The location shapes that start with a longitude and a latitude.
pub open spec fn is_position_shape(shape: nat) -> bool {
    1 <= shape <= 7 || shape == 9 || shape == 10
}

/// The point whose longitude field starts at offset `at`, directly before its latitude field.
pub open spec fn point_at(pdu: Seq<bool>, at: int) -> (int, int) {
    (
        fields::angle(
            bits::field(pdu, at + LONGITUDE_BITS, LATITUDE_BITS as int),
            LATITUDE_BITS as nat,
        ),
        fields::angle(bits::field(pdu, at, LONGITUDE_BITS as int), LONGITUDE_BITS as nat),
    )
}

/// What a Short Location Report says:
///
/// | offset | bits | field                |
/// |--------|------|----------------------|
/// | 0      | 2    | PDU type             |
/// | 2      | 2    | time elapsed         |
/// | 4      | 25   | longitude            |
/// | 29     | 24   | latitude             |
/// | 53     | 3    | position error       |
/// | 56     | 7    | horizontal velocity  |
/// | 63     | 4    | direction of travel  |
/// | 67     | 1    | additional-data type |
pub open spec fn short_location_report(pdu: Seq<bool>) -> Option<TetraLipPosition> {
    if pdu.len() < 68 {
        None
    } else {
        let (lat, lon) = point_at(pdu, 4);
        Some(
            TetraLipPosition {
                lat: lat as i64,
                lon: lon as i64,
                speed_kmh: Some(fields::velocity(bits::field(pdu, 56, 7))),
                short_report: true,
            },
        )
    }
}

/// What a Long Location Report says, where `t` is the number of bits of its time data:
///
/// | offset   | bits | field          |
/// |----------|------|----------------|
/// | 0        | 2    | PDU type       |
/// | 2        | 4    | extension      |
/// | 6        | 2    | time data type |
/// | 8        | `t`  | time data      |
/// | 8 + `t`  | 4    | location shape |
/// | 12 + `t` | 25   | longitude      |
/// | 37 + `t` | 24   | latitude       |
pub open spec fn long_location_report(pdu: Seq<bool>) -> Option<TetraLipPosition> {
    if pdu.len() < 8 || bits::field(pdu, 2, 4) != 3 {
        None
    } else {
        match time_data_bits(bits::field(pdu, 6, 2)) {
            None => None,
            Some(t) => if pdu.len() < 61 + t || !is_position_shape(bits::field(pdu, 8 + t, 4)) {
                None
            } else {
                let (lat, lon) = point_at(pdu, 12 + t);
                Some(
                    TetraLipPosition {
                        lat: lat as i64,
                        lon: lon as i64,
                        speed_kmh: None,
                        short_report: false,
                    },
                )
            },
        }
    }
}

/// The position that a LIP PDU reports, if it is a report of a position.
pub open spec fn reported_position(pdu: Seq<bool>) -> Option<TetraLipPosition> {
    if pdu.len() < 2 {
        None
    } else if bits::field(pdu, 0, 2) == 0 {
        short_location_report(pdu)
    } else if bits::field(pdu, 0, 2) == 1 {
        long_location_report(pdu)
    } else {
        None
    }
}

/// The position that a message reports: its first 8 bits identify LIP, the others are the PDU.
pub open spec fn message_position(message: Seq<bool>) -> Option<TetraLipPosition> {
    if message.len() < 8 || bits::field(message, 0, 8) != LIP_PROTOCOL_ID {
        None
    } else {
        reported_position(message.skip(8))
    }
}

/// The position that SDS user data report. Only Type-4 user data carry LIP.
pub open spec fn decoded_position(data: SdsUserData) -> Option<TetraLipPosition> {
    match data {
        SdsUserData::Type4(len_bits, bytes) => message_position(message_bits(len_bits, bytes@)),
        _ => None,
    }
}

/// The first `width` bits behind offset `at`, where there are as many, are the field there.
proof fn lemma_front(pdu: Seq<bool>, at: int, width: int)
    requires
        0 <= at,
        0 <= width,
    ensures
        at + width <= pdu.len() ==> {
            &&& bits::bits_value(pdu.skip(at).take(width)) == bits::field(pdu, at, width)
            &&& bits::field(pdu, at, width) < pow2(width as nat)
            &&& pdu.skip(at).skip(width) == pdu.skip(at + width)
        },
{
    if at + width <= pdu.len() {
        assert(pdu.skip(at).take(width) =~= pdu.subrange(at, at + width));
        assert(pdu.skip(at).skip(width) =~= pdu.skip(at + width));
        bits::lemma_value_bound(pdu.subrange(at, at + width));
    }
}

/// Behind the first byte of a message lies its PDU.
pub proof fn lemma_pdu(len_bits: u16, bytes: Seq<u8>)
    requires
        bytes.len() > 0,
        len_bits >= 8,
    ensures
        bits::field(message_bits(len_bits, bytes), 0, 8) == bytes[0],
        message_bits(len_bits, bytes).len() >= 8,
        message_bits(len_bits, bytes).skip(8) == message_bits(
            (len_bits - 8) as u16,
            bytes.skip(1),
        ),
{
    let message = message_bits(len_bits, bytes);
    bits::lemma_byte_value(bytes);
    assert(message.subrange(0, 8) =~= bits::bits_of(bytes).take(8));
    let rest = bits::bits_of(bytes.skip(1));
    assert forall|i: int| 0 <= i < rest.len() implies rest[i] == bits::bits_of(bytes)[i + 8] by {
        assert((i + 8) / 8 == i / 8 + 1);
        assert((i + 8) % 8 == i % 8);
    }
    assert(message.skip(8) =~= message_bits((len_bits - 8) as u16, bytes.skip(1)));
}

/// A point that a PDU carries lies on the globe.
pub proof fn lemma_point_valid(pdu: Seq<bool>, at: int)
    requires
        0 <= at,
        at + 49 <= pdu.len(),
    ensures
        -90 * fields::DEGREE <= point_at(pdu, at).0 < 90 * fields::DEGREE,
        -180 * fields::DEGREE <= point_at(pdu, at).1 < 180 * fields::DEGREE,
{
    lemma2_to64();
    lemma_front(pdu, at, 25);
    lemma_front(pdu, at + 25, 24);
    fields::lemma_signed_value(bits::field(pdu, at, 25), 25);
    fields::lemma_signed_value(bits::field(pdu, at + 25, 24), 24);
}

/// Decodes the position that a message reports.
///
/// Two LIP PDUs report a position: the Short Location Report (PDU type 0), and the Long
/// Location Report (PDU type 1, extension 3) whose location shape starts with a longitude and
/// a latitude. Every other PDU, and everything that is not LIP, decodes to `None`.
pub fn decode_tetra_lip_position(data: &SdsUserData) -> (position: Option<TetraLipPosition>)
    ensures
        position == decoded_position(*data),
{
    let (len_bits, bytes) = match data {
        SdsUserData::Type4(len_bits, bytes) => (*len_bits, bytes),
        _ => return None,
    };
    if len_bits < 10 || bytes.len() == 0 || bytes[0] != LIP_PROTOCOL_ID {
        proof {
            if len_bits >= 10 && bytes@.len() > 0 {
                lemma_pdu(len_bits, bytes@);
            }
        }
        return None;
    }
    let payload_bits: usize = len_bits as usize - 8;
    let mut bits = BitReader::new(
        vstd::slice::slice_subrange(bytes.as_slice(), 1, bytes.len()),
        payload_bits,
    );
    let ghost pdu = bits@;
    proof {
        lemma_pdu(len_bits, bytes@);
        assert(bytes@.subrange(1, bytes@.len() as int) =~= bytes@.skip(1));
        assert(pdu.skip(0) =~= pdu);
        lemma_front(pdu, 0, 2);
        lemma2_to64();
    }
    match bits.read(2)? {
        0 => {
            proof {
                lemma_front(pdu, 2, 2);
                lemma_front(pdu, 4, 25);
                lemma_front(pdu, 29, 24);
                lemma_front(pdu, 53, 3);
                lemma_front(pdu, 56, 7);
                lemma_front(pdu, 63, 4);
                if pdu.len() >= 63 {
                    lemma_point_valid(pdu, 4);
                }
            }
            if !bits.skip(2) {
                return None;
            }
            let lon: i64 = decode_lon(bits.read(25)?);
            let lat: i64 = decode_lat(bits.read(24)?);
            if !bits.skip(3) {
                return None;
            }
            let speed = horizontal_velocity(bits.read(7)?);
            if !bits.skip(4) {
                return None;
            }
            if !bits.skip(1) {
                return None;
            }
            if valid_coord(lat, lon) {
                Some(TetraLipPosition { lat, lon, speed_kmh: Some(speed), short_report: true })
            } else {
                None
            }
        },
        1 => {
            proof {
                lemma_front(pdu, 2, 4);
                lemma_front(pdu, 6, 2);
            }
            let extension: u32 = bits.read(4)?;
            if extension != 3 {
                return None;
            }
            let time_bits: usize = match bits.read(2)? {
                0 => 0,
                1 => 2,
                2 => 22,
                _ => return None,
            };
            proof {
                lemma_front(pdu, 8, time_bits as int);
                lemma_front(pdu, 8 + time_bits, 4);
                lemma_front(pdu, 12 + time_bits, 25);
                lemma_front(pdu, 37 + time_bits, 24);
                if pdu.len() >= 61 + time_bits {
                    lemma_point_valid(pdu, 12 + time_bits);
                }
            }
            if !bits.skip(time_bits) {
                return None;
            }
            // Uncertainty, altitude and velocity, which follow the point in some shapes, do not
            // concern its position.
            let shape: u32 = bits.read(4)?;
            if !(1 <= shape && shape <= 7 || shape == 9 || shape == 10) {
                return None;
            }
            let lon: i64 = decode_lon(bits.read(25)?);
            let lat: i64 = decode_lat(bits.read(24)?);
            if valid_coord(lat, lon) {
                Some(TetraLipPosition { lat, lon, speed_kmh: None, short_report: false })
            } else {
                None
            }
        },
        _ => None,
    }
}

} // verus!

//! What holds of the library as a whole.
//!
//! Each proof function states one law over the spec functions in which the contracts are
//! written.

use crate::bits;
use crate::fields;
use crate::fields::{HorizontalVelocity, ANGLE_STEP, DEGREE};
use crate::position;
use crate::position::{SdsUserData, TetraLipPosition};
use crate::reader;
use vstd::arithmetic::div_mod::*;
use vstd::arithmetic::mul::*;
use vstd::arithmetic::power::*;
use vstd::arithmetic::power2::*;
use vstd::prelude::*;

verus! {

/// Two reads in a row are one read: the second continues where the first ended, and the first
/// value weighs `2^second`. A value read from `n` bits is below `2^n`.
pub proof fn reads_join(rest: Seq<bool>, first: nat, second: nat)
    requires
        reader::readable(rest, first + second),
    ensures
        reader::readable(rest, first),
        reader::readable(rest.skip(first as int), second),
        rest.skip(first as int).skip(second as int) == rest.skip((first + second) as int),
        bits::bits_value(rest.take((first + second) as int)) == bits::bits_value(
            rest.take(first as int),
        ) * pow2(second) + bits::bits_value(rest.skip(first as int).take(second as int)),
        bits::bits_value(rest.take((first + second) as int)) < pow2(first + second),
{
    let high = rest.take(first as int);
    let low = rest.skip(first as int).take(second as int);
    assert(rest.take((first + second) as int) =~= high + low);
    assert(rest.skip(first as int).skip(second as int) =~= rest.skip((first + second) as int));
    bits::lemma_value_concat(high, low);
    bits::lemma_value_bound(high + low);
}

/// Two skips in a row are one skip: they succeed together exactly if it succeeds, and it ends
/// where they end.
pub proof fn skips_join(rest: Seq<bool>, first: nat, second: nat)
    ensures
        (first <= rest.len() && second <= rest.skip(first as int).len()) <==> first + second
            <= rest.len(),
        first + second <= rest.len() ==> rest.skip(first as int).skip(second as int)
            == rest.skip((first + second) as int),
{
    if first + second <= rest.len() {
        assert(rest.skip(first as int).skip(second as int) =~= rest.skip(
            (first + second) as int,
        ));
    }
}

/// A reader over packed bits gives back what was written: whatever lies before and behind it,
/// a field of up to 32 bits is read with its value.
pub proof fn reads_return_packed_fields(
    before: Seq<bool>,
    value: nat,
    width: nat,
    after: Seq<bool>,
    bytes: Seq<u8>,
)
    requires
        width <= 32,
        value < pow2(width),
        bytes == bits::pack(before + bits::digits(value, width) + after),
    ensures
        ({
            let written = before + bits::digits(value, width) + after;
            let rest = bits::bits_of(bytes).take(
                reader::available(bytes.len(), written.len()) as int,
            ).skip(before.len() as int);
            &&& reader::readable(rest, width)
            &&& bits::bits_value(rest.take(width as int)) == value
            &&& rest.skip(width as int) == after
        }),
{
    let written = before + bits::digits(value, width) + after;
    bits::lemma_pack_bits(written);
    bits::lemma_digits_value(value, width);
    let rest = written.skip(before.len() as int);
    assert(rest.take(width as int) =~= bits::digits(value, width));
    assert(rest.skip(width as int) =~= after);
}

/// The field of `width` bits that writes an integer in two's complement.
pub open spec fn signed_bits(value: int, width: nat) -> nat {
    (value % (pow2(width) as int)) as nat
}

/// A field of `width` bits and its two's complement reading are congruent modulo `2^width`, and
/// the reading lies between `-2^(width - 1)` and `2^(width - 1)`.
pub proof fn signed_fields_are_congruent(raw: nat, width: nat)
    requires
        width > 0,
        raw < pow2(width),
    ensures
        signed_bits(fields::signed_value(raw, width), width) == raw,
        -pow2((width - 1) as nat) <= fields::signed_value(raw, width) < pow2((width - 1) as nat),
{
    fields::lemma_signed_value(raw, width);
    let modulus = pow2(width) as int;
    lemma_small_mod(raw, pow2(width));
    if fields::signed_value(raw, width) != raw {
        lemma_mod_sub_multiples_vanish(raw as int, modulus);
    }
}

/// An integer that is written into a field modulo `2^width` is read back, negative or not.
pub proof fn signed_fields_round_trip(value: int, width: nat)
    requires
        width > 0,
        -pow2((width - 1) as nat) <= value < pow2((width - 1) as nat),
    ensures
        signed_bits(value, width) < pow2(width),
        fields::signed_value(signed_bits(value, width), width) == value,
{
    let modulus = pow2(width) as int;
    let raw = value % modulus;
    lemma_pow2_unfold(width);
    lemma_pow2_pos(width);
    if value >= 0 {
        lemma_small_mod(value as nat, modulus as nat);
    } else {
        lemma_mod_add_multiples_vanish(value, modulus);
        lemma_small_mod((value + modulus) as nat, modulus as nat);
    }
    fields::lemma_signed_value(raw as nat, width);
}

/// The field value nearest to a fixed-point angle.
pub open spec fn nearest_field(target: int, width: nat) -> nat {
    signed_bits((target + ANGLE_STEP / 2) / (ANGLE_STEP as int), width)
}

/// An angle written as the nearest field value is read back to within half a step, about
/// 0.0000054 degrees.
pub proof fn angles_round_trip(target: int, width: nat)
    requires
        width > 0,
        -pow2((width - 1) as nat) * ANGLE_STEP - ANGLE_STEP / 2 <= target < pow2(
            (width - 1) as nat,
        ) * ANGLE_STEP - ANGLE_STEP / 2,
    ensures
        nearest_field(target, width) < pow2(width),
        -ANGLE_STEP / 2 <= fields::angle(nearest_field(target, width), width) - target
            <= ANGLE_STEP / 2,
{
    let steps = (target + 90) / 180;
    signed_fields_round_trip(steps, width);
}

/// From the exponent 16 on, a velocity of the geometric range is over 28 km/h.
proof fn lemma_geometric_over_linear(exponent: nat)
    requires
        exponent >= 16,
    ensures
        28 * pow(1000, exponent) < 16 * pow(1038, exponent),
    decreases exponent,
{
    if exponent == 16 {
        reveal_with_fuel(pow, 17);
    } else {
        lemma_geometric_over_linear((exponent - 1) as nat);
        reveal(pow);
        lemma_pow_positive(1000, (exponent - 1) as nat);
    }
}

/// A power of 1038 is over the same power of 1000.
proof fn lemma_growth(exponent: nat)
    requires
        exponent > 0,
    ensures
        0 < pow(1000, exponent) < pow(1038, exponent),
    decreases exponent,
{
    reveal(pow);
    if exponent == 1 {
        reveal_with_fuel(pow, 2);
    } else {
        lemma_growth((exponent - 1) as nat);
    }
}

/// Of two velocity fields the greater one stands for the greater velocity, also where the
/// coding changes from its linear to its geometric range.
pub proof fn velocities_increase(slow: nat, fast: nat)
    requires
        slow < fast <= i32::MAX,
    ensures
        ({
            let (v, w) = (fields::velocity(slow), fields::velocity(fast));
            &&& v.kmh_denominator() > 0
            &&& w.kmh_denominator() > 0
            &&& v.kmh_numerator() * w.kmh_denominator() < w.kmh_numerator() * v.kmh_denominator()
        }),
{
    if fast >= 29 {
        let e = (fast - 13) as nat;
        lemma_pow_positive(1000, e);
        if slow < 29 {
            lemma_geometric_over_linear(e);
            lemma_mul_inequality(slow as int, 28, pow(1000, e));
        } else {
            let d = (slow - 13) as nat;
            let gap = (fast - slow) as nat;
            lemma_pow_positive(1000, d);
            lemma_pow_positive(1038, d);
            lemma_pow_adds(1000, d, gap);
            lemma_pow_adds(1038, d, gap);
            lemma_growth(gap);
            let (a, b, x, y) = (pow(1038, d), pow(1000, d), pow(1000, gap), pow(1038, gap));
            assert((16 * a) * (b * x) < (16 * (a * y)) * b) by (nonlinear_arith)
                requires
                    a > 0,
                    b > 0,
                    0 < x < y,
            ;
        }
    }
}

/// Every decoded position lies on the globe: no decodable field is out of range.
pub proof fn decoded_positions_are_valid(data: SdsUserData)
    ensures
        position::decoded_position(data) matches Some(p) ==> {
            &&& -90 * DEGREE <= p.lat < 90 * DEGREE
            &&& -180 * DEGREE <= p.lon < 180 * DEGREE
        },
{
    if let SdsUserData::Type4(len_bits, bytes) = data {
        let pdu = position::message_bits(len_bits, bytes@).skip(8);
        if position::decoded_position(data) is Some {
            if bits::field(pdu, 0, 2) == 0 {
                position::lemma_point_valid(pdu, 4);
            } else {
                let t = position::time_data_bits(bits::field(pdu, 6, 2))->0;
                position::lemma_point_valid(pdu, 12 + t);
            }
        }
    }
}

/// A decoded position has a velocity exactly if it comes from a Short Location Report.
pub proof fn velocities_come_with_short_reports(data: SdsUserData)
    ensures
        position::decoded_position(data) matches Some(p) ==> (p.speed_kmh is Some
            <==> p.short_report),
{
}

/// A position is only decoded from a message that holds all fields up to the position: with the
/// protocol identifier, 76 bits of a Short Location Report, and 69 or more of a long one.
pub proof fn truncated_reports_are_rejected(len_bits: u16, bytes: Vec<u8>)
    ensures
        position::decoded_position(SdsUserData::Type4(len_bits, bytes)) matches Some(p)
            ==> if p.short_report {
            len_bits >= 76 && 8 * bytes@.len() >= 76
        } else {
            len_bits >= 69 && 8 * bytes@.len() >= 69
        },
{
}

/// What follows a decodable report does not change its position.
pub proof fn trailing_bits_do_not_matter(message: Seq<bool>, more: Seq<bool>)
    requires
        position::message_position(message) is Some,
    ensures
        position::message_position(message + more) == position::message_position(message),
{
    let pdu = message.skip(8);
    let long = pdu + more;
    assert((message + more).skip(8) =~= long);
    assert((message + more).subrange(0, 8) =~= message.subrange(0, 8));
    assert forall|at: int, width: int| 0 <= at <= at + width <= pdu.len() implies bits::field(
        long,
        at,
        width,
    ) == bits::field(pdu, at, width) by {
        assert(long.subrange(at, at + width) =~= pdu.subrange(at, at + width));
    }
}

/// Bytes behind the declared length do not matter.
pub proof fn undeclared_bytes_do_not_matter(len_bits: u16, bytes: Vec<u8>, longer: Vec<u8>)
    requires
        len_bits <= 8 * bytes@.len(),
        bytes@.is_prefix_of(longer@),
    ensures
        position::decoded_position(SdsUserData::Type4(len_bits, longer))
            == position::decoded_position(SdsUserData::Type4(len_bits, bytes)),
{
    assert(position::message_bits(len_bits, longer@) =~= position::message_bits(
        len_bits,
        bytes@,
    ));
}

/// A message that declares more bits than its bytes carry is read as if it declared those.
pub proof fn missing_bytes_shorten_a_message(len_bits: u16, carried: u16, bytes: Vec<u8>)
    requires
        carried == 8 * bytes@.len(),
        carried <= len_bits,
    ensures
        position::decoded_position(SdsUserData::Type4(len_bits, bytes))
            == position::decoded_position(SdsUserData::Type4(carried, bytes)),
{
}

/// User data that are not of Type 4, or that have another protocol identifier, have no position.
pub proof fn other_protocols_are_rejected(data: SdsUserData)
    requires
        data matches SdsUserData::Type4(len_bits, bytes) ==> bytes@.len() > 0 ==> bytes@[0]
            != 10,
    ensures
        position::decoded_position(data) is None,
{
    if let SdsUserData::Type4(len_bits, bytes) = data {
        if len_bits >= 8 && bytes@.len() > 0 {
            position::lemma_pdu(len_bits, bytes@);
        }
    }
}

/// LIP PDUs other than the two location reports have no position: all PDUs but those of type 0,
/// and those of type 1 with extension 3.
pub proof fn other_pdus_are_rejected(pdu: Seq<bool>)
    requires
        !(pdu.len() >= 2 && bits::field(pdu, 0, 2) == 0),
        !(pdu.len() >= 6 && bits::field(pdu, 0, 2) == 1 && bits::field(pdu, 2, 4) == 3),
    ensures
        position::reported_position(pdu) is None,
{
}

/// A Long Location Report has no position if its time data are of the reserved type, or if its
/// location shape does not start with a longitude and a latitude (shape 0 carries no location).
pub proof fn reports_without_coordinates_are_rejected(pdu: Seq<bool>)
    requires
        pdu.len() >= 2,
        bits::field(pdu, 0, 2) == 1,
        match position::time_data_bits(bits::field(pdu, 6, 2)) {
            None => true,
            Some(t) => !position::is_position_shape(bits::field(pdu, 8 + t, 4)),
        },
    ensures
        position::reported_position(pdu) is None,
{
}

/// Packed into bytes and declared with its length, a message carries its own bits.
pub proof fn packed_messages_keep_their_bits(message: Seq<bool>, len_bits: u16, bytes: Seq<u8>)
    requires
        len_bits == message.len(),
        bytes == bits::pack(message),
    ensures
        position::message_bits(len_bits, bytes) == message,
{
    bits::lemma_pack_bits(message);
}

/// A point in steps of the angle fields, as reports carry it: its longitude, then its latitude.
pub open spec fn point_bits(lat_steps: int, lon_steps: int) -> Seq<bool> {
    bits::digits(signed_bits(lon_steps, 25), 25) + bits::digits(signed_bits(lat_steps, 24), 24)
}

/// Whether a point in steps fits into the angle fields.
pub open spec fn is_point(lat_steps: int, lon_steps: int) -> bool {
    -0x80_0000 <= lat_steps < 0x80_0000 && -0x100_0000 <= lon_steps < 0x100_0000
}

/// A bit string that holds a point at offset `at` reads as that point.
proof fn lemma_point_read(pdu: Seq<bool>, at: int, lat_steps: int, lon_steps: int)
    requires
        is_point(lat_steps, lon_steps),
        0 <= at,
        at + 49 <= pdu.len(),
        pdu.subrange(at, at + 49) == point_bits(lat_steps, lon_steps),
    ensures
        position::point_at(pdu, at) == (ANGLE_STEP * lat_steps, ANGLE_STEP * lon_steps),
{
    lemma2_to64();
    signed_fields_round_trip(lat_steps, 24);
    signed_fields_round_trip(lon_steps, 25);
    let (lat, lon) = (signed_bits(lat_steps, 24), signed_bits(lon_steps, 25));
    bits::lemma_digits_value(lat, 24);
    bits::lemma_digits_value(lon, 25);
    let point = pdu.subrange(at, at + 49);
    assert(point.subrange(0, 25) =~= bits::digits(lon, 25));
    assert(point.subrange(25, 49) =~= bits::digits(lat, 24));
    assert(pdu.subrange(at, at + 25) =~= point.subrange(0, 25));
    assert(pdu.subrange(at + 25, at + 49) =~= point.subrange(25, 49));
}

/// A LIP message: the protocol identifier 10, then the PDU.
pub open spec fn lip_message(pdu: Seq<bool>) -> Seq<bool> {
    bits::digits(10, 8) + pdu
}

/// A LIP message has the position that its PDU reports.
pub proof fn lip_messages_carry_their_pdu(pdu: Seq<bool>)
    ensures
        position::message_position(lip_message(pdu)) == position::reported_position(pdu),
{
    lemma2_to64();
    bits::lemma_digits_value(10, 8);
    let message = lip_message(pdu);
    assert(message.subrange(0, 8) =~= bits::digits(10, 8));
    assert(message.skip(8) =~= pdu);
}

/// A Short Location Report, as it is written: PDU type 0, time elapsed, the point, position
/// error, horizontal velocity; the direction of travel, the additional-data type and whatever
/// follows are `rest`.
pub open spec fn is_short_report(
    pdu: Seq<bool>,
    time_elapsed: Seq<bool>,
    lat_steps: int,
    lon_steps: int,
    position_error: Seq<bool>,
    speed: nat,
    rest: Seq<bool>,
) -> bool {
    &&& is_point(lat_steps, lon_steps)
    &&& speed < 128
    &&& time_elapsed.len() == 2
    &&& position_error.len() == 3
    &&& rest.len() >= 5
    &&& pdu == bits::digits(0, 2) + time_elapsed + point_bits(lat_steps, lon_steps)
        + position_error + bits::digits(speed, 7) + rest
}

/// Whether time data of a Long Location Report have the length that belongs to their type.
pub open spec fn is_time(time_type: nat, time_data: Seq<bool>) -> bool {
    ||| time_type == 0 && time_data.len() == 0
    ||| time_type == 1 && time_data.len() == 2
    ||| time_type == 2 && time_data.len() == 22
}

/// The head of a Long Location Report, as it is written: PDU type 1, extension 3, the time data
/// with their type, and the location shape.
pub open spec fn long_report_head(time_type: nat, time_data: Seq<bool>, shape: nat) -> Seq<bool> {
    bits::digits(1, 2) + bits::digits(3, 4) + bits::digits(time_type, 2) + time_data
        + bits::digits(shape, 4)
}

/// A Long Location Report with a point, as it is written: its head, the point, and whatever
/// follows.
pub open spec fn is_long_report(
    pdu: Seq<bool>,
    time_type: nat,
    time_data: Seq<bool>,
    shape: nat,
    lat_steps: int,
    lon_steps: int,
    rest: Seq<bool>,
) -> bool {
    &&& is_point(lat_steps, lon_steps)
    &&& is_time(time_type, time_data)
    &&& 1 <= shape <= 7 || 9 <= shape <= 10
    &&& pdu == long_report_head(time_type, time_data, shape) + point_bits(lat_steps, lon_steps)
        + rest
}

/// Whether a velocity is the one that a velocity field codes.
pub open spec fn is_speed(speed: HorizontalVelocity, raw: nat) -> bool {
    match speed {
        HorizontalVelocity::Linear { kmh } => raw < 29 && kmh == raw,
        HorizontalVelocity::Geometric { exponent } => raw >= 29 && exponent == raw - 13,
    }
}

/// Whether a position is the point that was written, in steps of 180 / 2^24 degrees.
pub open spec fn is_at(p: TetraLipPosition, lat_steps: int, lon_steps: int) -> bool {
    p.lat == 180 * lat_steps && p.lon == 180 * lon_steps
}

/// A Short Location Report gives back the point and the velocity that were written into it,
/// whatever its other fields hold (time elapsed, position error, direction of travel,
/// additional-data type), and whatever follows.
pub proof fn short_reports_round_trip(
    len_bits: u16,
    bytes: Vec<u8>,
    time_elapsed: Seq<bool>,
    lat_steps: int,
    lon_steps: int,
    position_error: Seq<bool>,
    speed: nat,
    rest: Seq<bool>,
    pdu: Seq<bool>,
)
    requires
        is_short_report(pdu, time_elapsed, lat_steps, lon_steps, position_error, speed, rest),
        position::message_bits(len_bits, bytes@) == lip_message(pdu),
    ensures
        ({
            let decoded = position::decoded_position(SdsUserData::Type4(len_bits, bytes));
            &&& decoded is Some
            &&& is_at(decoded->0, lat_steps, lon_steps)
            &&& decoded->0.speed_kmh is Some
            &&& is_speed(decoded->0.speed_kmh->0, speed)
            &&& decoded->0.short_report
        }),
{
    lip_messages_carry_their_pdu(pdu);
    lemma2_to64();
    bits::lemma_digits_value(0, 2);
    bits::lemma_digits_value(speed, 7);
    bits::lemma_digits_len(signed_bits(lon_steps, 25), 25);
    bits::lemma_digits_len(signed_bits(lat_steps, 24), 24);
    assert(pdu.subrange(0, 2) =~= bits::digits(0, 2));
    assert(pdu.subrange(4, 53) =~= point_bits(lat_steps, lon_steps));
    assert(pdu.subrange(56, 63) =~= bits::digits(speed, 7));
    lemma_point_read(pdu, 4, lat_steps, lon_steps);
}

/// A Long Location Report gives back the point that was written into it, for each type of time
/// data and each location shape that starts with a point, and whatever follows.
pub proof fn long_reports_round_trip(
    len_bits: u16,
    bytes: Vec<u8>,
    time_type: nat,
    time_data: Seq<bool>,
    shape: nat,
    lat_steps: int,
    lon_steps: int,
    rest: Seq<bool>,
    pdu: Seq<bool>,
)
    requires
        is_long_report(pdu, time_type, time_data, shape, lat_steps, lon_steps, rest),
        position::message_bits(len_bits, bytes@) == lip_message(pdu),
    ensures
        ({
            let decoded = position::decoded_position(SdsUserData::Type4(len_bits, bytes));
            &&& decoded is Some
            &&& is_at(decoded->0, lat_steps, lon_steps)
            &&& decoded->0.speed_kmh is None
            &&& !decoded->0.short_report
        }),
{
    let t = time_data.len() as int;
    lip_messages_carry_their_pdu(pdu);
    lemma2_to64();
    bits::lemma_digits_len(signed_bits(lon_steps, 25), 25);
    bits::lemma_digits_len(signed_bits(lat_steps, 24), 24);
    let after = point_bits(lat_steps, lon_steps) + rest;
    assert(pdu =~= long_report_head(time_type, time_data, shape) + after);
    lemma_long_head(pdu, time_type, time_data, shape, after);
    assert(pdu.subrange(12 + t, 61 + t) =~= point_bits(lat_steps, lon_steps));
    lemma_point_read(pdu, 12 + t, lat_steps, lon_steps);
}

/// The fields that the head of a Long Location Report writes.
proof fn lemma_long_head(
    pdu: Seq<bool>,
    time_type: nat,
    time_data: Seq<bool>,
    shape: nat,
    after: Seq<bool>,
)
    requires
        is_time(time_type, time_data),
        shape < 16,
        pdu == long_report_head(time_type, time_data, shape) + after,
    ensures
        pdu.len() == 12 + time_data.len() + after.len(),
        bits::field(pdu, 0, 2) == 1,
        bits::field(pdu, 2, 4) == 3,
        bits::field(pdu, 6, 2) == time_type,
        bits::field(pdu, (8 + time_data.len()) as int, 4) == shape,
{
    let t = time_data.len() as int;
    lemma2_to64();
    bits::lemma_digits_value(1, 2);
    bits::lemma_digits_value(3, 4);
    bits::lemma_digits_value(time_type, 2);
    bits::lemma_digits_value(shape, 4);
    assert(pdu.subrange(0, 2) =~= bits::digits(1, 2));
    assert(pdu.subrange(2, 6) =~= bits::digits(3, 4));
    assert(pdu.subrange(6, 8) =~= bits::digits(time_type, 2));
    assert(pdu.subrange(8 + t, 12 + t) =~= bits::digits(shape, 4));
}

/// A part of a bit string that holds a value is the digits of that value.
proof fn lemma_part(string: Seq<bool>, at: int, width: int)
    requires
        0 <= at <= at + width <= string.len(),
    ensures
        string.subrange(at, at + width) == bits::digits(
            bits::field(string, at, width),
            width as nat,
        ),
        bits::field(string, at, width) < pow2(width as nat),
{
    bits::lemma_value_digits(string.subrange(at, at + width));
    bits::lemma_value_bound(string.subrange(at, at + width));
}

/// Any 49 bits are a point.
proof fn lemma_point_written(pdu: Seq<bool>, at: int) -> (steps: (int, int))
    requires
        0 <= at,
        at + 49 <= pdu.len(),
    ensures
        is_point(steps.0, steps.1),
        pdu.subrange(at, at + 49) == point_bits(steps.0, steps.1),
        position::point_at(pdu, at) == (180 * steps.0, 180 * steps.1),
{
    lemma2_to64();
    let lon = bits::field(pdu, at, 25);
    let lat = bits::field(pdu, at + 25, 24);
    lemma_part(pdu, at, 25);
    lemma_part(pdu, at + 25, 24);
    signed_fields_are_congruent(lon, 25);
    signed_fields_are_congruent(lat, 24);
    let steps = (fields::signed_value(lat, 24), fields::signed_value(lon, 25));
    assert(pdu.subrange(at, at + 49) =~= point_bits(steps.0, steps.1));
    steps
}

/// A message with the protocol identifier of LIP is a LIP message.
proof fn lemma_message_written(message: Seq<bool>)
    requires
        message.len() >= 8,
        bits::field(message, 0, 8) == 10,
    ensures
        message == lip_message(message.skip(8)),
{
    lemma_part(message, 0, 8);
    assert(message =~= lip_message(message.skip(8)));
}

/// A position with a velocity is only decoded from a message into which a Short Location Report
/// with that point and that velocity was written.
pub proof fn decoded_short_reports_were_written(data: SdsUserData)
    ensures
        position::decoded_position(data) matches Some(p) ==> p.short_report ==> {
            &&& data matches SdsUserData::Type4(len_bits, bytes)
            &&& exists|
                pdu: Seq<bool>,
                time_elapsed: Seq<bool>,
                lat_steps: int,
                lon_steps: int,
                position_error: Seq<bool>,
                speed: nat,
                rest: Seq<bool>,
            |
                {
                    &&& #[trigger] is_short_report(
                        pdu,
                        time_elapsed,
                        lat_steps,
                        lon_steps,
                        position_error,
                        speed,
                        rest,
                    )
                    &&& position::message_bits(len_bits, bytes@) == lip_message(pdu)
                    &&& is_at(p, lat_steps, lon_steps)
                    &&& p.speed_kmh is Some
                    &&& is_speed(p.speed_kmh->0, speed)
                }
        },
{
    let decoded = position::decoded_position(data);
    if decoded is Some && decoded->0.short_report {
        if let SdsUserData::Type4(len_bits, bytes) = data {
            let message = position::message_bits(len_bits, bytes@);
            let pdu = message.skip(8);
            lemma2_to64();
            lemma_message_written(message);
            lemma_part(pdu, 0, 2);
            lemma_part(pdu, 56, 7);
            let (lat_steps, lon_steps) = lemma_point_written(pdu, 4);
            let speed = bits::field(pdu, 56, 7);
            bits::lemma_digits_len(signed_bits(lon_steps, 25), 25);
            bits::lemma_digits_len(signed_bits(lat_steps, 24), 24);
            assert(pdu =~= bits::digits(0, 2) + pdu.subrange(2, 4) + point_bits(
                lat_steps,
                lon_steps,
            ) + pdu.subrange(53, 56) + bits::digits(speed, 7) + pdu.skip(63));
            assert(is_short_report(
                pdu,
                pdu.subrange(2, 4),
                lat_steps,
                lon_steps,
                pdu.subrange(53, 56),
                speed,
                pdu.skip(63),
            ));
        }
    }
}

/// A position without a velocity is only decoded from a message into which a Long Location
/// Report with that point was written.
pub proof fn decoded_long_reports_were_written(data: SdsUserData)
    ensures
        position::decoded_position(data) matches Some(p) ==> !p.short_report ==> {
            &&& data matches SdsUserData::Type4(len_bits, bytes)
            &&& exists|
                pdu: Seq<bool>,
                time_type: nat,
                time_data: Seq<bool>,
                shape: nat,
                lat_steps: int,
                lon_steps: int,
                rest: Seq<bool>,
            |
                {
                    &&& #[trigger] is_long_report(
                        pdu,
                        time_type,
                        time_data,
                        shape,
                        lat_steps,
                        lon_steps,
                        rest,
                    )
                    &&& position::message_bits(len_bits, bytes@) == lip_message(pdu)
                    &&& is_at(p, lat_steps, lon_steps)
                    &&& p.speed_kmh is None
                }
        },
{
    let decoded = position::decoded_position(data);
    if decoded is Some && !decoded->0.short_report {
        if let SdsUserData::Type4(len_bits, bytes) = data {
            let message = position::message_bits(len_bits, bytes@);
            let pdu = message.skip(8);
            let time_type = bits::field(pdu, 6, 2);
            let t = position::time_data_bits(time_type)->0;
            let shape = bits::field(pdu, 8 + t, 4);
            lemma2_to64();
            lemma_message_written(message);
            lemma_part(pdu, 0, 2);
            lemma_part(pdu, 2, 4);
            lemma_part(pdu, 6, 2);
            lemma_part(pdu, 8 + t, 4);
            let (lat_steps, lon_steps) = lemma_point_written(pdu, 12 + t);
            let time_data = pdu.subrange(8, 8 + t);
            let rest = pdu.skip(61 + t);
            bits::lemma_digits_len(signed_bits(lon_steps, 25), 25);
            bits::lemma_digits_len(signed_bits(lat_steps, 24), 24);
            assert(pdu =~= long_report_head(time_type, time_data, shape) + point_bits(
                lat_steps,
                lon_steps,
            ) + rest);
            assert(is_long_report(
                pdu,
                time_type,
                time_data,
                shape,
                lat_steps,
                lon_steps,
                rest,
            ));
        }
    }
}

/// A LIP message whose PDU is not a location report decodes to nothing, however long it is: a
/// PDU that does not start with type 0, nor with type 1 and extension 3.
pub proof fn messages_with_other_pdus_are_rejected(
    len_bits: u16,
    bytes: Vec<u8>,
    pdu: Seq<bool>,
)
    requires
        position::message_bits(len_bits, bytes@) == lip_message(pdu),
        !(pdu.len() >= 2 && pdu.take(2) == seq![false, false]),
        !(pdu.len() >= 6 && pdu.take(6) == seq![false, true, false, false, true, true]),
    ensures
        position::decoded_position(SdsUserData::Type4(len_bits, bytes)) is None,
{
    let decoded = position::decoded_position(SdsUserData::Type4(len_bits, bytes));
    lip_messages_carry_their_pdu(pdu);
    if decoded is Some {
        lemma_part(pdu, 0, 2);
        reveal_with_fuel(bits::digits, 5);
        assert(pdu.take(2) =~= pdu.subrange(0, 2));
        if bits::field(pdu, 0, 2) == 0 {
            assert(bits::digits(0, 2) =~= seq![false, false]);
        } else {
            lemma_part(pdu, 2, 4);
            assert(bits::digits(1, 2) =~= seq![false, true]);
            assert(bits::digits(3, 4) =~= seq![false, false, true, true]);
            assert(pdu.take(6) =~= pdu.subrange(0, 2) + pdu.subrange(2, 6));
            assert(pdu.take(6) =~= seq![false, true, false, false, true, true]);
        }
    }
}

/// A message with a Long Location Report whose location shape has no coordinates (shape 0) or
/// does not start with them decodes to nothing, whatever follows the shape.
pub proof fn messages_without_coordinates_are_rejected(
    len_bits: u16,
    bytes: Vec<u8>,
    time_type: nat,
    time_data: Seq<bool>,
    shape: nat,
    rest: Seq<bool>,
)
    requires
        is_time(time_type, time_data),
        shape == 0 || shape == 8 || 11 <= shape <= 15,
        position::message_bits(len_bits, bytes@) == lip_message(
            long_report_head(time_type, time_data, shape) + rest,
        ),
    ensures
        position::decoded_position(SdsUserData::Type4(len_bits, bytes)) is None,
{
    let pdu = long_report_head(time_type, time_data, shape) + rest;
    lip_messages_carry_their_pdu(pdu);
    lemma_long_head(pdu, time_type, time_data, shape, rest);
}

/// A message with a Long Location Report whose time data are of the reserved type decodes to
/// nothing, whatever follows the type.
pub proof fn messages_with_reserved_time_are_rejected(
    len_bits: u16,
    bytes: Vec<u8>,
    rest: Seq<bool>,
)
    requires
        position::message_bits(len_bits, bytes@) == lip_message(
            bits::digits(1, 2) + bits::digits(3, 4) + bits::digits(3, 2) + rest,
        ),
    ensures
        position::decoded_position(SdsUserData::Type4(len_bits, bytes)) is None,
{
    let pdu = bits::digits(1, 2) + bits::digits(3, 4) + bits::digits(3, 2) + rest;
    lip_messages_carry_their_pdu(pdu);
    lemma2_to64();
    bits::lemma_digits_value(1, 2);
    bits::lemma_digits_value(3, 4);
    bits::lemma_digits_value(3, 2);
    assert(pdu.subrange(0, 2) =~= bits::digits(1, 2));
    assert(pdu.subrange(6, 8) =~= bits::digits(3, 2));
}

/// A Long Location Report that is cut off anywhere before the end of its latitude decodes to
/// nothing. With `t` bits of time data it takes 69 + `t` declared and carried bits.
pub proof fn cut_off_long_reports_are_rejected(
    len_bits: u16,
    bytes: Vec<u8>,
    time_type: nat,
    time_data: Seq<bool>,
    shape: nat,
    rest: Seq<bool>,
)
    requires
        is_time(time_type, time_data),
        shape < 16,
        position::message_bits(len_bits, bytes@).is_prefix_of(
            lip_message(long_report_head(time_type, time_data, shape) + rest),
        ),
        len_bits < 69 + time_data.len() || 8 * bytes@.len() < 69 + time_data.len(),
    ensures
        position::decoded_position(SdsUserData::Type4(len_bits, bytes)) is None,
{
    let whole = long_report_head(time_type, time_data, shape) + rest;
    let message = position::message_bits(len_bits, bytes@);
    let pdu = message.skip(8);
    bits::lemma_digits_len(10, 8);
    lemma_long_head(whole, time_type, time_data, shape, rest);
    if message.len() >= 16 {
        assert(pdu =~= whole.take(message.len() - 8));
        assert(pdu.subrange(0, 2) =~= whole.subrange(0, 2));
        assert(pdu.subrange(6, 8) =~= whole.subrange(6, 8));
    } else if message.len() >= 10 {
        assert(pdu =~= whole.take(message.len() - 8));
        assert(pdu.subrange(0, 2) =~= whole.subrange(0, 2));
    }
}

/// A Short Location Report that is cut off anywhere before its end, which is after 76 bits with
/// the protocol identifier, decodes to nothing.
pub proof fn cut_off_short_reports_are_rejected(len_bits: u16, bytes: Vec<u8>, rest: Seq<bool>)
    requires
        position::message_bits(len_bits, bytes@) == lip_message(bits::digits(0, 2) + rest),
        len_bits < 76 || 8 * bytes@.len() < 76,
    ensures
        position::decoded_position(SdsUserData::Type4(len_bits, bytes)) is None,
{
    let pdu = bits::digits(0, 2) + rest;
    lip_messages_carry_their_pdu(pdu);
    lemma2_to64();
    bits::lemma_digits_len(10, 8);
    bits::lemma_digits_value(0, 2);
    assert(pdu.subrange(0, 2) =~= bits::digits(0, 2));
}

/// A message that continues a decodable message decodes to the same position.
pub proof fn continued_messages_decode_alike(
    len_bits: u16,
    bytes: Vec<u8>,
    longer_bits: u16,
    longer: Vec<u8>,
)
    requires
        position::decoded_position(SdsUserData::Type4(len_bits, bytes)) is Some,
        position::message_bits(len_bits, bytes@).is_prefix_of(
            position::message_bits(longer_bits, longer@),
        ),
    ensures
        position::decoded_position(SdsUserData::Type4(longer_bits, longer))
            == position::decoded_position(SdsUserData::Type4(len_bits, bytes)),
{
    let message = position::message_bits(len_bits, bytes@);
    let longer_message = position::message_bits(longer_bits, longer@);
    let more = longer_message.skip(message.len() as int);
    assert(longer_message =~= message + more);
    trailing_bits_do_not_matter(message, more);
}

/// Messages with the same bits decode alike, whatever bytes carry them.
pub proof fn equal_messages_decode_alike(
    len_bits: u16,
    bytes: Vec<u8>,
    other_bits: u16,
    other: Vec<u8>,
)
    requires
        position::message_bits(len_bits, bytes@) == position::message_bits(other_bits, other@),
    ensures
        position::decoded_position(SdsUserData::Type4(len_bits, bytes))
            == position::decoded_position(SdsUserData::Type4(other_bits, other)),
{
}

/// A message has the bits that it declares, from the first bit of its first byte on; where its
/// bytes carry fewer, it has those.
pub proof fn messages_have_their_declared_bits(len_bits: u16, bytes: Seq<u8>)
    ensures
        position::message_bits(len_bits, bytes).is_prefix_of(bits::bits_of(bytes)),
        len_bits <= 8 * bytes.len() ==> position::message_bits(len_bits, bytes).len() == len_bits,
        len_bits > 8 * bytes.len() ==> position::message_bits(len_bits, bytes)
            == bits::bits_of(bytes),
{
    if len_bits > 8 * bytes.len() {
        assert(position::message_bits(len_bits, bytes) =~= bits::bits_of(bytes));
    }
}

/// The bits of joined byte strings are their joined bits.
pub proof fn joined_bytes_join_their_bits(first: Seq<u8>, second: Seq<u8>)
    ensures
        bits::bits_of(first + second) == bits::bits_of(first) + bits::bits_of(second),
{
    let all = bits::bits_of(first + second);
    let n = 8 * first.len() as int;
    assert forall|i: int| n <= i < all.len() implies all[i] == bits::bits_of(second)[i - n] by {
        assert(i / 8 == first.len() + (i - n) / 8);
        assert(i % 8 == (i - n) % 8);
    }
    assert(all =~= bits::bits_of(first) + bits::bits_of(second));
}

/// A byte has eight bits, which write its value in binary.
pub proof fn bytes_are_their_bits(byte: u8)
    ensures
        bits::bits_of(seq![byte]).len() == 8,
        bits::bits_value(bits::bits_of(seq![byte])) == byte,
{
    bits::lemma_byte_value(seq![byte]);
    assert(bits::bits_of(seq![byte]).take(8) =~= bits::bits_of(seq![byte]));
}

/// One more bit doubles the value of a bit string and adds the bit; without bits it is zero.
pub proof fn bits_are_binary(string: Seq<bool>, bit: bool)
    ensures
        string.len() == 0 ==> bits::bits_value(string) == 0,
        bits::bits_value(string.push(bit)) == 2 * bits::bits_value(string) + if bit {
            1nat
        } else {
            0nat
        },
{
    assert(string.push(bit).drop_last() =~= string);
}

/// `width` digits of a value are the one bit string of that length that writes the value.
pub proof fn digits_are_the_only_writing(string: Seq<bool>, value: nat, width: nat)
    requires
        value < pow2(width),
    ensures
        string == bits::digits(value, width) <==> string.len() == width && bits::bits_value(string)
            == value,
{
    bits::lemma_digits_value(value, width);
    if string.len() == width && bits::bits_value(string) == value {
        bits::lemma_value_digits(string);
    }
}

/// Above its sign bit a field counts with its full weight: `k * 2^width` more in the field is
/// `k * 2^width` more in its reading.
pub proof fn higher_bits_keep_their_weight(raw: nat, k: nat, width: nat)
    requires
        width > 0,
    ensures
        fields::signed_value(raw + k * pow2(width), width) == fields::signed_value(raw, width) + k
            * pow2(width),
{
    let half = pow2((width - 1) as nat) as int;
    lemma_pow2_unfold(width);
    lemma_pow2_pos((width - 1) as nat);
    let q = raw as int / half;
    assert(k * (2 * half) == (2 * k) * half) by (nonlinear_arith);
    lemma_hoist_over_denominator(raw as int, (2 * k) as int, half as nat);
    assert((raw + k * pow2(width)) as int / half == q + 2 * k);
}

/// An angle field counts steps of 180 / 2^24 degrees.
pub proof fn angles_count_steps(steps: int, width: nat)
    requires
        width > 0,
        -pow2((width - 1) as nat) <= steps < pow2((width - 1) as nat),
    ensures
        fields::angle(signed_bits(steps, width), width) == 180 * steps,
        0x100_0000 * fields::angle(signed_bits(steps, width), width) == 180 * steps * DEGREE,
{
    signed_fields_round_trip(steps, width);
}

/// The next velocity field stands for 1 km/h more in the linear range, and for 3.8 percent more
/// in the geometric range.
pub proof fn velocities_grow_step_by_step(raw: nat)
    requires
        raw < i32::MAX,
    ensures
        ({
            let (v, w) = (fields::velocity(raw), fields::velocity(raw + 1));
            &&& raw < 28 ==> w.kmh_numerator() * v.kmh_denominator() == (v.kmh_numerator()
                + v.kmh_denominator()) * w.kmh_denominator()
            &&& raw >= 29 ==> 1000 * w.kmh_numerator() * v.kmh_denominator() == 1038
                * v.kmh_numerator() * w.kmh_denominator()
        }),
{
    if raw >= 29 {
        let e = (raw - 13) as nat;
        reveal(pow);
        let (a, b) = (pow(1038, e), pow(1000, e));
        assert(pow(1038, e + 1) == 1038 * a);
        assert(pow(1000, e + 1) == 1000 * b);
        assert(1000 * (16 * (1038 * a)) * b == 1038 * (16 * a) * (1000 * b)) by (nonlinear_arith);
    }
}

} // verus!

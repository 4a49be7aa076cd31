//! Bit strings: the model over which every bit-level contract of this crate is stated.
//!
//! A bit string is a `Seq<bool>`, first transmitted bit first. Bytes carry their bits most
//! significant bit first, and a field of several bits is an unsigned integer in the same order.

use vstd::arithmetic::div_mod::*;
use vstd::arithmetic::power2::*;
use vstd::prelude::*;

verus! {

/// Bit `i` of a byte, counted from the most significant bit.
pub open spec fn byte_bit(byte: u8, i: int) -> bool {
    (byte as nat / pow2((7 - i) as nat)) % 2 == 1
}

/// All bits that a string of bytes carries.
pub open spec fn bits_of(bytes: Seq<u8>) -> Seq<bool> {
    Seq::new(8 * bytes.len(), |i: int| byte_bit(bytes[i / 8], i % 8))
}

/// The unsigned integer that a bit string writes in binary, most significant bit first.
pub open spec fn bits_value(bits: Seq<bool>) -> nat
    decreases bits.len(),
{
    if bits.len() == 0 {
        0
    } else {
        2 * bits_value(bits.drop_last()) + if bits.last() {
            1nat
        } else {
            0nat
        }
    }
}

/// The value of the `width` bits that start at offset `at`.
pub open spec fn field(bits: Seq<bool>, at: int, width: int) -> nat {
    bits_value(bits.subrange(at, at + width))
}

/// The `width` low-order binary digits of `value`, most significant bit first.
pub open spec fn digits(value: nat, width: nat) -> Seq<bool>
    decreases width,
{
    if width == 0 {
        Seq::empty()
    } else {
        digits(value / 2, (width - 1) as nat).push(value % 2 == 1)
    }
}

/// The shortest string of bytes that carries `bits`; unused bits of the last byte are zero.
pub open spec fn pack(bits: Seq<bool>) -> Seq<u8> {
    Seq::new(
        ((bits.len() + 7) / 8) as nat,
        |i: int|
            bits_value(
                Seq::new(8, |j: int| 8 * i + j < bits.len() && bits[8 * i + j]),
            ) as u8,
    )
}

/// A field of `n` bits holds a value below `2^n`.
pub proof fn lemma_value_bound(bits: Seq<bool>)
    ensures
        bits_value(bits) < pow2(bits.len()),
    decreases bits.len(),
{
    if bits.len() == 0 {
        lemma2_to64();
    } else {
        lemma_value_bound(bits.drop_last());
        lemma_pow2_unfold(bits.len());
    }
}

/// The value of a bit string in two parts: the first part weighs `2^n`, where `n` is the
/// length of the second.
pub proof fn lemma_value_concat(high: Seq<bool>, low: Seq<bool>)
    ensures
        bits_value(high + low) == bits_value(high) * pow2(low.len()) + bits_value(low),
    decreases low.len(),
{
    if low.len() == 0 {
        lemma2_to64();
        assert(high + low =~= high);
        assert(bits_value(high) * 1 == bits_value(high));
    } else {
        let rest = low.drop_last();
        lemma_value_concat(high, rest);
        assert((high + low).drop_last() =~= high + rest);
        lemma_pow2_unfold(low.len());
        let h = bits_value(high) as int;
        let p = pow2(rest.len()) as int;
        assert(h * (2 * p) == 2 * (h * p)) by (nonlinear_arith);
    }
}

/// `width` digits are `width` bits.
pub proof fn lemma_digits_len(value: nat, width: nat)
    ensures
        digits(value, width).len() == width,
    decreases width,
{
    if width > 0 {
        lemma_digits_len(value / 2, (width - 1) as nat);
    }
}

/// Writing a value that fits into `width` digits and reading the digits gives the value back.
pub proof fn lemma_digits_value(value: nat, width: nat)
    requires
        value < pow2(width),
    ensures
        digits(value, width).len() == width,
        bits_value(digits(value, width)) == value,
    decreases width,
{
    if width == 0 {
        lemma2_to64();
    } else {
        let low = (width - 1) as nat;
        lemma_pow2_unfold(width);
        lemma_digits_value(value / 2, low);
        assert(digits(value, width).drop_last() =~= digits(value / 2, low));
    }
}

/// The digits of a bit string's value are the bit string.
pub proof fn lemma_value_digits(bits: Seq<bool>)
    ensures
        digits(bits_value(bits), bits.len()) =~= bits,
    decreases bits.len(),
{
    if bits.len() > 0 {
        let rest = bits.drop_last();
        lemma_value_digits(rest);
        assert(bits_value(bits) / 2 == bits_value(rest));
        assert(bits =~= rest.push(bits.last()));
    }
}

/// Binary digit `i` of `width` is the quotient by its weight, modulo 2.
pub proof fn lemma_digit(value: nat, width: nat, i: int)
    requires
        0 <= i < width,
    ensures
        digits(value, width).len() == width,
        digits(value, width)[i] == ((value / pow2((width - 1 - i) as nat)) % 2 == 1),
    decreases width,
{
    lemma_digits_len(value, width);
    lemma_digits_len(value / 2, (width - 1) as nat);
    let shift = (width - 1 - i) as nat;
    if shift == 0 {
        lemma2_to64();
        assert(value / 1 == value);
    } else {
        lemma_digit(value / 2, (width - 1) as nat, i);
        lemma_pow2_unfold(shift);
        lemma_pow2_pos((shift - 1) as nat);
        lemma_div_denominator(value as int, 2, pow2((shift - 1) as nat) as int);
    }
}

/// The bits of one byte write the byte's value.
pub proof fn lemma_byte_value(bytes: Seq<u8>)
    requires
        bytes.len() > 0,
    ensures
        bits_value(bits_of(bytes).take(8)) == bytes[0],
{
    lemma2_to64();
    lemma_digits_value(bytes[0] as nat, 8);
    assert forall|i: int| 0 <= i < 8 implies bits_of(bytes)[i] == digits(
        bytes[0] as nat,
        8,
    )[i] by {
        lemma_digit(bytes[0] as nat, 8, i);
    }
    assert(bits_of(bytes).take(8) =~= digits(bytes[0] as nat, 8));
}

/// Digit `i` of a bit string's value is its bit `i`.
pub proof fn lemma_value_digit(bits: Seq<bool>, i: int)
    requires
        0 <= i < bits.len(),
    ensures
        (bits_value(bits) / pow2((bits.len() - 1 - i) as nat)) % 2 == if bits[i] {
            1nat
        } else {
            0nat
        },
    decreases bits.len(),
{
    let shift = (bits.len() - 1 - i) as nat;
    let rest = bits.drop_last();
    if shift == 0 {
        lemma2_to64();
        assert(bits_value(bits) / 1 == bits_value(bits));
    } else {
        lemma_value_digit(rest, i);
        lemma_pow2_unfold(shift);
        lemma_pow2_pos((shift - 1) as nat);
        lemma_div_denominator(bits_value(bits) as int, 2, pow2((shift - 1) as nat) as int);
        assert(bits_value(bits) / 2 == bits_value(rest));
    }
}

/// Packing a bit string into bytes keeps every bit.
pub proof fn lemma_pack_bits(bits: Seq<bool>)
    ensures
        bits.len() <= 8 * pack(bits).len() < bits.len() + 8,
        bits_of(pack(bits)).take(bits.len() as int) =~= bits,
{
    let bytes = pack(bits);
    assert forall|k: int| 0 <= k < bits.len() implies bits_of(bytes)[k] == bits[k] by {
        let i = k / 8;
        let octet = Seq::new(8, |j: int| 8 * i + j < bits.len() && bits[8 * i + j]);
        lemma_value_bound(octet);
        lemma2_to64();
        lemma_value_digit(octet, k % 8);
        assert(bytes[i] == bits_value(octet) as u8);
        assert(octet[k % 8] == bits[k]);
    }
}

} // verus!

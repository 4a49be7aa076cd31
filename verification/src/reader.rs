//! Sequential reading of bit fields.

use crate::bits;
use vstd::arithmetic::power2::*;
use vstd::bits::*;
use vstd::prelude::*;

verus! {

/// A cursor over the leading bits of a byte string.
///
/// Its view is the bit string that has not been read yet.
pub struct BitReader<'a> {
    bytes: &'a [u8],
    bit_len: usize,
    pos: usize,
}

impl<'a> View for BitReader<'a> {
    type V = Seq<bool>;

    closed spec fn view(&self) -> Seq<bool> {
        bits::bits_of(self.bytes@).subrange(self.pos as int, self.bit_len as int)
    }
}

/// Whether a field of `width` bits can be read from the front of `rest`.
pub open spec fn readable(rest: Seq<bool>, width: nat) -> bool {
    width <= 32 && width <= rest.len()
}

/// The number of bits that a reader over `byte_len` bytes offers when asked for `bit_len` bits.
pub open spec fn available(byte_len: nat, bit_len: nat) -> nat {
    if bit_len <= 8 * byte_len {
        bit_len
    } else {
        8 * byte_len
    }
}

impl<'a> BitReader<'a> {
    #[verifier::type_invariant]
    spec fn in_bounds(self) -> bool {
        self.pos <= self.bit_len <= 8 * self.bytes@.len()
    }

    /// A reader at the first of `bit_len` bits, or of all bits of `bytes` if there are fewer.
    pub fn new(bytes: &'a [u8], bit_len: usize) -> (reader: Self)
        ensures
            reader@ == bits::bits_of(bytes@).take(
                available(bytes@.len(), bit_len as nat) as int,
            ),
            bit_len <= 8 * bytes@.len() ==> reader@ == bits::bits_of(bytes@).take(bit_len as int),
            bit_len > 8 * bytes@.len() ==> reader@ == bits::bits_of(bytes@),
    {
        let total: usize = if bytes.len() <= usize::MAX / 8 {
            bytes.len() * 8
        } else {
            usize::MAX
        };
        let reader = BitReader {
            bytes,
            bit_len: if bit_len <= total {
                bit_len
            } else {
                total
            },
            pos: 0,
        };
        assert(reader@ =~= bits::bits_of(bytes@).take(
            available(bytes@.len(), bit_len as nat) as int,
        ));
        assert(bit_len > 8 * bytes@.len() ==> reader@ =~= bits::bits_of(bytes@));
        reader
    }

    /// Reads the next `bits` bits as an unsigned integer, most significant bit first.
    ///
    /// Returns `None`, and reads nothing, if `bits` is over 32 or fewer bits are left.
    pub fn read(&mut self, bits: usize) -> (value: Option<u32>)
        ensures
            readable(old(self)@, bits as nat) ==> {
                &&& value is Some
                &&& value->0 == bits::bits_value(old(self)@.take(bits as int))
                &&& final(self)@ == old(self)@.skip(bits as int)
            },
            !readable(old(self)@, bits as nat) ==> value is None && final(self)@ == old(self)@,
            value is Some <==> bits <= 32 && bits <= old(self)@.len(),
    {
        proof {
            use_type_invariant(&*self);
        }
        if bits > 32 {
            return None;
        }
        let end: usize = match self.pos.checked_add(bits) {
            Some(end) => end,
            None => return None,
        };
        if end > self.bit_len {
            return None;
        }
        let ghost all = bits::bits_of(self.bytes@);
        let ghost start = self.pos as int;
        let ghost rest = self@;
        let mut value: u32 = 0;
        for i in 0..bits
            invariant
                bits <= 32,
                all == bits::bits_of(self.bytes@),
                rest == all.subrange(start, self.bit_len as int),
                0 <= start,
                start + bits <= self.bit_len <= 8 * self.bytes@.len(),
                self.pos == start + i,
                value == bits::bits_value(rest.take(i as int)),
        {
            let byte: u8 = self.bytes[self.pos / 8];
            let shift: usize = 7 - (self.pos % 8);
            let bit: u8 = (byte >> shift) & 1;
            proof {
                lemma_u8_shr_is_div(byte, shift as u8);
                let shifted: u8 = byte >> shift;
                assert(shifted & 1 == shifted % 2) by (bit_vector);
                assert(rest[i as int] == all[self.pos as int]);
                bits::lemma_value_bound(rest.take(i as int));
                lemma2_to64();
                if i < 31 {
                    lemma_pow2_strictly_increases(i as nat, 31);
                }
                assert(rest.take(i + 1).drop_last() =~= rest.take(i as int));
                let wide: u32 = bit as u32;
                assert((value << 1) | wide == 2 * value + wide) by (bit_vector)
                    requires
                        value < 0x8000_0000u32,
                        wide <= 1,
                ;
            }
            value = (value << 1) | u32::from(bit);
            self.pos += 1;
        }
        assert(self@ =~= rest.skip(bits as int));
        Some(value)
    }

    /// Drops the next `bits` bits, and tells whether there were as many.
    pub fn skip(&mut self, bits: usize) -> (skipped: bool)
        ensures
            skipped == (bits <= old(self)@.len()),
            final(self)@ == if skipped {
                old(self)@.skip(bits as int)
            } else {
                old(self)@
            },
    {
        proof {
            use_type_invariant(&*self);
        }
        match self.pos.checked_add(bits) {
            Some(next) => {
                if next > self.bit_len {
                    return false;
                }
                self.pos = next;
                assert(self@ =~= old(self)@.skip(bits as int));
                true
            },
            None => false,
        }
    }
}

} // verus!

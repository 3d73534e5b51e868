//! The field codec: reading and writing one field of 1 to 64 bits at an
//! arbitrary bit offset within a byte buffer.
//!
//! A read returns the field right-justified: the low `width` bits of the
//! result are the field, the higher bits are zero, wherever the field sits in
//! the buffer. A write stores the low `width` bits of the given value and
//! preserves every bit outside the field's span, including the other bits of
//! the two bytes the span may only partly cover.
//!
//! Both operations work at bit granularity, so one pair serves every logical
//! width alike: no correction for the padding between a logical width and its
//! native container is needed, and no access ever touches a byte past the
//! buffer, however close to its end a field sits. The four native widths
//! remain the natural containers for field values; [`native_width`] picks the
//! smallest one that holds a given field.

use vstd::prelude::*;
use vstd::arithmetic::power2::{pow2, lemma_pow2_strictly_increases, lemma2_to64, lemma2_to64_rest};
use crate::bits::{byte_bit, stream_bit, field_value, value_bit, lemma_field_value_of_bits};

verus! {

/// The smallest native unsigned width (8, 16, 32 or 64 bits) whose container
/// holds a logical field of `n` bits.
pub open spec fn spec_native_width(n: nat) -> nat {
    if n <= 8 {
        8
    } else if n <= 16 {
        16
    } else if n <= 32 {
        32
    } else {
        64
    }
}

/// The smallest of the four native unsigned widths that holds a field of
/// `bits` logical bits; the natural container for what [`get_bits`] returns.
pub fn native_width(bits: usize) -> (r: usize)
    requires
        1 <= bits <= 64,
    ensures
        r == spec_native_width(bits as nat),
{
    if bits <= 8 {
        8
    } else if bits <= 16 {
        16
    } else if bits <= 32 {
        32
    } else {
        64
    }
}

/// Reads the `width`-bit field starting at bit `offset`, most significant bit
/// first, right-justified in the result: the low `width` bits are the field
/// and the higher bits are zero.
pub fn get_bits(bytes: &Vec<u8>, offset: usize, width: usize) -> (r: u64)
    requires
        1 <= width <= 64,
        offset + width <= 8 * bytes@.len(),
        offset + width <= usize::MAX,
    ensures
        r as nat == field_value(bytes@, offset as int, width as nat),
        (r as nat) < pow2(width as nat),
{
    let mut acc: u64 = 0;
    let mut i: usize = 0;
    proof {
        lemma2_to64();
    }
    while i < width
        invariant
            i <= width,
            1 <= width <= 64,
            offset + width <= 8 * bytes@.len(),
            offset + width <= usize::MAX,
            acc as nat == field_value(bytes@, offset as int, i as nat),
            (acc as nat) < pow2(i as nat),
        decreases width - i,
    {
        let idx: usize = offset + i;
        proof {
            assert(idx < 8 * bytes@.len());
            assert(idx / 8 < bytes@.len());
        }
        let byte: u8 = bytes[idx / 8];
        let sh: usize = 7 - idx % 8;
        let b: u8 = (byte >> (sh as u8)) & 1;
        proof {
            assert(b == stream_bit(bytes@, idx as int));
            assert(b <= 1) by {
                crate::bits::lemma_stream_bit_le_one(bytes@, idx as int);
            };
            if (i as nat) < 63 {
                lemma_pow2_strictly_increases(i as nat, 63);
            }
            lemma2_to64_rest();
            assert((acc as nat) < pow2(63));
            vstd::arithmetic::power2::lemma_pow2_unfold((i + 1) as nat);
        }
        acc = acc * 2 + (b as u64);
        i = i + 1;
    }
    acc
}

/// Setting bit `s` of a byte (counting from the least significant bit)
/// changes that bit alone; so does clearing it.
proof fn lemma_byte_update(b: u8, s: u8, t: u8)
    requires
        s < 8,
        t < 8,
    ensures
        byte_bit(b | (1u8 << s), s) == 1,
        byte_bit(b & !(1u8 << s), s) == 0,
        s != t ==> byte_bit(b | (1u8 << s), t) == byte_bit(b, t),
        s != t ==> byte_bit(b & !(1u8 << s), t) == byte_bit(b, t),
{
    assert(((b | (1u8 << s)) >> s) & 1 == 1) by (bit_vector)
        requires
            s < 8,
    ;
    assert(((b & !(1u8 << s)) >> s) & 1 == 0) by (bit_vector)
        requires
            s < 8,
    ;
    assert(s != t && s < 8 && t < 8 ==> ((b | (1u8 << s)) >> t) & 1 == (b >> t) & 1)
        by (bit_vector);
    assert(s != t && s < 8 && t < 8 ==> ((b & !(1u8 << s)) >> t) & 1 == (b >> t) & 1)
        by (bit_vector);
}

/// Writes the low `width` bits of `value` into the `width`-bit field starting
/// at bit `offset`, most significant bit first, and preserves every bit of
/// the buffer outside the field's span.
pub fn set_bits(bytes: &mut Vec<u8>, offset: usize, width: usize, value: u64)
    requires
        1 <= width <= 64,
        offset + width <= 8 * old(bytes)@.len(),
        offset + width <= usize::MAX,
    ensures
        final(bytes)@.len() == old(bytes)@.len(),
        field_value(final(bytes)@, offset as int, width as nat) == value as nat % pow2(
            width as nat,
        ),
        (value as nat) < pow2(width as nat) ==> field_value(
            final(bytes)@,
            offset as int,
            width as nat,
        ) == value as nat,
        forall|i: int|
            0 <= i < 8 * final(bytes)@.len() && !(offset <= i < offset + width) ==> stream_bit(
                final(bytes)@,
                i,
            ) == stream_bit(old(bytes)@, i),
{
    let mut j: usize = 0;
    while j < width
        invariant
            j <= width,
            1 <= width <= 64,
            offset + width <= 8 * old(bytes)@.len(),
            offset + width <= usize::MAX,
            bytes@.len() == old(bytes)@.len(),
            forall|i: int|
                0 <= i < 8 * bytes@.len() && !(offset <= i < offset + j) ==> stream_bit(bytes@, i)
                    == stream_bit(old(bytes)@, i),
            forall|i: int|
                offset <= i < offset + j ==> stream_bit(bytes@, i) == value_bit(
                    value,
                    width as u64,
                    (i - offset) as u64,
                ),
        decreases width - j,
    {
        let idx: usize = offset + j;
        proof {
            assert(idx < 8 * bytes@.len());
            assert(idx / 8 < bytes@.len());
        }
        let bi: usize = idx / 8;
        let sh: usize = 7 - idx % 8;
        let vsh: usize = width - 1 - j;
        let b: u8 = ((value >> (vsh as u64)) & 1) as u8;
        let mask: u8 = 1u8 << (sh as u8);
        let old_byte: u8 = bytes[bi];
        let new_byte: u8 = if b == 1 {
            old_byte | mask
        } else {
            old_byte & !mask
        };
        let ghost prev = bytes@;
        bytes.set(bi, new_byte);
        proof {
            let v = value;
            let s64: u64 = vsh as u64;
            assert((v >> s64) & 1 == 0 || (v >> s64) & 1 == 1) by (bit_vector);
            assert(b == value_bit(value, width as u64, j as u64));
            lemma_byte_update(old_byte, sh as u8, sh as u8);
            assert forall|i: int| 0 <= i < 8 * bytes@.len() && i != idx implies stream_bit(
                bytes@,
                i,
            ) == stream_bit(prev, i) by {
                vstd::arithmetic::div_mod::lemma_fundamental_div_mod(i, 8);
                vstd::arithmetic::div_mod::lemma_fundamental_div_mod(idx as int, 8);
                if i / 8 == bi {
                    assert(i % 8 != idx % 8);
                    lemma_byte_update(old_byte, sh as u8, (7 - i % 8) as u8);
                }
            };
            assert(stream_bit(bytes@, idx as int) == b) by {
                assert(bytes@[idx as int / 8] == new_byte);
            };
            assert forall|i: int| offset <= i < offset + j + 1 implies stream_bit(bytes@, i)
                == value_bit(value, width as u64, (i - offset) as u64) by {
                if i == idx {
                    assert(stream_bit(bytes@, i) == b);
                    assert((i - offset) as u64 == j as u64);
                } else {
                    assert(stream_bit(bytes@, i) == stream_bit(prev, i));
                    assert(stream_bit(prev, i) == value_bit(value, width as u64, (i - offset) as u64));
                }
            };
        }
        j = j + 1;
    }
    proof {
        lemma_field_value_of_bits(bytes@, offset as int, width as u64, value);
        if (value as nat) < pow2(width as nat) {
            vstd::arithmetic::power2::lemma_pow2_pos(width as nat);
            vstd::arithmetic::div_mod::lemma_small_mod(value as nat, pow2(width as nat));
        }
    }
}

} // verus!

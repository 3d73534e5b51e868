//! The mathematical model of the packed byte stream.
//!
//! A buffer of `len` bytes is read as a stream of `8 * len` bits. Bit `i` of
//! the stream is bit `i % 8` of byte `i / 8`, counting the most significant
//! bit of a byte first: the layout is big-endian within each byte, and fields
//! are packed densely with no padding between them.
//!
//! A field of width `n` starting at bit offset `off` has the unsigned value
//! [`field_value`]`(bytes, off, n)`: its first bit is the most significant.

use vstd::prelude::*;
use vstd::arithmetic::power2::{pow2, lemma_pow2_pos, lemma_pow2_unfold, lemma2_to64};

verus! {

/// Bit `k` of a byte, counting from the least significant bit.
pub open spec fn byte_bit(b: u8, k: u8) -> u8
    recommends
        k < 8,
{
    (b >> k) & 1
}

/// Bit `i` of the packed stream: bit `i % 8` of byte `i / 8`, the most
/// significant bit of each byte first.
pub open spec fn stream_bit(bytes: Seq<u8>, i: int) -> u8
    recommends
        0 <= i < 8 * bytes.len(),
{
    byte_bit(bytes[i / 8], (7 - i % 8) as u8)
}

/// The unsigned value of the `n` bits starting at bit offset `off`, the most
/// significant bit first.
pub open spec fn field_value(bytes: Seq<u8>, off: int, n: nat) -> nat
    decreases n,
{
    if n == 0 {
        0
    } else {
        field_value(bytes, off, (n - 1) as nat) * 2 + stream_bit(bytes, off + n - 1) as nat
    }
}

/// Bit `j` of the `n`-bit value `v % pow2(n)`, the most significant bit first:
/// the bit that lands at stream position `off + j` when `v` is written at
/// offset `off` with width `n`.
pub open spec fn value_bit(v: u64, n: u64, j: u64) -> u8
    recommends
        j < n <= 64,
{
    ((v >> ((n - 1 - j) as u64)) & 1) as u8
}

/// A stream bit is a single bit.
pub proof fn lemma_stream_bit_le_one(bytes: Seq<u8>, i: int)
    ensures
        stream_bit(bytes, i) <= 1,
{
    let b = bytes[i / 8];
    let k = (7 - i % 8) as u8;
    assert((b >> k) & 1 <= 1) by (bit_vector);
}

/// An `n`-bit field value is representable in `n` bits.
pub proof fn lemma_field_value_bound(bytes: Seq<u8>, off: int, n: nat)
    ensures
        field_value(bytes, off, n) < pow2(n),
    decreases n,
{
    if n == 0 {
        lemma2_to64();
    } else {
        lemma_field_value_bound(bytes, off, (n - 1) as nat);
        lemma_stream_bit_le_one(bytes, off + n - 1);
        lemma_pow2_unfold(n);
    }
}

/// A field's value depends only on its own bits: buffers that agree on the
/// bits of the span `[off, off + n)` give the field the same value. This is
/// the preservation half of the round-trip law: writing one field leaves the
/// bits, and so the value, of every other field untouched.
pub proof fn lemma_field_value_frame(s1: Seq<u8>, s2: Seq<u8>, off: int, n: nat)
    requires
        forall|i: int| off <= i < off + n ==> stream_bit(s1, i) == stream_bit(s2, i),
    ensures
        field_value(s1, off, n) == field_value(s2, off, n),
    decreases n,
{
    if n > 0 {
        lemma_field_value_frame(s1, s2, off, (n - 1) as nat);
    }
}

/// A span of zero bits reads as the value zero.
pub proof fn lemma_field_value_zero(bytes: Seq<u8>, off: int, n: nat)
    requires
        forall|i: int| off <= i < off + n ==> stream_bit(bytes, i) == 0,
    ensures
        field_value(bytes, off, n) == 0,
    decreases n,
{
    if n > 0 {
        lemma_field_value_zero(bytes, off, (n - 1) as nat);
    }
}

/// Every bit of the zero byte is zero.
pub proof fn lemma_zero_byte_bit(k: u8)
    ensures
        byte_bit(0, k) == 0,
{
    assert((0u8 >> k) & 1 == 0) by (bit_vector);
}

/// Bit `j` of the low `n` bits of `v` equals bit `j` of the low `n - 1` bits
/// of `v >> 1`, for `j` before the last: halving drops only the last bit.
proof fn lemma_half_bit(v: u64, s: u64)
    requires
        s <= 62,
    ensures
        ((v >> 1u64) >> s) & 1 == (v >> ((s + 1) as u64)) & 1,
{
    assert(((v >> 1u64) >> s) & 1 == (v >> ((s + 1) as u64)) & 1) by (bit_vector)
        requires
            s <= 62,
    ;
}

/// A span holding the bits of `v`, most significant first, reads back as
/// `v % pow2(n)`: the written low `n` bits, exactly.
pub proof fn lemma_field_value_of_bits(s: Seq<u8>, off: int, n: u64, v: u64)
    requires
        n <= 64,
        forall|i: int| off <= i < off + n ==> stream_bit(s, i) == value_bit(v, n, (i - off) as u64),
    ensures
        field_value(s, off, n as nat) == v as nat % pow2(n as nat),
    decreases n,
{
    if n == 0 {
        lemma2_to64();
        assert(v as nat % 1 == 0) by (nonlinear_arith);
    } else {
        let m = (n - 1) as u64;
        let half = v >> 1u64;
        assert forall|i: int| off <= i < off + m implies stream_bit(s, i) == value_bit(
            half,
            m,
            (i - off) as u64,
        ) by {
            let jj = (i - off) as u64;
            let sft = (m - 1 - jj) as u64;
            lemma_half_bit(v, sft);
            assert(stream_bit(s, i) == value_bit(v, n, jj));
        };
        lemma_field_value_of_bits(s, off, m, half);
        assert(stream_bit(s, off + n - 1) == value_bit(v, n, m));
        assert((v >> ((n - 1 - m) as u64)) & 1 == v % 2) by (bit_vector)
            requires
                m == n - 1,
        ;
        vstd::bits::lemma_u64_shr_is_div(v, 1);
        lemma2_to64();
        lemma_pow2_unfold(n as nat);
        lemma_pow2_pos(m as nat);
        vstd::arithmetic::div_mod::lemma_mod_breakdown(v as int, 2, pow2(m as nat) as int);
        assert(field_value(s, off, n as nat) == field_value(s, off, m as nat) * 2 + (v % 2));
        assert(field_value(s, off, m as nat) == half as nat % pow2(m as nat));
        assert(v as nat % pow2(n as nat) == 2 * ((v as nat / 2) % pow2(m as nat)) + v as nat % 2);
    }
}

} // verus!

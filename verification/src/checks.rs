//! Construction-time validations.
//!
//! Every error this library can report is detected while a layout or a label
//! set is being constructed; the accessors of a validly constructed record
//! have no failure mode. Each check here returns evidence of the validated
//! condition — [`True`], a [`TotalSize`], a [`Discriminant`] — or says
//! exactly why the input was rejected.

use vstd::prelude::*;

verus! {

/// Why a construction-time validation rejected its input.
#[derive(Clone, Copy, PartialEq, Eq, Structural, Debug)]
pub enum CheckError {
    /// A field's declared bit-width is zero or exceeds 64.
    WidthOutOfRange,
    /// A field's width annotation differs from what its specifier occupies.
    DeclaredWidthMismatch,
    /// The record's total bit-width exceeds what a byte length can address.
    TotalSizeOverflow,
    /// Strict mode only: the total bit-width is not a multiple of eight.
    TotalSizeNotByteAligned,
    /// A label set's size is not a power of two of at least two.
    LabelCountNotPowerOfTwo,
    /// A label's discriminant is not below the label count.
    DiscriminantOutOfRange,
    /// Two labels carry the same discriminant.
    DuplicateDiscriminant,
}

/// Evidence that a checked condition held.
pub struct True;

impl True {
    /// Turns a boolean condition into evidence of itself, or into the given
    /// error when the condition fails.
    pub fn check(cond: bool, err: CheckError) -> (r: Result<True, CheckError>)
        ensures
            r is Ok <==> cond,
            !cond ==> r == Result::<True, CheckError>::Err(err),
    {
        if cond {
            Ok(True)
        } else {
            Err(err)
        }
    }
}

/// The byte length of a buffer that holds `bits` bits: `ceil(bits / 8)`.
pub open spec fn spec_total_bytes(bits: int) -> int {
    (bits + 7) / 8
}

/// The size of a packed record: the sum of its field widths in bits, and the
/// byte length of the backing buffer, rounded up to the next whole byte.
pub struct TotalSize {
    pub bits: usize,
    pub bytes: usize,
}

impl TotalSize {
    /// The byte length is exactly `ceil(bits / 8)`.
    pub open spec fn wf(self) -> bool {
        self.bits + 7 <= usize::MAX && self.bytes == spec_total_bytes(self.bits as int)
    }

    /// Every one of the `bits` bits lies within the `bytes` bytes.
    pub proof fn lemma_covers(self)
        requires
            self.wf(),
        ensures
            self.bits <= 8 * self.bytes,
            8 * self.bytes <= self.bits + 7,
    {
        vstd::arithmetic::div_mod::lemma_fundamental_div_mod(self.bits + 7, 8);
    }

    /// Validates a total bit count: it must stay addressable once rounded up
    /// to bytes, and, in strict mode, be a multiple of eight.
    pub fn check(total_bits: usize, strict: bool) -> (r: Result<TotalSize, CheckError>)
        ensures
            r is Ok <==> total_bits + 7 <= usize::MAX && (strict ==> total_bits % 8 == 0),
            r matches Ok(t) ==> t.wf() && t.bits == total_bits,
            total_bits + 7 > usize::MAX ==> r == Result::<TotalSize, CheckError>::Err(
                CheckError::TotalSizeOverflow,
            ),
            total_bits + 7 <= usize::MAX && strict && total_bits % 8 != 0 ==> r == Result::<
                TotalSize,
                CheckError,
            >::Err(CheckError::TotalSizeNotByteAligned),
    {
        if total_bits > usize::MAX - 7 {
            Err(CheckError::TotalSizeOverflow)
        } else {
            match True::check(!strict || total_bits % 8 == 0, CheckError::TotalSizeNotByteAligned) {
                Ok(_) => Ok(TotalSize { bits: total_bits, bytes: (total_bits + 7) / 8 }),
                Err(e) => Err(e),
            }
        }
    }
}

/// A label's discriminant, validated to lie below its label set's count.
pub struct Discriminant {
    pub value: u64,
}

impl Discriminant {
    /// Validates one assigned discriminant value against the label count:
    /// the dense ordinal range a field of `log2(count)` bits can encode is
    /// exactly `[0, count)`.
    pub fn check(value: u64, count: usize) -> (r: Result<Discriminant, CheckError>)
        ensures
            r is Ok <==> (value as int) < count as int,
            r matches Ok(d) ==> d.value == value,
            (value as int) >= count as int ==> r == Result::<Discriminant, CheckError>::Err(
                CheckError::DiscriminantOutOfRange,
            ),
    {
        match True::check((value as u128) < (count as u128), CheckError::DiscriminantOutOfRange) {
            Ok(_) => Ok(Discriminant { value }),
            Err(e) => Err(e),
        }
    }
}

} // verus!

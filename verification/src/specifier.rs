//! Field specifiers.
//!
//! A specifier is a field type for the layout assembler: it exposes the
//! number of bits the field occupies in the packed layout. An integer field
//! carries its width directly; an enum-backed field occupies the width of
//! its label set's ordinals.

use vstd::prelude::*;
use crate::checks::{CheckError, True};
use crate::labels::LabelSet;

verus! {

/// A type that declares the bit-width of the field it describes.
pub trait Specifier {
    /// Whether the specifier is validly constructed.
    spec fn inv(&self) -> bool;

    /// The declared bit-width.
    spec fn spec_bits(&self) -> nat;

    /// The number of bits a field of this specifier occupies in the packed
    /// layout: a supported logical width.
    fn bits(&self) -> (r: usize)
        requires
            self.inv(),
        ensures
            r as nat == self.spec_bits(),
            1 <= r <= 64,
    ;
}

/// An integer field of a fixed logical width between 1 and 64 bits.
pub struct FieldWidth {
    pub bits: usize,
}

impl FieldWidth {
    /// Validates a declared bit-width: only 1 to 64 bits are supported.
    pub fn new(bits: usize) -> (r: Result<FieldWidth, CheckError>)
        ensures
            r is Ok <==> 1 <= bits <= 64,
            r matches Ok(f) ==> f.bits == bits,
            !(1 <= bits <= 64) ==> r == Result::<FieldWidth, CheckError>::Err(
                CheckError::WidthOutOfRange,
            ),
    {
        if 1 <= bits && bits <= 64 {
            Ok(FieldWidth { bits })
        } else {
            Err(CheckError::WidthOutOfRange)
        }
    }
}

impl Specifier for FieldWidth {
    open spec fn inv(&self) -> bool {
        1 <= self.bits <= 64
    }

    open spec fn spec_bits(&self) -> nat {
        self.bits as nat
    }

    fn bits(&self) -> (r: usize) {
        self.bits
    }
}

/// Validates a per-field width annotation: the declared bit count must equal
/// the width the field's specifier actually occupies in the packed layout.
pub fn check_declared_bits<S: Specifier>(declared: usize, field: &S) -> (r: Result<
    True,
    CheckError,
>)
    requires
        field.inv(),
    ensures
        r is Ok <==> declared == field.spec_bits(),
        declared != field.spec_bits() ==> r == Result::<True, CheckError>::Err(
            CheckError::DeclaredWidthMismatch,
        ),
{
    True::check(declared == field.bits(), CheckError::DeclaredWidthMismatch)
}

impl Specifier for LabelSet {
    open spec fn inv(&self) -> bool {
        self.wf()
    }

    open spec fn spec_bits(&self) -> nat {
        self.bits as nat
    }

    fn bits(&self) -> (r: usize) {
        self.bits
    }
}

} // verus!

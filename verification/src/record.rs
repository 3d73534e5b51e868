//! A packed record: a layout together with the byte buffer that backs it.
//!
//! The record owns its buffer; a getter borrows it for the duration of one
//! call and returns a value, so reading has no effect on the buffer and two
//! reads without an intervening write return the same value. A setter
//! rewrites exactly the bits of one field's span and proves every other
//! field, and every bit outside the span, unchanged.

use vstd::prelude::*;
use vstd::arithmetic::power2::pow2;
use crate::bits::{field_value, stream_bit, lemma_field_value_zero, lemma_field_value_frame,
    lemma_zero_byte_bit};
use crate::codec::{get_bits, set_bits};
use crate::labels::LabelSet;
use crate::layout::Layout;

verus! {

/// A record packed into a fixed-length byte buffer.
pub struct PackedRecord {
    pub layout: Layout,
    pub data: Vec<u8>,
}

impl PackedRecord {
    /// The buffer has exactly the byte length the layout computed.
    pub open spec fn wf(self) -> bool {
        self.layout.wf() && self.data@.len() == self.layout.size.bytes
    }

    /// The value stored in field `i`.
    pub open spec fn field(self, i: int) -> nat {
        field_value(
            self.data@,
            self.layout.offsets@[i] as int,
            self.layout.widths@[i] as nat,
        )
    }

    /// A zero-initialized record: every byte, and so every field, is zero.
    pub fn new(layout: Layout) -> (r: PackedRecord)
        requires
            layout.wf(),
        ensures
            r.wf(),
            r.layout == layout,
            forall|i: int| 0 <= i < layout.widths@.len() ==> r.field(i) == 0,
    {
        let n = layout.size.bytes;
        let mut data: Vec<u8> = Vec::new();
        let mut k: usize = 0;
        while k < n
            invariant
                k <= n,
                data@.len() == k,
                forall|p: int| 0 <= p < k ==> data@[p] == 0u8,
            decreases n - k,
        {
            data.push(0u8);
            k = k + 1;
        }
        let r = PackedRecord { layout, data };
        proof {
            assert forall|i: int| 0 <= i < r.layout.widths@.len() implies r.field(i) == 0 by {
                r.layout.lemma_field_in_range(i);
                let off = r.layout.offsets@[i] as int;
                let w = r.layout.widths@[i] as nat;
                assert forall|p: int| off <= p < off + w implies stream_bit(r.data@, p) == 0 by {
                    lemma_zero_byte_bit((7 - p % 8) as u8);
                };
                lemma_field_value_zero(r.data@, off, w);
            };
        }
        r
    }

    /// The number of fields in the record.
    pub fn num_fields(&self) -> (r: usize)
        ensures
            r == self.layout.widths@.len(),
    {
        self.layout.widths.len()
    }

    /// Reads field `i`, right-justified: the low bits of the result are the
    /// field's value and the higher bits are zero. Reading borrows the
    /// buffer immutably and changes nothing.
    pub fn get(&self, i: usize) -> (r: u64)
        requires
            self.wf(),
            i < self.layout.widths@.len(),
        ensures
            r as nat == self.field(i as int),
            (r as nat) < pow2(self.layout.widths@[i as int] as nat),
    {
        proof {
            self.layout.lemma_field_in_range(i as int);
        }
        get_bits(&self.data, self.layout.offsets[i], self.layout.widths[i])
    }

    /// Writes the low bits of `value` into field `i`. The field then holds
    /// `value` reduced to its width; every other field's value, and every
    /// bit outside field `i`'s span, is exactly as before.
    pub fn set(&mut self, i: usize, value: u64)
        requires
            old(self).wf(),
            i < old(self).layout.widths@.len(),
        ensures
            final(self).wf(),
            final(self).layout == old(self).layout,
            final(self).field(i as int) == value as nat % pow2(
                old(self).layout.widths@[i as int] as nat,
            ),
            (value as nat) < pow2(old(self).layout.widths@[i as int] as nat) ==> final(self).field(
                i as int,
            ) == value as nat,
            forall|j: int|
                0 <= j < old(self).layout.widths@.len() && j != i ==> final(self).field(j) == old(
                    self,
                ).field(j),
            forall|p: int|
                0 <= p < 8 * old(self).data@.len() && !(old(self).layout.offsets@[i as int] <= p
                    < old(self).layout.offsets@[i as int] + old(self).layout.widths@[i as int])
                    ==> stream_bit(final(self).data@, p) == stream_bit(old(self).data@, p),
    {
        proof {
            self.layout.lemma_field_in_range(i as int);
        }
        let offset = self.layout.offsets[i];
        let width = self.layout.widths[i];
        set_bits(&mut self.data, offset, width, value);
        proof {
            let ghost l = self.layout;
            assert forall|j: int|
                0 <= j < l.widths@.len() && j != i implies self.field(j) == old(self).field(
                j,
            ) by {
                l.lemma_field_in_range(j);
                if j < i {
                    l.lemma_fields_disjoint(j, i as int);
                } else {
                    l.lemma_fields_disjoint(i as int, j);
                }
                lemma_field_value_frame(
                    self.data@,
                    old(self).data@,
                    l.offsets@[j] as int,
                    l.widths@[j] as nat,
                );
            };
        }
    }

    /// Writes a label into an enum-backed field: the field then holds the
    /// label's assigned discriminant, exactly; every other field's value,
    /// and every bit outside the field's span, is as before.
    pub fn set_label(&mut self, i: usize, labels: &LabelSet, label: usize)
        requires
            old(self).wf(),
            i < old(self).layout.widths@.len(),
            labels.wf(),
            label < labels.discriminants@.len(),
            old(self).layout.widths@[i as int] == labels.bits,
        ensures
            final(self).wf(),
            final(self).layout == old(self).layout,
            final(self).field(i as int) == labels.discriminants@[label as int],
            forall|j: int|
                0 <= j < old(self).layout.widths@.len() && j != i ==> final(self).field(j) == old(
                    self,
                ).field(j),
            forall|p: int|
                0 <= p < 8 * old(self).data@.len() && !(old(self).layout.offsets@[i as int] <= p
                    < old(self).layout.offsets@[i as int] + old(self).layout.widths@[i as int])
                    ==> stream_bit(final(self).data@, p) == stream_bit(old(self).data@, p),
    {
        let value = labels.encode(label);
        self.set(i, value);
    }

    /// Reads an enum-backed field and decodes the stored ordinal to the
    /// unique label whose assigned discriminant it is.
    pub fn get_label(&self, i: usize, labels: &LabelSet) -> (r: usize)
        requires
            self.wf(),
            i < self.layout.widths@.len(),
            labels.wf(),
            self.layout.widths@[i as int] == labels.bits,
        ensures
            r < labels.discriminants@.len(),
            labels.discriminants@[r as int] == self.field(i as int),
            forall|k: int|
                0 <= k < labels.discriminants@.len() && labels.discriminants@[k] == self.field(
                    i as int,
                ) ==> k == r,
    {
        let ordinal = self.get(i);
        labels.decode(ordinal)
    }
}

} // verus!

//! The layout assembler.
//!
//! Given the widths of a record's fields in declaration order, the assembler
//! sums them, rounds the total up to a whole number of bytes, and derives
//! each field's starting bit offset as the running sum of the widths before
//! it. Fields are packed densely: no reordering, no padding between fields.

use vstd::prelude::*;
use crate::checks::{CheckError, TotalSize, spec_total_bytes};

verus! {

/// The running sum of the first `i` field widths: the bit offset at which
/// field `i` starts, and, for `i == widths.len()`, the record's total bits.
pub open spec fn prefix_bits(widths: Seq<usize>, i: int) -> int
    decreases i,
{
    if i <= 0 {
        0
    } else {
        prefix_bits(widths, i - 1) + widths[i - 1]
    }
}

/// The sum of all field widths.
pub open spec fn total_bits_of(widths: Seq<usize>) -> int {
    prefix_bits(widths, widths.len() as int)
}

/// Every field width is a supported logical width: 1 to 64 bits.
pub open spec fn widths_ok(widths: Seq<usize>) -> bool {
    forall|i: int| 0 <= i < widths.len() ==> 1 <= #[trigger] widths[i] <= 64
}

/// Prefix sums of (nonnegative) widths grow with the index.
pub proof fn lemma_prefix_bits_monotone(widths: Seq<usize>, i: int, j: int)
    requires
        0 <= i <= j,
    ensures
        prefix_bits(widths, i) <= prefix_bits(widths, j),
    decreases j,
{
    if i < j {
        lemma_prefix_bits_monotone(widths, i, j - 1);
    }
}

/// A record's layout: the field widths in declaration order, each field's
/// starting bit offset, and the total size.
pub struct Layout {
    pub widths: Vec<usize>,
    pub offsets: Vec<usize>,
    pub size: TotalSize,
}

impl Layout {
    /// Offsets are the running sums of the widths, the widths are supported,
    /// and the size is the rounded-up sum of all of them.
    pub open spec fn wf(self) -> bool {
        &&& self.offsets@.len() == self.widths@.len()
        &&& widths_ok(self.widths@)
        &&& forall|i: int|
            0 <= i < self.widths@.len() ==> #[trigger] self.offsets@[i] == prefix_bits(
                self.widths@,
                i,
            )
        &&& self.size.wf()
        &&& self.size.bits == total_bits_of(self.widths@)
    }

    /// Distinct fields occupy disjoint bit spans: for `i < j`, field `i`
    /// ends at or before the bit where field `j` starts.
    pub proof fn lemma_fields_disjoint(self, i: int, j: int)
        requires
            self.wf(),
            0 <= i < j < self.widths@.len(),
        ensures
            self.offsets@[i] + self.widths@[i] <= self.offsets@[j],
    {
        lemma_prefix_bits_monotone(self.widths@, i + 1, j);
    }

    /// Every field's span lies within the record's total bits, and so within
    /// the backing buffer.
    pub proof fn lemma_field_in_range(self, i: int)
        requires
            self.wf(),
            0 <= i < self.widths@.len(),
        ensures
            0 <= self.offsets@[i],
            self.offsets@[i] + self.widths@[i] <= self.size.bits,
            self.offsets@[i] + self.widths@[i] <= 8 * self.size.bytes,
    {
        lemma_prefix_bits_monotone(self.widths@, 0, i);
        lemma_prefix_bits_monotone(self.widths@, i + 1, self.widths@.len() as int);
        self.size.lemma_covers();
    }

    /// Assembles the layout of a record from its field widths, packed in
    /// declaration order. Rejects a width outside 1 to 64, a total that no
    /// byte length can address, and, in strict mode, a total that is not a
    /// multiple of eight.
    pub fn new(widths: Vec<usize>, strict: bool) -> (r: Result<Layout, CheckError>)
        ensures
            r is Ok <==> widths_ok(widths@) && total_bits_of(widths@) + 7 <= usize::MAX && (strict
                ==> total_bits_of(widths@) % 8 == 0),
            r matches Ok(l) ==> l.wf() && l.widths@ == widths@ && l.size.bits == total_bits_of(
                widths@,
            ) && l.size.bytes == spec_total_bytes(total_bits_of(widths@)) && (strict
                ==> l.size.bits % 8 == 0),
            !widths_ok(widths@) ==> r == Result::<Layout, CheckError>::Err(
                CheckError::WidthOutOfRange,
            ),
            widths_ok(widths@) && total_bits_of(widths@) + 7 > usize::MAX ==> r == Result::<
                Layout,
                CheckError,
            >::Err(CheckError::TotalSizeOverflow),
            widths_ok(widths@) && total_bits_of(widths@) + 7 <= usize::MAX && strict
                && total_bits_of(widths@) % 8 != 0 ==> r == Result::<Layout, CheckError>::Err(
                CheckError::TotalSizeNotByteAligned,
            ),
    {
        let n = widths.len();
        let mut i: usize = 0;
        while i < n
            invariant
                i <= n,
                n == widths@.len(),
                forall|k: int| 0 <= k < i ==> 1 <= #[trigger] widths@[k] <= 64,
            decreases n - i,
        {
            if widths[i] < 1 || widths[i] > 64 {
                return Err(CheckError::WidthOutOfRange);
            }
            i = i + 1;
        }
        let mut offsets: Vec<usize> = Vec::new();
        let mut total: usize = 0;
        let mut i: usize = 0;
        while i < n
            invariant
                i <= n,
                n == widths@.len(),
                widths_ok(widths@),
                offsets@.len() == i,
                forall|k: int| 0 <= k < i ==> #[trigger] offsets@[k] == prefix_bits(widths@, k),
                total == prefix_bits(widths@, i as int),
                total + 7 <= usize::MAX,
            decreases n - i,
        {
            let w = widths[i];
            if total > usize::MAX - 7 - w {
                proof {
                    lemma_prefix_bits_monotone(widths@, i + 1, n as int);
                }
                return Err(CheckError::TotalSizeOverflow);
            }
            offsets.push(total);
            total = total + w;
            i = i + 1;
        }
        match TotalSize::check(total, strict) {
            Ok(size) => Ok(Layout { widths, offsets, size }),
            Err(e) => Err(e),
        }
    }
}

} // verus!

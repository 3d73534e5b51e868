//! The enum discriminant codec.
//!
//! A label set is an ordered, gapless set of labels: a label is identified
//! by its position in declaration order, and carries an assigned
//! discriminant below the label count. The count must be a power of two of
//! at least two, so that the discriminants fit exactly in a field of
//! `log2(count)` bits; validation also demands that no two labels share a
//! discriminant, which makes the discriminants a permutation of the dense
//! ordinal range and decoding total and unambiguous.

use vstd::prelude::*;
use vstd::arithmetic::power2::{pow2, lemma_pow2_strictly_increases, lemma2_to64_rest};
use vstd::set_lib::{set_int_range, lemma_int_range, lemma_len_subset};
use crate::checks::{CheckError, Discriminant};

verus! {

/// A label count that a bit field can encode exactly: a power of two whose
/// exponent is a supported discriminant width.
pub open spec fn count_ok(n: nat) -> bool {
    exists|b: nat| 1 <= b <= 63 && n == pow2(b)
}

/// Every assigned discriminant lies below the label count.
pub open spec fn discriminants_in_range(s: Seq<u64>) -> bool {
    forall|i: int| 0 <= i < s.len() ==> (#[trigger] s[i] as int) < s.len()
}

/// Distinct values below `n` fill the range `[0, n)`: when `n` labels carry
/// distinct discriminants that are all below `n`, every ordinal below `n` is
/// some label's discriminant.
pub proof fn lemma_distinct_in_range_covers(s: Seq<u64>, v: u64)
    requires
        s.no_duplicates(),
        discriminants_in_range(s),
        (v as int) < s.len(),
    ensures
        exists|i: int| 0 <= i < s.len() && s[i] == v,
{
    broadcast use vstd::set::group_set_axioms;

    let n = s.len() as int;
    let t = s.map_values(|x: u64| x as int);
    assert(t.no_duplicates()) by {
        assert forall|i: int, j: int|
            0 <= i < t.len() && 0 <= j < t.len() && i != j implies t[i] != t[j] by {
            assert(s[i] != s[j]);
        };
    };
    if !(exists|i: int| 0 <= i < s.len() && s[i] == v) {
        t.unique_seq_to_set();
        lemma_int_range(0, n);
        let big = set_int_range(0, n).remove(v as int);
        assert forall|x: int| t.to_set().contains(x) implies big.contains(x) by {
            let i = choose|i: int| 0 <= i < t.len() && t[i] == x;
            assert(s[i] as int == x);
            assert(s[i] != v);
        };
        lemma_len_subset(t.to_set(), big);
        assert(set_int_range(0, n).contains(v as int));
        assert(false);
    }
}

/// An ordered label set with one assigned discriminant per label.
pub struct LabelSet {
    pub discriminants: Vec<u64>,
    pub bits: usize,
}

impl LabelSet {
    /// The number of labels.
    pub open spec fn spec_count(self) -> nat {
        self.discriminants@.len()
    }

    /// The count is `pow2(bits)` for a supported width, and the
    /// discriminants are a permutation of the ordinals `[0, count)`.
    pub open spec fn wf(self) -> bool {
        &&& 1 <= self.bits <= 63
        &&& self.discriminants@.len() == pow2(self.bits as nat)
        &&& discriminants_in_range(self.discriminants@)
        &&& self.discriminants@.no_duplicates()
    }

    /// Validates an ordered label set given by its assigned discriminants,
    /// in declaration order. Rejects a count that is not a power of two of
    /// at least two, a discriminant at or above the count, and a
    /// discriminant shared by two labels; the field width for the set is
    /// `log2(count)` bits.
    pub fn new(discriminants: Vec<u64>) -> (r: Result<LabelSet, CheckError>)
        ensures
            r is Ok <==> count_ok(discriminants@.len() as nat) && discriminants_in_range(
                discriminants@,
            ) && discriminants@.no_duplicates(),
            r matches Ok(ls) ==> ls.wf() && ls.discriminants@ == discriminants@
                && discriminants@.len() == pow2(ls.bits as nat),
            !count_ok(discriminants@.len() as nat) ==> r == Result::<LabelSet, CheckError>::Err(
                CheckError::LabelCountNotPowerOfTwo,
            ),
            count_ok(discriminants@.len() as nat) && !discriminants_in_range(discriminants@)
                ==> r == Result::<LabelSet, CheckError>::Err(CheckError::DiscriminantOutOfRange),
            count_ok(discriminants@.len() as nat) && discriminants_in_range(discriminants@)
                && !discriminants@.no_duplicates() ==> r == Result::<LabelSet, CheckError>::Err(
                CheckError::DuplicateDiscriminant,
            ),
    {
        let n = discriminants.len();
        let mut bits: usize = 0;
        let mut b: usize = 1;
        while b < 64
            invariant
                1 <= b <= 64,
                bits == 0 ==> forall|e: nat| 1 <= e < b ==> n != pow2(e),
                bits != 0 ==> 1 <= bits <= 63 && n == pow2(bits as nat),
            decreases 64 - b,
        {
            proof {
                if (b as nat) < 63 {
                    lemma_pow2_strictly_increases(b as nat, 63);
                }
                lemma2_to64_rest();
                vstd::bits::lemma_u64_shl_is_mul(1u64, b as u64);
            }
            if (n as u64) == 1u64 << (b as u64) {
                bits = b;
                b = 64;
            } else {
                b = b + 1;
            }
        }
        if bits == 0 {
            proof {
                assert(!count_ok(n as nat));
            }
            return Err(CheckError::LabelCountNotPowerOfTwo);
        }
        proof {
            assert(count_ok(n as nat));
        }
        let mut i: usize = 0;
        while i < n
            invariant
                i <= n,
                n == discriminants@.len(),
                count_ok(n as nat),
                forall|k: int| 0 <= k < i ==> (#[trigger] discriminants@[k] as int) < n as int,
            decreases n - i,
        {
            match Discriminant::check(discriminants[i], n) {
                Ok(_) => {},
                Err(e) => {
                    return Err(e);
                },
            }
            i = i + 1;
        }
        let mut i: usize = 0;
        while i < n
            invariant
                i <= n,
                n == discriminants@.len(),
                count_ok(n as nat),
                discriminants_in_range(discriminants@),
                forall|a: int, c: int|
                    0 <= a < i && 0 <= c < n && a != c ==> discriminants@[a] != discriminants@[c],
            decreases n - i,
        {
            let mut j: usize = i + 1;
            while j < n
                invariant
                    i < j <= n,
                    n == discriminants@.len(),
                    count_ok(n as nat),
                    discriminants_in_range(discriminants@),
                    forall|c: int| i < c < j ==> discriminants@[i as int] != discriminants@[c],
                decreases n - j,
            {
                if discriminants[i] == discriminants[j] {
                    return Err(CheckError::DuplicateDiscriminant);
                }
                j = j + 1;
            }
            proof {
                assert forall|a: int, c: int|
                    0 <= a < i + 1 && 0 <= c < n && a != c implies discriminants@[a]
                    != discriminants@[c] by {
                    if a == i && c < i {
                        assert(discriminants@[c] != discriminants@[a]);
                    }
                };
            }
            i = i + 1;
        }
        Ok(LabelSet { discriminants, bits })
    }

    /// The width of a label set is determined by its count alone: the
    /// exponent of a power of two is unique, so a set of `pow2(b)` labels
    /// occupies exactly `b` bits.
    pub proof fn lemma_bits_of_count(self, b: nat)
        requires
            self.wf(),
            b <= 63,
            self.spec_count() == pow2(b),
        ensures
            self.bits == b,
    {
        if (self.bits as nat) < b {
            lemma_pow2_strictly_increases(self.bits as nat, b);
        } else if b < self.bits as nat {
            lemma_pow2_strictly_increases(b, self.bits as nat);
        }
    }

    /// The ordinal a label encodes to: its assigned discriminant.
    pub fn encode(&self, label: usize) -> (r: u64)
        requires
            self.wf(),
            label < self.discriminants@.len(),
        ensures
            r == self.discriminants@[label as int],
            (r as int) < self.discriminants@.len(),
    {
        self.discriminants[label]
    }

    /// Decodes an ordinal back to the unique label whose discriminant equals
    /// it. Total for every ordinal below the count: validation made the
    /// discriminants a permutation of `[0, count)`, so a lookup miss can
    /// only mean the buffer was corrupted outside the typed accessors.
    pub fn decode(&self, ordinal: u64) -> (r: usize)
        requires
            self.wf(),
            (ordinal as int) < self.discriminants@.len(),
        ensures
            r < self.discriminants@.len(),
            self.discriminants@[r as int] == ordinal,
            forall|i: int|
                0 <= i < self.discriminants@.len() && self.discriminants@[i] == ordinal ==> i
                    == r,
    {
        proof {
            lemma_distinct_in_range_covers(self.discriminants@, ordinal);
        }
        let n = self.discriminants.len();
        let mut i: usize = 0;
        while i < n
            invariant
                i <= n,
                n == self.discriminants@.len(),
                self.discriminants@.no_duplicates(),
                exists|q: int| i <= q < n && self.discriminants@[q] == ordinal,
            decreases n - i,
        {
            if self.discriminants[i] == ordinal {
                proof {
                    assert forall|k: int|
                        0 <= k < n && self.discriminants@[k] == ordinal implies k == i as int by {
                        if k != i {
                            assert(self.discriminants@[k] != self.discriminants@[i as int]);
                        }
                    };
                }
                return i;
            }
            i = i + 1;
        }
        vstd::pervasive::unreached()
    }
}

} // verus!

//! A growable set of small non-negative indices with a complement mode.
//!
//! An `IndexSet` stores a finite set of bit positions plus a `complemented`
//! flag. When the flag is clear, the stored bits are the members; when it is
//! set, the stored bits are the exceptions, so "every index except a few" is
//! representable in space proportional to the exceptions. Membership is
//! therefore the flag XOR-ed with raw bit membership, and every operation
//! below is specified against that semantic membership.

use crate::bitset::bits_of;
use crate::bitset::bit_len_of;
use crate::bitset::bits_wf;
use crate::bitset::bs_clear;
use crate::bitset::bs_contains;
use crate::bitset::bs_difference_with;
use crate::bitset::bs_grow_and_insert;
use crate::bitset::bs_intersect_with;
use crate::bitset::bs_is_clear;
use crate::bitset::bs_is_disjoint;
use crate::bitset::bs_is_subset;
use crate::bitset::bs_is_superset;
use crate::bitset::bs_len;
use crate::bitset::bs_new;
use crate::bitset::bs_ones;
use crate::bitset::bs_remove;
use crate::bitset::bs_union_with;
use vstd::prelude::*;

verus! {

broadcast use vstd::set::group_set_axioms;

/// A set of indices: a bit vector of stored positions and a flag that, when
/// set, makes the stored positions mean "excluded" instead of "included".
#[derive(Debug, Clone)]
pub struct IndexSet {
    pub(crate) complemented: bool,
    pub(crate) bits: fixedbitset::FixedBitSet,
}

impl IndexSet {
    /// The stored bit positions, before the complement flag is applied.
    pub closed spec fn raw(self) -> Set<int> {
        bits_of(self.bits)
    }

    /// Whether the set is in complement mode, i.e. holds all indices except
    /// the finitely many stored ones.
    pub closed spec fn is_cofinite(self) -> bool {
        self.complemented
    }

    /// Semantic membership: the complement flag XOR raw bit membership.
    pub open spec fn mem(self, i: int) -> bool {
        self.is_cofinite() != self.raw().contains(i)
    }

    /// The stored positions are finitely many and lie below the bit vector's
    /// grown length.
    pub closed spec fn wf(self) -> bool {
        bits_wf(self.bits)
    }

    /// Representation equality: same complement mode and same stored bits.
    pub open spec fn eq_ind(self, other: Self) -> bool {
        self.is_cofinite() == other.is_cofinite() && self.raw() == other.raw()
    }

    /// Every member of `self` is a member of `other`.
    pub open spec fn subset_sem(self, other: Self) -> bool {
        forall|i: int| #[trigger] self.mem(i) ==> other.mem(i)
    }

    /// No index is a member of both `self` and `other`.
    pub open spec fn disjoint_sem(self, other: Self) -> bool {
        forall|i: int| !(#[trigger] self.mem(i) && other.mem(i))
    }

    /// An empty set.
    pub fn new() -> (r: IndexSet)
        ensures
            r.wf(),
            !r.is_cofinite(),
            forall|i: int| !(#[trigger] r.mem(i)),
    {
        IndexSet { complemented: false, bits: bs_new() }
    }

    /// A copy with the same complement mode and stored bits.
    pub fn duplicate(&self) -> (r: IndexSet)
        ensures
            r.eq_ind(*self),
            r.is_cofinite() == self.is_cofinite(),
            forall|i: int| #[trigger] r.mem(i) == self.mem(i),
            self.wf() ==> r.wf(),
    {
        IndexSet { complemented: self.complemented, bits: self.bits.clone() }
    }

    /// Makes `i` a member, leaving every other answer unchanged. In complement
    /// mode this removes `i` from the stored exceptions.
    pub fn insert(&mut self, i: usize)
        requires
            old(self).wf(),
            i < usize::MAX,
        ensures
            final(self).wf(),
            final(self).is_cofinite() == old(self).is_cofinite(),
            forall|j: int| #[trigger] final(self).mem(j) == (old(self).mem(j) || j == i as int),
    {
        if self.complemented {
            if i < bs_len(&self.bits) {
                bs_remove(&mut self.bits, i);
            }
        } else {
            bs_grow_and_insert(&mut self.bits, i);
        }
    }

    /// Whether the set is in complement mode.
    pub fn is_complemented(&self) -> (r: bool)
        ensures
            r == self.is_cofinite(),
    {
        self.complemented
    }

    /// A new set holding the members common to `self` and `other`.
    pub fn intersection(&self, other: &IndexSet) -> (r: IndexSet)
        requires
            self.wf(),
            other.wf(),
        ensures
            r.wf(),
            r.is_cofinite() == (self.is_cofinite() && other.is_cofinite()),
            forall|i: int| #[trigger] r.mem(i) == (self.mem(i) && other.mem(i)),
    {
        let mut r = self.duplicate();
        r.intersect_with(other);
        r
    }

    /// Whether `i` is a member.
    pub fn contains(&self, i: usize) -> (r: bool)
        ensures
            r == self.mem(i as int),
    {
        self.complemented != bs_contains(&self.bits, i)
    }

    /// Whether no index is a member.
    pub fn is_empty(&self) -> (r: bool)
        requires
            self.wf(),
        ensures
            r == (forall|i: int| !(#[trigger] self.mem(i))),
    {
        let r = !self.complemented && bs_is_clear(&self.bits);
        proof {
            if self.complemented {
                let w = bit_len_of(self.bits) as int;
                assert(self.mem(w));
            } else {
                if !r {
                    let w = choose|i: int| bits_of(self.bits).contains(i);
                    assert(self.mem(w));
                }
            }
        }
        r
    }

    /// Whether every index is a member.
    pub fn is_all(&self) -> (r: bool)
        requires
            self.wf(),
        ensures
            r == (forall|i: int| #[trigger] self.mem(i)),
    {
        let r = self.complemented && bs_is_clear(&self.bits);
        proof {
            if !self.complemented {
                let w = bit_len_of(self.bits) as int;
                assert(!self.mem(w));
            } else {
                if !r {
                    let w = choose|i: int| bits_of(self.bits).contains(i);
                    assert(!self.mem(w));
                }
            }
        }
        r
    }

    /// Makes every index a member.
    pub fn set_all(&mut self)
        ensures
            final(self).wf(),
            final(self).is_cofinite(),
            forall|i: int| #[trigger] final(self).mem(i),
    {
        self.complemented = true;
        bs_clear(&mut self.bits);
    }

    /// Makes no index a member.
    pub fn clear(&mut self)
        ensures
            final(self).wf(),
            !final(self).is_cofinite(),
            forall|i: int| !(#[trigger] final(self).mem(i)),
    {
        self.complemented = false;
        bs_clear(&mut self.bits);
    }

    /// Adds every member of `other`, complement-aware.
    pub fn union_with(&mut self, other: &IndexSet)
        requires
            old(self).wf(),
            other.wf(),
        ensures
            final(self).wf(),
            final(self).is_cofinite() == (old(self).is_cofinite() || other.is_cofinite()),
            forall|i: int| #[trigger] final(self).mem(i) == (old(self).mem(i) || other.mem(i)),
    {
        match (self.complemented, other.complemented) {
            (false, false) => bs_union_with(&mut self.bits, &other.bits),
            (true, true) => bs_intersect_with(&mut self.bits, &other.bits),
            (true, false) => bs_difference_with(&mut self.bits, &other.bits),
            (false, true) => {
                self.complemented = true;
                let mut nb = other.bits.clone();
                bs_difference_with(&mut nb, &self.bits);
                self.bits = nb;
            },
        }
    }

    /// Keeps only the members that `other` also has, complement-aware.
    pub fn intersect_with(&mut self, other: &IndexSet)
        requires
            old(self).wf(),
            other.wf(),
        ensures
            final(self).wf(),
            final(self).is_cofinite() == (old(self).is_cofinite() && other.is_cofinite()),
            forall|i: int| #[trigger] final(self).mem(i) == (old(self).mem(i) && other.mem(i)),
    {
        match (self.complemented, other.complemented) {
            (false, false) => bs_intersect_with(&mut self.bits, &other.bits),
            (true, true) => bs_union_with(&mut self.bits, &other.bits),
            (false, true) => bs_difference_with(&mut self.bits, &other.bits),
            (true, false) => {
                self.complemented = false;
                let mut nb = other.bits.clone();
                bs_difference_with(&mut nb, &self.bits);
                self.bits = nb;
            },
        }
    }

    /// Removes every member of `other`, complement-aware.
    pub fn difference_with(&mut self, other: &IndexSet)
        requires
            old(self).wf(),
            other.wf(),
        ensures
            final(self).wf(),
            final(self).is_cofinite() == (old(self).is_cofinite() && !other.is_cofinite()),
            forall|i: int| #[trigger] final(self).mem(i) == (old(self).mem(i) && !other.mem(i)),
    {
        match (self.complemented, other.complemented) {
            (false, false) => bs_difference_with(&mut self.bits, &other.bits),
            (false, true) => bs_intersect_with(&mut self.bits, &other.bits),
            (true, false) => bs_union_with(&mut self.bits, &other.bits),
            (true, true) => {
                self.complemented = false;
                let mut nb = other.bits.clone();
                bs_difference_with(&mut nb, &self.bits);
                self.bits = nb;
            },
        }
    }

    /// Whether every member of `self` is a member of `other`.
    pub fn is_subset(&self, other: &IndexSet) -> (r: bool)
        requires
            self.wf(),
            other.wf(),
        ensures
            r == self.subset_sem(*other),
    {
        let r = match (self.complemented, other.complemented) {
            (false, false) => bs_is_subset(&self.bits, &other.bits),
            (true, true) => bs_is_superset(&self.bits, &other.bits),
            (false, true) => bs_is_disjoint(&self.bits, &other.bits),
            (true, false) => false,
        };
        proof {
            if self.complemented && !other.complemented {
                lemma_fresh_index(*self, *other);
                let w = choose|j: int| !self.raw().contains(j) && !other.raw().contains(j);
                assert(self.mem(w) && !other.mem(w));
            } else if r {
                assert forall|i: int| self.mem(i) implies other.mem(i) by {
                    if self.complemented {
                        if other.raw().contains(i) {
                            assert(self.raw().contains(i));
                        }
                    } else {
                        if self.raw().contains(i) {
                            assert(other.mem(i));
                        }
                    }
                }
            } else {
                if self.complemented {
                    let w = choose|j: int| other.raw().contains(j) && !self.raw().contains(j);
                    assert(self.mem(w) && !other.mem(w));
                } else if other.complemented {
                    let w = choose|j: int| self.raw().contains(j) && other.raw().contains(j);
                    assert(self.mem(w) && !other.mem(w));
                } else {
                    let w = choose|j: int| self.raw().contains(j) && !other.raw().contains(j);
                    assert(self.mem(w) && !other.mem(w));
                }
            }
        }
        r
    }

    /// Whether every member of `other` is a member of `self`.
    pub fn is_superset(&self, other: &IndexSet) -> (r: bool)
        requires
            self.wf(),
            other.wf(),
        ensures
            r == other.subset_sem(*self),
    {
        other.is_subset(self)
    }

    /// Whether no index is a member of both.
    pub fn is_disjoint(&self, other: &IndexSet) -> (r: bool)
        requires
            self.wf(),
            other.wf(),
        ensures
            r == self.disjoint_sem(*other),
    {
        let r = match (self.complemented, other.complemented) {
            (false, false) => bs_is_disjoint(&self.bits, &other.bits),
            (false, true) => bs_is_subset(&self.bits, &other.bits),
            (true, false) => bs_is_subset(&other.bits, &self.bits),
            (true, true) => false,
        };
        proof {
            if self.complemented && other.complemented {
                lemma_fresh_index(*self, *other);
                let w = choose|j: int| !self.raw().contains(j) && !other.raw().contains(j);
                assert(self.mem(w) && other.mem(w));
            } else if r {
                assert forall|i: int| !(self.mem(i) && other.mem(i)) by {
                    if !self.complemented && !other.complemented {
                        if self.raw().contains(i) {
                            assert(!other.raw().contains(i));
                        }
                    } else if !self.complemented {
                        if self.raw().contains(i) {
                            assert(other.raw().contains(i));
                        }
                    } else {
                        if other.raw().contains(i) {
                            assert(self.raw().contains(i));
                        }
                    }
                }
            } else {
                if !self.complemented && !other.complemented {
                    let w = choose|j: int| self.raw().contains(j) && other.raw().contains(j);
                    assert(self.mem(w) && other.mem(w));
                } else if !self.complemented {
                    let w = choose|j: int| self.raw().contains(j) && !other.raw().contains(j);
                    assert(self.mem(w) && other.mem(w));
                } else {
                    let w = choose|j: int| other.raw().contains(j) && !self.raw().contains(j);
                    assert(self.mem(w) && other.mem(w));
                }
            }
        }
        r
    }

    /// The members in ascending order. Only a set that is not in complement
    /// mode has finitely many members to list.
    pub fn elements(&self) -> (r: Vec<usize>)
        requires
            self.wf(),
            !self.is_cofinite(),
        ensures
            forall|k: int, l: int| 0 <= k < l < r@.len() ==> r@[k] < r@[l],
            forall|k: int| 0 <= k < r@.len() ==> self.mem(#[trigger] r@[k] as int),
            forall|i: int|
                #[trigger] self.mem(i) ==> exists|k: int|
                    0 <= k < r@.len() && #[trigger] r@[k] as int == i,
    {
        bs_ones(&self.bits)
    }
}

impl PartialEq for IndexSet {
    /// Representation equality: same complement mode and same stored bits.
    fn eq(&self, other: &Self) -> (r: bool) {
        let r = self.complemented == other.complemented && bs_is_subset(&self.bits, &other.bits)
            && bs_is_subset(&other.bits, &self.bits);
        proof {
            if self.raw().subset_of(other.raw()) && other.raw().subset_of(self.raw()) {
                assert(self.raw() =~= other.raw());
            }
        }
        r
    }
}

impl vstd::std_specs::cmp::PartialEqSpecImpl for IndexSet {
    open spec fn obeys_eq_spec() -> bool {
        true
    }

    open spec fn eq_spec(&self, other: &Self) -> bool {
        self.eq_ind(*other)
    }
}

/// Two well-formed index sets always leave some raw bit position untouched:
/// the stored bits are bounded by the grown lengths.
pub(crate) proof fn lemma_fresh_index(a: IndexSet, b: IndexSet)
    requires
        a.wf(),
        b.wf(),
    ensures
        exists|j: int| !a.raw().contains(j) && !b.raw().contains(j),
{
    let w = if bit_len_of(a.bits) > bit_len_of(b.bits) {
        bit_len_of(a.bits) as int
    } else {
        bit_len_of(b.bits) as int
    };
    assert(!a.raw().contains(w) && !b.raw().contains(w));
}

/// Disjointness does not depend on the order of the two sets.
pub proof fn lemma_disjoint_sem_symmetric(a: IndexSet, b: IndexSet)
    ensures
        a.disjoint_sem(b) == b.disjoint_sem(a),
{
    if a.disjoint_sem(b) {
        assert forall|i: int| !(#[trigger] b.mem(i) && a.mem(i)) by {
            assert(!(a.mem(i) && b.mem(i)));
        }
    }
    if b.disjoint_sem(a) {
        assert forall|i: int| !(#[trigger] a.mem(i) && b.mem(i)) by {
            assert(!(b.mem(i) && a.mem(i)));
        }
    }
}

/// A well-formed set that contains every index must be in complement mode:
/// an ordinary set stores only finitely many members.
pub proof fn lemma_total_is_cofinite(s: IndexSet)
    requires
        s.wf(),
        forall|i: int| #[trigger] s.mem(i),
    ensures
        s.is_cofinite(),
{
    if !s.is_cofinite() {
        let w = bit_len_of(s.bits) as int;
        assert(!s.raw().contains(w));
        assert(s.mem(w));
        assert(false);
    }
}

/// Complement symmetry: take any bound `n`, a set built directly from some
/// indices below `n`, and a complemented set whose stored exceptions are
/// exactly the other indices below `n`. The two answer membership identically
/// for every index below `n`.
pub proof fn lemma_complement_symmetry(s: IndexSet, t: IndexSet, n: int, i: int)
    requires
        !s.is_cofinite(),
        t.is_cofinite(),
        forall|k: int| 0 <= k < n ==> (t.raw().contains(k) == !s.raw().contains(k)),
        0 <= i < n,
    ensures
        s.mem(i) == t.mem(i),
{
}

} // verus!

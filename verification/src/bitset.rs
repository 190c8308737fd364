//! Trusted boundary around `fixedbitset::FixedBitSet`.
//!
//! The crate stores every finite index set in a `FixedBitSet` and reasons
//! about such values through two uninterpreted names: `bits_of`, the set of
//! enabled bit positions, and `bit_len_of`, the length in bits the value has
//! grown to. Each wrapper below states, over those names, what the one
//! `fixedbitset` method it calls does, as that crate's source shows.

use vstd::prelude::*;

verus! {

#[verifier::external_type_specification]
#[verifier::external_body]
pub struct ExFixedBitSet(fixedbitset::FixedBitSet);

/// The set of bit positions enabled in `s`.
pub uninterp spec fn bits_of(s: fixedbitset::FixedBitSet) -> Set<int>;

/// The length of `s` in bits; bits at or above it are disabled.
pub uninterp spec fn bit_len_of(s: fixedbitset::FixedBitSet) -> nat;

/// Every value the wrappers below produce keeps its enabled bits below its
/// length, and there are finitely many of them.
pub open spec fn bits_wf(s: fixedbitset::FixedBitSet) -> bool {
    &&& bits_of(s).finite()
    &&& forall|i: int| bits_of(s).contains(i) ==> 0 <= i < bit_len_of(s)
}

/// Relies on `FixedBitSet::new`: an empty bit set of length zero.
#[verifier::external_body]
pub(crate) fn bs_new() -> (r: fixedbitset::FixedBitSet)
    ensures
        bits_of(r) == Set::<int>::empty(),
        bit_len_of(r) == 0,
{
    fixedbitset::FixedBitSet::new()
}

/// Relies on `FixedBitSet::clone`: an exact copy, same bits and length.
pub assume_specification[ <fixedbitset::FixedBitSet as Clone>::clone ](
    s: &fixedbitset::FixedBitSet,
) -> (r: fixedbitset::FixedBitSet)
    ensures
        bits_of(r) == bits_of(*s),
        bit_len_of(r) == bit_len_of(*s),
;

/// Relies on `FixedBitSet::len`: the length in bits.
#[verifier::external_body]
pub(crate) fn bs_len(s: &fixedbitset::FixedBitSet) -> (r: usize)
    ensures
        r == bit_len_of(*s),
{
    s.len()
}

/// Relies on `FixedBitSet::contains`: whether the bit is enabled; bits outside
/// the length are always disabled.
#[verifier::external_body]
pub(crate) fn bs_contains(s: &fixedbitset::FixedBitSet, bit: usize) -> (r: bool)
    ensures
        r == bits_of(*s).contains(bit as int),
{
    s.contains(bit)
}

/// Relies on `FixedBitSet::grow_and_insert`: grows the length to at least
/// `bit + 1`, then enables the bit. Growing by `bit + 1` is why the bound on
/// `bit` is needed.
#[verifier::external_body]
pub(crate) fn bs_grow_and_insert(s: &mut fixedbitset::FixedBitSet, bit: usize)
    requires
        bit < usize::MAX,
    ensures
        bits_of(*final(s)) == bits_of(*old(s)).insert(bit as int),
        bit_len_of(*final(s)) == if bit + 1 > bit_len_of(*old(s)) {
            (bit + 1) as nat
        } else {
            bit_len_of(*old(s))
        },
{
    s.grow_and_insert(bit)
}

/// Relies on `FixedBitSet::remove`: disables the bit; panics when the bit is
/// not below the length, so that case is excluded.
#[verifier::external_body]
pub(crate) fn bs_remove(s: &mut fixedbitset::FixedBitSet, bit: usize)
    requires
        bit < bit_len_of(*old(s)),
    ensures
        bits_of(*final(s)) == bits_of(*old(s)).remove(bit as int),
        bit_len_of(*final(s)) == bit_len_of(*old(s)),
{
    s.remove(bit)
}

/// Relies on `FixedBitSet::clear`: disables every bit, keeping the length.
#[verifier::external_body]
pub(crate) fn bs_clear(s: &mut fixedbitset::FixedBitSet)
    ensures
        bits_of(*final(s)) == Set::<int>::empty(),
        bit_len_of(*final(s)) == bit_len_of(*old(s)),
{
    s.clear()
}

/// Relies on `FixedBitSet::is_clear`: whether no bit is enabled.
#[verifier::external_body]
pub(crate) fn bs_is_clear(s: &fixedbitset::FixedBitSet) -> (r: bool)
    ensures
        r == forall|i: int| !bits_of(*s).contains(i),
{
    s.is_clear()
}

/// Relies on `FixedBitSet::union_with`: enables the other set's bits in
/// `self`, growing its length to the other's when that is larger.
#[verifier::external_body]
pub(crate) fn bs_union_with(s: &mut fixedbitset::FixedBitSet, other: &fixedbitset::FixedBitSet)
    ensures
        bits_of(*final(s)) == bits_of(*old(s)).union(bits_of(*other)),
        bit_len_of(*final(s)) == if bit_len_of(*other) > bit_len_of(*old(s)) {
            bit_len_of(*other)
        } else {
            bit_len_of(*old(s))
        },
{
    s.union_with(other)
}

/// Relies on `FixedBitSet::intersect_with`: keeps only bits enabled in both,
/// keeping `self`'s length.
#[verifier::external_body]
pub(crate) fn bs_intersect_with(s: &mut fixedbitset::FixedBitSet, other: &fixedbitset::FixedBitSet)
    ensures
        bits_of(*final(s)) == bits_of(*old(s)).intersect(bits_of(*other)),
        bit_len_of(*final(s)) == bit_len_of(*old(s)),
{
    s.intersect_with(other)
}

/// Relies on `FixedBitSet::difference_with`: disables the other set's bits in
/// `self`, keeping `self`'s length.
#[verifier::external_body]
pub(crate) fn bs_difference_with(s: &mut fixedbitset::FixedBitSet, other: &fixedbitset::FixedBitSet)
    ensures
        bits_of(*final(s)) == bits_of(*old(s)).difference(bits_of(*other)),
        bit_len_of(*final(s)) == bit_len_of(*old(s)),
{
    s.difference_with(other)
}

/// Relies on `FixedBitSet::is_subset`: whether every bit enabled in `s` is
/// enabled in `other`.
#[verifier::external_body]
pub(crate) fn bs_is_subset(s: &fixedbitset::FixedBitSet, other: &fixedbitset::FixedBitSet) -> (r:
    bool)
    ensures
        r == bits_of(*s).subset_of(bits_of(*other)),
{
    s.is_subset(other)
}

/// Relies on `FixedBitSet::is_superset`: whether every bit enabled in `other`
/// is enabled in `s`.
#[verifier::external_body]
pub(crate) fn bs_is_superset(s: &fixedbitset::FixedBitSet, other: &fixedbitset::FixedBitSet) -> (r:
    bool)
    ensures
        r == bits_of(*other).subset_of(bits_of(*s)),
{
    s.is_superset(other)
}

/// Relies on `FixedBitSet::is_disjoint`: whether no bit is enabled in both.
#[verifier::external_body]
pub(crate) fn bs_is_disjoint(s: &fixedbitset::FixedBitSet, other: &fixedbitset::FixedBitSet) -> (r:
    bool)
    ensures
        r == bits_of(*s).disjoint(bits_of(*other)),
{
    s.is_disjoint(other)
}

/// Relies on `FixedBitSet::ones`: iterates over the enabled bits in ascending
/// order.
#[verifier::external_body]
pub(crate) fn bs_ones(s: &fixedbitset::FixedBitSet) -> (r: Vec<usize>)
    ensures
        forall|k: int, l: int| 0 <= k < l < r@.len() ==> r@[k] < r@[l],
        forall|k: int| 0 <= k < r@.len() ==> bits_of(*s).contains(#[trigger] r@[k] as int),
        forall|i: int|
            bits_of(*s).contains(i) ==> exists|k: int| 0 <= k < r@.len() && #[trigger] r@[k] as int == i,
{
    s.ones().collect()
}

} // verus!

//! A collection of filtered accesses with a cached combined access.
//!
//! A `FilteredAccessSet` aggregates the filtered accesses of many work units
//! together with one running `combined_access`, the union of every member's
//! raw access. The combined access serves as a fast coarse pre-check: when it
//! is compatible with the other side's, every pairwise combination must be
//! too, because each member's access is contained in it. Only when the coarse
//! check fails does the set fall back to pairwise filter reasoning.

use crate::access::Access;
use crate::access::AccessConflicts;
use crate::access::lemma_compatibility_monotone;
use crate::access::lemma_incompatible_has_conflict;
use crate::access::lemma_compatibility_symmetry;
use crate::filtered::lemma_filtered_compatibility_symmetry;
use crate::access::lemma_extend_monotonicity;
use crate::access::lemma_subset_transitive;
use crate::filtered::FilteredAccess;
use vstd::prelude::*;

verus! {

/// Some pair, one member from each side and earlier in lexicographic order
/// than `(k, l)`, has an unbounded conflict set.
pub open spec fn conflicts_all_before(
    s: Seq<FilteredAccess>,
    o: Seq<FilteredAccess>,
    k: int,
    l: int,
) -> bool {
    exists|k2: int, l2: int|
        0 <= k2 < s.len() && 0 <= l2 < o.len() && (k2 < k || (k2 == k && l2 < l))
            && (#[trigger] s[k2].conflicts_all_spec(o[l2]))
}

/// Some pair, one member from each side and earlier in lexicographic order
/// than `(k, l)`, reports index `i` as conflicting.
pub open spec fn conflict_at_before(
    s: Seq<FilteredAccess>,
    o: Seq<FilteredAccess>,
    k: int,
    l: int,
    i: int,
) -> bool {
    exists|k2: int, l2: int|
        0 <= k2 < s.len() && 0 <= l2 < o.len() && (k2 < k || (k2 == k && l2 < l))
            && (#[trigger] s[k2].conflict_at(o[l2], i))
}

/// A set of filtered accesses, and the union of all their raw accesses.
#[derive(Debug, Clone, PartialEq)]
pub struct FilteredAccessSet {
    pub(crate) combined_access: Access,
    pub(crate) filtered_accesses: Vec<FilteredAccess>,
}

impl FilteredAccessSet {
    /// The union of every member's raw access.
    pub closed spec fn combined_spec(self) -> Access {
        self.combined_access
    }

    /// The members, in insertion order.
    pub closed spec fn members_spec(self) -> Seq<FilteredAccess> {
        self.filtered_accesses@
    }

    /// The combined access and every member are well-formed, and every
    /// member's raw access is contained in the combined access.
    pub open spec fn wf(self) -> bool {
        &&& self.combined_spec().wf()
        &&& forall|k: int|
            0 <= k < self.members_spec().len() ==> (#[trigger] self.members_spec()[k]).wf()
        &&& forall|k: int|
            0 <= k < self.members_spec().len() ==> (#[trigger] self.members_spec()[k]).access_spec().subset_spec(
                self.combined_spec(),
            )
    }

    /// Every member of `self` is compatible with every member of `other`.
    pub open spec fn all_pairs_compatible(self, other: Self) -> bool {
        forall|k: int, l: int|
            0 <= k < self.members_spec().len() && 0 <= l < other.members_spec().len()
                ==> #[trigger] self.members_spec()[k].compatible_spec(other.members_spec()[l])
    }

    /// The two sets can be active at the same time: the coarse check on the
    /// combined accesses passes, or every member pair is compatible.
    pub open spec fn compatible_spec(self, other: Self) -> bool {
        ||| self.combined_spec().compatible_spec(other.combined_spec())
        ||| self.all_pairs_compatible(other)
    }

    /// Some member's conflict set against `fa` is unbounded.
    pub open spec fn single_conflicts_all(self, fa: FilteredAccess) -> bool {
        exists|k: int|
            0 <= k < self.members_spec().len() && (#[trigger] self.members_spec()[k]).conflicts_all_spec(
                fa,
            )
    }

    /// Some member reports index `i` as conflicting against `fa`.
    pub open spec fn single_conflict_at(self, fa: FilteredAccess, i: int) -> bool {
        exists|k: int|
            0 <= k < self.members_spec().len() && (#[trigger] self.members_spec()[k]).conflict_at(
                fa,
                i,
            )
    }

    /// An empty set.
    pub fn new() -> (r: FilteredAccessSet)
        ensures
            r.wf(),
            r.combined_spec().no_access(),
            r.members_spec().len() == 0,
    {
        FilteredAccessSet { combined_access: Access::new(), filtered_accesses: Vec::new() }
    }

    /// The union of every member's raw access, kept up to date by `add` and
    /// `extend`.
    pub fn combined_access(&self) -> (r: &Access)
        ensures
            *r == self.combined_spec(),
    {
        &self.combined_access
    }

    /// Adds one filtered access: the member list grows by it and the combined
    /// access absorbs its raw access.
    pub fn add(&mut self, filtered_access: FilteredAccess)
        requires
            old(self).wf(),
            filtered_access.wf(),
        ensures
            final(self).wf(),
            final(self).combined_spec().extension_of(
                old(self).combined_spec(),
                filtered_access.access_spec(),
            ),
            final(self).members_spec() == old(self).members_spec().push(filtered_access),
    {
        self.combined_access.extend(filtered_access.access());
        self.filtered_accesses.push(filtered_access);
        proof {
            lemma_extend_monotonicity(
                old(self).combined_spec(),
                self.members_spec().last().access_spec(),
                self.combined_spec(),
            );
            assert forall|k: int| 0 <= k < self.members_spec().len() implies (
            #[trigger] self.members_spec()[k]).wf() by {
                if k < old(self).members_spec().len() {
                    assert(old(self).members_spec()[k].wf());
                }
            }
            assert forall|k: int| 0 <= k < self.members_spec().len() implies (
            #[trigger] self.members_spec()[k]).access_spec().subset_spec(self.combined_spec()) by {
                if k < old(self).members_spec().len() {
                    assert(old(self).members_spec()[k].access_spec().subset_spec(
                        old(self).combined_spec(),
                    ));
                    lemma_subset_transitive(
                        self.members_spec()[k].access_spec(),
                        old(self).combined_spec(),
                        self.combined_spec(),
                    );
                }
            }
        }
    }

    /// Adds an unfiltered read of the resource given by `index`.
    pub fn add_unfiltered_resource_read(&mut self, index: usize)
        requires
            old(self).wf(),
            index < usize::MAX,
        ensures
            final(self).wf(),
            final(self).members_spec().len() == old(self).members_spec().len() + 1,
            forall|k: int|
                0 <= k < old(self).members_spec().len() ==> #[trigger] final(self).members_spec()[k]
                    == old(self).members_spec()[k],
            final(self).members_spec().last().only_resource_read(index as int),
            final(self).combined_spec().extension_of(
                old(self).combined_spec(),
                final(self).members_spec().last().access_spec(),
            ),
    {
        let mut filter = FilteredAccess::default();
        filter.add_resource_read(index);
        self.add(filter);
    }

    /// Adds an unfiltered write of the resource given by `index`.
    pub fn add_unfiltered_resource_write(&mut self, index: usize)
        requires
            old(self).wf(),
            index < usize::MAX,
        ensures
            final(self).wf(),
            final(self).members_spec().len() == old(self).members_spec().len() + 1,
            forall|k: int|
                0 <= k < old(self).members_spec().len() ==> #[trigger] final(self).members_spec()[k]
                    == old(self).members_spec()[k],
            final(self).members_spec().last().only_resource_write(index as int),
            final(self).combined_spec().extension_of(
                old(self).combined_spec(),
                final(self).members_spec().last().access_spec(),
            ),
    {
        let mut filter = FilteredAccess::default();
        filter.add_resource_write(index);
        self.add(filter);
    }

    /// Adds all of the accesses from the other set: members are appended and
    /// the combined access absorbs the other's.
    pub fn extend(&mut self, filtered_access_set: FilteredAccessSet)
        requires
            old(self).wf(),
            filtered_access_set.wf(),
        ensures
            final(self).wf(),
            final(self).combined_spec().extension_of(
                old(self).combined_spec(),
                filtered_access_set.combined_spec(),
            ),
            final(self).members_spec() == old(self).members_spec()
                + filtered_access_set.members_spec(),
    {
        let mut other = filtered_access_set;
        self.combined_access.extend(&other.combined_access);
        self.filtered_accesses.append(&mut other.filtered_accesses);
        proof {
            lemma_extend_monotonicity(
                old(self).combined_spec(),
                filtered_access_set.combined_spec(),
                self.combined_spec(),
            );
            assert forall|k: int| 0 <= k < self.members_spec().len() implies (
            #[trigger] self.members_spec()[k]).wf() by {
                if k < old(self).members_spec().len() {
                    assert(old(self).members_spec()[k].wf());
                } else {
                    assert(filtered_access_set.members_spec()[k - old(
                        self,
                    ).members_spec().len()].wf());
                }
            }
            assert forall|k: int| 0 <= k < self.members_spec().len() implies (
            #[trigger] self.members_spec()[k]).access_spec().subset_spec(self.combined_spec()) by {
                if k < old(self).members_spec().len() {
                    assert(old(self).members_spec()[k].access_spec().subset_spec(
                        old(self).combined_spec(),
                    ));
                    lemma_subset_transitive(
                        self.members_spec()[k].access_spec(),
                        old(self).combined_spec(),
                        self.combined_spec(),
                    );
                } else {
                    let k2 = k - old(self).members_spec().len();
                    assert(filtered_access_set.members_spec()[k2].access_spec().subset_spec(
                        filtered_access_set.combined_spec(),
                    ));
                    lemma_subset_transitive(
                        self.members_spec()[k].access_spec(),
                        filtered_access_set.combined_spec(),
                        self.combined_spec(),
                    );
                }
            }
        }
    }

    /// Grants the combined access read access to every index. The members are
    /// untouched.
    pub fn read_all(&mut self)
        requires
            old(self).wf(),
        ensures
            final(self).wf(),
            final(self).members_spec() == old(self).members_spec(),
            final(self).combined_spec().components_spec().reads_cofinite(),
            final(self).combined_spec().resources_spec().reads_cofinite(),
            forall|i: int| final(self).combined_spec().components_spec().has_read_spec(i),
            forall|i: int| final(self).combined_spec().resources_spec().has_read_spec(i),
    {
        self.combined_access.read_all();
        proof {
            self.lemma_wider_combined_wf(*old(self));
        }
    }

    /// Grants the combined access write access to every index. The members
    /// are untouched.
    pub fn write_all(&mut self)
        requires
            old(self).wf(),
        ensures
            final(self).wf(),
            final(self).members_spec() == old(self).members_spec(),
            final(self).combined_spec().components_spec().writes_cofinite(),
            final(self).combined_spec().resources_spec().writes_cofinite(),
            forall|i: int| final(self).combined_spec().components_spec().has_read_spec(i),
            forall|i: int| final(self).combined_spec().components_spec().has_write_spec(i),
            forall|i: int| final(self).combined_spec().resources_spec().has_read_spec(i),
            forall|i: int| final(self).combined_spec().resources_spec().has_write_spec(i),
    {
        self.combined_access.write_all();
        proof {
            self.lemma_wider_combined_wf(*old(self));
        }
    }

    /// Removes every member and all combined access.
    pub fn clear(&mut self)
        requires
            old(self).wf(),
        ensures
            final(self).wf(),
            final(self).members_spec().len() == 0,
            final(self).combined_spec().components_spec().no_access(),
            final(self).combined_spec().resources_spec().no_access(),
    {
        self.combined_access.clear();
        self.filtered_accesses.clear();
    }

    /// The members are unchanged and the combined access only grew: the set
    /// is still well-formed.
    proof fn lemma_wider_combined_wf(self, before: Self)
        requires
            before.wf(),
            self.members_spec() == before.members_spec(),
            self.combined_spec().wf(),
            forall|i: int|
                before.combined_spec().components_spec().has_read_spec(i)
                    ==> self.combined_spec().components_spec().has_read_spec(i),
            forall|i: int|
                before.combined_spec().components_spec().has_write_spec(i)
                    ==> self.combined_spec().components_spec().has_write_spec(i),
            forall|i: int|
                before.combined_spec().resources_spec().has_read_spec(i)
                    ==> self.combined_spec().resources_spec().has_read_spec(i),
            forall|i: int|
                before.combined_spec().resources_spec().has_write_spec(i)
                    ==> self.combined_spec().resources_spec().has_write_spec(i),
        ensures
            self.wf(),
    {
        assert forall|k: int| 0 <= k < self.members_spec().len() implies (
        #[trigger] self.members_spec()[k]).wf() by {
            assert(before.members_spec()[k].wf());
        }
        assert forall|k: int| 0 <= k < self.members_spec().len() implies (
        #[trigger] self.members_spec()[k]).access_spec().subset_spec(self.combined_spec()) by {
            assert(before.members_spec()[k].access_spec().subset_spec(before.combined_spec()));
            assert(self.members_spec()[k] == before.members_spec()[k]);
        }
    }

    /// Whether the two sets can be active at the same time: the coarse check
    /// first, then all member pairs.
    pub fn is_compatible(&self, other: &FilteredAccessSet) -> (r: bool)
        requires
            self.wf(),
            other.wf(),
        ensures
            r == self.compatible_spec(*other),
    {
        if self.combined_access.is_compatible(other.combined_access()) {
            return true;
        }
        let mut k: usize = 0;
        while k < self.filtered_accesses.len()
            invariant
                self.wf(),
                other.wf(),
                !self.combined_spec().compatible_spec(other.combined_spec()),
                k <= self.members_spec().len(),
                forall|k2: int, l2: int|
                    0 <= k2 < k && 0 <= l2 < other.members_spec().len()
                        ==> #[trigger] self.members_spec()[k2].compatible_spec(
                        other.members_spec()[l2],
                    ),
            decreases self.members_spec().len() - k,
        {
            let mut l: usize = 0;
            while l < other.filtered_accesses.len()
                invariant
                    self.wf(),
                    other.wf(),
                    !self.combined_spec().compatible_spec(other.combined_spec()),
                    k < self.members_spec().len(),
                    l <= other.members_spec().len(),
                    forall|l2: int|
                        0 <= l2 < l ==> #[trigger] self.members_spec()[k as int].compatible_spec(
                            other.members_spec()[l2],
                        ),
                decreases other.members_spec().len() - l,
            {
                proof {
                    assert(self.members_spec()[k as int].wf());
                    assert(other.members_spec()[l as int].wf());
                }
                if !self.filtered_accesses[k].is_compatible(&other.filtered_accesses[l]) {
                    proof {
                        assert(!self.members_spec()[k as int].compatible_spec(
                            other.members_spec()[l as int],
                        ));
                        assert(!self.all_pairs_compatible(*other));
                    }
                    return false;
                }
                l = l + 1;
            }
            k = k + 1;
        }
        proof {
            assert forall|k2: int, l2: int|
                0 <= k2 < self.members_spec().len() && 0 <= l2 < other.members_spec().len()
                    implies #[trigger] self.members_spec()[k2].compatible_spec(
                other.members_spec()[l2],
            ) by {}
        }
        true
    }

    /// The indices this set and `other` cannot both use: empty when the
    /// coarse check passes, otherwise the merge of every member pair's
    /// conflicts, where any unbounded pair makes the whole result `All`.
    pub fn get_conflicts(&self, other: &FilteredAccessSet) -> (r: AccessConflicts)
        requires
            self.wf(),
            other.wf(),
        ensures
            r.wf(),
            self.combined_spec().compatible_spec(other.combined_spec()) ==> r.is_empty_spec(),
            !self.combined_spec().compatible_spec(other.combined_spec()) ==> (r is All)
                == conflicts_all_before(
                self.members_spec(),
                other.members_spec(),
                self.members_spec().len() as int,
                0,
            ),
            !self.combined_spec().compatible_spec(other.combined_spec()) && !(r is All)
                ==> forall|i: int|
                r.mem(i) == conflict_at_before(
                    self.members_spec(),
                    other.members_spec(),
                    self.members_spec().len() as int,
                    0,
                    i,
                ),
    {
        let mut conflicts = AccessConflicts::empty();
        if !self.combined_access.is_compatible(other.combined_access()) {
            let ghost s = self.members_spec();
            let ghost o = other.members_spec();
            let mut k: usize = 0;
            while k < self.filtered_accesses.len()
                invariant
                    self.wf(),
                    other.wf(),
                    s == self.members_spec(),
                    o == other.members_spec(),
                    k <= s.len(),
                    conflicts.wf(),
                    (conflicts is All) == conflicts_all_before(s, o, k as int, 0),
                    !(conflicts is All) ==> forall|i: int|
                        conflicts.mem(i) == conflict_at_before(s, o, k as int, 0, i),
                decreases s.len() - k,
            {
                let mut l: usize = 0;
                while l < other.filtered_accesses.len()
                    invariant
                        self.wf(),
                        other.wf(),
                        s == self.members_spec(),
                        o == other.members_spec(),
                        k < s.len(),
                        l <= o.len(),
                        conflicts.wf(),
                        (conflicts is All) == conflicts_all_before(s, o, k as int, l as int),
                        !(conflicts is All) ==> forall|i: int|
                            conflicts.mem(i) == conflict_at_before(s, o, k as int, l as int, i),
                    decreases o.len() - l,
                {
                    proof {
                        assert(s[k as int].wf());
                        assert(o[l as int].wf());
                    }
                    let ghost before = conflicts;
                    let c = self.filtered_accesses[k].get_conflicts(&other.filtered_accesses[l]);
                    conflicts.add(&c);
                    proof {
                        lemma_merge_step(s, o, k as int, l as int, before, c, conflicts);
                    }
                    l = l + 1;
                }
                proof {
                    lemma_row_advance(s, o, k as int, conflicts);
                }
                k = k + 1;
            }
        }
        conflicts
    }

    /// The indices this set and one filtered access cannot both use: the same
    /// merge, run against a single access.
    pub fn get_conflicts_single(&self, filtered_access: &FilteredAccess) -> (r: AccessConflicts)
        requires
            self.wf(),
            filtered_access.wf(),
        ensures
            r.wf(),
            self.combined_spec().compatible_spec(filtered_access.access_spec())
                ==> r.is_empty_spec(),
            !self.combined_spec().compatible_spec(filtered_access.access_spec()) ==> (r is All)
                == self.single_conflicts_all(*filtered_access),
            !self.combined_spec().compatible_spec(filtered_access.access_spec()) && !(r is All)
                ==> forall|i: int| r.mem(i) == self.single_conflict_at(*filtered_access, i),
    {
        let mut conflicts = AccessConflicts::empty();
        if !self.combined_access.is_compatible(filtered_access.access()) {
            let ghost s = self.members_spec();
            let mut k: usize = 0;
            while k < self.filtered_accesses.len()
                invariant
                    self.wf(),
                    filtered_access.wf(),
                    s == self.members_spec(),
                    k <= s.len(),
                    conflicts.wf(),
                    (conflicts is All) == exists|k2: int|
                        0 <= k2 < k && (#[trigger] s[k2]).conflicts_all_spec(*filtered_access),
                    !(conflicts is All) ==> forall|i: int|
                        conflicts.mem(i) == exists|k2: int|
                            0 <= k2 < k && (#[trigger] s[k2]).conflict_at(*filtered_access, i),
                decreases s.len() - k,
            {
                proof {
                    assert(s[k as int].wf());
                }
                let ghost before = conflicts;
                let c = self.filtered_accesses[k].get_conflicts(filtered_access);
                conflicts.add(&c);
                proof {
                    lemma_single_merge_step(s, *filtered_access, k as int, before, c, conflicts);
                }
                k = k + 1;
            }
            proof {
                assert forall|k2: int|
                    0 <= k2 < self.members_spec().len() && (#[trigger] self.members_spec()[k2]).conflicts_all_spec(
                        *filtered_access,
                    ) implies exists|k3: int|
                    0 <= k3 < self.members_spec().len() && (#[trigger] self.members_spec()[k3]).conflicts_all_spec(
                        *filtered_access,
                    ) by {}
            }
        }
        conflicts
    }
}

impl Default for FilteredAccessSet {
    /// The empty set.
    fn default() -> (r: Self)
        ensures
            r.wf(),
            r.combined_spec().no_access(),
            r.members_spec().len() == 0,
    {
        FilteredAccessSet::new()
    }
}

/// One merge step of the pairwise conflict accumulation: after folding in the
/// conflicts of pair `(k, l)`, the accumulator describes every pair up to
/// `(k, l + 1)`.
proof fn lemma_merge_step(
    s: Seq<FilteredAccess>,
    o: Seq<FilteredAccess>,
    k: int,
    l: int,
    before: AccessConflicts,
    c: AccessConflicts,
    after: AccessConflicts,
)
    requires
        0 <= k < s.len(),
        0 <= l < o.len(),
        (before is All) == conflicts_all_before(s, o, k, l),
        !(before is All) ==> forall|i: int| before.mem(i) == conflict_at_before(s, o, k, l, i),
        (c is All) == s[k].conflicts_all_spec(o[l]),
        !(c is All) ==> forall|i: int| c.mem(i) == s[k].conflict_at(o[l], i),
        (after is All) == (before is All || c is All),
        forall|i: int| after.mem(i) == (before.mem(i) || c.mem(i)),
    ensures
        (after is All) == conflicts_all_before(s, o, k, l + 1),
        !(after is All) ==> forall|i: int| after.mem(i) == conflict_at_before(s, o, k, l + 1, i),
{
    if after is All {
        if before is All {
            let (k2, l2) = choose|k2: int, l2: int|
                0 <= k2 < s.len() && 0 <= l2 < o.len() && (k2 < k || (k2 == k && l2 < l))
                    && (#[trigger] s[k2].conflicts_all_spec(o[l2]));
            assert(conflicts_all_before(s, o, k, l + 1));
        } else {
            assert(s[k].conflicts_all_spec(o[l]));
            assert(conflicts_all_before(s, o, k, l + 1));
        }
    } else {
        if conflicts_all_before(s, o, k, l + 1) {
            let (k2, l2) = choose|k2: int, l2: int|
                0 <= k2 < s.len() && 0 <= l2 < o.len() && (k2 < k || (k2 == k && l2 <= l))
                    && (#[trigger] s[k2].conflicts_all_spec(o[l2]));
            if k2 < k || (k2 == k && l2 < l) {
                assert(conflicts_all_before(s, o, k, l));
            }
            assert(false);
        }
        assert forall|i: int| after.mem(i) == conflict_at_before(s, o, k, l + 1, i) by {
            if after.mem(i) {
                if before.mem(i) {
                    let (k2, l2) = choose|k2: int, l2: int|
                        0 <= k2 < s.len() && 0 <= l2 < o.len() && (k2 < k || (k2 == k && l2 < l))
                            && (#[trigger] s[k2].conflict_at(o[l2], i));
                    assert(conflict_at_before(s, o, k, l + 1, i));
                } else {
                    assert(s[k].conflict_at(o[l], i));
                    assert(conflict_at_before(s, o, k, l + 1, i));
                }
            }
            if conflict_at_before(s, o, k, l + 1, i) {
                let (k2, l2) = choose|k2: int, l2: int|
                    0 <= k2 < s.len() && 0 <= l2 < o.len() && (k2 < k || (k2 == k && l2 <= l))
                        && (#[trigger] s[k2].conflict_at(o[l2], i));
                if k2 < k || (k2 == k && l2 < l) {
                    assert(conflict_at_before(s, o, k, l, i));
                    assert(before.mem(i));
                } else {
                    assert(c.mem(i));
                }
                assert(after.mem(i));
            }
        }
    }
}

/// Having folded in every pair of row `k`, the accumulator describes every
/// pair up to the start of row `k + 1`.
proof fn lemma_row_advance(
    s: Seq<FilteredAccess>,
    o: Seq<FilteredAccess>,
    k: int,
    conflicts: AccessConflicts,
)
    requires
        0 <= k < s.len(),
        (conflicts is All) == conflicts_all_before(s, o, k, o.len() as int),
        !(conflicts is All) ==> forall|i: int|
            conflicts.mem(i) == conflict_at_before(s, o, k, o.len() as int, i),
    ensures
        (conflicts is All) == conflicts_all_before(s, o, k + 1, 0),
        !(conflicts is All) ==> forall|i: int|
            conflicts.mem(i) == conflict_at_before(s, o, k + 1, 0, i),
{
    assert(conflicts_all_before(s, o, k, o.len() as int) == conflicts_all_before(s, o, k + 1, 0))
        by {
        if conflicts_all_before(s, o, k, o.len() as int) {
            let (k2, l2) = choose|k2: int, l2: int|
                0 <= k2 < s.len() && 0 <= l2 < o.len() && (k2 < k || (k2 == k && l2 < o.len()))
                    && (#[trigger] s[k2].conflicts_all_spec(o[l2]));
            assert(conflicts_all_before(s, o, k + 1, 0));
        }
        if conflicts_all_before(s, o, k + 1, 0) {
            let (k2, l2) = choose|k2: int, l2: int|
                0 <= k2 < s.len() && 0 <= l2 < o.len() && k2 < k + 1 && (
                #[trigger] s[k2].conflicts_all_spec(o[l2]));
            assert(conflicts_all_before(s, o, k, o.len() as int));
        }
    }
    if !(conflicts is All) {
        assert forall|i: int|
            conflicts.mem(i) == conflict_at_before(s, o, k + 1, 0, i) by {
            if conflicts.mem(i) {
                let (k2, l2) = choose|k2: int, l2: int|
                    0 <= k2 < s.len() && 0 <= l2 < o.len() && (k2 < k || (k2 == k && l2 < o.len()))
                        && (#[trigger] s[k2].conflict_at(o[l2], i));
                assert(conflict_at_before(s, o, k + 1, 0, i));
            }
            if conflict_at_before(s, o, k + 1, 0, i) {
                let (k2, l2) = choose|k2: int, l2: int|
                    0 <= k2 < s.len() && 0 <= l2 < o.len() && k2 < k + 1 && (
                    #[trigger] s[k2].conflict_at(o[l2], i));
                assert(conflict_at_before(s, o, k, o.len() as int, i));
            }
        }
    }
}

/// One merge step of the single-access conflict accumulation.
proof fn lemma_single_merge_step(
    s: Seq<FilteredAccess>,
    fa: FilteredAccess,
    k: int,
    before: AccessConflicts,
    c: AccessConflicts,
    after: AccessConflicts,
)
    requires
        0 <= k < s.len(),
        (before is All) == exists|k2: int| 0 <= k2 < k && (#[trigger] s[k2]).conflicts_all_spec(fa),
        !(before is All) ==> forall|i: int|
            before.mem(i) == exists|k2: int| 0 <= k2 < k && (#[trigger] s[k2]).conflict_at(fa, i),
        (c is All) == s[k].conflicts_all_spec(fa),
        !(c is All) ==> forall|i: int| c.mem(i) == s[k].conflict_at(fa, i),
        (after is All) == (before is All || c is All),
        forall|i: int| after.mem(i) == (before.mem(i) || c.mem(i)),
    ensures
        (after is All) == exists|k2: int|
            0 <= k2 < k + 1 && (#[trigger] s[k2]).conflicts_all_spec(fa),
        !(after is All) ==> forall|i: int|
            after.mem(i) == exists|k2: int|
                0 <= k2 < k + 1 && (#[trigger] s[k2]).conflict_at(fa, i),
{
    if after is All {
        if before is All {
            let k2 = choose|k2: int| 0 <= k2 < k && (#[trigger] s[k2]).conflicts_all_spec(fa);
            assert(0 <= k2 < k + 1 && s[k2].conflicts_all_spec(fa));
        } else {
            assert(0 <= k < k + 1 && s[k].conflicts_all_spec(fa));
        }
    } else {
        if exists|k2: int| 0 <= k2 < k + 1 && (#[trigger] s[k2]).conflicts_all_spec(fa) {
            let k2 = choose|k2: int| 0 <= k2 < k + 1 && (#[trigger] s[k2]).conflicts_all_spec(fa);
            assert(false);
        }
        assert forall|i: int|
            after.mem(i) == exists|k2: int|
                0 <= k2 < k + 1 && (#[trigger] s[k2]).conflict_at(fa, i) by {
            if after.mem(i) {
                if before.mem(i) {
                    let k2 = choose|k2: int| 0 <= k2 < k && (#[trigger] s[k2]).conflict_at(fa, i);
                    assert(0 <= k2 < k + 1 && s[k2].conflict_at(fa, i));
                } else {
                    assert(0 <= k < k + 1 && s[k].conflict_at(fa, i));
                }
            }
            if exists|k2: int| 0 <= k2 < k + 1 && (#[trigger] s[k2]).conflict_at(fa, i) {
                let k2 = choose|k2: int| 0 <= k2 < k + 1 && (#[trigger] s[k2]).conflict_at(fa, i);
                if k2 < k {
                    assert(before.mem(i));
                } else {
                    assert(c.mem(i));
                }
                assert(after.mem(i));
            }
        }
    }
}

/// Compatibility symmetry for whole sets: whether two sets can be active at
/// the same time does not depend on their order.
pub proof fn lemma_set_compatibility_symmetry(a: FilteredAccessSet, b: FilteredAccessSet)
    ensures
        a.compatible_spec(b) == b.compatible_spec(a),
{
    lemma_compatibility_symmetry(a.combined_spec(), b.combined_spec());
    if a.all_pairs_compatible(b) {
        assert forall|l: int, k: int|
            0 <= l < b.members_spec().len() && 0 <= k < a.members_spec().len()
                implies #[trigger] b.members_spec()[l].compatible_spec(a.members_spec()[k]) by {
            assert(a.members_spec()[k].compatible_spec(b.members_spec()[l]));
            lemma_filtered_compatibility_symmetry(a.members_spec()[k], b.members_spec()[l]);
        }
    }
    if b.all_pairs_compatible(a) {
        assert forall|k: int, l: int|
            0 <= k < a.members_spec().len() && 0 <= l < b.members_spec().len()
                implies #[trigger] a.members_spec()[k].compatible_spec(b.members_spec()[l]) by {
            assert(b.members_spec()[l].compatible_spec(a.members_spec()[k]));
            lemma_filtered_compatibility_symmetry(b.members_spec()[l], a.members_spec()[k]);
        }
    }
}

/// Compatibility/conflict consistency for whole sets: two well-formed sets
/// are compatible exactly when the conflict report between them, as
/// `get_conflicts` describes it, is empty.
pub proof fn lemma_set_compatibility_conflict_consistency(
    a: FilteredAccessSet,
    b: FilteredAccessSet,
    c: AccessConflicts,
)
    requires
        a.wf(),
        b.wf(),
        a.combined_spec().compatible_spec(b.combined_spec()) ==> c.is_empty_spec(),
        !a.combined_spec().compatible_spec(b.combined_spec()) ==> (c is All)
            == conflicts_all_before(
            a.members_spec(),
            b.members_spec(),
            a.members_spec().len() as int,
            0,
        ),
        !a.combined_spec().compatible_spec(b.combined_spec()) && !(c is All) ==> forall|i: int|
            c.mem(i) == conflict_at_before(
                a.members_spec(),
                b.members_spec(),
                a.members_spec().len() as int,
                0,
                i,
            ),
    ensures
        a.compatible_spec(b) <==> c.is_empty_spec(),
{
    let s = a.members_spec();
    let o = b.members_spec();
    if a.combined_spec().compatible_spec(b.combined_spec()) {
        assert(a.compatible_spec(b));
    } else {
        if a.all_pairs_compatible(b) {
            // No pair conflicts, so the fold never saw anything: the report
            // is an empty individual set.
            if c is All {
                let (k2, l2) = choose|k2: int, l2: int|
                    0 <= k2 < s.len() && 0 <= l2 < o.len() && (k2 < s.len() || (k2 == s.len()
                        && l2 < 0)) && (#[trigger] s[k2].conflicts_all_spec(o[l2]));
                assert(s[k2].compatible_spec(o[l2]));
                assert(false);
            }
            assert forall|i: int| !c.mem(i) by {
                if conflict_at_before(s, o, s.len() as int, 0, i) {
                    let (k2, l2) = choose|k2: int, l2: int|
                        0 <= k2 < s.len() && 0 <= l2 < o.len() && (k2 < s.len() || (k2 == s.len()
                            && l2 < 0)) && (#[trigger] s[k2].conflict_at(o[l2], i));
                    assert(s[k2].compatible_spec(o[l2]));
                }
            }
        } else {
            // Some pair is incompatible, and an incompatible pair always
            // contributes at least one conflicting index.
            let (k2, l2) = choose|k2: int, l2: int|
                0 <= k2 < s.len() && 0 <= l2 < o.len() && !(#[trigger] s[k2].compatible_spec(
                    o[l2],
                ));
            assert(s[k2].wf());
            assert(o[l2].wf());
            lemma_incompatible_has_conflict(s[k2].access_spec(), o[l2].access_spec());
            if !(c is All) {
                let w = choose|i: int| s[k2].access_spec().conflict_at(o[l2].access_spec(), i);
                assert(s[k2].conflict_at(o[l2], w));
                assert(conflict_at_before(s, o, s.len() as int, 0, w));
                assert(c.mem(w));
            }
            assert(!c.is_empty_spec());
            assert(!a.compatible_spec(b));
        }
    }
}

/// The coarse pre-check is sound: when the combined accesses of two
/// well-formed sets are compatible, every member pair is compatible too,
/// because each member's access is contained in its set's combined access.
pub proof fn lemma_coarse_check_sound(a: FilteredAccessSet, b: FilteredAccessSet)
    requires
        a.wf(),
        b.wf(),
        a.combined_spec().compatible_spec(b.combined_spec()),
    ensures
        a.all_pairs_compatible(b),
{
    assert forall|k: int, l: int|
        0 <= k < a.members_spec().len() && 0 <= l < b.members_spec().len()
            implies #[trigger] a.members_spec()[k].compatible_spec(b.members_spec()[l]) by {
        assert(a.members_spec()[k].access_spec().subset_spec(a.combined_spec()));
        assert(b.members_spec()[l].access_spec().subset_spec(b.combined_spec()));
        lemma_compatibility_monotone(
            a.members_spec()[k].access_spec(),
            b.members_spec()[l].access_spec(),
            a.combined_spec(),
            b.combined_spec(),
        );
    }
}

} // verus!

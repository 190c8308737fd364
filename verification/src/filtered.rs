//! Access refined by row-level filters.
//!
//! A `RowFilter` is one conjunctive clause: "the row has every index in
//! `with` and none in `without`". A `FilteredAccess` pairs an `Access` with a
//! `required` set (indices implied present by any component read or write) and
//! a disjunction of such clauses. Two filtered accesses whose raw access sets
//! overlap can still be compatible when every pair of their clauses is
//! mutually exclusive, so that no single row satisfies both.

use crate::access::Access;
use crate::access::AccessConflicts;
use crate::access::lemma_compatibility_symmetry;
use crate::access::lemma_incompatible_has_conflict;
use crate::index_set::IndexSet;
use crate::index_set::lemma_disjoint_sem_symmetric;
use vstd::prelude::*;

verus! {

broadcast use vstd::seq::group_seq_axioms;

/// One conjunctive row predicate: every index in `with` must be present and
/// every index in `without` absent.
#[derive(Debug, Clone, PartialEq)]
pub struct RowFilter {
    /// Indices the row must have.
    pub with: IndexSet,
    /// Indices the row must lack.
    pub without: IndexSet,
}

impl RowFilter {
    /// Both sets are well-formed, ordinary (never complemented) sets.
    pub open spec fn wf(self) -> bool {
        &&& self.with.wf()
        &&& self.without.wf()
        &&& !self.with.is_cofinite()
        &&& !self.without.is_cofinite()
    }

    /// The clause constrains nothing.
    pub open spec fn matches_all(self) -> bool {
        &&& forall|i: int| !self.with.mem(i)
        &&& forall|i: int| !self.without.mem(i)
    }

    /// No row can satisfy both clauses at once: one demands an index the
    /// other forbids.
    pub open spec fn ruled_out_spec(self, other: Self) -> bool {
        ||| !self.with.disjoint_sem(other.without)
        ||| !self.without.disjoint_sem(other.with)
    }

    /// `self` is clause `a` with `i` added to its `with` conjunction.
    pub open spec fn with_added(self, a: Self, i: int) -> bool {
        &&& self.without == a.without
        &&& self.with.is_cofinite() == a.with.is_cofinite()
        &&& forall|j: int| self.with.mem(j) == (a.with.mem(j) || j == i)
    }

    /// `self` is clause `a` with `i` added to its `without` conjunction.
    pub open spec fn without_added(self, a: Self, i: int) -> bool {
        &&& self.with == a.with
        &&& self.without.is_cofinite() == a.without.is_cofinite()
        &&& forall|j: int| self.without.mem(j) == (a.without.mem(j) || j == i)
    }

    /// `self` is the conjunction of clauses `a` and `b`: both parts unioned.
    pub open spec fn union_of(self, a: Self, b: Self) -> bool {
        &&& self.with.is_cofinite() == (a.with.is_cofinite() || b.with.is_cofinite())
        &&& self.without.is_cofinite() == (a.without.is_cofinite() || b.without.is_cofinite())
        &&& forall|j: int| self.with.mem(j) == (a.with.mem(j) || b.with.mem(j))
        &&& forall|j: int| self.without.mem(j) == (a.without.mem(j) || b.without.mem(j))
    }

    /// `self` and `other` hold the same indices.
    pub open spec fn same_clause(self, other: Self) -> bool {
        &&& self.with.is_cofinite() == other.with.is_cofinite()
        &&& self.without.is_cofinite() == other.without.is_cofinite()
        &&& forall|j: int| self.with.mem(j) == other.with.mem(j)
        &&& forall|j: int| self.without.mem(j) == other.without.mem(j)
    }

    /// The clause that constrains nothing.
    pub fn new() -> (r: RowFilter)
        ensures
            r.wf(),
            r.matches_all(),
    {
        RowFilter { with: IndexSet::new(), without: IndexSet::new() }
    }

    /// A copy holding the same indices.
    pub fn duplicate(&self) -> (r: RowFilter)
        ensures
            r.same_clause(*self),
            self.wf() ==> r.wf(),
    {
        RowFilter { with: self.with.duplicate(), without: self.without.duplicate() }
    }

    /// Whether no row can satisfy both clauses at once.
    pub fn is_ruled_out_by(&self, other: &RowFilter) -> (r: bool)
        requires
            self.wf(),
            other.wf(),
        ensures
            r == self.ruled_out_spec(*other),
    {
        !self.with.is_disjoint(&other.without) || !self.without.is_disjoint(&other.with)
    }
}

impl Default for RowFilter {
    /// The clause that constrains nothing.
    fn default() -> (r: Self)
        ensures
            r.wf(),
            r.matches_all(),
    {
        RowFilter::new()
    }
}

/// An access descriptor together with the row filters that refine it.
#[derive(Debug, Clone, PartialEq)]
pub struct FilteredAccess {
    pub(crate) access: Access,
    pub(crate) required: IndexSet,
    /// The disjunction of conjunctive clauses, in disjunctive normal form: a
    /// row matches when it satisfies any one clause.
    pub filters: Vec<RowFilter>,
}

impl FilteredAccess {
    /// The underlying unfiltered access.
    pub closed spec fn access_spec(self) -> Access {
        self.access
    }

    /// The indices implied present by any component read or write.
    pub closed spec fn required_spec(self) -> IndexSet {
        self.required
    }

    /// The clause list as a sequence.
    pub closed spec fn filters_spec(self) -> Seq<RowFilter> {
        self.filters@
    }

    /// The access, the required set and every clause are well-formed.
    pub open spec fn wf(self) -> bool {
        &&& self.access_spec().wf()
        &&& self.required_spec().wf()
        &&& !self.required_spec().is_cofinite()
        &&& forall|k: int|
            0 <= k < self.filters_spec().len() ==> (#[trigger] self.filters_spec()[k]).wf()
    }

    /// Every clause of `self` is mutually exclusive with every clause of
    /// `other`: no row satisfies a clause from each.
    pub open spec fn all_pairs_ruled_out(self, other: Self) -> bool {
        forall|k: int, l: int|
            0 <= k < self.filters_spec().len() && 0 <= l < other.filters_spec().len()
                ==> #[trigger] self.filters_spec()[k].ruled_out_spec(other.filters_spec()[l])
    }

    /// The two filtered accesses can be active at the same time: either their
    /// raw accesses are compatible, or the filters prove the row sets
    /// disjoint.
    pub open spec fn compatible_spec(self, other: Self) -> bool {
        ||| self.access_spec().compatible_spec(other.access_spec())
        ||| self.all_pairs_ruled_out(other)
    }

    /// The conflict set of the pair is unbounded.
    pub open spec fn conflicts_all_spec(self, other: Self) -> bool {
        &&& !self.compatible_spec(other)
        &&& self.access_spec().conflicts_unbounded(other.access_spec())
    }

    /// Index `i` is reported as conflicting for the pair.
    pub open spec fn conflict_at(self, other: Self, i: int) -> bool {
        &&& !self.compatible_spec(other)
        &&& self.access_spec().conflict_at(other.access_spec(), i)
    }

    /// The whole of this filtered access is one unfiltered read of resource
    /// `i`: no component access, no write, no archetypal index, one clause
    /// constraining nothing.
    pub open spec fn only_resource_read(self, i: int) -> bool {
        &&& self.access_spec().components_spec().no_access()
        &&& !self.access_spec().resources_spec().reads_cofinite()
        &&& !self.access_spec().resources_spec().writes_cofinite()
        &&& forall|j: int| self.access_spec().resources_spec().has_read_spec(j) == (j == i)
        &&& forall|j: int| !self.access_spec().resources_spec().has_write_spec(j)
        &&& forall|j: int| !self.access_spec().archetypal_spec().mem(j)
        &&& self.filters_spec().len() == 1
        &&& self.filters_spec()[0].matches_all()
    }

    /// The whole of this filtered access is one unfiltered write of resource
    /// `i`.
    pub open spec fn only_resource_write(self, i: int) -> bool {
        &&& self.access_spec().components_spec().no_access()
        &&& !self.access_spec().resources_spec().reads_cofinite()
        &&& !self.access_spec().resources_spec().writes_cofinite()
        &&& forall|j: int| self.access_spec().resources_spec().has_read_spec(j) == (j == i)
        &&& forall|j: int| self.access_spec().resources_spec().has_write_spec(j) == (j == i)
        &&& forall|j: int| !self.access_spec().archetypal_spec().mem(j)
        &&& self.filters_spec().len() == 1
        &&& self.filters_spec()[0].matches_all()
    }

    /// Some clause's `with` conjunction holds index `v`.
    pub open spec fn some_with(self, v: int) -> bool {
        exists|k: int|
            0 <= k < self.filters_spec().len() && (#[trigger] self.filters_spec()[k]).with.mem(v)
    }

    /// Some clause's `without` conjunction holds index `v`.
    pub open spec fn some_without(self, v: int) -> bool {
        exists|k: int|
            0 <= k < self.filters_spec().len() && (#[trigger] self.filters_spec()[k]).without.mem(
                v,
            )
    }

    /// A filtered access with no access that matches every row: one clause
    /// constraining nothing.
    pub fn matches_everything() -> (r: FilteredAccess)
        ensures
            r.wf(),
            r.access_spec().no_access(),
            forall|i: int| !r.required_spec().mem(i),
            r.filters_spec().len() == 1,
            r.filters_spec()[0].matches_all(),
    {
        let mut filters: Vec<RowFilter> = Vec::new();
        filters.push(RowFilter::new());
        FilteredAccess { access: Access::new(), required: IndexSet::new(), filters }
    }

    /// A filtered access with no access that matches no row: an empty
    /// disjunction.
    pub fn matches_nothing() -> (r: FilteredAccess)
        ensures
            r.wf(),
            r.access_spec().no_access(),
            forall|i: int| !r.required_spec().mem(i),
            r.filters_spec().len() == 0,
    {
        FilteredAccess { access: Access::new(), required: IndexSet::new(), filters: Vec::new() }
    }

    /// The underlying unfiltered access.
    pub fn access(&self) -> (r: &Access)
        ensures
            *r == self.access_spec(),
    {
        &self.access
    }

    /// A mutable reference to the underlying unfiltered access.
    pub fn access_mut(&mut self) -> (r: &mut Access)
        ensures
            *r == old(self).access_spec(),
            final(self).access_spec() == *final(r),
            final(self).required_spec() == old(self).required_spec(),
            final(self).filters_spec() == old(self).filters_spec(),
    {
        &mut self.access
    }

    /// Inserts `index` into the required set.
    pub fn add_required(&mut self, index: usize)
        requires
            old(self).wf(),
            index < usize::MAX,
        ensures
            final(self).wf(),
            final(self).access_spec() == old(self).access_spec(),
            final(self).filters_spec() == old(self).filters_spec(),
            final(self).required_spec().is_cofinite() == old(self).required_spec().is_cofinite(),
            forall|i: int|
                final(self).required_spec().mem(i) == (old(self).required_spec().mem(i) || i
                    == index as int),
    {
        self.required.insert(index);
        proof {
            lemma_filters_wf_transfer(*old(self), *self);
        }
    }

    /// Adds a `with` predicate to every clause: conjunction distributed over
    /// the disjunction.
    pub fn and_with(&mut self, index: usize)
        requires
            old(self).wf(),
            index < usize::MAX,
        ensures
            final(self).wf(),
            final(self).access_spec() == old(self).access_spec(),
            final(self).required_spec() == old(self).required_spec(),
            final(self).filters_spec().len() == old(self).filters_spec().len(),
            forall|k: int|
                0 <= k < old(self).filters_spec().len() ==> (#[trigger] final(self).filters_spec()[k]).with_added(old(self).filters_spec()[k], index as int),
    {
        let mut k: usize = 0;
        while k < self.filters.len()
            invariant
                old(self).wf(),
                index < usize::MAX,
                k <= self.filters@.len(),
                self.access == old(self).access,
                self.required == old(self).required,
                self.filters@.len() == old(self).filters@.len(),
                forall|k2: int|
                    0 <= k2 < k ==> (#[trigger] self.filters@[k2]).with_added(
                        old(self).filters@[k2],
                        index as int,
                    ),
                forall|k2: int|
                    k <= k2 < self.filters@.len() ==> self.filters@[k2] == old(self).filters@[k2],
                forall|k2: int| 0 <= k2 < self.filters@.len() ==> (#[trigger] self.filters@[k2]).wf(),
            decreases self.filters@.len() - k,
        {
            let ghost fs0 = self.filters@;
            let e = &mut self.filters[k];
            e.with.insert(index);
            proof {
                assert(self.filters@ == fs0.update(k as int, self.filters@[k as int]));
                assert forall|k2: int| 0 <= k2 < self.filters@.len() implies (
                #[trigger] self.filters@[k2]).wf() by {
                    if k2 != k as int {
                        assert(self.filters@[k2] == fs0[k2]);
                    } else {
                        assert(fs0[k2].wf());
                        assert(self.filters@[k2].with.wf());
                        assert(!self.filters@[k2].with.is_cofinite());
                    }
                }
                assert(self.filters@[k as int].with_added(fs0[k as int], index as int));
            }
            k = k + 1;
        }
    }

    /// Adds a `without` predicate to every clause.
    pub fn and_without(&mut self, index: usize)
        requires
            old(self).wf(),
            index < usize::MAX,
        ensures
            final(self).wf(),
            final(self).access_spec() == old(self).access_spec(),
            final(self).required_spec() == old(self).required_spec(),
            final(self).filters_spec().len() == old(self).filters_spec().len(),
            forall|k: int|
                0 <= k < old(self).filters_spec().len() ==> (#[trigger] final(self).filters_spec()[k]).without_added(old(self).filters_spec()[k], index as int),
    {
        let mut k: usize = 0;
        while k < self.filters.len()
            invariant
                old(self).wf(),
                index < usize::MAX,
                k <= self.filters@.len(),
                self.access == old(self).access,
                self.required == old(self).required,
                self.filters@.len() == old(self).filters@.len(),
                forall|k2: int|
                    0 <= k2 < k ==> (#[trigger] self.filters@[k2]).without_added(
                        old(self).filters@[k2],
                        index as int,
                    ),
                forall|k2: int|
                    k <= k2 < self.filters@.len() ==> self.filters@[k2] == old(self).filters@[k2],
                forall|k2: int| 0 <= k2 < self.filters@.len() ==> (#[trigger] self.filters@[k2]).wf(),
            decreases self.filters@.len() - k,
        {
            let ghost fs0 = self.filters@;
            let e = &mut self.filters[k];
            e.without.insert(index);
            proof {
                assert(self.filters@ == fs0.update(k as int, self.filters@[k as int]));
                assert forall|k2: int| 0 <= k2 < self.filters@.len() implies (
                #[trigger] self.filters@[k2]).wf() by {
                    if k2 != k as int {
                        assert(self.filters@[k2] == fs0[k2]);
                    } else {
                        assert(fs0[k2].wf());
                        assert(self.filters@[k2].without.wf());
                        assert(!self.filters@[k2].without.is_cofinite());
                    }
                }
                assert(self.filters@[k as int].without_added(fs0[k as int], index as int));
            }
            k = k + 1;
        }
    }

    /// Adds access to the component given by `index`: the raw access, the
    /// required set and every clause's `with` conjunction all gain it.
    pub fn add_component_read(&mut self, index: usize)
        requires
            old(self).wf(),
            index < usize::MAX,
        ensures
            final(self).wf(),
            final(self).access_spec().components_spec().read_added(
                old(self).access_spec().components_spec(),
                index as int,
            ),
            final(self).access_spec().resources_spec() == old(self).access_spec().resources_spec(),
            final(self).access_spec().archetypal_spec() == old(self).access_spec().archetypal_spec(),
            final(self).required_spec().is_cofinite() == old(self).required_spec().is_cofinite(),
            forall|i: int|
                final(self).required_spec().mem(i) == (old(self).required_spec().mem(i) || i
                    == index as int),
            final(self).filters_spec().len() == old(self).filters_spec().len(),
            forall|k: int|
                0 <= k < old(self).filters_spec().len() ==> (#[trigger] final(self).filters_spec()[k]).with_added(old(self).filters_spec()[k], index as int),
    {
        self.access.add_component_read(index);
        proof {
            lemma_filters_wf_transfer(*old(self), *self);
        }
        self.add_required(index);
        self.and_with(index);
    }

    /// Adds exclusive access to the component given by `index`.
    pub fn add_component_write(&mut self, index: usize)
        requires
            old(self).wf(),
            index < usize::MAX,
        ensures
            final(self).wf(),
            final(self).access_spec().components_spec().write_added(
                old(self).access_spec().components_spec(),
                index as int,
            ),
            final(self).access_spec().resources_spec() == old(self).access_spec().resources_spec(),
            final(self).access_spec().archetypal_spec() == old(self).access_spec().archetypal_spec(),
            final(self).required_spec().is_cofinite() == old(self).required_spec().is_cofinite(),
            forall|i: int|
                final(self).required_spec().mem(i) == (old(self).required_spec().mem(i) || i
                    == index as int),
            final(self).filters_spec().len() == old(self).filters_spec().len(),
            forall|k: int|
                0 <= k < old(self).filters_spec().len() ==> (#[trigger] final(self).filters_spec()[k]).with_added(old(self).filters_spec()[k], index as int),
    {
        self.access.add_component_write(index);
        proof {
            lemma_filters_wf_transfer(*old(self), *self);
        }
        self.add_required(index);
        self.and_with(index);
    }

    /// Adds access to the resource given by `index`. Resources have no rows,
    /// so the filters and the required set are untouched.
    pub fn add_resource_read(&mut self, index: usize)
        requires
            old(self).wf(),
            index < usize::MAX,
        ensures
            final(self).wf(),
            final(self).access_spec().resources_spec().read_added(
                old(self).access_spec().resources_spec(),
                index as int,
            ),
            final(self).access_spec().components_spec() == old(self).access_spec().components_spec(),
            final(self).access_spec().archetypal_spec() == old(self).access_spec().archetypal_spec(),
            final(self).required_spec() == old(self).required_spec(),
            final(self).filters_spec() == old(self).filters_spec(),
    {
        self.access.add_resource_read(index);
        proof {
            lemma_filters_wf_transfer(*old(self), *self);
        }
    }

    /// Adds exclusive access to the resource given by `index`.
    pub fn add_resource_write(&mut self, index: usize)
        requires
            old(self).wf(),
            index < usize::MAX,
        ensures
            final(self).wf(),
            final(self).access_spec().resources_spec().write_added(
                old(self).access_spec().resources_spec(),
                index as int,
            ),
            final(self).access_spec().components_spec() == old(self).access_spec().components_spec(),
            final(self).access_spec().archetypal_spec() == old(self).access_spec().archetypal_spec(),
            final(self).required_spec() == old(self).required_spec(),
            final(self).filters_spec() == old(self).filters_spec(),
    {
        self.access.add_resource_write(index);
        proof {
            lemma_filters_wf_transfer(*old(self), *self);
        }
    }

    /// Appends `other`'s clauses: the disjunction of the two filters.
    pub fn append_or(&mut self, other: &FilteredAccess)
        requires
            old(self).wf(),
            other.wf(),
        ensures
            final(self).wf(),
            final(self).access_spec() == old(self).access_spec(),
            final(self).required_spec() == old(self).required_spec(),
            final(self).filters_spec().len() == old(self).filters_spec().len()
                + other.filters_spec().len(),
            forall|k: int|
                0 <= k < old(self).filters_spec().len() ==> #[trigger] final(self).filters_spec()[k]
                    == old(self).filters_spec()[k],
            forall|m: int|
                old(self).filters_spec().len() <= m < final(self).filters_spec().len() ==> (
                #[trigger] final(self).filters_spec()[m]).same_clause(
                    other.filters_spec()[m - old(self).filters_spec().len()],
                ),
    {
        let mut l: usize = 0;
        while l < other.filters.len()
            invariant
                old(self).wf(),
                other.wf(),
                l <= other.filters@.len(),
                self.access == old(self).access,
                self.required == old(self).required,
                self.filters@.len() == old(self).filters@.len() + l,
                forall|k: int|
                    0 <= k < old(self).filters@.len() ==> #[trigger] self.filters@[k] == old(self).filters@[k],
                forall|m: int|
                    old(self).filters@.len() <= m < self.filters@.len() ==> (#[trigger] self.filters@[m]).same_clause(
                        other.filters@[m - old(self).filters@.len()],
                    ),
                forall|k2: int| 0 <= k2 < self.filters@.len() ==> (#[trigger] self.filters@[k2]).wf(),
            decreases other.filters@.len() - l,
        {
            proof {
                assert(other.filters_spec()[l as int].wf());
            }
            self.filters.push(other.filters[l].duplicate());
            l = l + 1;
        }
    }

    /// Adds all of the raw access from `other`, leaving the filters alone.
    pub fn extend_access(&mut self, other: &FilteredAccess)
        requires
            old(self).wf(),
            other.wf(),
        ensures
            final(self).wf(),
            final(self).access_spec().extension_of(
                old(self).access_spec(),
                other.access_spec(),
            ),
            final(self).required_spec() == old(self).required_spec(),
            final(self).filters_spec() == old(self).filters_spec(),
    {
        self.access.extend(&other.access);
        proof {
            lemma_filters_wf_transfer(*old(self), *self);
        }
    }

    /// Whether this and `other` can be active at the same time: compatible
    /// raw access, or every clause pair mutually exclusive.
    pub fn is_compatible(&self, other: &FilteredAccess) -> (r: bool)
        requires
            self.wf(),
            other.wf(),
        ensures
            r == self.compatible_spec(*other),
    {
        if self.access.is_compatible(&other.access) {
            return true;
        }
        let mut k: usize = 0;
        while k < self.filters.len()
            invariant
                self.wf(),
                other.wf(),
                !self.access_spec().compatible_spec(other.access_spec()),
                k <= self.filters@.len(),
                forall|k2: int, l2: int|
                    0 <= k2 < k && 0 <= l2 < other.filters@.len()
                        ==> #[trigger] self.filters@[k2].ruled_out_spec(other.filters@[l2]),
            decreases self.filters@.len() - k,
        {
            let mut l: usize = 0;
            while l < other.filters.len()
                invariant
                    self.wf(),
                    other.wf(),
                    !self.access_spec().compatible_spec(other.access_spec()),
                    k < self.filters@.len(),
                    l <= other.filters@.len(),
                    forall|l2: int|
                        0 <= l2 < l ==> #[trigger] self.filters@[k as int].ruled_out_spec(
                            other.filters@[l2],
                        ),
                decreases other.filters@.len() - l,
            {
                proof {
                    assert(self.filters_spec()[k as int].wf());
                    assert(other.filters_spec()[l as int].wf());
                }
                if !self.filters[k].is_ruled_out_by(&other.filters[l]) {
                    proof {
                        assert(!self.filters_spec()[k as int].ruled_out_spec(
                            other.filters_spec()[l as int],
                        ));
                        assert(!self.all_pairs_ruled_out(*other));
                    }
                    return false;
                }
                l = l + 1;
            }
            k = k + 1;
        }
        proof {
            assert forall|k2: int, l2: int|
                0 <= k2 < self.filters_spec().len() && 0 <= l2 < other.filters_spec().len()
                    implies #[trigger] self.filters_spec()[k2].ruled_out_spec(
                other.filters_spec()[l2],
            ) by {
                assert(self.filters@[k2].ruled_out_spec(other.filters@[l2]));
            }
        }
        true
    }

    /// The indices this and `other` cannot both use at the same time: empty
    /// when the pair is compatible, otherwise the raw access conflicts.
    pub fn get_conflicts(&self, other: &FilteredAccess) -> (r: AccessConflicts)
        requires
            self.wf(),
            other.wf(),
        ensures
            r.wf(),
            (r is All) == self.conflicts_all_spec(*other),
            !(r is All) ==> forall|i: int| #[trigger] r.mem(i) == self.conflict_at(*other, i),
    {
        if !self.is_compatible(other) {
            return self.access.get_conflicts(&other.access);
        }
        AccessConflicts::empty()
    }

    /// Adds all access and filters from `other`: a conjunction. The clause
    /// lists combine as a cross product, each new clause the union of one
    /// clause from each side.
    pub fn extend(&mut self, other: &FilteredAccess)
        requires
            old(self).wf(),
            other.wf(),
        ensures
            final(self).wf(),
            final(self).access_spec().extension_of(
                old(self).access_spec(),
                other.access_spec(),
            ),
            final(self).required_spec().is_cofinite() == (old(self).required_spec().is_cofinite()
                || other.required_spec().is_cofinite()),
            forall|i: int|
                final(self).required_spec().mem(i) == (old(self).required_spec().mem(i)
                    || other.required_spec().mem(i)),
            final(self).filters_spec().len() == old(self).filters_spec().len()
                * other.filters_spec().len(),
            forall|m: int|
                0 <= m < final(self).filters_spec().len() ==> (#[trigger] final(self).filters_spec()[m]).union_of(
                    old(self).filters_spec()[m / other.filters_spec().len() as int],
                    other.filters_spec()[m % other.filters_spec().len() as int],
                ),
    {
        let olen = other.filters.len();
        proof {
            assert forall|k2: int| 0 <= k2 < self.filters@.len() implies (
            #[trigger] self.filters@[k2]).wf() by {
                assert(old(self).filters_spec()[k2].wf());
            }
        }
        if olen == 1 {
            let mut k: usize = 0;
            while k < self.filters.len()
                invariant
                    old(self).wf(),
                    other.wf(),
                    other.filters@.len() == 1,
                    k <= self.filters@.len(),
                    self.access == old(self).access,
                    self.required == old(self).required,
                    self.filters@.len() == old(self).filters@.len(),
                    forall|k2: int|
                        0 <= k2 < k ==> (#[trigger] self.filters@[k2]).union_of(
                            old(self).filters@[k2],
                            other.filters@[0],
                        ),
                    forall|k2: int|
                        k <= k2 < self.filters@.len() ==> self.filters@[k2] == old(
                            self,
                        ).filters@[k2],
                    forall|k2: int|
                        0 <= k2 < self.filters@.len() ==> (#[trigger] self.filters@[k2]).wf(),
                decreases self.filters@.len() - k,
            {
                proof {
                    assert(other.filters_spec()[0].wf());
                }
                let ghost fs0 = self.filters@;
                let e = &mut self.filters[k];
                e.with.union_with(&other.filters[0].with);
                e.without.union_with(&other.filters[0].without);
                proof {
                    assert forall|k2: int| 0 <= k2 < self.filters@.len() implies (
                    #[trigger] self.filters@[k2]).wf() by {
                        if k2 != k as int {
                            assert(self.filters@[k2] == fs0[k2]);
                        } else {
                            assert(fs0[k2].wf());
                            assert(self.filters@[k2].with.wf());
                            assert(self.filters@[k2].without.wf());
                            assert(!self.filters@[k2].with.is_cofinite());
                            assert(!self.filters@[k2].without.is_cofinite());
                        }
                    }
                    assert(self.filters@[k as int].union_of(fs0[k as int], other.filters@[0]));
                }
                k = k + 1;
            }
        } else {
            let mut new_filters: Vec<RowFilter> = Vec::new();
            let mut k: usize = 0;
            while k < self.filters.len()
                invariant
                    old(self).wf(),
                    other.wf(),
                    olen == other.filters@.len(),
                    k <= self.filters@.len(),
                    *self == *old(self),
                    new_filters@.len() == k * olen,
                    forall|m: int|
                        0 <= m < new_filters@.len() ==> (#[trigger] new_filters@[m]).union_of(
                            self.filters@[m / olen as int],
                            other.filters@[m % olen as int],
                        ),
                    forall|m: int| 0 <= m < new_filters@.len() ==> (#[trigger] new_filters@[m]).wf(),
                decreases self.filters@.len() - k,
            {
                let mut l: usize = 0;
                while l < olen
                    invariant
                        old(self).wf(),
                        other.wf(),
                        olen == other.filters@.len(),
                        k < self.filters@.len(),
                        l <= olen,
                        *self == *old(self),
                        new_filters@.len() == k * olen + l,
                        forall|m: int|
                            0 <= m < new_filters@.len() ==> (#[trigger] new_filters@[m]).union_of(
                                self.filters@[m / olen as int],
                                other.filters@[m % olen as int],
                            ),
                        forall|m: int|
                            0 <= m < new_filters@.len() ==> (#[trigger] new_filters@[m]).wf(),
                    decreases olen - l,
                {
                    proof {
                        assert(self.filters_spec()[k as int].wf());
                        assert(other.filters_spec()[l as int].wf());
                    }
                    let mut nf = self.filters[k].duplicate();
                    nf.with.union_with(&other.filters[l].with);
                    nf.without.union_with(&other.filters[l].without);
                    new_filters.push(nf);
                    proof {
                        assert((k * olen + l) / olen as int == k && (k * olen + l) % olen as int
                            == l) by (nonlinear_arith)
                            requires
                                0 <= l < olen,
                                0 <= k,
                        ;
                        assert(new_filters@[k * olen + l].union_of(
                            self.filters@[k as int],
                            other.filters@[l as int],
                        ));
                    }
                    l = l + 1;
                }
                proof {
                    assert((k + 1) * olen == k * olen + olen) by (nonlinear_arith);
                }
                k = k + 1;
            }
            self.filters = new_filters;
        }
        self.access.extend(&other.access);
        self.required.union_with(&other.required);
        proof {
            let slen0 = old(self).filters@.len();
            let flen = self.filters@.len();
            let olen2 = other.filters@.len();
            assert(flen == slen0 * olen2) by (nonlinear_arith)
                requires
                    olen2 == 1 ==> flen == slen0,
                    olen2 != 1 ==> flen == slen0 * olen2,
            ;
            assert forall|m: int| 0 <= m < self.filters_spec().len() implies (
            #[trigger] self.filters_spec()[m]).union_of(
                old(self).filters_spec()[m / other.filters_spec().len() as int],
                other.filters_spec()[m % other.filters_spec().len() as int],
            ) by {
                if other.filters@.len() == 1 {
                    assert(m / 1 == m && m % 1 == 0) by (nonlinear_arith)
                        requires
                            m >= 0,
                    ;
                }
                assert(self.filters@[m].union_of(
                    old(self).filters@[m / other.filters@.len() as int],
                    other.filters@[m % other.filters@.len() as int],
                ));
            }
            assert forall|m: int| 0 <= m < self.filters_spec().len() implies (
            #[trigger] self.filters_spec()[m]).wf() by {
                assert(self.filters@[m].wf());
            }
        }
    }

    /// Grants the raw access read access to every index.
    pub fn read_all(&mut self)
        requires
            old(self).wf(),
        ensures
            final(self).wf(),
            final(self).access_spec().components_spec().reads_cofinite(),
            final(self).access_spec().resources_spec().reads_cofinite(),
            forall|i: int| final(self).access_spec().components_spec().has_read_spec(i),
            forall|i: int| final(self).access_spec().resources_spec().has_read_spec(i),
            final(self).access_spec().components_spec().writers_spec() == old(self).access_spec().components_spec().writers_spec(),
            final(self).access_spec().resources_spec().writers_spec() == old(self).access_spec().resources_spec().writers_spec(),
            final(self).required_spec() == old(self).required_spec(),
            final(self).filters_spec() == old(self).filters_spec(),
    {
        self.access.read_all();
        proof {
            lemma_filters_wf_transfer(*old(self), *self);
        }
    }

    /// Grants the raw access write access to every index.
    pub fn write_all(&mut self)
        requires
            old(self).wf(),
        ensures
            final(self).wf(),
            final(self).access_spec().components_spec().reads_cofinite(),
            final(self).access_spec().components_spec().writes_cofinite(),
            final(self).access_spec().resources_spec().reads_cofinite(),
            final(self).access_spec().resources_spec().writes_cofinite(),
            forall|i: int| final(self).access_spec().components_spec().has_read_spec(i),
            forall|i: int| final(self).access_spec().components_spec().has_write_spec(i),
            forall|i: int| final(self).access_spec().resources_spec().has_read_spec(i),
            forall|i: int| final(self).access_spec().resources_spec().has_write_spec(i),
            final(self).required_spec() == old(self).required_spec(),
            final(self).filters_spec() == old(self).filters_spec(),
    {
        self.access.write_all();
        proof {
            lemma_filters_wf_transfer(*old(self), *self);
        }
    }

    /// Grants the raw access read access to every component.
    pub fn read_all_components(&mut self)
        requires
            old(self).wf(),
        ensures
            final(self).wf(),
            final(self).access_spec().components_spec().reads_cofinite(),
            forall|i: int| final(self).access_spec().components_spec().has_read_spec(i),
            final(self).access_spec().components_spec().writers_spec() == old(self).access_spec().components_spec().writers_spec(),
            final(self).access_spec().resources_spec() == old(self).access_spec().resources_spec(),
            final(self).required_spec() == old(self).required_spec(),
            final(self).filters_spec() == old(self).filters_spec(),
    {
        self.access.read_all_components();
        proof {
            lemma_filters_wf_transfer(*old(self), *self);
        }
    }

    /// Grants the raw access write access to every component.
    pub fn write_all_components(&mut self)
        requires
            old(self).wf(),
        ensures
            final(self).wf(),
            final(self).access_spec().components_spec().reads_cofinite(),
            final(self).access_spec().components_spec().writes_cofinite(),
            forall|i: int| final(self).access_spec().components_spec().has_read_spec(i),
            forall|i: int| final(self).access_spec().components_spec().has_write_spec(i),
            final(self).access_spec().resources_spec() == old(self).access_spec().resources_spec(),
            final(self).required_spec() == old(self).required_spec(),
            final(self).filters_spec() == old(self).filters_spec(),
    {
        self.access.write_all_components();
        proof {
            lemma_filters_wf_transfer(*old(self), *self);
        }
    }

    /// Whether `self` requires no more than `other` and accesses no more than
    /// `other`.
    pub fn is_subset(&self, other: &FilteredAccess) -> (r: bool)
        requires
            self.wf(),
            other.wf(),
        ensures
            r == (self.required_spec().subset_sem(other.required_spec())
                && self.access_spec().subset_spec(other.access_spec())),
    {
        self.required.is_subset(&other.required) && self.access.is_subset(&other.access)
    }

    /// The indices some clause filters for, clause by clause in ascending
    /// order within each clause.
    pub fn with_filters(&self) -> (r: Vec<usize>)
        requires
            self.wf(),
        ensures
            forall|j: int| #![trigger r@[j]] 0 <= j < r@.len() ==> self.some_with(r@[j] as int),
            forall|v: int|
                #[trigger] self.some_with(v) ==> exists|j: int|
                    #![trigger r@[j]]
                    0 <= j < r@.len() && r@[j] as int == v,
    {
        let mut r: Vec<usize> = Vec::new();
        let mut k: usize = 0;
        while k < self.filters.len()
            invariant
                self.wf(),
                k <= self.filters@.len(),
                forall|j: int|
                    #![trigger r@[j]]
                    0 <= j < r@.len() ==> exists|k2: int|
                        0 <= k2 < self.filters@.len() && self.filters@[k2].with.mem(
                            r@[j] as int,
                        ),
                forall|k2: int, i: int|
                    #![trigger self.filters@[k2].with.mem(i)]
                    0 <= k2 < k && self.filters@[k2].with.mem(i) ==> exists|j: int|
                        #![trigger r@[j]]
                        0 <= j < r@.len() && r@[j] as int == i,
            decreases self.filters@.len() - k,
        {
            let ghost r0 = r;
            proof {
                assert(self.filters_spec()[k as int].wf());
            }
            let mut es = self.filters[k].with.elements();
            let ghost es0 = es@;
            r.append(&mut es);
            proof {
                assert forall|k2: int, i: int|
                    #![trigger self.filters@[k2].with.mem(i)]
                    0 <= k2 < k + 1 && self.filters@[k2].with.mem(i) implies exists|j: int|
                    #![trigger r@[j]]
                    0 <= j < r@.len() && r@[j] as int == i by {
                    if k2 < k {
                        let j = choose|j: int| #![trigger r0@[j]] 0 <= j < r0@.len() && r0@[j] as int == i;
                        assert(r@[j] as int == i);
                    } else {
                        let j = choose|j: int| #![trigger es0[j]] 0 <= j < es0.len() && es0[j] as int == i;
                        assert(r@[r0@.len() + j] as int == i);
                    }
                }
                assert forall|j: int| #![trigger r@[j]] 0 <= j < r@.len() implies exists|k2: int|
                    0 <= k2 < self.filters@.len() && self.filters@[k2].with.mem(
                        r@[j] as int,
                    ) by {
                    if j < r0@.len() {
                        let k2 = choose|k2: int|
                            0 <= k2 < self.filters@.len() && self.filters@[k2].with.mem(
                                r0@[j] as int,
                            );
                        assert(r@[j] == r0@[j]);
                        assert(self.filters@[k2].with.mem(r@[j] as int));
                    } else {
                        let jj = j - r0@.len();
                        assert(0 <= jj < es0.len());
                        assert(r@[j] == es0[jj]);
                        assert(self.filters@[k as int].with.mem(es0[jj] as int));
                        assert(self.filters@[k as int].with.mem(r@[j] as int));
                    }
                }
            }
            k = k + 1;
        }
        proof {
            assert forall|j: int| #![trigger r@[j]] 0 <= j < r@.len() implies self.some_with(
                r@[j] as int,
            ) by {
                let ghost vj = r@[j];
                let k2 = choose|k2: int|
                    0 <= k2 < self.filters@.len() && self.filters@[k2].with.mem(r@[j] as int);
                assert(self.filters_spec()[k2].with.mem(r@[j] as int));
            }
            assert forall|v: int| #[trigger] self.some_with(v) implies exists|j: int|
                #![trigger r@[j]]
                0 <= j < r@.len() && r@[j] as int == v by {
                let k2 = choose|k2: int|
                    0 <= k2 < self.filters_spec().len() && (#[trigger] self.filters_spec()[k2]).with.mem(
                        v,
                    );
                assert(self.filters@[k2].with.mem(v));
            }
        }
        r
    }

    /// The indices some clause filters out, clause by clause in ascending
    /// order within each clause.
    pub fn without_filters(&self) -> (r: Vec<usize>)
        requires
            self.wf(),
        ensures
            forall|j: int| #![trigger r@[j]] 0 <= j < r@.len() ==> self.some_without(r@[j] as int),
            forall|v: int|
                #[trigger] self.some_without(v) ==> exists|j: int|
                    #![trigger r@[j]]
                    0 <= j < r@.len() && r@[j] as int == v,
    {
        let mut r: Vec<usize> = Vec::new();
        let mut k: usize = 0;
        while k < self.filters.len()
            invariant
                self.wf(),
                k <= self.filters@.len(),
                forall|j: int|
                    #![trigger r@[j]]
                    0 <= j < r@.len() ==> exists|k2: int|
                        0 <= k2 < self.filters@.len() && self.filters@[k2].without.mem(
                            r@[j] as int,
                        ),
                forall|k2: int, i: int|
                    #![trigger self.filters@[k2].without.mem(i)]
                    0 <= k2 < k && self.filters@[k2].without.mem(i) ==> exists|j: int|
                        #![trigger r@[j]]
                        0 <= j < r@.len() && r@[j] as int == i,
            decreases self.filters@.len() - k,
        {
            let ghost r0 = r;
            proof {
                assert(self.filters_spec()[k as int].wf());
            }
            let mut es = self.filters[k].without.elements();
            let ghost es0 = es@;
            r.append(&mut es);
            proof {
                assert forall|k2: int, i: int|
                    #![trigger self.filters@[k2].without.mem(i)]
                    0 <= k2 < k + 1 && self.filters@[k2].without.mem(i) implies exists|j: int|
                    #![trigger r@[j]]
                    0 <= j < r@.len() && r@[j] as int == i by {
                    if k2 < k {
                        let j = choose|j: int| #![trigger r0@[j]] 0 <= j < r0@.len() && r0@[j] as int == i;
                        assert(r@[j] as int == i);
                    } else {
                        let j = choose|j: int| #![trigger es0[j]] 0 <= j < es0.len() && es0[j] as int == i;
                        assert(r@[r0@.len() + j] as int == i);
                    }
                }
                assert forall|j: int| #![trigger r@[j]] 0 <= j < r@.len() implies exists|k2: int|
                    0 <= k2 < self.filters@.len() && self.filters@[k2].without.mem(
                        r@[j] as int,
                    ) by {
                    if j < r0@.len() {
                        let k2 = choose|k2: int|
                            0 <= k2 < self.filters@.len() && self.filters@[k2].without.mem(
                                r0@[j] as int,
                            );
                        assert(r@[j] == r0@[j]);
                        assert(self.filters@[k2].without.mem(r@[j] as int));
                    } else {
                        let jj = j - r0@.len();
                        assert(0 <= jj < es0.len());
                        assert(r@[j] == es0[jj]);
                        assert(self.filters@[k as int].without.mem(es0[jj] as int));
                        assert(self.filters@[k as int].without.mem(r@[j] as int));
                    }
                }
            }
            k = k + 1;
        }
        proof {
            assert forall|j: int| #![trigger r@[j]] 0 <= j < r@.len() implies self.some_without(
                r@[j] as int,
            ) by {
                let ghost vj = r@[j];
                let k2 = choose|k2: int|
                    0 <= k2 < self.filters@.len() && self.filters@[k2].without.mem(r@[j] as int);
                assert(self.filters_spec()[k2].without.mem(r@[j] as int));
            }
            assert forall|v: int| #[trigger] self.some_without(v) implies exists|j: int|
                #![trigger r@[j]]
                0 <= j < r@.len() && r@[j] as int == v by {
                let k2 = choose|k2: int|
                    0 <= k2 < self.filters_spec().len() && (#[trigger] self.filters_spec()[k2]).without.mem(
                        v,
                    );
                assert(self.filters@[k2].without.mem(v));
            }
        }
        r
    }
}

/// Clause well-formedness carries over between two filtered accesses whose
/// clause lists are equal.
pub(crate) proof fn lemma_filters_wf_transfer(a: FilteredAccess, b: FilteredAccess)
    requires
        a.filters_spec() == b.filters_spec(),
        forall|k: int| 0 <= k < a.filters_spec().len() ==> (#[trigger] a.filters_spec()[k]).wf(),
    ensures
        forall|k: int| 0 <= k < b.filters_spec().len() ==> (#[trigger] b.filters_spec()[k]).wf(),
{
    assert forall|k: int| 0 <= k < b.filters_spec().len() implies (
    #[trigger] b.filters_spec()[k]).wf() by {
        assert(a.filters_spec()[k].wf());
    }
}

impl Default for FilteredAccess {
    /// The filtered access with no access that matches everything.
    fn default() -> (r: Self)
        ensures
            r.wf(),
            r.access_spec().no_access(),
            forall|i: int| !r.required_spec().mem(i),
            r.filters_spec().len() == 1,
            r.filters_spec()[0].matches_all(),
    {
        FilteredAccess::matches_everything()
    }
}

/// Compatibility symmetry for filtered accesses: whether two can be active at
/// the same time does not depend on their order.
pub proof fn lemma_filtered_compatibility_symmetry(a: FilteredAccess, b: FilteredAccess)
    ensures
        a.compatible_spec(b) == b.compatible_spec(a),
{
    lemma_compatibility_symmetry(a.access_spec(), b.access_spec());
    if a.all_pairs_ruled_out(b) {
        assert forall|l: int, k: int|
            0 <= l < b.filters_spec().len() && 0 <= k < a.filters_spec().len() implies #[trigger] b.filters_spec()[l].ruled_out_spec(
            a.filters_spec()[k],
        ) by {
            assert(a.filters_spec()[k].ruled_out_spec(b.filters_spec()[l]));
            lemma_disjoint_sem_symmetric(a.filters_spec()[k].with, b.filters_spec()[l].without);
            lemma_disjoint_sem_symmetric(a.filters_spec()[k].without, b.filters_spec()[l].with);
        }
    }
    if b.all_pairs_ruled_out(a) {
        assert forall|k: int, l: int|
            0 <= k < a.filters_spec().len() && 0 <= l < b.filters_spec().len() implies #[trigger] a.filters_spec()[k].ruled_out_spec(
            b.filters_spec()[l],
        ) by {
            assert(b.filters_spec()[l].ruled_out_spec(a.filters_spec()[k]));
            lemma_disjoint_sem_symmetric(b.filters_spec()[l].with, a.filters_spec()[k].without);
            lemma_disjoint_sem_symmetric(b.filters_spec()[l].without, a.filters_spec()[k].with);
        }
    }
}

/// Filter-refined disjointness: two filtered accesses with single,
/// contradictory clauses are compatible whatever their raw accesses overlap
/// on, because no row can satisfy both clauses.
pub proof fn lemma_filter_refined_disjointness(a: FilteredAccess, b: FilteredAccess)
    requires
        a.filters_spec().len() == 1,
        b.filters_spec().len() == 1,
        a.filters_spec()[0].ruled_out_spec(b.filters_spec()[0]),
    ensures
        a.compatible_spec(b),
{
    assert forall|k: int, l: int|
        0 <= k < a.filters_spec().len() && 0 <= l < b.filters_spec().len() implies #[trigger] a.filters_spec()[k].ruled_out_spec(
        b.filters_spec()[l],
    ) by {
        assert(k == 0 && l == 0);
    }
}

/// Compatibility/conflict consistency for filtered accesses: the pair is
/// compatible exactly when the conflict report between them, as
/// `get_conflicts` describes it, is empty.
pub proof fn lemma_filtered_compatibility_conflict_consistency(
    a: FilteredAccess,
    b: FilteredAccess,
    c: AccessConflicts,
)
    requires
        a.wf(),
        b.wf(),
        (c is All) == a.conflicts_all_spec(b),
        !(c is All) ==> forall|i: int| c.mem(i) == a.conflict_at(b, i),
    ensures
        a.compatible_spec(b) <==> c.is_empty_spec(),
{
    if a.compatible_spec(b) {
        assert(!(c is All));
        assert forall|i: int| !c.mem(i) by {
            assert(!a.conflict_at(b, i));
        }
    } else {
        if !(c is All) {
            lemma_incompatible_has_conflict(a.access_spec(), b.access_spec());
            let w = choose|i: int| a.access_spec().conflict_at(b.access_spec(), i);
            assert(a.conflict_at(b, w));
            assert(c.mem(w));
        }
    }
}

} // verus!

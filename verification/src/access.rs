//! The access descriptor of one work unit, and the conflict sets it produces.
//!
//! An `Access` composes two independent `AccessRecord`s — one for
//! component-like indices, one for resource-like indices — plus a plain set of
//! archetypal indices, which influence row matching elsewhere but never
//! conflict. `get_conflicts` answers with an `AccessConflicts`: either the
//! finite set of indices responsible, or the sentinel `All` when that set
//! would be unbounded.

use crate::index_set::IndexSet;
use crate::index_set::lemma_fresh_index;
use crate::index_set::lemma_total_is_cofinite;
use crate::record::AccessRecord;
use crate::record::record_conflicts;
use vstd::prelude::*;

verus! {

/// Tracks read and write access to component and resource indices, plus
/// archetypal (presence-only) component indices.
#[derive(Debug, Clone, PartialEq)]
pub struct Access {
    pub(crate) components: AccessRecord,
    pub(crate) resources: AccessRecord,
    pub(crate) archetypal: IndexSet,
}

impl Access {
    /// The record of component accesses.
    pub closed spec fn components_spec(self) -> AccessRecord {
        self.components
    }

    /// The record of resource accesses.
    pub closed spec fn resources_spec(self) -> AccessRecord {
        self.resources
    }

    /// The set of archetypal component indices.
    pub closed spec fn archetypal_spec(self) -> IndexSet {
        self.archetypal
    }

    /// Both records are well-formed, and the archetypal set is an ordinary
    /// (never complemented) set.
    pub open spec fn wf(self) -> bool {
        &&& self.components_spec().wf()
        &&& self.resources_spec().wf()
        &&& self.archetypal_spec().wf()
        &&& !self.archetypal_spec().is_cofinite()
    }

    /// Nothing is read or written in either domain, and no archetypal index is
    /// set.
    pub open spec fn no_access(self) -> bool {
        &&& self.components_spec().no_access()
        &&& self.resources_spec().no_access()
        &&& !self.archetypal_spec().is_cofinite()
        &&& forall|i: int| !self.archetypal_spec().mem(i)
    }

    /// The two descriptors can be active at the same time: their component
    /// records are compatible and their resource records are compatible.
    /// Archetypal indices never take part.
    pub open spec fn compatible_spec(self, other: Self) -> bool {
        &&& self.components_spec().compatible_spec(other.components_spec())
        &&& self.resources_spec().compatible_spec(other.resources_spec())
    }

    /// Every access of `self` is an access of `other`, per domain.
    pub open spec fn subset_spec(self, other: Self) -> bool {
        &&& self.components_spec().subset_spec(other.components_spec())
        &&& self.resources_spec().subset_spec(other.resources_spec())
    }

    /// Index `i` is responsible for a conflict, in either domain.
    pub open spec fn conflict_at(self, other: Self, i: int) -> bool {
        ||| self.components_spec().conflict_spec(other.components_spec(), i)
        ||| self.resources_spec().conflict_spec(other.resources_spec(), i)
    }

    /// The set of conflicting indices is unbounded: in some domain, a write
    /// set in "everything" mode meets a read set in "everything" mode.
    pub open spec fn conflicts_unbounded(self, other: Self) -> bool {
        ||| self.components_spec().conflict_unbounded_spec(other.components_spec())
        ||| self.resources_spec().conflict_unbounded_spec(other.resources_spec())
    }

    /// `self` grants exactly what `a` and `b` grant together.
    pub open spec fn extension_of(self, a: Access, b: Access) -> bool {
        &&& self.components_spec().union_of(a.components_spec(), b.components_spec())
        &&& self.resources_spec().union_of(a.resources_spec(), b.resources_spec())
        &&& forall|i: int|
            self.archetypal_spec().mem(i) == (a.archetypal_spec().mem(i)
                || b.archetypal_spec().mem(i))
    }

    /// Creates an empty access descriptor.
    pub fn new() -> (r: Access)
        ensures
            r.wf(),
            r.no_access(),
    {
        Access {
            components: AccessRecord::new(),
            resources: AccessRecord::new(),
            archetypal: IndexSet::new(),
        }
    }

    /// A copy granting exactly the same access.
    pub fn duplicate(&self) -> (r: Access)
        ensures
            r.components_spec().readers_writers_spec().eq_ind(
                self.components_spec().readers_writers_spec(),
            ),
            r.components_spec().writers_spec().eq_ind(self.components_spec().writers_spec()),
            r.resources_spec().readers_writers_spec().eq_ind(
                self.resources_spec().readers_writers_spec(),
            ),
            r.resources_spec().writers_spec().eq_ind(self.resources_spec().writers_spec()),
            r.archetypal_spec().eq_ind(self.archetypal_spec()),
            forall|i: int|
                r.components_spec().has_read_spec(i) == self.components_spec().has_read_spec(i),
            forall|i: int|
                r.components_spec().has_write_spec(i) == self.components_spec().has_write_spec(i),
            forall|i: int|
                r.resources_spec().has_read_spec(i) == self.resources_spec().has_read_spec(i),
            forall|i: int|
                r.resources_spec().has_write_spec(i) == self.resources_spec().has_write_spec(i),
            forall|i: int| r.archetypal_spec().mem(i) == self.archetypal_spec().mem(i),
            r.components_spec().reads_cofinite() == self.components_spec().reads_cofinite(),
            r.components_spec().writes_cofinite() == self.components_spec().writes_cofinite(),
            r.resources_spec().reads_cofinite() == self.resources_spec().reads_cofinite(),
            r.resources_spec().writes_cofinite() == self.resources_spec().writes_cofinite(),
            r.archetypal_spec().is_cofinite() == self.archetypal_spec().is_cofinite(),
            self.wf() ==> r.wf(),
    {
        Access {
            components: self.components.duplicate(),
            resources: self.resources.duplicate(),
            archetypal: self.archetypal.duplicate(),
        }
    }

    /// Adds access to the component given by `index`.
    pub fn add_component_read(&mut self, index: usize)
        requires
            old(self).wf(),
            index < usize::MAX,
        ensures
            final(self).wf(),
            final(self).components_spec().read_added(
                old(self).components_spec(),
                index as int,
            ),
            final(self).resources_spec() == old(self).resources_spec(),
            final(self).archetypal_spec() == old(self).archetypal_spec(),
    {
        self.components.add_read(index);
    }

    /// Adds exclusive access to the component given by `index`.
    pub fn add_component_write(&mut self, index: usize)
        requires
            old(self).wf(),
            index < usize::MAX,
        ensures
            final(self).wf(),
            final(self).components_spec().write_added(
                old(self).components_spec(),
                index as int,
            ),
            final(self).resources_spec() == old(self).resources_spec(),
            final(self).archetypal_spec() == old(self).archetypal_spec(),
    {
        self.components.add_write(index);
    }

    /// Adds access to the resource given by `index`.
    pub fn add_resource_read(&mut self, index: usize)
        requires
            old(self).wf(),
            index < usize::MAX,
        ensures
            final(self).wf(),
            final(self).resources_spec().read_added(old(self).resources_spec(), index as int),
            final(self).components_spec() == old(self).components_spec(),
            final(self).archetypal_spec() == old(self).archetypal_spec(),
    {
        self.resources.add_read(index);
    }

    /// Adds exclusive access to the resource given by `index`.
    pub fn add_resource_write(&mut self, index: usize)
        requires
            old(self).wf(),
            index < usize::MAX,
        ensures
            final(self).wf(),
            final(self).resources_spec().write_added(old(self).resources_spec(), index as int),
            final(self).components_spec() == old(self).components_spec(),
            final(self).archetypal_spec() == old(self).archetypal_spec(),
    {
        self.resources.add_write(index);
    }

    /// Adds an archetypal (presence-only) access to the component given by
    /// `index`. Such an index influences row matching elsewhere but never
    /// takes part in conflict computation.
    pub fn add_archetypal(&mut self, index: usize)
        requires
            old(self).wf(),
            index < usize::MAX,
        ensures
            final(self).wf(),
            final(self).components_spec() == old(self).components_spec(),
            final(self).resources_spec() == old(self).resources_spec(),
            final(self).archetypal_spec().is_cofinite() == old(self).archetypal_spec().is_cofinite(),
            forall|i: int|
                final(self).archetypal_spec().mem(i) == (old(self).archetypal_spec().mem(i)
                    || i == index as int),
    {
        self.archetypal.insert(index);
    }

    /// Whether this can access the component given by `index`.
    pub fn has_component_read(&self, index: usize) -> (r: bool)
        ensures
            r == self.components_spec().has_read_spec(index as int),
    {
        self.components.has_read(index)
    }

    /// Whether this can access any component.
    pub fn has_any_component_read(&self) -> (r: bool)
        requires
            self.wf(),
        ensures
            r == exists|i: int| self.components_spec().has_read_spec(i),
    {
        self.components.has_any_read()
    }

    /// Whether this can exclusively access the component given by `index`.
    pub fn has_component_write(&self, index: usize) -> (r: bool)
        ensures
            r == self.components_spec().has_write_spec(index as int),
    {
        self.components.has_write(index)
    }

    /// Whether this accesses any component mutably.
    pub fn has_any_component_write(&self) -> (r: bool)
        requires
            self.wf(),
        ensures
            r == exists|i: int| self.components_spec().has_write_spec(i),
    {
        self.components.has_any_write()
    }

    /// Whether this can access the resource given by `index`.
    pub fn has_resource_read(&self, index: usize) -> (r: bool)
        ensures
            r == self.resources_spec().has_read_spec(index as int),
    {
        self.resources.has_read(index)
    }

    /// Whether this can access any resource.
    pub fn has_any_resource_read(&self) -> (r: bool)
        requires
            self.wf(),
        ensures
            r == exists|i: int| self.resources_spec().has_read_spec(i),
    {
        self.resources.has_any_read()
    }

    /// Whether this can exclusively access the resource given by `index`.
    pub fn has_resource_write(&self, index: usize) -> (r: bool)
        ensures
            r == self.resources_spec().has_write_spec(index as int),
    {
        self.resources.has_write(index)
    }

    /// Whether this accesses any resource mutably.
    pub fn has_any_resource_write(&self) -> (r: bool)
        requires
            self.wf(),
        ensures
            r == exists|i: int| self.resources_spec().has_write_spec(i),
    {
        self.resources.has_any_write()
    }

    /// Whether this has an archetypal access to the component given by
    /// `index`.
    pub fn has_archetypal(&self, index: usize) -> (r: bool)
        ensures
            r == self.archetypal_spec().mem(index as int),
    {
        self.archetypal.contains(index)
    }

    /// The archetypal component indices, in ascending order.
    pub fn archetypal(&self) -> (r: Vec<usize>)
        requires
            self.wf(),
        ensures
            forall|k: int, l: int| 0 <= k < l < r@.len() ==> r@[k] < r@[l],
            forall|k: int|
                0 <= k < r@.len() ==> self.archetypal_spec().mem(#[trigger] r@[k] as int),
            forall|i: int|
                #[trigger] self.archetypal_spec().mem(i) ==> exists|k: int|
                    0 <= k < r@.len() && #[trigger] r@[k] as int == i,
    {
        self.archetypal.elements()
    }

    /// Grants read access to every component.
    pub fn read_all_components(&mut self)
        requires
            old(self).wf(),
        ensures
            final(self).wf(),
            final(self).components_spec().writers_spec() == old(self).components_spec().writers_spec(),
            final(self).components_spec().reads_cofinite(),
            forall|i: int| final(self).components_spec().has_read_spec(i),
            final(self).resources_spec() == old(self).resources_spec(),
            final(self).archetypal_spec() == old(self).archetypal_spec(),
    {
        self.components.read_all();
    }

    /// Grants write access to every component.
    pub fn write_all_components(&mut self)
        requires
            old(self).wf(),
        ensures
            final(self).wf(),
            final(self).components_spec().reads_cofinite(),
            final(self).components_spec().writes_cofinite(),
            forall|i: int| final(self).components_spec().has_read_spec(i),
            forall|i: int| final(self).components_spec().has_write_spec(i),
            final(self).resources_spec() == old(self).resources_spec(),
            final(self).archetypal_spec() == old(self).archetypal_spec(),
    {
        self.components.write_all();
    }

    /// Grants read access to every resource.
    pub fn read_all_resources(&mut self)
        requires
            old(self).wf(),
        ensures
            final(self).wf(),
            final(self).resources_spec().writers_spec() == old(self).resources_spec().writers_spec(),
            final(self).resources_spec().reads_cofinite(),
            forall|i: int| final(self).resources_spec().has_read_spec(i),
            final(self).components_spec() == old(self).components_spec(),
            final(self).archetypal_spec() == old(self).archetypal_spec(),
    {
        self.resources.read_all();
    }

    /// Grants write access to every resource.
    pub fn write_all_resources(&mut self)
        requires
            old(self).wf(),
        ensures
            final(self).wf(),
            final(self).resources_spec().reads_cofinite(),
            final(self).resources_spec().writes_cofinite(),
            forall|i: int| final(self).resources_spec().has_read_spec(i),
            forall|i: int| final(self).resources_spec().has_write_spec(i),
            final(self).components_spec() == old(self).components_spec(),
            final(self).archetypal_spec() == old(self).archetypal_spec(),
    {
        self.resources.write_all();
    }

    /// Grants read access to every component and every resource.
    pub fn read_all(&mut self)
        requires
            old(self).wf(),
        ensures
            final(self).wf(),
            final(self).components_spec().writers_spec() == old(self).components_spec().writers_spec(),
            final(self).resources_spec().writers_spec() == old(self).resources_spec().writers_spec(),
            final(self).components_spec().reads_cofinite(),
            final(self).resources_spec().reads_cofinite(),
            forall|i: int| final(self).components_spec().has_read_spec(i),
            forall|i: int| final(self).resources_spec().has_read_spec(i),
            final(self).archetypal_spec() == old(self).archetypal_spec(),
    {
        self.read_all_components();
        self.read_all_resources();
    }

    /// Grants write access to every component and every resource.
    pub fn write_all(&mut self)
        requires
            old(self).wf(),
        ensures
            final(self).wf(),
            final(self).components_spec().reads_cofinite(),
            final(self).components_spec().writes_cofinite(),
            final(self).resources_spec().reads_cofinite(),
            final(self).resources_spec().writes_cofinite(),
            forall|i: int| final(self).components_spec().has_read_spec(i),
            forall|i: int| final(self).components_spec().has_write_spec(i),
            forall|i: int| final(self).resources_spec().has_read_spec(i),
            forall|i: int| final(self).resources_spec().has_write_spec(i),
            final(self).archetypal_spec() == old(self).archetypal_spec(),
    {
        self.write_all_components();
        self.write_all_resources();
    }

    /// Whether this can read every component.
    pub fn has_read_all_components(&self) -> (r: bool)
        requires
            self.wf(),
        ensures
            r == forall|i: int| self.components_spec().has_read_spec(i),
    {
        self.components.has_read_all()
    }

    /// Whether this can write every component.
    pub fn has_write_all_components(&self) -> (r: bool)
        requires
            self.wf(),
        ensures
            r == forall|i: int| self.components_spec().has_write_spec(i),
    {
        self.components.has_write_all()
    }

    /// Whether this can read every resource.
    pub fn has_read_all_resources(&self) -> (r: bool)
        requires
            self.wf(),
        ensures
            r == forall|i: int| self.resources_spec().has_read_spec(i),
    {
        self.resources.has_read_all()
    }

    /// Whether this can write every resource.
    pub fn has_write_all_resources(&self) -> (r: bool)
        requires
            self.wf(),
        ensures
            r == forall|i: int| self.resources_spec().has_write_spec(i),
    {
        self.resources.has_write_all()
    }

    /// Whether this can read every component and every resource.
    pub fn has_read_all(&self) -> (r: bool)
        requires
            self.wf(),
        ensures
            r == ((forall|i: int| self.components_spec().has_read_spec(i)) && (forall|i: int|
                self.resources_spec().has_read_spec(i))),
    {
        self.has_read_all_components() && self.has_read_all_resources()
    }

    /// Whether this can write every component and every resource.
    pub fn has_write_all(&self) -> (r: bool)
        requires
            self.wf(),
        ensures
            r == ((forall|i: int| self.components_spec().has_write_spec(i)) && (forall|i: int|
                self.resources_spec().has_write_spec(i))),
    {
        self.has_write_all_components() && self.has_write_all_resources()
    }

    /// Removes all writes in both domains, keeping the reads.
    pub fn clear_writes(&mut self)
        requires
            old(self).wf(),
        ensures
            final(self).wf(),
            final(self).components_spec().readers_writers_spec() == old(self).components_spec().readers_writers_spec(),
            final(self).resources_spec().readers_writers_spec() == old(self).resources_spec().readers_writers_spec(),
            !final(self).components_spec().writes_cofinite(),
            !final(self).resources_spec().writes_cofinite(),
            forall|i: int| !final(self).components_spec().has_write_spec(i),
            forall|i: int| !final(self).resources_spec().has_write_spec(i),
            final(self).archetypal_spec() == old(self).archetypal_spec(),
    {
        self.components.clear_writes();
        self.resources.clear_writes();
    }

    /// Removes all reads and writes in both domains. The archetypal set is
    /// kept.
    pub fn clear(&mut self)
        requires
            old(self).wf(),
        ensures
            final(self).wf(),
            final(self).components_spec().no_access(),
            final(self).resources_spec().no_access(),
            final(self).archetypal_spec() == old(self).archetypal_spec(),
    {
        self.components.clear();
        self.resources.clear();
    }

    /// Adds all access from `other`: both records and the archetypal set
    /// become unions.
    pub fn extend(&mut self, other: &Access)
        requires
            old(self).wf(),
            other.wf(),
        ensures
            final(self).wf(),
            final(self).extension_of(*old(self), *other),
    {
        self.components.extend(&other.components);
        self.resources.extend(&other.resources);
        self.archetypal.union_with(&other.archetypal);
    }

    /// Whether the component accesses of the two descriptors can be active at
    /// the same time.
    pub fn is_components_compatible(&self, other: &Access) -> (r: bool)
        requires
            self.wf(),
            other.wf(),
        ensures
            r == self.components_spec().compatible_spec(other.components_spec()),
    {
        self.components.is_compatible(&other.components)
    }

    /// Whether the resource accesses of the two descriptors can be active at
    /// the same time.
    pub fn is_resources_compatible(&self, other: &Access) -> (r: bool)
        requires
            self.wf(),
            other.wf(),
        ensures
            r == self.resources_spec().compatible_spec(other.resources_spec()),
    {
        self.resources.is_compatible(&other.resources)
    }

    /// Whether the two descriptors can be active at the same time: neither
    /// writes an index the other reads or writes, in either domain.
    pub fn is_compatible(&self, other: &Access) -> (r: bool)
        requires
            self.wf(),
            other.wf(),
        ensures
            r == self.compatible_spec(*other),
    {
        self.is_components_compatible(other) && self.is_resources_compatible(other)
    }

    /// Whether `self`'s component access is contained in `other`'s.
    pub fn is_subset_components(&self, other: &Access) -> (r: bool)
        requires
            self.wf(),
            other.wf(),
        ensures
            r == self.components_spec().subset_spec(other.components_spec()),
    {
        self.components.is_subset(&other.components)
    }

    /// Whether `self`'s resource access is contained in `other`'s.
    pub fn is_subset_resources(&self, other: &Access) -> (r: bool)
        requires
            self.wf(),
            other.wf(),
        ensures
            r == self.resources_spec().subset_spec(other.resources_spec()),
    {
        self.resources.is_subset(&other.resources)
    }

    /// Whether every access of `self` is an access of `other`. Archetypal
    /// indices are not compared.
    pub fn is_subset(&self, other: &Access) -> (r: bool)
        requires
            self.wf(),
            other.wf(),
        ensures
            r == self.subset_spec(*other),
    {
        self.is_subset_components(other) && self.is_subset_resources(other)
    }

    /// The indices the two descriptors cannot both use at the same time:
    /// `All` exactly when that set is unbounded, otherwise the finite set of
    /// indices on which one side writes while the other reads or writes.
    pub fn get_conflicts(&self, other: &Access) -> (r: AccessConflicts)
        requires
            self.wf(),
            other.wf(),
        ensures
            r.wf(),
            (r is All) == self.conflicts_unbounded(*other),
            !(r is All) ==> forall|i: int| #[trigger] r.mem(i) == self.conflict_at(*other, i),
    {
        let mut acc = IndexSet::new();
        if record_conflicts(&self.components, &other.components, &mut acc) {
            return AccessConflicts::All;
        }
        if record_conflicts(&self.resources, &other.resources, &mut acc) {
            return AccessConflicts::All;
        }
        AccessConflicts::Individual(acc)
    }
}

impl Default for Access {
    /// The empty access descriptor.
    fn default() -> (r: Self)
        ensures
            r.wf(),
            r.no_access(),
    {
        Access::new()
    }
}

/// How two access descriptors conflict.
#[derive(Debug, PartialEq)]
pub enum AccessConflicts {
    /// Every index must be treated as conflicting: the conflicting set is
    /// unbounded and cannot be enumerated.
    All,
    /// The finite set of conflicting indices.
    Individual(IndexSet),
}

impl AccessConflicts {
    /// Whether index `i` is reported as conflicting.
    pub open spec fn mem(self, i: int) -> bool {
        match self {
            AccessConflicts::All => true,
            AccessConflicts::Individual(s) => s.mem(i),
        }
    }

    /// An individual set is well-formed and never complemented.
    pub open spec fn wf(self) -> bool {
        match self {
            AccessConflicts::All => true,
            AccessConflicts::Individual(s) => s.wf() && !s.is_cofinite(),
        }
    }

    /// No conflict at all: an enumerable set with no member.
    pub open spec fn is_empty_spec(self) -> bool {
        &&& !(self is All)
        &&& forall|i: int| !self.mem(i)
    }

    /// The conflict set with no member.
    pub fn empty() -> (r: Self)
        ensures
            r.wf(),
            r.is_empty_spec(),
    {
        AccessConflicts::Individual(IndexSet::new())
    }

    /// Whether no conflict is recorded. `All` is never empty.
    pub fn is_empty(&self) -> (r: bool)
        requires
            self.wf(),
        ensures
            r == self.is_empty_spec(),
    {
        match self {
            AccessConflicts::All => false,
            AccessConflicts::Individual(s) => {
                let r = s.is_empty();
                proof {
                    assert(*self == AccessConflicts::Individual(*s));
                    if r {
                        assert forall|i: int| !self.mem(i) by {
                            assert(!s.mem(i));
                        }
                    } else {
                        let w = choose|i: int| s.mem(i);
                        assert(self.mem(w));
                    }
                }
                r
            },
        }
    }

    /// Merges another conflict report into this one: `All` absorbs
    /// everything, and individual sets are unioned.
    pub(crate) fn add(&mut self, other: &AccessConflicts)
        requires
            old(self).wf(),
            other.wf(),
        ensures
            final(self).wf(),
            (*final(self) is All) == (*old(self) is All || *other is All),
            forall|i: int| #[trigger] final(self).mem(i) == (old(self).mem(i) || other.mem(i)),
    {
        match other {
            AccessConflicts::All => {
                *self = AccessConflicts::All;
            },
            AccessConflicts::Individual(os) => {
                match self {
                    AccessConflicts::All => {},
                    AccessConflicts::Individual(s) => {
                        s.union_with(os);
                    },
                }
            },
        }
    }

    /// The conflict set holding exactly the given indices.
    pub fn from_indices(v: Vec<usize>) -> (r: Self)
        requires
            forall|k: int| 0 <= k < v@.len() ==> v@[k] < usize::MAX,
        ensures
            r.wf(),
            !(r is All),
            forall|i: int|
                r.mem(i) == exists|k: int| 0 <= k < v@.len() && #[trigger] v@[k] as int == i,
    {
        let mut s = IndexSet::new();
        let mut k: usize = 0;
        while k < v.len()
            invariant
                s.wf(),
                !s.is_cofinite(),
                k <= v@.len(),
                forall|k2: int| 0 <= k2 < v@.len() ==> v@[k2] < usize::MAX,
                forall|i: int|
                    s.mem(i) == exists|k2: int| 0 <= k2 < k && #[trigger] v@[k2] as int == i,
            decreases v@.len() - k,
        {
            let ghost s0 = s;
            s.insert(v[k]);
            proof {
                assert forall|i: int| s.mem(i) implies (exists|k2: int|
                    0 <= k2 < k + 1 && #[trigger] v@[k2] as int == i) by {
                    if s0.mem(i) {
                        let k2 = choose|k2: int| 0 <= k2 < k && #[trigger] v@[k2] as int == i;
                        assert(0 <= k2 < k + 1 && v@[k2] as int == i);
                    } else {
                        assert(v@[k as int] as int == i);
                    }
                }
                assert forall|i: int|
                    (exists|k2: int| 0 <= k2 < k + 1 && #[trigger] v@[k2] as int == i) implies s.mem(
                    i,
                ) by {
                    let k2 = choose|k2: int| 0 <= k2 < k + 1 && #[trigger] v@[k2] as int == i;
                    if k2 < k {
                        assert(s0.mem(i));
                    }
                }
            }
            k = k + 1;
        }
        AccessConflicts::Individual(s)
    }
}

/// Compatibility symmetry: whether two access descriptors can be active at
/// the same time does not depend on their order.
pub proof fn lemma_compatibility_symmetry(a: Access, b: Access)
    ensures
        a.compatible_spec(b) == b.compatible_spec(a),
{
}

/// An unbounded conflict set can only arise between incompatible descriptors:
/// two sets in "everything" mode always share an index.
pub proof fn lemma_unbounded_incompatible(a: Access, b: Access)
    requires
        a.wf(),
        b.wf(),
        a.conflicts_unbounded(b),
    ensures
        !a.compatible_spec(b),
{
    if a.components_spec().writes_cofinite() && b.components_spec().reads_cofinite() {
            lemma_fresh_index(
                a.components_spec().writers_spec(),
                b.components_spec().readers_writers_spec(),
            );
            let w = choose|j: int|
                !a.components_spec().writers_spec().raw().contains(j)
                    && !b.components_spec().readers_writers_spec().raw().contains(j);
            assert(a.components_spec().has_write_spec(w) && b.components_spec().has_read_spec(w));
            assert(!a.compatible_spec(b));
        } else if b.components_spec().writes_cofinite() && a.components_spec().reads_cofinite() {
            lemma_fresh_index(
                b.components_spec().writers_spec(),
                a.components_spec().readers_writers_spec(),
            );
            let w = choose|j: int|
                !b.components_spec().writers_spec().raw().contains(j)
                    && !a.components_spec().readers_writers_spec().raw().contains(j);
            assert(b.components_spec().has_write_spec(w) && a.components_spec().has_read_spec(w));
            assert(!a.compatible_spec(b));
        } else if a.resources_spec().writes_cofinite() && b.resources_spec().reads_cofinite() {
            lemma_fresh_index(
                a.resources_spec().writers_spec(),
                b.resources_spec().readers_writers_spec(),
            );
            let w = choose|j: int|
                !a.resources_spec().writers_spec().raw().contains(j)
                    && !b.resources_spec().readers_writers_spec().raw().contains(j);
            assert(a.resources_spec().has_write_spec(w) && b.resources_spec().has_read_spec(w));
            assert(!a.compatible_spec(b));
        } else {
            lemma_fresh_index(
                b.resources_spec().writers_spec(),
                a.resources_spec().readers_writers_spec(),
            );
            let w = choose|j: int|
                !b.resources_spec().writers_spec().raw().contains(j)
                    && !a.resources_spec().readers_writers_spec().raw().contains(j);
            assert(b.resources_spec().has_write_spec(w) && a.resources_spec().has_read_spec(w));
            assert(!a.compatible_spec(b));
        }
}

/// Incompatible descriptors always have at least one conflicting index.
pub proof fn lemma_incompatible_has_conflict(a: Access, b: Access)
    requires
        a.wf(),
        b.wf(),
        !a.compatible_spec(b),
    ensures
        exists|i: int| a.conflict_at(b, i),
{
    if !a.components_spec().compatible_spec(b.components_spec()) {
                if !a.components_spec().writers_spec().disjoint_sem(
                    b.components_spec().readers_writers_spec(),
                ) {
                    let w = choose|i: int|
                        a.components_spec().writers_spec().mem(i)
                            && b.components_spec().readers_writers_spec().mem(i);
                    assert(a.conflict_at(b, w));
                } else {
                    let w = choose|i: int|
                        b.components_spec().writers_spec().mem(i)
                            && a.components_spec().readers_writers_spec().mem(i);
                    assert(a.conflict_at(b, w));
                }
            } else {
                if !a.resources_spec().writers_spec().disjoint_sem(
                    b.resources_spec().readers_writers_spec(),
                ) {
                    let w = choose|i: int|
                        a.resources_spec().writers_spec().mem(i)
                            && b.resources_spec().readers_writers_spec().mem(i);
                    assert(a.conflict_at(b, w));
                } else {
                    let w = choose|i: int|
                        b.resources_spec().writers_spec().mem(i)
                            && a.resources_spec().readers_writers_spec().mem(i);
                    assert(a.conflict_at(b, w));
                }
            }
}

/// Compatibility/conflict consistency: two descriptors are compatible exactly
/// when the conflict report between them, as `get_conflicts` describes it, is
/// empty.
pub proof fn lemma_compatibility_conflict_consistency(a: Access, b: Access, c: AccessConflicts)
    requires
        a.wf(),
        b.wf(),
        (c is All) == a.conflicts_unbounded(b),
        !(c is All) ==> forall|i: int| c.mem(i) == a.conflict_at(b, i),
    ensures
        a.compatible_spec(b) <==> c.is_empty_spec(),
{
    if c is All {
        lemma_unbounded_incompatible(a, b);
    } else {
        if a.compatible_spec(b) {
            assert forall|i: int| !c.mem(i) by {
                assert(!a.components_spec().conflict_spec(b.components_spec(), i));
                assert(!a.resources_spec().conflict_spec(b.resources_spec(), i));
            }
        } else {
            lemma_incompatible_has_conflict(a, b);
            let w = choose|i: int| a.conflict_at(b, i);
            assert(c.mem(w));
        }
    }
}

/// Extend monotonicity: after extending `a` with `b` (giving `c`), `b` is a
/// subset of the result, and the result adds nothing over `a` exactly when
/// `b` contributed nothing.
pub proof fn lemma_extend_monotonicity(a: Access, b: Access, c: Access)
    requires
        c.extension_of(a, b),
    ensures
        b.subset_spec(c),
        a.subset_spec(c),
        c.subset_spec(a) <==> b.subset_spec(a),
{
    lemma_union_of_subset(a.components_spec(), b.components_spec(), c.components_spec());
    lemma_union_of_subset(a.resources_spec(), b.resources_spec(), c.resources_spec());
}

/// The record-level core of extend monotonicity.
proof fn lemma_union_of_subset(a: AccessRecord, b: AccessRecord, c: AccessRecord)
    requires
        c.union_of(a, b),
    ensures
        b.subset_spec(c),
        a.subset_spec(c),
        c.subset_spec(a) <==> b.subset_spec(a),
{
    assert forall|i: int| #[trigger] b.readers_writers_spec().mem(i)
        implies c.readers_writers_spec().mem(i) by {
        assert(c.has_read_spec(i));
    }
    assert forall|i: int| #[trigger] b.writers_spec().mem(i) implies c.writers_spec().mem(i) by {
        assert(c.has_write_spec(i));
    }
    assert forall|i: int| #[trigger] a.readers_writers_spec().mem(i)
        implies c.readers_writers_spec().mem(i) by {
        assert(c.has_read_spec(i));
    }
    assert forall|i: int| #[trigger] a.writers_spec().mem(i) implies c.writers_spec().mem(i) by {
        assert(c.has_write_spec(i));
    }
    if b.subset_spec(a) {
        assert forall|i: int| #[trigger] c.readers_writers_spec().mem(i)
            implies a.readers_writers_spec().mem(i) by {
            assert(a.has_read_spec(i) || b.has_read_spec(i));
        }
        assert forall|i: int| #[trigger] c.writers_spec().mem(i) implies a.writers_spec().mem(
            i,
        ) by {
            assert(a.has_write_spec(i) || b.has_write_spec(i));
        }
    }
    if c.subset_spec(a) {
        assert forall|i: int| #[trigger] b.readers_writers_spec().mem(i)
            implies a.readers_writers_spec().mem(i) by {
            assert(c.has_read_spec(i));
        }
        assert forall|i: int| #[trigger] b.writers_spec().mem(i) implies a.writers_spec().mem(
            i,
        ) by {
            assert(c.has_write_spec(i));
        }
    }
}

/// Compatibility is preserved when both sides shrink: descriptors contained
/// in a compatible pair are themselves compatible. This is what makes a
/// combined access sound as a coarse pre-check.
pub proof fn lemma_compatibility_monotone(a: Access, b: Access, aa: Access, bb: Access)
    requires
        a.subset_spec(aa),
        b.subset_spec(bb),
        aa.compatible_spec(bb),
    ensures
        a.compatible_spec(b),
{
    crate::record::lemma_compatible_subset(
        a.components_spec(),
        b.components_spec(),
        aa.components_spec(),
        bb.components_spec(),
    );
    crate::record::lemma_compatible_subset(
        a.resources_spec(),
        b.resources_spec(),
        aa.resources_spec(),
        bb.resources_spec(),
    );
}

/// Containment of access descriptors is transitive.
pub proof fn lemma_subset_transitive(a: Access, b: Access, c: Access)
    requires
        a.subset_spec(b),
        b.subset_spec(c),
    ensures
        a.subset_spec(c),
{
    crate::record::lemma_record_subset_transitive(
        a.components_spec(),
        b.components_spec(),
        c.components_spec(),
    );
    crate::record::lemma_record_subset_transitive(
        a.resources_spec(),
        b.resources_spec(),
        c.resources_spec(),
    );
}

/// Universal write dominance, first half: a descriptor that writes everything
/// is incompatible with any descriptor that declares any read or write at
/// all. The index `i` names one such declared access of `b`.
pub proof fn lemma_universal_write_dominance(a: Access, b: Access, i: int)
    requires
        a.wf(),
        b.wf(),
        forall|j: int| a.components_spec().has_write_spec(j),
        forall|j: int| a.resources_spec().has_write_spec(j),
        b.components_spec().has_read_spec(i) || b.resources_spec().has_read_spec(i),
    ensures
        !a.compatible_spec(b),
{
    if b.components_spec().has_read_spec(i) {
        assert(a.components_spec().has_write_spec(i));
        assert(!a.components_spec().writers_spec().disjoint_sem(
            b.components_spec().readers_writers_spec(),
        ));
    } else {
        assert(a.resources_spec().has_write_spec(i));
        assert(!a.resources_spec().writers_spec().disjoint_sem(
            b.resources_spec().readers_writers_spec(),
        ));
    }
}

/// Universal write dominance, second half: against a descriptor that also
/// reads everything in some domain, the conflict set of an everything-writer
/// is unbounded, so `get_conflicts` reports `All`. (Against a descriptor with
/// only finitely many declared accesses the conflict set is that finite set
/// instead.)
pub proof fn lemma_universal_write_conflicts_all(a: Access, b: Access)
    requires
        a.wf(),
        b.wf(),
        forall|j: int| a.components_spec().has_write_spec(j),
        forall|j: int| a.resources_spec().has_write_spec(j),
        (forall|j: int| b.components_spec().has_read_spec(j)) || (forall|j: int|
            b.resources_spec().has_read_spec(j)),
    ensures
        a.conflicts_unbounded(b),
{
    if forall|j: int| b.components_spec().has_read_spec(j) {
        lemma_total_is_cofinite(a.components_spec().writers_spec());
        lemma_total_is_cofinite(b.components_spec().readers_writers_spec());
    } else {
        lemma_total_is_cofinite(a.resources_spec().writers_spec());
        lemma_total_is_cofinite(b.resources_spec().readers_writers_spec());
    }
}

} // verus!

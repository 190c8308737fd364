//! Read/write access to one resource domain.
//!
//! An `AccessRecord` pairs two index sets: the indices read (or written), and
//! the indices written. Writing implies reading, so the writers are always a
//! subset of the readers-and-writers; that containment is part of the record's
//! well-formedness and is kept by construction, never by repair.

use crate::index_set::IndexSet;
use vstd::prelude::*;

verus! {

/// Read and write access to the indices of one domain.
#[derive(Debug, Clone, PartialEq)]
pub struct AccessRecord {
    pub(crate) readers_and_writers: IndexSet,
    pub(crate) writers: IndexSet,
}

impl AccessRecord {
    /// The set of indices with read (or write) access.
    pub closed spec fn readers_writers_spec(self) -> IndexSet {
        self.readers_and_writers
    }

    /// The set of indices with write access.
    pub closed spec fn writers_spec(self) -> IndexSet {
        self.writers
    }

    /// Whether the index can be read (a write also counts).
    #[verifier::inline]
    pub open spec fn has_read_spec(self, i: int) -> bool {
        self.readers_writers_spec().mem(i)
    }

    /// Whether the index can be written.
    #[verifier::inline]
    pub open spec fn has_write_spec(self, i: int) -> bool {
        self.writers_spec().mem(i)
    }

    /// Whether the read set is in "everything except finitely many" mode.
    #[verifier::inline]
    pub open spec fn reads_cofinite(self) -> bool {
        self.readers_writers_spec().is_cofinite()
    }

    /// Whether the write set is in "everything except finitely many" mode.
    #[verifier::inline]
    pub open spec fn writes_cofinite(self) -> bool {
        self.writers_spec().is_cofinite()
    }

    /// Both sets are well-formed and every writable index is readable.
    pub open spec fn wf(self) -> bool {
        &&& self.readers_writers_spec().wf()
        &&& self.writers_spec().wf()
        &&& self.writers_spec().subset_sem(self.readers_writers_spec())
    }

    /// Two records can be active at the same time: neither writes an index
    /// the other reads or writes.
    pub open spec fn compatible_spec(self, other: Self) -> bool {
        &&& self.writers_spec().disjoint_sem(other.readers_writers_spec())
        &&& other.writers_spec().disjoint_sem(self.readers_writers_spec())
    }

    /// Both of `self`'s sets are contained in `other`'s.
    pub open spec fn subset_spec(self, other: Self) -> bool {
        &&& self.readers_writers_spec().subset_sem(other.readers_writers_spec())
        &&& self.writers_spec().subset_sem(other.writers_spec())
    }

    /// No index can be read or written, and neither set is in complement
    /// mode.
    pub open spec fn no_access(self) -> bool {
        &&& !self.reads_cofinite()
        &&& !self.writes_cofinite()
        &&& forall|i: int| !self.has_read_spec(i)
        &&& forall|i: int| !self.has_write_spec(i)
    }

    /// `self` is `a` with read access to `i` added.
    pub open spec fn read_added(self, a: Self, i: int) -> bool {
        &&& self.writers_spec() == a.writers_spec()
        &&& self.reads_cofinite() == a.reads_cofinite()
        &&& forall|j: int| self.has_read_spec(j) == (a.has_read_spec(j) || j == i)
    }

    /// `self` is `a` with write, and hence read, access to `i` added.
    pub open spec fn write_added(self, a: Self, i: int) -> bool {
        &&& self.reads_cofinite() == a.reads_cofinite()
        &&& self.writes_cofinite() == a.writes_cofinite()
        &&& forall|j: int| self.has_read_spec(j) == (a.has_read_spec(j) || j == i)
        &&& forall|j: int| self.has_write_spec(j) == (a.has_write_spec(j) || j == i)
    }

    /// `self` grants exactly the access `a` and `b` grant together.
    pub open spec fn union_of(self, a: Self, b: Self) -> bool {
        &&& self.reads_cofinite() == (a.reads_cofinite() || b.reads_cofinite())
        &&& self.writes_cofinite() == (a.writes_cofinite() || b.writes_cofinite())
        &&& forall|i: int| self.has_read_spec(i) == (a.has_read_spec(i) || b.has_read_spec(i))
        &&& forall|i: int| self.has_write_spec(i) == (a.has_write_spec(i) || b.has_write_spec(i))
    }

    /// Index `i` cannot be used by both records at once: one writes it while
    /// the other reads or writes it.
    pub open spec fn conflict_spec(self, other: Self, i: int) -> bool {
        ||| self.has_write_spec(i) && other.has_read_spec(i)
        ||| other.has_write_spec(i) && self.has_read_spec(i)
    }

    /// The conflicting indices of the two records form an unbounded set: a
    /// write set in "everything" mode meets a read set in "everything" mode.
    pub open spec fn conflict_unbounded_spec(self, other: Self) -> bool {
        ||| self.writes_cofinite() && other.reads_cofinite()
        ||| other.writes_cofinite() && self.reads_cofinite()
    }

    /// A record with no access at all.
    pub fn new() -> (r: AccessRecord)
        ensures
            r.wf(),
            r.no_access(),
    {
        AccessRecord { readers_and_writers: IndexSet::new(), writers: IndexSet::new() }
    }

    /// A copy with the same stored representation.
    pub fn duplicate(&self) -> (r: AccessRecord)
        ensures
            r.readers_writers_spec().eq_ind(self.readers_writers_spec()),
            r.writers_spec().eq_ind(self.writers_spec()),
            r.reads_cofinite() == self.reads_cofinite(),
            r.writes_cofinite() == self.writes_cofinite(),
            forall|i: int| r.has_read_spec(i) == self.has_read_spec(i),
            forall|i: int| r.has_write_spec(i) == self.has_write_spec(i),
            self.wf() ==> r.wf(),
    {
        AccessRecord {
            readers_and_writers: self.readers_and_writers.duplicate(),
            writers: self.writers.duplicate(),
        }
    }

    /// Grants read access to `index`.
    pub fn add_read(&mut self, index: usize)
        requires
            old(self).wf(),
            index < usize::MAX,
        ensures
            final(self).wf(),
            final(self).read_added(*old(self), index as int),
    {
        self.readers_and_writers.insert(index);
    }

    /// Grants write (and hence read) access to `index`.
    pub fn add_write(&mut self, index: usize)
        requires
            old(self).wf(),
            index < usize::MAX,
        ensures
            final(self).wf(),
            final(self).write_added(*old(self), index as int),
    {
        self.add_read(index);
        self.writers.insert(index);
    }

    /// Whether `index` can be read.
    pub fn has_read(&self, index: usize) -> (r: bool)
        ensures
            r == self.has_read_spec(index as int),
    {
        self.readers_and_writers.contains(index)
    }

    /// Whether `index` can be written.
    pub fn has_write(&self, index: usize) -> (r: bool)
        ensures
            r == self.has_write_spec(index as int),
    {
        self.writers.contains(index)
    }

    /// Whether any index at all can be read.
    pub fn has_any_read(&self) -> (r: bool)
        requires
            self.wf(),
        ensures
            r == exists|i: int| self.has_read_spec(i),
    {
        !self.readers_and_writers.is_empty()
    }

    /// Whether any index at all can be written.
    pub fn has_any_write(&self) -> (r: bool)
        requires
            self.wf(),
        ensures
            r == exists|i: int| self.has_write_spec(i),
    {
        !self.writers.is_empty()
    }

    /// Grants read access to every index.
    pub fn read_all(&mut self)
        requires
            old(self).wf(),
        ensures
            final(self).wf(),
            final(self).writers_spec() == old(self).writers_spec(),
            final(self).reads_cofinite(),
            forall|i: int| final(self).has_read_spec(i),
    {
        self.readers_and_writers.set_all();
    }

    /// Grants write (and hence read) access to every index.
    pub fn write_all(&mut self)
        requires
            old(self).wf(),
        ensures
            final(self).wf(),
            final(self).reads_cofinite(),
            final(self).writes_cofinite(),
            forall|i: int| final(self).has_read_spec(i),
            forall|i: int| final(self).has_write_spec(i),
    {
        self.read_all();
        self.writers.set_all();
    }

    /// Whether every index can be read.
    pub fn has_read_all(&self) -> (r: bool)
        requires
            self.wf(),
        ensures
            r == forall|i: int| self.has_read_spec(i),
    {
        self.readers_and_writers.is_all()
    }

    /// Whether every index can be written.
    pub fn has_write_all(&self) -> (r: bool)
        requires
            self.wf(),
        ensures
            r == forall|i: int| self.has_write_spec(i),
    {
        self.writers.is_all()
    }

    /// Removes all write access, keeping the reads.
    pub fn clear_writes(&mut self)
        requires
            old(self).wf(),
        ensures
            final(self).wf(),
            final(self).readers_writers_spec() == old(self).readers_writers_spec(),
            !final(self).writes_cofinite(),
            forall|i: int| !final(self).has_write_spec(i),
    {
        self.writers.clear();
    }

    /// Removes all access.
    pub fn clear(&mut self)
        ensures
            final(self).wf(),
            final(self).no_access(),
    {
        self.writers.clear();
        self.readers_and_writers.clear();
    }

    /// Adds all of `other`'s access: both sets become unions.
    pub fn extend(&mut self, other: &AccessRecord)
        requires
            old(self).wf(),
            other.wf(),
        ensures
            final(self).wf(),
            final(self).union_of(*old(self), *other),
    {
        self.readers_and_writers.union_with(&other.readers_and_writers);
        self.writers.union_with(&other.writers);
    }

    /// Whether the two records can be active at the same time: conflict means
    /// one writes an index the other reads or writes.
    pub fn is_compatible(&self, other: &AccessRecord) -> (r: bool)
        requires
            self.wf(),
            other.wf(),
        ensures
            r == self.compatible_spec(*other),
    {
        self.writers.is_disjoint(&other.readers_and_writers) && other.writers.is_disjoint(
            &self.readers_and_writers,
        )
    }

    /// Whether both of `self`'s sets are contained in `other`'s.
    pub fn is_subset(&self, other: &AccessRecord) -> (r: bool)
        requires
            self.wf(),
            other.wf(),
        ensures
            r == self.subset_spec(*other),
    {
        self.readers_and_writers.is_subset(&other.readers_and_writers) && self.writers.is_subset(
            &other.writers,
        )
    }
}

/// Collects into `acc` the indices on which the two records conflict: one
/// writes the index while the other reads or writes it, in either direction.
/// Returns true instead when that set of indices is unbounded, in which case
/// `acc` is left as it was.
pub(crate) fn record_conflicts(a: &AccessRecord, b: &AccessRecord, acc: &mut IndexSet) -> (all:
    bool)
    requires
        a.wf(),
        b.wf(),
        old(acc).wf(),
        !old(acc).is_cofinite(),
    ensures
        final(acc).wf(),
        !final(acc).is_cofinite(),
        all == a.conflict_unbounded_spec(*b),
        !all ==> forall|i: int|
            final(acc).mem(i) == (old(acc).mem(i) || a.conflict_spec(*b, i)),
        all ==> *final(acc) == *old(acc),
{
    let x = a.writers.intersection(&b.readers_and_writers);
    if x.is_complemented() {
        return true;
    }
    let y = b.writers.intersection(&a.readers_and_writers);
    if y.is_complemented() {
        return true;
    }
    acc.union_with(&x);
    acc.union_with(&y);
    false
}

/// Compatibility is preserved when both sides shrink: records contained in a
/// compatible pair are themselves compatible.
pub proof fn lemma_compatible_subset(
    a: AccessRecord,
    b: AccessRecord,
    aa: AccessRecord,
    bb: AccessRecord,
)
    requires
        a.subset_spec(aa),
        b.subset_spec(bb),
        aa.compatible_spec(bb),
    ensures
        a.compatible_spec(b),
{
    assert forall|i: int|
        !(#[trigger] a.writers_spec().mem(i) && b.readers_writers_spec().mem(i)) by {
        if a.writers_spec().mem(i) && b.readers_writers_spec().mem(i) {
            assert(aa.writers_spec().mem(i));
            assert(bb.readers_writers_spec().mem(i));
        }
    }
    assert forall|i: int|
        !(#[trigger] b.writers_spec().mem(i) && a.readers_writers_spec().mem(i)) by {
        if b.writers_spec().mem(i) && a.readers_writers_spec().mem(i) {
            assert(bb.writers_spec().mem(i));
            assert(aa.readers_writers_spec().mem(i));
        }
    }
}

/// Containment of records is transitive.
pub proof fn lemma_record_subset_transitive(a: AccessRecord, b: AccessRecord, c: AccessRecord)
    requires
        a.subset_spec(b),
        b.subset_spec(c),
    ensures
        a.subset_spec(c),
{
    assert forall|i: int| #[trigger] a.readers_writers_spec().mem(i)
        implies c.readers_writers_spec().mem(i) by {
        assert(b.readers_writers_spec().mem(i));
    }
    assert forall|i: int| #[trigger] a.writers_spec().mem(i) implies c.writers_spec().mem(i) by {
        assert(b.writers_spec().mem(i));
    }
}

/// Write implies read: at every point in a record's life, every index it can
/// write is also an index it can read.
pub proof fn lemma_write_implies_read(r: AccessRecord, i: int)
    requires
        r.wf(),
        r.has_write_spec(i),
    ensures
        r.has_read_spec(i),
{
}

} // verus!

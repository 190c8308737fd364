//! An access-conflict detection engine.
//!
//! Work units declare, ahead of execution, which indexed resources they read
//! and write. This crate decides whether two such declarations can be active
//! at the same time without a data race, and, when they cannot, which indices
//! are responsible. Access sets may be finite ("reads {1, 3}") or universal
//! with finitely many exceptions ("reads everything"), and raw overlaps can be
//! refined away by row-level `with`/`without` filters.

mod bitset;
pub mod index_set;
pub mod record;
pub mod access;
pub mod filtered;
pub mod filtered_set;
pub mod markers;
pub mod registry;

pub use index_set::IndexSet;
pub use record::AccessRecord;
pub use access::Access;
pub use access::AccessConflicts;
pub use filtered::FilteredAccess;
pub use filtered::RowFilter;
pub use filtered_set::FilteredAccessSet;

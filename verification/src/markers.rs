//! Marker types for work units that must run on the main thread.

use vstd::prelude::*;

verus! {

/// A parameter marker: a work unit that takes it is pinned to the main
/// thread by the scheduler.
pub struct MainThread;

/// The state kept for a `MainThread` parameter between runs: nothing.
pub struct MainThreadState;

} // verus!

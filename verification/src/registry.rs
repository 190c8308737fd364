//! Specialization helpers for type registration.
//!
//! `spec::<T, D>()` builds a `Spec` value; method resolution then picks the
//! by-value `RegisterSpec` impl when it applies and falls back to the
//! by-reference impl, which registers nothing. The registry itself is an
//! outside concern, so both impls here carry no work.

use core::marker::PhantomData;
use vstd::prelude::*;

verus! {

/// Registers type data for a type, when the pairing applies.
pub trait RegisterSpec: Sized {
    /// Registers nothing by default.
    fn register_spec(self) {
    }
}

/// A pairing of a type with type data that may be registered for it.
pub struct Spec<T, D>(PhantomData<(T, D)>);

/// Builds the pairing that `RegisterSpec` is resolved against.
pub fn spec<T, D>() -> Spec<T, D> {
    Spec(PhantomData)
}

impl<T, D> RegisterSpec for Spec<T, D> {

}

impl<T, D> RegisterSpec for &Spec<T, D> {

}

} // verus!

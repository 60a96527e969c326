//! The interface a record kind implements to be stored by the engine.
//!
//! The store is generic over the record's content type. A kind says how its
//! values are duplicated and how an update request is merged into an existing
//! entry (unspecified fields keep their prior values); the store proves its
//! own behaviour against these contracts.

use vstd::prelude::*;

verus! {

/// A content type whose values can be duplicated without loss.
pub trait Duplicable: Sized {
    /// Returns a value equal to `self`.
    fn duplicate(&self) -> (r: Self)
        ensures
            r == *self,
    ;
}

/// A content type that can absorb an update request of type `U` by merging
/// newly provided fields over the existing entry.
pub trait Updateable<U>: Sized {
    /// The entry that results from merging `update` into `self`.
    spec fn merged_with(self, update: U) -> Self;

    /// Which update requests the kind accepts at all.
    spec fn update_allowed(update: U) -> bool;

    /// Merges `update` into `self`, leaving fields the request does not
    /// define at their prior values.
    fn update_with(&self, update: &U) -> (r: Self)
        requires
            Self::update_allowed(*update),
        ensures
            r == self.merged_with(*update),
    ;
}

} // verus!

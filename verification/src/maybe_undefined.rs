//! The tri-state field of an update request.
//!
//! A field of an update request is either not provided at all (the prior
//! value is kept), explicitly cleared, or set to a new value. A plain
//! `Option` cannot tell the first two apart, which is what merge-on-update
//! needs.

use vstd::prelude::*;

verus! {

/// A field of an update request: absent, explicitly cleared, or set.
#[derive(Debug)]
pub enum MaybeUndefined<T> {
    Undefined,
    Null,
    Defined(T),
}

impl<T> MaybeUndefined<T> {
    /// The value this field leaves behind when merged over a prior one:
    /// absent keeps the prior value, cleared removes it, set replaces it.
    pub open spec fn merged_over(self, prior: Option<T>) -> Option<T> {
        match self {
            MaybeUndefined::Undefined => prior,
            MaybeUndefined::Null => None,
            MaybeUndefined::Defined(v) => Some(v),
        }
    }

    /// The plain optional value, forgetting the absent/cleared distinction.
    pub open spec fn as_option(self) -> Option<T> {
        match self {
            MaybeUndefined::Undefined => None,
            MaybeUndefined::Null => None,
            MaybeUndefined::Defined(v) => Some(v),
        }
    }

    /// Whether the field carries a value.
    pub fn is_some(&self) -> (r: bool)
        ensures
            r == (self is Defined),
    {
        match self {
            MaybeUndefined::Defined(_) => true,
            _ => false,
        }
    }

    /// Whether the field was left out of the request.
    pub fn is_undefined(&self) -> (r: bool)
        ensures
            r == (self is Undefined),
    {
        match self {
            MaybeUndefined::Undefined => true,
            _ => false,
        }
    }
}

impl<T: Clone> MaybeUndefined<T> {
    /// The plain optional value, cloned out of the field.
    pub fn to_option(&self) -> (r: Option<T>)
        ensures
            match self {
                MaybeUndefined::Defined(v) => (r matches Some(c) && vstd::pervasive::cloned::<T>(
                    *v,
                    c,
                )),
                _ => r is None,
            },
    {
        match self {
            MaybeUndefined::Defined(v) => Some(v.clone()),
            _ => None,
        }
    }
}

} // verus!

//! Collapsing a fallible result into an optional value.

use vstd::prelude::*;

verus! {

/// Turns a fallible result into an optional value, discarding the
/// failure.
pub trait Nonewrap: Sized {
    type Output;

    fn nonewrap(self) -> Option<Self::Output>;
}

impl<T, E> Nonewrap for Result<T, E> {
    type Output = T;

    fn nonewrap(self) -> (r: Option<T>)
        ensures
            self matches Ok(v) ==> r == Some(v),
            self is Err ==> r is None,
    {
        match self {
            Ok(v) => Some(v),
            Err(_) => None,
        }
    }
}

} // verus!

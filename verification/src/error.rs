//! An error shown as `Error: ` and its `Debug` form, in red on a terminal.

use vstd::prelude::*;

verus! {

/// An error to be shown as `Error: ` followed by its `Debug` form.
pub struct ColorizedError<E>(E) where E: std::fmt::Debug;

impl<E> ColorizedError<E> where E: std::fmt::Debug {
    /// Wraps an error.
    pub fn new(error: E) -> (r: Self)
        ensures
            r.inner() == error,
    {
        Self(error)
    }

    /// The wrapped error.
    pub closed spec fn inner(&self) -> E {
        self.0
    }

    /// Unwraps the error.
    pub fn into_error(self) -> (r: E)
        ensures
            r == self.inner(),
    {
        self.0
    }

    /// The wrapped error.
    pub fn error(&self) -> (r: &E)
        ensures
            *r == self.inner(),
    {
        &self.0
    }
}

} // verus!

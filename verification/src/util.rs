//! Unwrapping that the caller has shown cannot fail.

use vstd::prelude::*;

verus! {

/// Unwrapping an option known to hold a value.
pub trait OptionExt<T>: Sized {
    spec fn holds_value(&self) -> bool;

    spec fn held(&self) -> T;

    fn unwrap_debug(self) -> (r: T)
        requires
            self.holds_value(),
        ensures
            r == self.held(),
    ;
}

/// Unwrapping a result known to be `Ok`.
pub trait ResultExt<T, E>: Sized {
    spec fn is_success(&self) -> bool;

    spec fn success(&self) -> T;

    fn unwrap_debug(self) -> (r: T)
        requires
            self.is_success(),
        ensures
            r == self.success(),
    ;
}

impl<T> OptionExt<T> for Option<T> {
    open spec fn holds_value(&self) -> bool {
        self is Some
    }

    open spec fn held(&self) -> T {
        self->0
    }

    fn unwrap_debug(self) -> (r: T) {
        match self {
            Some(v) => v,
            None => vstd::pervasive::unreached(),
        }
    }
}

impl<T, E> ResultExt<T, E> for Result<T, E> {
    open spec fn is_success(&self) -> bool {
        self is Ok
    }

    open spec fn success(&self) -> T {
        self->Ok_0
    }

    fn unwrap_debug(self) -> (r: T) {
        match self {
            Ok(v) => v,
            Err(_) => vstd::pervasive::unreached(),
        }
    }
}

} // verus!

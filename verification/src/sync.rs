//! Synchronisation helpers.

use vstd::prelude::*;

verus! {

/// The inverse of a once cell: it starts with a value, which can be taken
/// exactly once.
#[derive(Debug)]
pub struct Singleton<T> {
    value: Option<T>,
    taken: bool,
}

impl<T> Singleton<T> {
    /// Whether the value has been taken (or lent out for good).
    pub closed spec fn is_taken(&self) -> bool {
        self.taken
    }

    /// The value, while it is still held.
    pub closed spec fn held(&self) -> Option<T> {
        if self.taken { None } else { self.value }
    }

    /// A singleton holding `value`.
    pub fn new(value: T) -> (r: Self)
        ensures
            !r.is_taken(),
            r.held() == Some(value),
    {
        Self { value: Some(value), taken: false }
    }

    /// The value, the first time; `None` ever after.
    pub fn take(&mut self) -> (r: Option<T>)
        ensures
            r == old(self).held(),
            final(self).is_taken(),
            final(self).held() is None,
    {
        if self.taken {
            None
        } else {
            let mut v: Option<T> = None;
            core::mem::swap(&mut v, &mut self.value);
            self.taken = true;
            v
        }
    }

    /// A reference to the value the first time; `None` ever after.
    pub fn take_ref(&mut self) -> (r: Option<&T>)
        ensures
            r matches Some(x) ==> old(self).held() == Some(*x),
            r is None <==> old(self).held() is None,
            final(self).is_taken(),
            final(self).held() is None,
    {
        if self.taken {
            None
        } else {
            self.taken = true;
            self.value.as_ref()
        }
    }

    /// Mutable access to the value the first time; `None` ever after.
    pub fn take_ref_mut(&mut self) -> (r: Option<&mut T>)
        ensures
            r is None <==> old(self).held() is None,
            r matches Some(x) ==> old(self).held() == Some(*x),
            final(self).is_taken(),
            final(self).held() is None,
    {
        if self.taken {
            None
        } else {
            self.taken = true;
            self.value.as_mut()
        }
    }

    /// Like `take`, through exclusive access.
    pub fn take_mut(&mut self) -> (r: Option<T>)
        ensures
            r == old(self).held(),
            final(self).is_taken(),
            final(self).held() is None,
    {
        self.take()
    }

    /// The value, if it was never taken.
    pub fn into_inner(self) -> (r: Option<T>)
        ensures
            r == self.held(),
    {
        if self.taken {
            None
        } else {
            self.value
        }
    }
}

} // verus!

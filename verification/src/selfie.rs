//! Values whose initialisation is deferred, tracked in their type.

use vstd::prelude::*;

use core::marker::PhantomData;

verus! {

/// Whether a deferred value has been set.
pub trait InitState {
}

/// The state of a value that has been set.
#[derive(Debug)]
pub struct Init;

/// The state of a value not yet set.
#[derive(Debug)]
pub struct Uninit;

impl InitState for Init {
}

impl InitState for Uninit {
}

/// A value that may be set after construction; the state parameter says
/// whether it has been.
#[derive(Debug)]
pub struct DeferInit<T, State: InitState> {
    payload: Option<T>,
    _state: PhantomData<State>,
}

impl<T, State: InitState> DeferInit<T, State> {
    /// The value held, if it has been set.
    pub closed spec fn payload(&self) -> Option<T> {
        self.payload
    }
}

impl<T> DeferInit<T, Uninit> {
    /// A value not yet set.
    pub fn uninit() -> (r: Self)
        ensures
            r.payload() is None,
    {
        Self { payload: None, _state: PhantomData }
    }

    /// Sets the value.
    pub fn set(&mut self, payload: T)
        ensures
            final(self).payload() == Some(payload),
    {
        self.payload = Some(payload);
    }

    /// The same value, now known to be set.
    pub fn assume_init(self) -> (r: DeferInit<T, Init>)
        requires
            self.payload() is Some,
        ensures
            r.payload() == self.payload(),
    {
        DeferInit { payload: self.payload, _state: PhantomData }
    }
}

impl<T> DeferInit<T, Init> {
    /// A value set from the start.
    pub fn new(payload: T) -> (r: Self)
        ensures
            r.payload() == Some(payload),
    {
        Self { payload: Some(payload), _state: PhantomData }
    }

    /// The value.
    pub fn get(&self) -> (r: &T)
        requires
            self.payload() is Some,
        ensures
            Some(*r) == self.payload(),
    {
        self.payload.as_ref().unwrap()
    }
}

} // verus!

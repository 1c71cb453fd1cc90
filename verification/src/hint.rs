//! Branch-prediction hints.
//!
//! The hints only affect code layout: every function here returns exactly
//! the value it was given.

use vstd::prelude::*;

verus! {

/// Marks a code path as unlikely to be taken. It does nothing at run time.
#[inline(always)]
pub fn cold() {
}

/// Hints that `b` is expected to be `true`; returns `b` unchanged.
#[inline(always)]
pub fn likely(b: bool) -> (r: bool)
    ensures
        r == b,
{
    if !b {
        cold();
    }
    b
}

/// Hints that `b` is expected to be `false`; returns `b` unchanged.
#[inline(always)]
pub fn unlikely(b: bool) -> (r: bool)
    ensures
        r == b,
{
    if b {
        cold();
    }
    b
}

} // verus!

//! Kernel pointers: counted handles on kernel objects that each take up a
//! whole frame, the count living in the frame's retype entry.

use vstd::prelude::*;

use crate::mem::Frame;
use crate::retyping::{
    decode, encode, frame_index, AsUnusedKernelError, KernelFrame, RetypeTable, State,
    MAX_REF_COUNT,
};

verus! {

/// A counted handle on the kernel object held by one frame.
#[derive(Debug)]
pub struct KPtr {
    frame: Frame,
}

impl KPtr {
    /// The frame holding the object.
    pub closed spec fn view(&self) -> Frame {
        self.frame
    }

    /// A handle on a new object in `frame`, which must be typed as kernel
    /// and unused; the frame's count goes from 0 to 1.
    pub fn new(frame: Frame, table: &mut RetypeTable) -> (r: Result<Self, AsUnusedKernelError>)
        ensures
            final(table).base() == old(table).base(),
            !old(table).covers(frame) ==> (r matches Err(AsUnusedKernelError::OutOfBounds(_))
                && final(table)@ == old(table)@),
            old(table).covers(frame) ==> ({
                let v = old(table)@[frame_index(frame)];
                let (s, c) = decode(v);
                if v == encode(State::Kernel, 0) {
                    r matches Ok(k) && k@ == frame && final(table)@ == old(table)@.update(
                        frame_index(frame),
                        encode(State::Kernel, 1),
                    )
                } else if s != State::Kernel {
                    r matches Err(AsUnusedKernelError::NotExpectedState(t)) && t == s && final(table)@
                        == old(table)@
                } else {
                    r matches Err(AsUnusedKernelError::AlreadyInUse) && final(table)@ == old(table)@
                }
            }),
    {
        match frame.try_as_unused_kernel(table) {
            Ok(k) => Ok(Self::new_unchecked(k)),
            Err(e) => Err(e),
        }
    }

    /// A handle taking over the reference of an already counted kernel frame.
    pub fn new_unchecked(frame: KernelFrame) -> (r: Self)
        ensures
            r@ == frame@,
    {
        Self { frame: frame.into_raw() }
    }

    /// A handle on the object already held by the counted kernel frame.
    pub fn from_frame_unchecked(frame: KernelFrame) -> (r: Self)
        ensures
            r@ == frame@,
    {
        Self { frame: frame.into_raw() }
    }

    /// The frame holding the object.
    pub fn frame(&self) -> (r: Frame)
        ensures
            r == self@,
    {
        self.frame
    }

    /// Gives up the handle without releasing its reference.
    pub fn into_raw(self) -> (r: Frame)
        ensures
            r == self@,
    {
        self.frame
    }

    /// Whether `table` counts this handle's reference.
    pub open spec fn counted_in(&self, table: &RetypeTable) -> bool {
        &&& table.covers(self@)
        &&& table.state_of(self@).0 == State::Kernel
        &&& table.state_of(self@).1 > 0
    }

    /// Another handle on the same object; the frame's count grows by one.
    pub fn clone(&self, table: &mut RetypeTable) -> (r: Self)
        requires
            self.counted_in(old(table)),
            old(table).state_of(self@).1 < MAX_REF_COUNT,
        ensures
            r@ == self@,
            final(table).base() == old(table).base(),
            final(table)@ == old(table)@.update(
                frame_index(self@),
                (old(table)@[frame_index(self@)] + 1) as u16,
            ),
    {
        let frame = self.frame.as_kernel_unchecked(table);
        Self::from_frame_unchecked(frame)
    }

    /// Releases the handle; the frame's count drops by one.
    pub fn drop(self, table: &mut RetypeTable)
        requires
            self.counted_in(old(table)),
        ensures
            final(table).base() == old(table).base(),
            final(table)@ == old(table)@.update(
                frame_index(self@),
                (old(table)@[frame_index(self@)] - 1) as u16,
            ),
    {
        let _ = KernelFrame::from_raw(self.frame).drop(table);
    }
}

/// Cloning a handle and dropping the clone leaves the retype entries as
/// they were.
pub proof fn law_clone_then_drop(t: Seq<u16>, i: int)
    requires
        0 <= i < t.len(),
        t[i] < u16::MAX,
    ensures
        ({
            let t2 = t.update(i, (t[i] + 1) as u16);
            t2.update(i, (t2[i] - 1) as u16) == t
        }),
{
    let t2 = t.update(i, (t[i] + 1) as u16);
    assert(t2.update(i, (t2[i] - 1) as u16) =~= t);
}

} // verus!

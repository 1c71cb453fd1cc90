//! The boot-time frame allocator: walks the retype table frame by frame.

use vstd::prelude::*;

use crate::mem::{Frame, FrameAllocError, FrameAllocator, PhysAddr};
use crate::mem::phys::phys_limit;
use crate::retyping::{
    AsTypeError, KernelFrame, RetypeTable, State, UserFrame, decode, encode, frame_index,
};

verus! {

/// Error: every frame has been tried.
#[derive(Debug, Copy, Clone)]
pub struct OutOfMemory;

/// Whether an entry is what an allocation looks for: a free frame when
/// `free_only`, any untyped frame otherwise.
pub open spec fn wanted(v: u16, free_only: bool) -> bool {
    if free_only {
        is_free(v)
    } else {
        is_untyped(v)
    }
}

/// The first frame number at or after `from` whose entry is `wanted`, or
/// the table length when none does (and `from` itself past the end).
pub open spec fn first_where(t: Seq<u16>, from: int, good: bool) -> int
    decreases t.len() - from,
{
    if from >= t.len() {
        if from > t.len() { from } else { t.len() as int }
    } else if wanted(t[from], good) {
        from
    } else {
        first_where(t, from + 1, good)
    }
}

pub proof fn lemma_first_where(t: Seq<u16>, from: int, good: bool)
    ensures
        from <= first_where(t, from, good),
        first_where(t, from, good) < t.len() ==> wanted(t[first_where(t, from, good)], good),
        first_where(t, from, good) >= t.len() ==> first_where(t, from, good) == if from > t.len() {
            from
        } else {
            t.len() as int
        },
        forall|k: int| from <= k < first_where(t, from, good) && k < t.len() ==> !wanted(#[trigger] t[k], good),
    decreases t.len() - from,
{
    if from < t.len() && !wanted(t[from], good) {
        lemma_first_where(t, from + 1, good);
    }
}

/// Untyped, whatever the reference count.
pub open spec fn is_untyped(v: u16) -> bool {
    decode(v).0 == State::Untyped
}

/// Untyped with no reference: ready to be retyped.
pub open spec fn is_free(v: u16) -> bool {
    v == encode(State::Untyped, 0)
}

/// Hands out frames in ascending order, checking each against the retype
/// table it owns.
#[derive(Debug)]
pub struct BumpFrameAllocator {
    index: u64,
    table: RetypeTable,
}

impl BumpFrameAllocator {
    /// The number of the next frame to try.
    pub closed spec fn next_index(&self) -> int {
        self.index as int
    }

    /// The retype table the allocator walks.
    pub closed spec fn table_view(&self) -> RetypeTable {
        self.table
    }

    /// What the allocator needs to stay within 52-bit physical memory.
    pub open spec fn wf(&self) -> bool {
        &&& self.table_view().wf()
        &&& self.next_index() < 0x100_0000_0000
    }

    /// An allocator starting at frame 0 of `table`.
    pub fn new(table: RetypeTable) -> (r: Self)
        ensures
            r.next_index() == 0,
            r.table_view() == table,
    {
        Self { index: 0, table }
    }

    /// The retype table.
    pub fn table(&self) -> (r: &RetypeTable)
        ensures
            *r == self.table_view(),
    {
        &self.table
    }

    /// Gives back the reference of a user frame, if the table counts one.
    pub fn release_user_frame(&mut self, frame: UserFrame)
        ensures
            final(self).next_index() == old(self).next_index(),
            final(self).table_view().base() == old(self).table_view().base(),
            final(self).table_view()@.len() == old(self).table_view()@.len(),
            old(self).table_view().covers(frame@) && old(self).table_view().state_of(frame@).1 > 0
                ==> final(self).table_view()@ == old(self).table_view()@.update(
                frame_index(frame@),
                (old(self).table_view()@[frame_index(frame@)] - 1) as u16,
            ),
            !(old(self).table_view().covers(frame@) && old(self).table_view().state_of(frame@).1 > 0)
                ==> final(self).table_view()@ == old(self).table_view()@,
    {
        let counted = match frame.raw().retype_entry(&self.table) {
            Ok(e) => e.get().1 > 0,
            Err(_) => false,
        };
        if counted {
            let _ = frame.drop(&mut self.table);
        }
    }

    /// Gives the retype table back.
    pub fn into_table(self) -> (r: RetypeTable)
        ensures
            r == self.table_view(),
    {
        self.table
    }

    /// The next frame to try.
    pub fn next_available(&self) -> (r: Frame)
        requires
            self.next_index() * 4096 < phys_limit(),
        ensures
            r@ == self.next_index() * 4096,
    {
        Frame::from_start_address(PhysAddr::new(Frame::SIZE * self.index))
    }

    /// The first untyped frame at or after the next index, which moves past
    /// it; `OutOfMemory` once the end of the table is passed. The table is
    /// left unchanged.
    pub fn alloc_untyped_frame(&mut self) -> (r: Result<Frame, OutOfMemory>)
        requires
            old(self).wf(),
        ensures
            final(self).table_view() == old(self).table_view(),
            ({
                let t = old(self).table_view()@;
                let j = first_where(t, old(self).next_index(), false);
                &&& final(self).next_index() == j + 1
                &&& j < t.len() ==> (r matches Ok(f) && f@ == j * 4096)
                &&& j >= t.len() ==> r is Err
            }),
    {
        let ghost good = false;
        proof {
            lemma_first_where(self.table@, self.index as int, good);
        }
        let ghost start = self.index as int;
        loop
            invariant
                self.table == old(self).table,
                !good,
                self.table.wf(),
                start == old(self).index,
                start <= self.index,
                self.index <= start || self.index <= self.table@.len(),
                self.index < 0x100_0000_0000,
                first_where(self.table@, start, good) == first_where(self.table@, self.index as int, good),
            decreases self.table@.len() + 1 - self.index,
        {
            proof {
                lemma_first_where(self.table@, self.index as int, good);
            }
            let ghost idx = self.index as int;
            let frame = self.next_available();
            proof {
                vstd::arithmetic::div_mod::lemma_div_multiples_vanish(idx, 4096);
                assert(frame_index(frame) == idx);
                assert(first_where(self.table@, idx, good) == if idx >= self.table@.len() {
                    if idx > self.table@.len() {
                        idx
                    } else {
                        self.table@.len() as int
                    }
                } else if wanted(self.table@[idx], good) {
                    idx
                } else {
                    first_where(self.table@, idx + 1, good)
                });
            }
            self.index = self.index + 1;
            match frame.try_as_untyped(&self.table) {
                Ok(frame) => return Ok(frame),
                Err(AsTypeError::OutOfBounds(_)) => return Err(OutOfMemory),
                Err(_) => {},
            }
        }
    }

    /// Retypes the first free frame (untyped, no reference) at or after the
    /// next index into a user frame with one reference; `OutOfMemory` once
    /// the end of the table is passed.
    pub fn alloc_user_frame(&mut self) -> (r: Result<UserFrame, OutOfMemory>)
        requires
            old(self).wf(),
        ensures
            final(self).table_view().base() == old(self).table_view().base(),
            final(self).next_index() > old(self).next_index(),
            ({
                let t = old(self).table_view()@;
                let j = first_where(t, old(self).next_index(), true);
                if j < t.len() {
                    &&& r matches Ok(u) && u@@ == j * 4096
                    &&& final(self).table_view()@ == t.update(j, encode(State::User, 1))
                    &&& final(self).next_index() == j + 1
                } else {
                    &&& r is Err
                    &&& final(self).table_view()@ == t
                }
            }),
    {
        let ghost good = true;
        let ghost start = self.index as int;
        proof {
            lemma_first_where(self.table@, start, good);
        }
        loop
            invariant
                self.table@ == old(self).table@,
                self.table.base() == old(self).table.base(),
                good,
                self.table.wf(),
                start == old(self).index,
                start <= self.index,
                self.index <= start || self.index <= self.table@.len(),
                self.index < 0x100_0000_0000,
                first_where(self.table@, start, good) == first_where(self.table@, self.index as int, good),
            decreases self.table@.len() + 1 - self.index,
        {
            let ghost before = self.index as int;
            proof {
                lemma_first_where(self.table@, before, good);
                lemma_first_where(self.table@, before, false);
            }
            let frame = self.alloc_untyped_frame()?;
            proof {
                let j = self.index - 1;
                assert forall|k: int| before <= k < j implies !wanted(#[trigger] self.table@[k], good) by {
                    assert(!is_untyped(self.table@[k]));
                }
                assert(frame_index(frame) == j) by {
                    vstd::arithmetic::div_mod::lemma_div_multiples_vanish(j, 4096);
                }
                lemma_first_where(self.table@, self.index as int, good);
                if !wanted(self.table@[j], good) {
                    assert(first_where(self.table@, before, good) == first_where(self.table@, self.index as int, good)) by {
                        lemma_first_where_skip(self.table@, before, j + 1, good);
                    }
                } else {
                    assert(first_where(self.table@, before, good) == j) by {
                        lemma_first_where_skip(self.table@, before, j, good);
                    }
                }
            }
            if let Ok(frame) = frame.try_into_user(&mut self.table) {
                return Ok(frame);
            }
        }
    }

    /// Retypes the first free frame (untyped, no reference) at or after the
    /// next index into a kernel frame with one reference; `OutOfMemory` once
    /// the end of the table is passed.
    pub fn alloc_kernel_frame(&mut self) -> (r: Result<KernelFrame, OutOfMemory>)
        requires
            old(self).wf(),
        ensures
            final(self).table_view().base() == old(self).table_view().base(),
            final(self).next_index() > old(self).next_index(),
            ({
                let t = old(self).table_view()@;
                let j = first_where(t, old(self).next_index(), true);
                if j < t.len() {
                    &&& r matches Ok(k) && k@@ == j * 4096
                    &&& final(self).table_view()@ == t.update(j, encode(State::Kernel, 1))
                    &&& final(self).next_index() == j + 1
                } else {
                    &&& r is Err
                    &&& final(self).table_view()@ == t
                }
            }),
    {
        let ghost good = true;
        let ghost start = self.index as int;
        proof {
            lemma_first_where(self.table@, start, good);
        }
        loop
            invariant
                self.table@ == old(self).table@,
                self.table.base() == old(self).table.base(),
                good,
                self.table.wf(),
                start == old(self).index,
                start <= self.index,
                self.index <= start || self.index <= self.table@.len(),
                self.index < 0x100_0000_0000,
                first_where(self.table@, start, good) == first_where(self.table@, self.index as int, good),
            decreases self.table@.len() + 1 - self.index,
        {
            let ghost before = self.index as int;
            proof {
                lemma_first_where(self.table@, before, good);
                lemma_first_where(self.table@, before, false);
            }
            let frame = self.alloc_untyped_frame()?;
            proof {
                let j = self.index - 1;
                assert forall|k: int| before <= k < j implies !wanted(#[trigger] self.table@[k], good) by {
                    assert(!is_untyped(self.table@[k]));
                }
                assert(frame_index(frame) == j) by {
                    vstd::arithmetic::div_mod::lemma_div_multiples_vanish(j, 4096);
                }
                lemma_first_where(self.table@, self.index as int, good);
                if !wanted(self.table@[j], good) {
                    assert(first_where(self.table@, before, good) == first_where(self.table@, self.index as int, good)) by {
                        lemma_first_where_skip(self.table@, before, j + 1, good);
                    }
                } else {
                    assert(first_where(self.table@, before, good) == j) by {
                        lemma_first_where_skip(self.table@, before, j, good);
                    }
                }
            }
            if let Ok(frame) = frame.try_into_kernel(&mut self.table) {
                return Ok(frame);
            }
        }
    }
}

/// Once no wanted entry lies at or after `a`, none lies at or after any
/// later `b` either.
pub proof fn lemma_exhausted_stays(t: Seq<u16>, a: int, b: int, good: bool)
    requires
        first_where(t, a, good) >= t.len(),
        a <= b,
    ensures
        first_where(t, b, good) >= t.len(),
{
    lemma_first_where(t, a, good);
    if b <= t.len() {
        lemma_first_where_skip(t, b, t.len() as int, good);
    } else {
        lemma_first_where(t, b, good);
    }
}

/// Skipping entries that don't satisfy `good` doesn't change where the
/// search lands.
pub proof fn lemma_first_where_skip(t: Seq<u16>, from: int, to: int, good: bool)
    requires
        from <= to <= t.len(),
        forall|k: int| from <= k < to ==> !wanted(#[trigger] t[k], good),
    ensures
        first_where(t, from, good) == first_where(t, to, good),
    decreases to - from,
{
    if from < to {
        lemma_first_where_skip(t, from + 1, to, good);
    }
}

impl FrameAllocator for BumpFrameAllocator {
    open spec fn can_alloc(&self) -> bool {
        self.wf()
    }

    /// Every address in `used` lies below the next frame to be examined.
    open spec fn avoids(&self, used: Set<u64>) -> bool {
        forall|a: u64| used.contains(a) ==> a < self.next_index() * 4096
    }

    /// No free frame lies at or after the next frame to be examined.
    open spec fn exhausted(&self) -> bool {
        first_where(self.table_view()@, self.next_index(), true) >= self.table_view()@.len()
    }

    /// The raw frame of `alloc_kernel_frame`: the first free frame at or
    /// after the next index, retyped into a kernel frame whose reference
    /// stays counted; `OutOfMemory` only when no free frame is left.
    fn alloc_kernel_frame(&mut self) -> (r: Result<Frame, FrameAllocError>)
    {
        let ghost t = self.table_view()@;
        let ghost from = self.next_index();
        match BumpFrameAllocator::alloc_kernel_frame(self) {
            Ok(k) => Ok(k.into_raw()),
            Err(_) => {
                proof {
                    lemma_exhausted_stays(t, from, self.next_index(), true);
                }
                Err(FrameAllocError::OutOfMemory)
            },
        }
    }
}

} // verus!

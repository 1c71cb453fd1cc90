//! Memory addresses, pages, frames and page permissions.

use vstd::prelude::*;

pub mod phys;
pub mod virt;

pub use phys::{BadAddress, Frame, PhysAddr, UnalignedAddress};
pub use virt::{BadVirtAddr, MemorySegment, Page, Unaligned, VirtAddr};

verus! {

/// Start of the lower-half window through which userspace sees untyped memory.
pub const UNTYPED_MEMORY_OFFSET: u64 = 0x0000_7000_0000_0000;

/// First address of the higher (kernel) half of the address space.
pub const HIGHER_HALF: u64 = 0xFFFF_8000_0000_0000;

} // verus!

verus! {

/// Architecture-neutral permissions of a mapped page, as a set of bits.
#[derive(Debug, Copy, Clone, PartialEq, Eq)]
pub struct PageFlags {
    bits: u64,
}

/// Errors of a frame allocator.
#[derive(Debug)]
pub enum FrameAllocError {
    /// No more frames in the system.
    OutOfMemory,
}

/// A source of frames for kernel-owned structures such as page tables.
pub trait FrameAllocator {
    /// Whether the allocator may be asked for a frame.
    spec fn can_alloc(&self) -> bool;

    /// Whether no frame the allocator will still hand out has its address in `used`.
    spec fn avoids(&self, used: Set<u64>) -> bool;

    /// Whether the allocator has no frame left to hand out.
    spec fn exhausted(&self) -> bool;

    /// Hands out a fresh frame typed for kernel use: one whose address no
    /// set the allocator avoided holds; fails only once no frame is left.
    fn alloc_kernel_frame(&mut self) -> (r: Result<Frame, FrameAllocError>)
        requires
            old(self).can_alloc(),
        ensures
            r is Ok ==> final(self).can_alloc(),
            forall|used: Set<u64>| #[trigger] old(self).avoids(used) ==> final(self).avoids(used),
            r matches Ok(f) ==> forall|used: Set<u64>| #[trigger] old(self).avoids(used) ==> !used.contains(f@)
                && final(self).avoids(used.insert(f@)),
            r is Err ==> final(self).exhausted(),
    ;
}

/// Errors of mapping a page into an address space.
#[derive(Debug)]
pub enum MapPageError {
    /// A frame for an intermediate table couldn't be allocated.
    AllocError(FrameAllocError),
    /// Tried to map over a huge entry.
    HugeParentEntry,
    /// Tried to map an already mapped entry; carries the frame mapped there.
    AlreadyMapped(Frame),
}

impl PageFlags {
    pub const PRESENT: u64 = 1;
    pub const READABLE: u64 = 2;
    pub const WRITABLE: u64 = 4;
    pub const EXECUTABLE: u64 = 8;
    pub const USER_ACCESSIBLE: u64 = 16;

    /// The union of every defined flag.
    pub open spec fn all_bits() -> u64 {
        31
    }

    pub closed spec fn view(&self) -> u64 {
        self.bits
    }

    /// Whether every bit of `flag` is set in `self`.
    pub open spec fn has(&self, flag: u64) -> bool {
        self@ & flag == flag
    }

    /// The flags whose bits are `bits`, dropping bits that name no flag.
    pub fn from_bits_truncate(bits: u64) -> (r: Self)
        ensures
            r@ == bits & Self::all_bits(),
    {
        Self { bits: bits & 31 }
    }

    /// No flag set.
    pub fn empty() -> (r: Self)
        ensures
            r@ == 0,
    {
        Self { bits: 0 }
    }

    /// Every flag set.
    pub fn all() -> (r: Self)
        ensures
            r@ == Self::all_bits(),
    {
        Self { bits: 31 }
    }

    /// The raw bits.
    pub fn bits(&self) -> (r: u64)
        ensures
            r == self@,
    {
        self.bits
    }

    /// Whether every flag of `other` is set in `self`.
    pub fn contains(&self, other: PageFlags) -> (r: bool)
        ensures
            r == (self@ & other@ == other@),
    {
        self.bits & other.bits == other.bits
    }

    /// The flags set in either `self` or `other`.
    pub fn union(&self, other: PageFlags) -> (r: Self)
        ensures
            r@ == self@ | other@,
    {
        Self { bits: self.bits | other.bits }
    }

    /// Whether the page may be read.
    pub fn readable(&self) -> (r: bool)
        ensures
            r == self.has(Self::READABLE),
    {
        self.bits & Self::READABLE == Self::READABLE
    }

    /// Whether the page may be written.
    pub fn writeable(&self) -> (r: bool)
        ensures
            r == self.has(Self::WRITABLE),
    {
        self.bits & Self::WRITABLE == Self::WRITABLE
    }

    /// Whether the page may be executed.
    pub fn executable(&self) -> (r: bool)
        ensures
            r == self.has(Self::EXECUTABLE),
    {
        self.bits & Self::EXECUTABLE == Self::EXECUTABLE
    }

    /// Whether the mapping is present.
    pub fn present(&self) -> (r: bool)
        ensures
            r == self.has(Self::PRESENT),
    {
        self.bits & Self::PRESENT == Self::PRESENT
    }

    /// Whether userspace may access the page.
    pub fn user_accessible(&self) -> (r: bool)
        ensures
            r == self.has(Self::USER_ACCESSIBLE),
    {
        self.bits & Self::USER_ACCESSIBLE == Self::USER_ACCESSIBLE
    }

    /// The permissions of a loaded program segment with the given
    /// read/write/execute flags: always present and user accessible; a
    /// readable or a writeable segment is mapped writable, an executable one
    /// executable.
    pub fn from_mem_flags(readable: bool, writeable: bool, executable: bool) -> (r: Self)
        ensures
            r@ == 17 + (if readable || writeable { 4int } else { 0 }) + (if executable { 8int } else { 0 }),
    {
        assert(1u64 | 16u64 == 17u64) by (bit_vector);
        assert(17u64 | 4u64 == 21u64) by (bit_vector);
        assert(21u64 | 4u64 == 21u64) by (bit_vector);
        assert(21u64 | 8u64 == 29u64) by (bit_vector);
        assert(17u64 | 8u64 == 25u64) by (bit_vector);
        let mut pflags: u64 = Self::PRESENT | Self::USER_ACCESSIBLE;
        if readable {
            pflags = pflags | Self::WRITABLE;
        }
        if writeable {
            pflags = pflags | Self::WRITABLE;
        }
        if executable {
            pflags = pflags | Self::EXECUTABLE;
        }
        Self { bits: pflags }
    }
}

} // verus!

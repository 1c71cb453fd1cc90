//! Virtual addresses and pages.

use vstd::prelude::*;

use super::{HIGHER_HALF, UNTYPED_MEMORY_OFFSET};

verus! {

/// 2^47: the lowest address that is no longer in the lower canonical half.
pub open spec fn lower_half_end() -> int {
    0x0000_8000_0000_0000
}

/// A 64-bit address is canonical when bits 47 to 63 are all equal, i.e. it
/// lies in the lower half `[0, 2^47)` or in the upper half `[2^64 - 2^47, 2^64)`.
pub open spec fn is_canonical(addr: usize) -> bool {
    addr < lower_half_end() || addr >= HIGHER_HALF
}

/// The address obtained by sign-extending bit 47 of `addr` into bits 48 to 63.
pub open spec fn sign_extend_48(addr: usize) -> int {
    let low = addr as int % 0x1_0000_0000_0000;
    if low < lower_half_end() {
        low
    } else {
        low + 0xFFFF_0000_0000_0000
    }
}

/// A virtual address that is always canonical (48-bit sign-extended).
#[derive(Debug, Copy, Clone, Eq, PartialEq, PartialOrd, Ord)]
pub struct VirtAddr(pub(crate) usize);

/// Error returned when an address isn't aligned to a page boundary.
#[derive(Debug, Clone, Copy, Eq, PartialEq)]
pub struct Unaligned;

/// Error returned when an address isn't canonical.
#[derive(Debug, Copy, Clone, Eq, PartialEq)]
pub struct BadVirtAddr;

/// The segment of the address space an address belongs to.
#[derive(Debug, Copy, Clone, PartialEq, Eq)]
pub enum MemorySegment {
    Kernel,
    User,
    Untyped,
}

/// The segment `addr` falls in: user memory below the untyped window, the
/// untyped window up to the higher half, and kernel memory from there on.
pub open spec fn segment_of(addr: usize) -> MemorySegment {
    if addr < UNTYPED_MEMORY_OFFSET {
        MemorySegment::User
    } else if addr < HIGHER_HALF {
        MemorySegment::Untyped
    } else {
        MemorySegment::Kernel
    }
}

impl VirtAddr {
    pub closed spec fn view(&self) -> usize {
        self.0
    }

    /// The address itself, which must be canonical.
    pub fn new(addr: usize) -> (r: Self)
        requires
            is_canonical(addr),
        ensures
            r@ == addr,
    {
        match Self::try_new(addr) {
            Ok(a) => a,
            Err(_) => {
                proof {
                    assert(false);
                }
                Self(0)
            },
        }
    }

    /// The address if it is canonical, `Err(BadVirtAddr)` otherwise.
    pub fn try_new(addr: usize) -> (r: Result<Self, BadVirtAddr>)
        ensures
            is_canonical(addr) <==> r is Ok,
            r matches Ok(a) ==> a@ == addr,
    {
        let t = Self::new_truncate(addr);
        if t.0 == addr {
            Ok(t)
        } else {
            Err(BadVirtAddr)
        }
    }

    /// Sign-extends bit 47 of `addr`, dropping whatever bits 48 to 63 held.
    pub fn new_truncate(addr: usize) -> (r: Self)
        ensures
            r@ == sign_extend_48(addr),
            is_canonical(r@),
            r@ == addr <==> is_canonical(addr),
    {
        let a: u64 = addr as u64;
        let low: u64 = a & 0x0000_FFFF_FFFF_FFFF;
        assert(low == a % 0x1_0000_0000_0000) by (bit_vector)
            requires
                low == a & 0x0000_FFFF_FFFF_FFFF,
        ;
        if low < 0x0000_8000_0000_0000 {
            assert(a >= 0xFFFF_8000_0000_0000 ==> low >= 0x0000_8000_0000_0000) by (bit_vector)
                requires
                    low == a & 0x0000_FFFF_FFFF_FFFF,
            ;
            Self(low as usize)
        } else {
            let high: u64 = low | 0xFFFF_0000_0000_0000;
            assert(high == low + 0xFFFF_0000_0000_0000) by (bit_vector)
                requires
                    high == low | 0xFFFF_0000_0000_0000,
                    low < 0x1_0000_0000_0000,
            ;
            assert(a >= 0xFFFF_8000_0000_0000 ==> high == a) by (bit_vector)
                requires
                    low == a & 0x0000_FFFF_FFFF_FFFF,
                    high == low | 0xFFFF_0000_0000_0000,
            ;
            assert(addr >= 0x0000_8000_0000_0000);
            Self(high as usize)
        }
    }

    /// The address as an integer.
    pub fn as_usize(&self) -> (r: usize)
        ensures
            r == self@,
    {
        self.0
    }

    /// The null address.
    pub fn zero() -> (r: Self)
        ensures
            r@ == 0,
    {
        Self::new(0)
    }

    /// The segment of the address space this address belongs to.
    pub fn memory_segment(&self) -> (r: MemorySegment)
        ensures
            r == segment_of(self@),
    {
        if (self.0 as u64) < UNTYPED_MEMORY_OFFSET {
            MemorySegment::User
        } else if (self.0 as u64) < HIGHER_HALF {
            MemorySegment::Untyped
        } else {
            MemorySegment::Kernel
        }
    }

    /// Whether the address lies in the higher half.
    pub fn is_higher_half(&self) -> (r: bool)
        ensures
            r == (self@ >= HIGHER_HALF),
    {
        (self.0 as u64) >= HIGHER_HALF
    }

    /// Whether the address lies in the lower half.
    pub fn is_lower_half(&self) -> (r: bool)
        ensures
            r == (self@ < HIGHER_HALF),
    {
        !self.is_higher_half()
    }

    /// Whether the address is kernel memory (the higher half).
    pub fn is_kernel(&self) -> (r: bool)
        ensures
            r == (self@ >= HIGHER_HALF),
    {
        self.is_higher_half()
    }

    /// Whether the address is user memory (below the untyped window).
    pub fn is_user(&self) -> (r: bool)
        ensures
            r == (self@ < UNTYPED_MEMORY_OFFSET),
    {
        (self.0 as u64) < UNTYPED_MEMORY_OFFSET
    }

    /// Whether the address is in the untyped window of the lower half.
    pub fn is_untyped_region(&self) -> (r: bool)
        ensures
            r == (UNTYPED_MEMORY_OFFSET <= self@ < HIGHER_HALF),
    {
        self.is_lower_half() && (self.0 as u64) >= UNTYPED_MEMORY_OFFSET
    }
}

/// The segment classification agrees with the three segment predicates:
/// every address is in exactly one of user, untyped and kernel memory.
pub proof fn lemma_segments_partition(a: VirtAddr)
    ensures
        (segment_of(a@) == MemorySegment::User) == (a@ < UNTYPED_MEMORY_OFFSET),
        (segment_of(a@) == MemorySegment::Untyped) == (UNTYPED_MEMORY_OFFSET <= a@ < HIGHER_HALF),
        (segment_of(a@) == MemorySegment::Kernel) == (a@ >= HIGHER_HALF),
{
}

/// Truncation is idempotent and leaves canonical addresses unchanged.
pub proof fn lemma_truncate_canonical(addr: usize)
    ensures
        0 <= sign_extend_48(addr) <= usize::MAX,
        is_canonical(sign_extend_48(addr) as usize),
        is_canonical(addr) ==> sign_extend_48(addr) == addr,
        sign_extend_48(sign_extend_48(addr) as usize) == sign_extend_48(addr),
{
}

/// A 4 KiB virtual page, identified by its page-aligned start address.
#[derive(Debug, Copy, Clone, Eq, PartialEq, PartialOrd, Ord)]
pub struct Page {
    start_address: VirtAddr,
}

impl Page {
    /// Size in bytes of a page.
    pub const SIZE: usize = 4096;

    pub closed spec fn view(&self) -> usize {
        self.start_address@
    }

    /// Every page starts at a canonical, page-aligned address.
    pub open spec fn wf(&self) -> bool {
        &&& is_canonical(self@)
        &&& self@ % 4096 == 0
    }

    /// The page starting at `addr`, which must be page aligned.
    pub fn from_start_address(addr: VirtAddr) -> (r: Self)
        requires
            addr@ % 4096 == 0,
        ensures
            r@ == addr@,
    {
        match Self::try_from_start_address(addr) {
            Ok(p) => p,
            Err(_) => {
                proof {
                    assert(false);
                }
                Self { start_address: addr }
            },
        }
    }

    /// The page starting at `addr`, or `Err(Unaligned)` when `addr` isn't page aligned.
    pub fn try_from_start_address(addr: VirtAddr) -> (r: Result<Self, Unaligned>)
        ensures
            (addr@ % 4096 == 0) <==> r is Ok,
            r matches Ok(p) ==> p@ == addr@,
    {
        if addr.as_usize() % Self::SIZE != 0 {
            return Err(Unaligned);
        }
        Ok(Self { start_address: addr })
    }

    /// The page that contains the (canonical) address `addr`.
    pub fn containing_address(addr: VirtAddr) -> (r: Self)
        requires
            is_canonical(addr@),
        ensures
            r@ == addr@ - addr@ % 4096,
    {
        let a: usize = addr.as_usize();
        let base: usize = (a / Self::SIZE) * Self::SIZE;
        assert(base == a - a % 4096) by {
            vstd::arithmetic::div_mod::lemma_fundamental_div_mod(a as int, 4096);
        }
        assert(base % 4096 == 0) by {
            vstd::arithmetic::div_mod::lemma_mod_multiples_basic(a as int / 4096, 4096);
        }
        let addr = VirtAddr::new(base);
        Self::from_start_address(addr)
    }

    /// The first address of the page.
    pub fn base(&self) -> (r: VirtAddr)
        ensures
            r@ == self@,
    {
        self.start_address
    }

    /// The page whose base is `index * Page::SIZE`, or `Err(BadVirtAddr)` when
    /// that base isn't canonical.
    pub fn from_index(index: usize) -> (r: Result<Self, BadVirtAddr>)
        requires
            index * 4096 <= usize::MAX,
        ensures
            is_canonical((index * 4096) as usize) <==> r is Ok,
            r matches Ok(p) ==> p@ == index * 4096,
    {
        let base: usize = index * Self::SIZE;
        assert(base % 4096 == 0) by {
            vstd::arithmetic::div_mod::lemma_mod_multiples_basic(index as int, 4096);
        }
        match VirtAddr::try_new(base) {
            Ok(addr) => Ok(Self::from_start_address(addr)),
            Err(e) => Err(e),
        }
    }

    /// The index of this page (the inverse of `from_index`).
    pub fn index(&self) -> (r: usize)
        ensures
            r == self@ / 4096,
    {
        self.start_address.as_usize() / Self::SIZE
    }
}

/// `index` undoes `from_index`: a page built from index `i` has index `i`,
/// and the page at a well-formed page's own index is that page.
pub proof fn lemma_page_index_roundtrip(i: usize, p: Page)
    requires
        i * 4096 <= usize::MAX,
        p.wf(),
    ensures
        (i * 4096) / 4096 == i,
        (p@ / 4096) * 4096 == p@,
        (p@ / 4096) * 4096 <= usize::MAX,
{
    vstd::arithmetic::div_mod::lemma_div_multiples_vanish(i as int, 4096);
    vstd::arithmetic::div_mod::lemma_fundamental_div_mod(p@ as int, 4096);
}

} // verus!

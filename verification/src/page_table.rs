//! x86-64 page-table entries, tables, offsets and levels.

use vstd::prelude::*;

use crate::mem::{Frame, PageFlags, PhysAddr, VirtAddr};
use crate::mem::phys::phys_limit;

verus! {

/// Bits of an entry that hold the frame address.
pub const FRAME_MASK: u64 = 0x000F_FFFF_FFFF_F000;

/// Bits of an entry that hold flags: the complement of `FRAME_MASK`.
pub const FLAGS_MASK: u64 = 0xFFF0_0000_0000_0FFF;

/// The flags of an x86-64 page-table entry. Every bit outside the frame
/// address field is a defined flag.
#[derive(Debug, Copy, Clone, PartialEq, Eq)]
pub struct PageTableFlags {
    bits: u64,
}

impl PageTableFlags {
    pub const PRESENT: u64 = 1;
    pub const WRITABLE: u64 = 2;
    pub const USER_ACCESSIBLE: u64 = 4;
    pub const WRITE_THROUGH: u64 = 8;
    pub const NO_CACHE: u64 = 16;
    pub const ACCESSED: u64 = 32;
    pub const DIRTY: u64 = 64;
    pub const HUGE_PAGE: u64 = 128;
    pub const GLOBAL: u64 = 256;
    pub const NO_EXECUTE: u64 = 0x8000_0000_0000_0000;

    #[verifier::type_invariant]
    spec fn inv(self) -> bool {
        self.bits & FRAME_MASK == 0
    }

    pub closed spec fn view(&self) -> u64 {
        self.bits
    }

    /// The flags named by `bits`, or `None` when `bits` holds an address bit.
    pub fn from_bits(bits: u64) -> (r: Option<Self>)
        ensures
            r is Some <==> bits & FRAME_MASK == 0,
            r matches Some(f) ==> f@ == bits,
    {
        if bits & FRAME_MASK == 0 {
            Some(Self { bits })
        } else {
            None
        }
    }

    /// The flags named by `bits`, dropping address bits.
    pub fn from_bits_truncate(bits: u64) -> (r: Self)
        ensures
            r@ == bits & FLAGS_MASK,
    {
        let b: u64 = bits & FLAGS_MASK;
        assert(b & 0x000F_FFFF_FFFF_F000u64 == 0) by (bit_vector)
            requires
                b == bits & 0xFFF0_0000_0000_0FFFu64,
        ;
        Self { bits: b }
    }

    /// No flag set.
    pub fn empty() -> (r: Self)
        ensures
            r@ == 0,
    {
        assert(0u64 & 0x000F_FFFF_FFFF_F000u64 == 0) by (bit_vector);
        Self { bits: 0 }
    }

    /// The raw bits; no address bit is ever set.
    pub fn bits(&self) -> (r: u64)
        ensures
            r == self@,
            r & FRAME_MASK == 0,
    {
        proof {
            use_type_invariant(self);
        }
        self.bits
    }

    /// Whether every flag of `other` (given by its bits) is set.
    pub fn contains(&self, other: u64) -> (r: bool)
        ensures
            r == (self@ & other == other),
    {
        self.bits & other == other
    }

    /// The flags set in either `self` or the flag bits `other` (address
    /// bits of `other` are dropped).
    pub fn with(&self, other: u64) -> (r: Self)
        ensures
            r@ == self@ | (other & FLAGS_MASK),
    {
        proof {
            use_type_invariant(self);
        }
        let o: u64 = other & FLAGS_MASK;
        let s: u64 = self.bits;
        let b: u64 = s | o;
        assert(b & 0x000F_FFFF_FFFF_F000u64 == 0) by (bit_vector)
            requires
                o == other & 0xFFF0_0000_0000_0FFFu64,
                b == s | o,
                s & 0x000F_FFFF_FFFF_F000u64 == 0,
        ;
        Self { bits: b }
    }

    /// The hardware flags for the architecture-neutral `value`: writable
    /// pages are writable, non-executable ones carry `NO_EXECUTE`, present
    /// ones `PRESENT` and user-accessible ones `USER_ACCESSIBLE`. x86-64 has
    /// no way to deny reads, so the readable flag is ignored.
    pub fn from_page_flags(value: PageFlags) -> (r: Self)
        ensures
            r@ == pte_bits(value),
    {
        let w: u64 = if value.writeable() { Self::WRITABLE } else { 0 };
        let x: u64 = if !value.executable() { Self::NO_EXECUTE } else { 0 };
        let p: u64 = if value.present() { Self::PRESENT } else { 0 };
        let u: u64 = if value.user_accessible() { Self::USER_ACCESSIBLE } else { 0 };
        let b: u64 = w | x | p | u;
        assert(b & 0x000F_FFFF_FFFF_F000u64 == 0) by (bit_vector)
            requires
                w == 0 || w == 2,
                x == 0 || x == 0x8000_0000_0000_0000u64,
                p == 0 || p == 1,
                u == 0 || u == 4,
                b == w | x | p | u,
        ;
        Self { bits: b }
    }
}

/// The hardware flag bits for the architecture-neutral flags `value`.
pub open spec fn pte_bits(value: PageFlags) -> u64 {
    (if value.has(PageFlags::WRITABLE) { PageTableFlags::WRITABLE } else { 0 })
        | (if !value.has(PageFlags::EXECUTABLE) { PageTableFlags::NO_EXECUTE } else { 0 })
        | (if value.has(PageFlags::PRESENT) { PageTableFlags::PRESENT } else { 0 })
        | (if value.has(PageFlags::USER_ACCESSIBLE) { PageTableFlags::USER_ACCESSIBLE } else { 0 })
}

/// Hardware flags derived from architecture-neutral ones never hold an
/// address bit nor the huge-page bit.
pub proof fn lemma_pte_bits(value: PageFlags)
    ensures
        pte_bits(value) & FRAME_MASK == 0,
        pte_bits(value) & PageTableFlags::HUGE_PAGE == 0,
        (pte_bits(value) | PageTableFlags::PRESENT) & FRAME_MASK == 0,
        (pte_bits(value) | PageTableFlags::PRESENT) & PageTableFlags::HUGE_PAGE == 0,
        (pte_bits(value) | PageTableFlags::PRESENT) != 0,
{
    let w: u64 = if value.has(PageFlags::WRITABLE) { 2 } else { 0 };
    let x: u64 = if !value.has(PageFlags::EXECUTABLE) { 0x8000_0000_0000_0000 } else { 0 };
    let p: u64 = if value.has(PageFlags::PRESENT) { 1 } else { 0 };
    let u: u64 = if value.has(PageFlags::USER_ACCESSIBLE) { 4 } else { 0 };
    let b: u64 = pte_bits(value);
    assert(b == w | x | p | u);
    assert(b & 0x000F_FFFF_FFFF_F000u64 == 0 && b & 128u64 == 0 && (b | 1u64) & 0x000F_FFFF_FFFF_F000u64 == 0
        && (b | 1u64) & 128u64 == 0 && (b | 1u64) != 0) by (bit_vector)
        requires
            w == 0 || w == 2,
            x == 0 || x == 0x8000_0000_0000_0000u64,
            p == 0 || p == 1,
            u == 0 || u == 4,
            b == w | x | p | u,
    ;
}

/// The frame address and flag bits an entry holding `value` describes, or
/// `None` for the all-zero (unused) entry.
pub open spec fn decode_entry(value: u64) -> Option<(u64, u64)> {
    if value == 0 {
        None
    } else {
        Some((value & FRAME_MASK, value & FLAGS_MASK))
    }
}

/// Whether `r` is the frame and flags whose address and flag bits are `d`.
pub open spec fn decoded_as(r: (Frame, PageTableFlags), d: (u64, u64)) -> bool {
    r.0@ == d.0 && r.1@ == d.1
}

/// Whether the optional frame and flags `r` are what `decode_entry(value)` gives.
pub open spec fn matches_decoded(r: Option<(Frame, PageTableFlags)>, value: u64) -> bool {
    match decode_entry(value) {
        None => r is None,
        Some(d) => r matches Some(x) && decoded_as(x, d),
    }
}

/// One 64-bit entry of a page table.
#[derive(Debug, Copy, Clone)]
pub struct PageTableEntry {
    value: u64,
}

/// Splits the non-zero entry value `value` into its frame and its flags.
fn split_entry(value: u64) -> (r: (Frame, PageTableFlags))
    ensures
        decoded_as(r, (value & FRAME_MASK, value & FLAGS_MASK)),
{
    let addr: u64 = value & FRAME_MASK;
    assert(addr % 4096 == 0 && addr < 0x10_0000_0000_0000u64) by (bit_vector)
        requires
            addr == value & 0x000F_FFFF_FFFF_F000u64,
    ;
    let frame = Frame::from_start_address(PhysAddr::new(addr));
    let flags = PageTableFlags::from_bits_truncate(value);
    (frame, flags)
}

impl PageTableEntry {
    pub closed spec fn view(&self) -> u64 {
        self.value
    }

    /// An unused entry.
    pub fn new() -> (r: Self)
        ensures
            r@ == 0,
    {
        Self { value: 0 }
    }

    /// The raw value of the entry.
    pub fn get_raw(&self) -> (r: u64)
        ensures
            r == self@,
    {
        self.value
    }

    /// The mapped frame and its flags, or `None` when the entry is unused.
    pub fn get(&self) -> (r: Option<(Frame, PageTableFlags)>)
        ensures
            matches_decoded(r, self@),
    {
        let value: u64 = self.value;
        if value == 0 {
            return None;
        }
        Some(split_entry(value))
    }

    /// The mapped frame, or `None` when the entry is unused.
    pub fn frame(&self) -> (r: Option<Frame>)
        ensures
            r is None <==> self@ == 0,
            r matches Some(f) ==> f@ == self@ & FRAME_MASK,
    {
        match self.get() {
            Some(x) => Some(x.0),
            None => None,
        }
    }

    /// The flags of the entry, or `None` when the entry is unused.
    pub fn flags(&self) -> (r: Option<PageTableFlags>)
        ensures
            r is None <==> self@ == 0,
            r matches Some(f) ==> f@ == self@ & FLAGS_MASK,
    {
        match self.get() {
            Some(x) => Some(x.1),
            None => None,
        }
    }

    /// Overwrites the entry with `bits`, returning what it described before.
    fn set_bits(&mut self, bits: u64) -> (r: Option<(Frame, PageTableFlags)>)
        ensures
            final(self)@ == bits,
            matches_decoded(r, old(self)@),
    {
        let old_value: u64 = self.value;
        self.value = bits;
        if old_value == 0 {
            return None;
        }
        Some(split_entry(old_value))
    }

    /// Points the entry at `frame` with `attributes`, returning what it
    /// described before.
    pub fn set(&mut self, frame: Frame, attributes: PageTableFlags) -> (r: Option<(Frame, PageTableFlags)>)
        ensures
            final(self)@ == attributes@ | frame@,
            matches_decoded(r, old(self)@),
            frame.wf(),
    {
        let bits: u64 = attributes.bits() | frame.base().as_u64();
        self.set_bits(bits)
    }

    /// Points the entry at `frame` with `attributes` only if it is unused;
    /// otherwise leaves it unchanged and returns the frame and flags it holds.
    pub fn try_set(&mut self, frame: Frame, attributes: PageTableFlags) -> (r: Result<(), (Frame, PageTableFlags)>)
        ensures
            old(self)@ == 0 ==> r is Ok && final(self)@ == attributes@ | frame@,
            old(self)@ != 0 ==> final(self)@ == old(self)@ && (r matches Err(x) && decoded_as(
                x,
                (old(self)@ & FRAME_MASK, old(self)@ & FLAGS_MASK),
            )),
    {
        let bits: u64 = attributes.bits() | frame.base().as_u64();
        let old_value: u64 = self.value;
        if old_value == 0 {
            self.value = bits;
            Ok(())
        } else {
            Err(split_entry(old_value))
        }
    }

    /// Clears the entry, returning what it described before.
    pub fn reset(&mut self) -> (r: Option<(Frame, PageTableFlags)>)
        ensures
            final(self)@ == 0,
            matches_decoded(r, old(self)@),
    {
        self.set_bits(0)
    }

    /// Replaces the flags of the entry, keeping its frame; returns the old flags.
    pub fn set_flags(&mut self, flags: PageTableFlags) -> (r: PageTableFlags)
        ensures
            final(self)@ == (old(self)@ & FRAME_MASK) | flags@,
            r@ == old(self)@ & FLAGS_MASK,
    {
        let old_value: u64 = self.value;
        self.value = (old_value & FRAME_MASK) | flags.bits();
        PageTableFlags::from_bits_truncate(old_value)
    }
}

/// Reading an entry back after `set(frame, flags)` gives `frame` and
/// `flags`, unless both are zero, in which case the entry reads as unused.
pub proof fn lemma_set_then_get(frame: Frame, flags: PageTableFlags)
    requires
        frame.wf(),
        flags@ & FRAME_MASK == 0,
    ensures
        (flags@ | frame@) == 0 <==> (frame@ == 0 && flags@ == 0),
        decode_entry(flags@ | frame@) == if frame@ == 0 && flags@ == 0 {
            None
        } else {
            Some((frame@, flags@))
        },
{
    let f: u64 = frame@;
    let g: u64 = flags@;
    assert(f % 4096 == 0 && f < 0x10_0000_0000_0000u64 && g & 0x000F_FFFF_FFFF_F000u64 == 0 ==> (
    g | f) & 0x000F_FFFF_FFFF_F000u64 == f && (g | f) & 0xFFF0_0000_0000_0FFFu64 == g && ((g | f)
        == 0 <==> (f == 0 && g == 0))) by (bit_vector);
}

/// Keeping the frame: after `set_flags(flags)` a used entry still points at
/// the same frame and now carries exactly `flags`.
pub proof fn lemma_set_flags_keeps_frame(old_value: u64, flags: PageTableFlags)
    requires
        flags@ & FRAME_MASK == 0,
    ensures
        ((old_value & FRAME_MASK) | flags@) & FRAME_MASK == old_value & FRAME_MASK,
        ((old_value & FRAME_MASK) | flags@) & FLAGS_MASK == flags@,
{
    let v: u64 = old_value;
    let g: u64 = flags@;
    assert(g & 0x000F_FFFF_FFFF_F000u64 == 0 ==> ((v & 0x000F_FFFF_FFFF_F000u64) | g)
        & 0x000F_FFFF_FFFF_F000u64 == v & 0x000F_FFFF_FFFF_F000u64 && ((v
        & 0x000F_FFFF_FFFF_F000u64) | g) & 0xFFF0_0000_0000_0FFFu64 == g) by (bit_vector);
}

/// Index of an entry within a page table: always below 512.
#[derive(Debug, Copy, Clone)]
pub struct PageTableOffset(u16);

/// A page-table level, from 1 (the bottom, mapping 4 KiB pages) to 4 (the top).
#[derive(Debug, Copy, Clone)]
pub struct PageTableLevel(u8);

/// Error for a level outside 1 to 4.
#[derive(Debug)]
pub struct InvalidLevel;

/// Error for an entry index of 512 or more.
#[derive(Debug)]
pub enum PageTableOffsetError {
    OutOfBounds,
}

impl PageTableLevel {
    #[verifier::type_invariant]
    spec fn inv(self) -> bool {
        1 <= self.0 <= 4
    }

    pub closed spec fn view(&self) -> u8 {
        self.0
    }

    /// The level `level`, which must be between 1 and 4.
    pub fn new(level: u8) -> (r: Self)
        requires
            1 <= level <= 4,
        ensures
            r@ == level,
    {
        match Self::try_new(level) {
            Ok(l) => l,
            Err(_) => {
                proof {
                    assert(false);
                }
                Self(4)
            },
        }
    }

    /// The level `level`, or `Err(InvalidLevel)` unless it is between 1 and 4.
    pub fn try_new(level: u8) -> (r: Result<Self, InvalidLevel>)
        ensures
            (1 <= level <= 4) <==> r is Ok,
            r matches Ok(l) ==> l@ == level,
    {
        if level < 1 || level > 4 {
            return Err(InvalidLevel);
        }
        Ok(Self(level))
    }

    /// The level as a number between 1 and 4.
    pub fn level(&self) -> (r: u8)
        ensures
            r == self@,
            1 <= r <= 4,
    {
        proof {
            use_type_invariant(self);
        }
        self.0
    }

    /// The top level, 4.
    pub fn top() -> (r: Self)
        ensures
            r@ == 4,
    {
        Self(4)
    }

    /// Whether this is the bottom level, 1.
    pub fn is_bottom(&self) -> (r: bool)
        ensures
            r == (self@ == 1),
    {
        self.level() == 1
    }

    /// The level below this one, or `None` at the bottom level.
    pub fn lower(self) -> (r: Option<Self>)
        ensures
            self@ == 1 <==> r is None,
            r matches Some(l) ==> l@ == self@ - 1,
    {
        match Self::try_new(self.level() - 1) {
            Ok(l) => Some(l),
            Err(_) => None,
        }
    }
}

impl PageTableOffset {
    #[verifier::type_invariant]
    spec fn inv(self) -> bool {
        self.0 < 512
    }

    pub closed spec fn view(&self) -> u16 {
        self.0
    }

    /// The index `offset`, or `Err(OutOfBounds)` when it is 512 or more.
    pub fn new(offset: u16) -> (r: Result<Self, PageTableOffsetError>)
        ensures
            (offset < 512) <==> r is Ok,
            r matches Ok(o) ==> o@ == offset,
    {
        if offset < 512 {
            Ok(Self(offset))
        } else {
            Err(PageTableOffsetError::OutOfBounds)
        }
    }

    /// The index `value`, or `Err(OutOfBounds)` when it is 512 or more.
    pub fn try_from_u16(value: u16) -> (r: Result<Self, PageTableOffsetError>)
        ensures
            (value < 512) <==> r is Ok,
            r matches Ok(o) ==> o@ == value,
    {
        Self::new(value)
    }

    /// The index `value`, or `Err(OutOfBounds)` when it is 512 or more.
    pub fn try_from_usize(value: usize) -> (r: Result<Self, PageTableOffsetError>)
        ensures
            (value < 512) <==> r is Ok,
            r matches Ok(o) ==> o@ == value,
    {
        if value > 0xFFFF {
            return Err(PageTableOffsetError::OutOfBounds);
        }
        Self::new(value as u16)
    }

    /// The index as a number below 512.
    pub fn as_u16(&self) -> (r: u16)
        ensures
            r == self@,
            r < 512,
    {
        proof {
            use_type_invariant(self);
        }
        self.0
    }

    /// Whether the entry maps part of the lower half of the address space.
    pub fn is_lower_half(&self) -> (r: bool)
        ensures
            r == (self@ < 256),
    {
        self.0 < 256
    }

    /// `addr` reduced modulo 512.
    pub fn new_truncate(addr: u16) -> (r: Self)
        ensures
            r@ == addr % 512,
    {
        Self(addr % 512)
    }
}

/// The number of bytes a single entry covers at `level` (1 to 4).
pub open spec fn level_span(level: int) -> int {
    if level == 1 {
        0x1000
    } else if level == 2 {
        0x20_0000
    } else if level == 3 {
        0x4000_0000
    } else {
        0x80_0000_0000
    }
}

/// The 9-bit index selecting the entry for `addr` in a table at `level`.
pub open spec fn index_at_level(addr: usize, level: int) -> int {
    (addr as int / level_span(level)) % 512
}

impl VirtAddr {
    /// The 9-bit level 1 page table index.
    pub fn p1_index(self) -> (r: PageTableOffset)
        ensures
            r@ == index_at_level(self@, 1),
    {
        let a: u64 = self.as_usize() as u64;
        let i: u16 = (a >> 12u64) as u16;
        assert(i % 512 == (a / 0x1000) % 512) by (bit_vector)
            requires
                i == (a >> 12u64) as u16,
        ;
        PageTableOffset::new_truncate(i)
    }

    /// The 9-bit level 2 page table index.
    pub fn p2_index(self) -> (r: PageTableOffset)
        ensures
            r@ == index_at_level(self@, 2),
    {
        let a: u64 = self.as_usize() as u64;
        let i: u16 = (a >> 12u64 >> 9u64) as u16;
        assert(i % 512 == (a / 0x20_0000) % 512) by (bit_vector)
            requires
                i == (a >> 12u64 >> 9u64) as u16,
        ;
        PageTableOffset::new_truncate(i)
    }

    /// The 9-bit level 3 page table index.
    pub fn p3_index(self) -> (r: PageTableOffset)
        ensures
            r@ == index_at_level(self@, 3),
    {
        let a: u64 = self.as_usize() as u64;
        let i: u16 = (a >> 12u64 >> 9u64 >> 9u64) as u16;
        assert(i % 512 == (a / 0x4000_0000) % 512) by (bit_vector)
            requires
                i == (a >> 12u64 >> 9u64 >> 9u64) as u16,
        ;
        PageTableOffset::new_truncate(i)
    }

    /// The 9-bit level 4 page table index.
    pub fn p4_index(self) -> (r: PageTableOffset)
        ensures
            r@ == index_at_level(self@, 4),
    {
        let a: u64 = self.as_usize() as u64;
        let i: u16 = (a >> 12u64 >> 9u64 >> 9u64 >> 9u64) as u16;
        assert(i % 512 == (a / 0x80_0000_0000) % 512) by (bit_vector)
            requires
                i == (a >> 12u64 >> 9u64 >> 9u64 >> 9u64) as u16,
        ;
        PageTableOffset::new_truncate(i)
    }

    /// The 9-bit index of this address in a table at `level`.
    pub fn page_table_index(self, level: PageTableLevel) -> (r: PageTableOffset)
        ensures
            r@ == index_at_level(self@, level@ as int),
    {
        let a: u64 = self.as_usize() as u64;
        let l: u8 = level.level();
        let shift: u64 = ((l - 1) * 9) as u64;
        assert(shift == 0 || shift == 9 || shift == 18 || shift == 27);
        let i: u16 = (a >> 12u64 >> shift) as u16;
        assert(shift == 0 ==> i % 512 == (a / 0x1000) % 512) by (bit_vector)
            requires
                i == (a >> 12u64 >> shift) as u16,
        ;
        assert(shift == 9 ==> i % 512 == (a / 0x20_0000) % 512) by (bit_vector)
            requires
                i == (a >> 12u64 >> shift) as u16,
        ;
        assert(shift == 18 ==> i % 512 == (a / 0x4000_0000) % 512) by (bit_vector)
            requires
                i == (a >> 12u64 >> shift) as u16,
        ;
        assert(shift == 27 ==> i % 512 == (a / 0x80_0000_0000) % 512) by (bit_vector)
            requires
                i == (a >> 12u64 >> shift) as u16,
        ;
        PageTableOffset::new_truncate(i)
    }
}

/// `page_table_index` at level `k` agrees with the fixed `pk_index` functions:
/// both select `(addr / span(k)) % 512`.
pub proof fn lemma_index_levels_agree(addr: usize, level: PageTableLevel)
    requires
        1 <= level@ <= 4,
    ensures
        0 <= index_at_level(addr, level@ as int) < 512,
{
}

/// A page table: 512 entries.
#[derive(Debug)]
pub struct AnyPageTable {
    entries: Vec<PageTableEntry>,
}

impl AnyPageTable {
    /// A table always holds exactly 512 entries.
    pub closed spec fn wf(&self) -> bool {
        self.entries.len() == 512
    }

    /// The raw values of the 512 entries.
    pub closed spec fn view(&self) -> Seq<u64> {
        self.entries@.map_values(|e: PageTableEntry| e@)
    }

    /// A table with every entry unused.
    pub fn new() -> (r: Self)
        ensures
            r.wf(),
            r@.len() == 512,
            forall|i: int| 0 <= i < 512 ==> r@[i] == 0,
    {
        let mut entries: Vec<PageTableEntry> = Vec::new();
        while entries.len() < 512
            invariant
                entries.len() <= 512,
                forall|i: int| 0 <= i < entries.len() ==> entries@[i]@ == 0,
            decreases 512 - entries.len(),
        {
            entries.push(PageTableEntry::new());
        }
        Self { entries }
    }

    /// The entry at `offset`.
    pub fn get(&self, offset: PageTableOffset) -> (r: &PageTableEntry)
        requires
            self.wf(),
        ensures
            self@.len() == 512,
            r@ == self@[offset@ as int],
    {
        let i: u16 = offset.as_u16();
        &self.entries[i as usize]
    }

    /// Stores `e` as the entry at `offset`.
    fn store(&mut self, offset: PageTableOffset, e: PageTableEntry)
        requires
            old(self).wf(),
        ensures
            final(self).wf(),
            final(self)@ == old(self)@.update(offset@ as int, e@),
    {
        let i: u16 = offset.as_u16();
        self.entries.set(i as usize, e);
        proof {
            assert(self@ =~= old(self)@.update(offset@ as int, e@));
        }
    }

    /// Points the entry at `offset` to `frame` with `attributes`, returning
    /// what it described before.
    pub fn map(&mut self, offset: PageTableOffset, frame: Frame, attributes: PageTableFlags) -> (r: Option<(Frame, PageTableFlags)>)
        requires
            old(self).wf(),
        ensures
            final(self).wf(),
            final(self)@ == old(self)@.update(offset@ as int, attributes@ | frame@),
            matches_decoded(r, old(self)@[offset@ as int]),
            frame.wf(),
    {
        let mut e: PageTableEntry = *self.get(offset);
        let r = e.set(frame, attributes);
        self.store(offset, e);
        r
    }

    /// Like `map`, but only when the entry is unused; otherwise the table is
    /// unchanged and the frame and flags already there are returned.
    pub fn try_map(&mut self, offset: PageTableOffset, frame: Frame, attributes: PageTableFlags) -> (r: Result<(), (Frame, PageTableFlags)>)
        requires
            old(self).wf(),
        ensures
            final(self).wf(),
            old(self)@[offset@ as int] == 0 ==> r is Ok && final(self)@ == old(self)@.update(
                offset@ as int,
                attributes@ | frame@,
            ),
            old(self)@[offset@ as int] != 0 ==> final(self)@ == old(self)@ && (r matches Err(x)
                && decoded_as(
                x,
                (old(self)@[offset@ as int] & FRAME_MASK, old(self)@[offset@ as int] & FLAGS_MASK),
            )),
    {
        let mut e: PageTableEntry = *self.get(offset);
        let r = e.try_set(frame, attributes);
        if r.is_ok() {
            self.store(offset, e);
        }
        r
    }

    /// Clears the entry at `offset`, returning what it described before.
    pub fn unmap(&mut self, offset: PageTableOffset) -> (r: Option<(Frame, PageTableFlags)>)
        requires
            old(self).wf(),
        ensures
            final(self).wf(),
            final(self)@ == old(self)@.update(offset@ as int, 0),
            matches_decoded(r, old(self)@[offset@ as int]),
    {
        let mut e: PageTableEntry = *self.get(offset);
        let r = e.reset();
        self.store(offset, e);
        r
    }

    /// Replaces the flags of the entry at `offset`, keeping its frame;
    /// returns the old flags.
    pub fn set_flags(&mut self, offset: PageTableOffset, attributes: PageTableFlags) -> (r: PageTableFlags)
        requires
            old(self).wf(),
        ensures
            final(self).wf(),
            final(self)@ == old(self)@.update(
                offset@ as int,
                (old(self)@[offset@ as int] & FRAME_MASK) | attributes@,
            ),
            r@ == old(self)@[offset@ as int] & FLAGS_MASK,
    {
        let mut e: PageTableEntry = *self.get(offset);
        let r = e.set_flags(attributes);
        self.store(offset, e);
        r
    }
}

} // verus!

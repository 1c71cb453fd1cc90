//! Boot-time helpers: the boot frame allocator, finding the initial program
//! in the initial ramdisk, and the loader that builds the address space of
//! the initial process.

use vstd::prelude::*;

pub mod bump_alloc;

use crate::addrspace::{
    extends, hits_huge, lemma_extends_lookup, lemma_extends_trans, lookup, no_new_huge_hits, PageTables,
    X64Addrspace,
};
use crate::exec::{entry_regs, ExecCtx};
use crate::mem::{Frame, FrameAllocError, FrameAllocator, MapPageError, Page, PageFlags, HIGHER_HALF};
use crate::page_table::{decode_entry, pte_bits, PageTableFlags};
use bump_alloc::{lemma_exhausted_stays, BumpFrameAllocator, OutOfMemory};

verus! {

/// Errors of mapping a page for the initial process.
#[derive(Debug)]
pub enum LoadPageError {
    AllocError(FrameAllocError),
    MapError(MapPageError),
    OutOfMemory(OutOfMemory),
}

/// The walk of one of the `count` pages from page number `first` meets a
/// huge entry in `m`.
pub open spec fn region_hits_huge(m: Map<u64, (u8, Seq<u64>)>, l4: u64, first: int, count: int) -> bool {
    exists|k: int| 0 <= k < count && #[trigger] hits_huge(m, l4, ((first + k) * 4096) as usize, 4)
}

/// Page `k` of the `count` pages from page number `first` is mapped in `m`
/// to frame `f`, and not by the step that maps page `j` of them to
/// `frames(j)` with the hardware flags `pte`, starting from `m0`: the page
/// was mapped in `m0` already, or its flags are not `pte`, or its frame is
/// the one the step gave an earlier page (whose walk shares a table with
/// it).
pub open spec fn region_already_mapped(
    m0: Map<u64, (u8, Seq<u64>)>,
    m: Map<u64, (u8, Seq<u64>)>,
    l4: u64,
    first: int,
    count: int,
    f: u64,
    pte: u64,
    frames: spec_fn(int) -> u64,
) -> bool {
    exists|k: int|
        0 <= k < count && (#[trigger] lookup(m, l4, ((first + k) * 4096) as usize, 4) matches Some(x) && x.0 == f
            && (lookup(m0, l4, ((first + k) * 4096) as usize, 4) is Some || x.1 != pte || exists|j: int|
            0 <= j < k && x.0 == #[trigger] frames(j)))
}

/// Why mapping the `count` pages from page number `first`, starting from
/// the page tables `m`, may have failed with `e` other than by finding a
/// page mapped, `exhausted` telling whether the boot allocator ran out of
/// free frames: only because it did, or because a page's walk met a huge
/// entry in `m`.
pub open spec fn map_failed(
    e: LoadPageError,
    exhausted: bool,
    m: Map<u64, (u8, Seq<u64>)>,
    l4: u64,
    first: int,
    count: int,
) -> bool {
    match e {
        LoadPageError::OutOfMemory(_) => exhausted,
        LoadPageError::MapError(MapPageError::AllocError(_)) => exhausted,
        LoadPageError::MapError(MapPageError::HugeParentEntry) => region_hits_huge(m, l4, first, count),
        LoadPageError::MapError(MapPageError::AlreadyMapped(_)) => false,
        LoadPageError::AllocError(_) => false,
    }
}

/// Every page mapped through the level 4 table `l4` in `m2` and not in `m1`
/// is mapped as `want` says.
pub open spec fn new_translations_are(
    m1: Map<u64, (u8, Seq<u64>)>,
    m2: Map<u64, (u8, Seq<u64>)>,
    l4: u64,
    want: Option<(u64, u64)>,
) -> bool {
    forall|q: usize| lookup(m1, l4, q, 4) is None && #[trigger] lookup(m2, l4, q, 4) is Some ==> lookup(m2, l4, q, 4) == want
}

/// Every page mapped through `l4` in `m2` and not in `m1` maps one of
/// `frames` with the hardware flags `pte`.
pub open spec fn new_maps_among(
    m1: Map<u64, (u8, Seq<u64>)>,
    m2: Map<u64, (u8, Seq<u64>)>,
    l4: u64,
    frames: Seq<Frame>,
    pte: u64,
) -> bool {
    forall|q: usize|
        lookup(m1, l4, q, 4) is None && #[trigger] lookup(m2, l4, q, 4) is Some ==> exists|j: int|
            0 <= j < frames.len() && lookup(m2, l4, q, 4) == Some((#[trigger] frames[j]@, pte))
}

/// Maps the memory of the initial process: its address space, the boot
/// allocator its frames come from, and the page tables.
pub struct InitLoader {
    address_space: X64Addrspace,
    fallocator: BumpFrameAllocator,
    tables: PageTables,
}

impl InitLoader {
    pub closed spec fn addrspace(&self) -> X64Addrspace {
        self.address_space
    }

    pub closed spec fn tables_view(&self) -> Map<u64, (u8, Seq<u64>)> {
        self.tables@
    }

    /// The address space is a stored level 4 table, the allocator can hand
    /// out frames, and none it will hand out holds a table.
    pub closed spec fn wf(&self) -> bool {
        &&& self.address_space.valid_in(&self.tables)
        &&& self.fallocator.wf()
        &&& self.fallocator.avoids(self.tables@.dom())
    }

    /// The boot allocator has no free frame left.
    pub closed spec fn out_of_frames(&self) -> bool {
        self.fallocator.exhausted()
    }

    /// A loader mapping into `address_space`.
    pub fn new(address_space: X64Addrspace, fallocator: BumpFrameAllocator, tables: PageTables) -> (r: Self)
        requires
            address_space.valid_in(&tables),
            fallocator.wf(),
            fallocator.avoids(tables@.dom()),
        ensures
            r.wf(),
            r.addrspace() == address_space,
            r.tables_view() == tables@,
    {
        Self { address_space, fallocator, tables }
    }

    /// The address space being built.
    pub fn address_space(&self) -> (r: X64Addrspace)
        ensures
            r == self.addrspace(),
    {
        self.address_space
    }

    /// Gives back the allocator and the page tables.
    pub fn into_parts(self) -> (r: (BumpFrameAllocator, PageTables))
        ensures
            r.1@ == self.tables_view(),
    {
        (self.fallocator, self.tables)
    }

    /// Maps `page` to `frame` with `flags`, intermediate tables being linked
    /// with every permission (see `X64Addrspace::map_page`).
    pub fn map_page(&mut self, page: Page, frame: Frame, flags: PageFlags) -> (r: Result<(), LoadPageError>)
        requires
            old(self).wf(),
        ensures
            final(self).addrspace() == old(self).addrspace(),
            extends(old(self).tables_view(), final(self).tables_view()),
            r is Ok ==> final(self).wf(),
            no_new_huge_hits(old(self).tables_view(), final(self).tables_view(), old(self).addrspace()@),
            new_translations_are(
                old(self).tables_view(),
                final(self).tables_view(),
                old(self).addrspace()@,
                decode_entry(pte_bits(flags) | frame@),
            ),
            ({
                let l4 = old(self).addrspace()@;
                let m = old(self).tables_view();
                match r {
                    Ok(_) => lookup(final(self).tables_view(), l4, page@, 4) == decode_entry(
                        pte_bits(flags) | frame@,
                    ),
                    Err(LoadPageError::MapError(MapPageError::AlreadyMapped(f))) => lookup(m, l4, page@, 4)
                        matches Some(x) && x.0 == f@ && final(self).tables_view() == m,
                    Err(LoadPageError::MapError(MapPageError::HugeParentEntry)) => hits_huge(m, l4, page@, 4)
                        && final(self).tables_view() == m,
                    Err(LoadPageError::MapError(MapPageError::AllocError(_))) => lookup(
                        final(self).tables_view(),
                        l4,
                        page@,
                        4,
                    ) is None && final(self).out_of_frames(),
                    Err(_) => false,
                }
            }),
    {
        match self.address_space.map_page(&mut self.tables, page, frame, flags, PageFlags::all(), &mut self.fallocator) {
            Ok(flusher) => {
                flusher.ignore();
                Ok(())
            },
            Err(e) => Err(LoadPageError::MapError(e)),
        }
    }

    /// The frame backing `page`, mapping a fresh user frame with `flags`
    /// when the page has no translation yet; a page already mapped keeps
    /// its frame (the fresh frame's reference is then given back).
    pub fn request_page(&mut self, page: Page, flags: PageFlags) -> (r: Result<Frame, LoadPageError>)
        requires
            old(self).wf(),
            page@ < HIGHER_HALF,
        ensures
            final(self).addrspace() == old(self).addrspace(),
            extends(old(self).tables_view(), final(self).tables_view()),
            r is Ok ==> final(self).wf(),
            no_new_huge_hits(old(self).tables_view(), final(self).tables_view(), old(self).addrspace()@),
            r matches Ok(f) ==> new_translations_are(
                old(self).tables_view(),
                final(self).tables_view(),
                old(self).addrspace()@,
                decode_entry(pte_bits(flags) | f@),
            ),
            ({
                let l4 = old(self).addrspace()@;
                let m = old(self).tables_view();
                match r {
                    Ok(f) => match lookup(m, l4, page@, 4) {
                        Some(x) => f@ == x.0 && final(self).tables_view() == m,
                        None => lookup(final(self).tables_view(), l4, page@, 4) == decode_entry(
                            pte_bits(flags) | f@,
                        ),
                    },
                    Err(LoadPageError::OutOfMemory(_)) => final(self).tables_view() == m
                        && final(self).out_of_frames(),
                    Err(LoadPageError::MapError(MapPageError::HugeParentEntry)) => hits_huge(m, l4, page@, 4)
                        && final(self).tables_view() == m,
                    Err(LoadPageError::MapError(MapPageError::AllocError(_))) => lookup(
                        final(self).tables_view(),
                        l4,
                        page@,
                        4,
                    ) is None && final(self).out_of_frames(),
                    Err(_) => false,
                }
            }),
    {
        let ghost t = self.fallocator.table_view()@;
        let ghost from = self.fallocator.next_index();
        let frame = match self.fallocator.alloc_user_frame() {
            Ok(f) => f,
            Err(e) => {
                proof {
                    lemma_exhausted_stays(t, from, self.fallocator.next_index(), true);
                }
                return Err(LoadPageError::OutOfMemory(e));
            },
        };
        let raw = frame.raw();
        match self.address_space.map_page(&mut self.tables, page, raw, flags, PageFlags::all(), &mut self.fallocator) {
            Ok(flusher) => {
                flusher.ignore();
                let _ = frame.into_raw();
                Ok(raw)
            },
            Err(MapPageError::AlreadyMapped(f)) => {
                self.fallocator.release_user_frame(frame);
                Ok(f)
            },
            Err(e) => Err(LoadPageError::MapError(e)),
        }
    }
}

impl InitLoader {
    /// The store is well formed.
    proof fn lemma_tables_wf(&self)
        requires
            self.wf(),
        ensures
            crate::addrspace::tables_wf(self.tables_view()),
    {
        self.tables.lemma_wf();
    }

    /// Makes sure every page overlapping `[start, end)` is backed (see
    /// `request_page`); gives the frame of each of those pages in order.
    /// Every page that had no translation is mapped to its frame with
    /// `flags`, and so is every other translation that appears.
    pub fn map_range(&mut self, start: usize, end: usize, flags: PageFlags) -> (r: Result<Vec<Frame>, LoadPageError>)
        requires
            old(self).wf(),
            start <= end,
            end <= lower_half_limit(),
            end + 4096 <= usize::MAX,
            flags.has(PageFlags::PRESENT),
        ensures
            final(self).addrspace() == old(self).addrspace(),
            extends(old(self).tables_view(), final(self).tables_view()),
            r is Ok ==> final(self).wf(),
            no_new_huge_hits(old(self).tables_view(), final(self).tables_view(), old(self).addrspace()@),
            r matches Err(e) ==> map_failed(
                e,
                final(self).out_of_frames(),
                old(self).tables_view(),
                old(self).addrspace()@,
                start as int / 4096,
                page_count(start as int, end as int),
            ),
            r matches Ok(v) ==> {
                &&& v.len() == page_count(start as int, end as int)
                &&& forall|k: int| 0 <= k < v.len() ==> (#[trigger] lookup(
                    final(self).tables_view(),
                    old(self).addrspace()@,
                    ((start as int / 4096 + k) * 4096) as usize,
                    4,
                ) matches Some(x) && x.0 == v@[k]@)
                &&& forall|k: int|
                    0 <= k < v.len() && lookup(old(self).tables_view(), old(self).addrspace()@, ((start as int / 4096
                        + k) * 4096) as usize, 4) is None ==> #[trigger] lookup(
                        final(self).tables_view(),
                        old(self).addrspace()@,
                        ((start as int / 4096 + k) * 4096) as usize,
                        4,
                    ) == Some((v@[k]@, pte_bits(flags)))
                &&& new_maps_among(
                    old(self).tables_view(),
                    final(self).tables_view(),
                    old(self).addrspace()@,
                    v@,
                    pte_bits(flags),
                )
            },
    {
        let first: usize = start / 4096;
        let last: usize = (end + 4095) / 4096;
        let mut frames: Vec<Frame> = Vec::new();
        let mut p: usize = first;
        let ghost m0 = self.tables_view();
        let ghost l4 = self.addrspace()@;
        while p < last
            invariant
                first == start / 4096,
                last == (end + 4095) / 4096,
                first <= p <= last,
                end <= lower_half_limit(),
                end + 4096 <= usize::MAX,
                flags.has(PageFlags::PRESENT),
                self.wf(),
                self.addrspace()@ == l4,
                self.addrspace() == old(self).addrspace(),
                m0 == old(self).tables_view(),
                extends(m0, self.tables_view()),
                frames.len() == p - first,
                forall|k: int| 0 <= k < frames.len() ==> (#[trigger] lookup(
                    self.tables_view(),
                    l4,
                    ((first + k) * 4096) as usize,
                    4,
                ) matches Some(x) && x.0 == frames@[k]@),
                forall|k: int|
                    0 <= k < frames.len() && lookup(m0, l4, ((first + k) * 4096) as usize, 4) is None
                        ==> #[trigger] lookup(self.tables_view(), l4, ((first + k) * 4096) as usize, 4) == Some(
                        (frames@[k]@, pte_bits(flags)),
                    ),
                new_maps_among(m0, self.tables_view(), l4, frames@, pte_bits(flags)),
                no_new_huge_hits(m0, self.tables_view(), l4),
            decreases last - p,
        {
            proof {
                assert(p * 4096 <= usize::MAX) by (nonlinear_arith)
                    requires
                        p < (end + 4095) / 4096,
                        end + 4096 <= usize::MAX,
                ;
                assert(p * 4096 < lower_half_limit()) by (nonlinear_arith)
                    requires
                        p < (end + 4095) / 4096,
                        end <= lower_half_limit(),
                        lower_half_limit() == 0x8000_0000_0000,
                ;
            }
            let page = match Page::from_index(p) {
                Ok(pg) => pg,
                Err(_) => vstd::pervasive::unreached(),
            };
            let ghost before = self.tables_view();
            proof {
                self.lemma_tables_wf();
            }
            let f = match self.request_page(page, flags) {
                Ok(f) => f,
                Err(e) => {
                    proof {
                        lemma_extends_trans(m0, before, self.tables_view());
                        let k = p - first;
                        assert(((first + k) * 4096) as usize == page@);
                        if e matches LoadPageError::MapError(MapPageError::HugeParentEntry) {
                            assert(hits_huge(before, l4, ((first + k) * 4096) as usize, 4));
                            assert(hits_huge(m0, l4, ((first + k) * 4096) as usize, 4));
                        }
                        lemma_no_new_huge_trans(m0, before, self.tables_view(), l4);
                        assert(page_count(start as int, end as int) == last - first);
                    }
                    return Err(e);
                },
            };
            let _base = f.base();
            let ghost after = self.tables_view();
            let ghost nf = frames@.push(f);
            proof {
                lemma_extends_trans(m0, before, self.tables_view());
                lemma_no_new_huge_trans(m0, before, self.tables_view(), l4);
                lemma_present_entry(flags, f);
                if lookup(m0, l4, page@, 4) is None {
                    if lookup(before, l4, page@, 4) is Some {
                        let j = choose|j: int|
                            0 <= j < frames.len() && lookup(before, l4, page@, 4) == Some((#[trigger] frames@[j]@, pte_bits(flags)));
                        assert(lookup(after, l4, page@, 4) == Some((f@, pte_bits(flags))));
                    } else {
                        assert(lookup(after, l4, page@, 4) == Some((f@, pte_bits(flags))));
                    }
                }
                assert forall|k: int|
                    0 <= k < frames.len() && lookup(m0, l4, ((first + k) * 4096) as usize, 4) is None
                        implies #[trigger] lookup(after, l4, ((first + k) * 4096) as usize, 4) == Some(
                        (frames@[k]@, pte_bits(flags)),
                    ) by {
                    lemma_kept(before, after, l4, ((first + k) * 4096) as usize, (frames@[k]@, pte_bits(flags)));
                }
                assert forall|q: usize|
                    lookup(m0, l4, q, 4) is None && #[trigger] lookup(after, l4, q, 4) is Some implies exists|j: int|
                        0 <= j < nf.len() && lookup(after, l4, q, 4) == Some((#[trigger] nf[j]@, pte_bits(flags))) by {
                    if lookup(before, l4, q, 4) is Some {
                        let j = choose|j: int|
                            0 <= j < frames.len() && lookup(before, l4, q, 4) == Some((#[trigger] frames@[j]@, pte_bits(flags)));
                        lemma_kept(before, after, l4, q, (frames@[j]@, pte_bits(flags)));
                        assert(nf[j] == frames@[j]);
                    } else {
                        assert(nf[frames.len() as int] == f);
                    }
                }
                assert forall|k: int| 0 <= k < frames.len() implies (#[trigger] lookup(
                    self.tables_view(),
                    l4,
                    ((first + k) * 4096) as usize,
                    4,
                ) matches Some(x) && x.0 == frames@[k]@) by {
                    assert(lookup(before, l4, ((first + k) * 4096) as usize, 4) matches Some(x) && x.0
                        == frames@[k]@);
                    lemma_extends_lookup(before, self.tables_view(), l4, ((first + k) * 4096) as usize, 4);
                }
            }
            frames.push(f);
            p = p + 1;
            proof {
                assert(((first + (frames.len() - 1)) * 4096) as usize == page@);
                assert(frames@ == nf);
            }
        }
        Ok(frames)
    }
}

/// The initial process: the context it starts from and its address space.
#[derive(Debug)]
pub struct Process {
    pub context: ExecCtx,
    pub addrspace: X64Addrspace,
}

/// Where the initial process finds its memory: its stack below the untyped
/// window, then after its text the memory map, the initial ramdisk and the
/// boot arguments.
#[derive(Debug, Clone, Copy, PartialEq, Eq, Structural)]
pub struct BootLayout {
    pub stack_bottom: usize,
    pub stack_top: usize,
    pub memory_map_start: usize,
    pub memory_map_end: usize,
    pub initrd_start: usize,
    pub initrd_end: usize,
    pub bootargs_start: usize,
    pub bootargs_end: usize,
}

/// `n` rounded up to a multiple of `m`.
pub open spec fn round_up(n: int, m: int) -> int {
    ((n + m - 1) / m) * m
}

/// The layout for a program whose text ends at `top_of_text`, with
/// `stack_pages` of stack, a memory map of `map_pages` frames, a ramdisk of
/// `initrd_len` bytes and boot arguments of `args_size` bytes (placed at the
/// next multiple of their size).
pub open spec fn boot_layout(top_of_text: int, stack_pages: int, map_pages: int, initrd_len: int, args_size: int) -> BootLayout {
    let stack_top = 0x0000_7000_0000_0000int;
    let mm_start = round_up(top_of_text, 4096);
    let mm_end = mm_start + map_pages * 4096;
    let initrd_end = mm_end + initrd_len;
    let args_start = round_up(initrd_end, args_size);
    BootLayout {
        stack_bottom: (stack_top - stack_pages * 4096) as usize,
        stack_top: stack_top as usize,
        memory_map_start: mm_start as usize,
        memory_map_end: mm_end as usize,
        initrd_start: mm_end as usize,
        initrd_end: initrd_end as usize,
        bootargs_start: args_start as usize,
        bootargs_end: (args_start + args_size) as usize,
    }
}

/// The hardware flags of the pages of untyped memory, mapped present only
/// (so neither writable, executable nor user accessible).
pub open spec fn untyped_pte() -> u64 {
    0x8000_0000_0000_0001
}

/// The hardware flags of a page of a segment requested readable or
/// writable and not executable (see `PageFlags::from_mem_flags`): present,
/// writable and user accessible, not executable.
pub open spec fn user_data_pte() -> u64 {
    0x8000_0000_0000_0007
}

/// The address of page `k` of the region that starts at `start`.
pub open spec fn region_page(start: int, k: int) -> usize {
    ((start / 4096 + k) * 4096) as usize
}

/// Every page mapped through `l4` in `m2` and not in `m1` maps an untyped
/// frame below `pages` present only.
pub open spec fn new_untyped_maps(m1: Map<u64, (u8, Seq<u64>)>, m2: Map<u64, (u8, Seq<u64>)>, l4: u64, pages: int) -> bool {
    forall|q: usize|
        lookup(m1, l4, q, 4) is None && #[trigger] lookup(m2, l4, q, 4) is Some ==> exists|f: int|
            0 <= f < pages && lookup(m2, l4, q, 4) == Some((#[trigger] untyped_frame(f), untyped_pte()))
}

/// `x` is a frame of `memory_map` mapped as the memory map is, or an
/// untyped frame below `untyped_pages` mapped present only.
pub open spec fn map_or_untyped(x: (u64, u64), memory_map: Seq<Frame>, untyped_pages: int) -> bool {
    ||| exists|j: int| 0 <= j < memory_map.len() && x == (#[trigger] memory_map[j]@, memory_map_pte())
    ||| exists|f: int| 0 <= f < untyped_pages && x == (#[trigger] untyped_frame(f), untyped_pte())
}

/// Page `a` is mapped in `m` to `frame`, and, when it had no translation
/// in `m0`, with `user_data_pte`, unless its translation is that of a page
/// of the memory map or of the untyped window (which it then shares through
/// a table reached from both).
pub open spec fn data_page(
    m0: Map<u64, (u8, Seq<u64>)>,
    m: Map<u64, (u8, Seq<u64>)>,
    l4: u64,
    a: usize,
    frame: Frame,
    memory_map: Seq<Frame>,
    untyped_pages: int,
) -> bool {
    lookup(m, l4, a, 4) matches Some(x) && x.0 == frame@ && (lookup(m0, l4, a, 4) is None ==> (x.1
        == user_data_pte() || map_or_untyped(x, memory_map, untyped_pages)))
}

/// The frame with index `f`, where untyped page `f` is mapped.
pub open spec fn untyped_frame(f: int) -> u64 {
    (f * 4096) as u64
}

/// The hardware flags of the memory-map pages, mapped present, readable and
/// user accessible (so neither writable nor executable).
pub open spec fn memory_map_pte() -> u64 {
    0x8000_0000_0000_0005
}

/// The hardware flags of architecture-neutral flags with bits `v`.
proof fn lemma_pte_of(flags: PageFlags)
    ensures
        flags@ == 1 ==> pte_bits(flags) == untyped_pte(),
        flags@ == 19 ==> pte_bits(flags) == memory_map_pte(),
        flags@ == 21 ==> pte_bits(flags) == user_data_pte(),
{
    let v = flags@;
    assert((v == 21 ==> (v & 4 == 4 && v & 8 != 8 && v & 1 == 1 && v & 16 == 16))
        && (v == 1 ==> (v & 4 != 4 && v & 8 != 8 && v & 1 == 1 && v & 16 != 16))
        && (v == 19 ==> (v & 4 != 4 && v & 8 != 8 && v & 1 == 1 && v & 16 == 16))
        && (2u64 | 0x8000_0000_0000_0000u64 | 1u64 | 4u64) == 0x8000_0000_0000_0007u64
        && (0u64 | 0x8000_0000_0000_0000u64 | 1u64 | 0u64) == 0x8000_0000_0000_0001u64
        && (0u64 | 0x8000_0000_0000_0000u64 | 1u64 | 4u64) == 0x8000_0000_0000_0005u64) by (bit_vector);
}

/// The initial process once loaded, with the frames backing its stack, its
/// ramdisk and its boot arguments, page by page, for the caller to fill.
#[derive(Debug)]
pub struct LoadedProcess {
    pub process: Process,
    pub layout: BootLayout,
    pub stack: Vec<Frame>,
    pub initrd: Vec<Frame>,
    pub bootargs: Vec<Frame>,
}

/// A mapping step from `m1` that failed for a reason other than finding a
/// page mapped failed for that reason from `m0` too, when no walk meets a
/// huge entry in `m1` that it did not meet in `m0`.
proof fn lemma_failed_back(
    e: LoadPageError,
    exhausted: bool,
    m0: Map<u64, (u8, Seq<u64>)>,
    m1: Map<u64, (u8, Seq<u64>)>,
    l4: u64,
    first: int,
    count: int,
)
    requires
        no_new_huge_hits(m0, m1, l4),
    ensures
        map_failed(e, exhausted, m1, l4, first, count) ==> map_failed(e, exhausted, m0, l4, first, count),
{
    if map_failed(e, exhausted, m1, l4, first, count) && e matches LoadPageError::MapError(
        MapPageError::HugeParentEntry,
    ) {
        let k = choose|k: int| 0 <= k < count && #[trigger] hits_huge(m1, l4, ((first + k) * 4096) as usize, 4);
        assert(hits_huge(m0, l4, ((first + k) * 4096) as usize, 4));
    }
}

/// A page a step from `m1` found mapped, by no work of its own, was found
/// mapped by no work of its own counting from `m0` too, when every page
/// mapped in `m1` and not in `m0` has flags other than the step's.
proof fn lemma_already_mapped_back(
    m0: Map<u64, (u8, Seq<u64>)>,
    m1: Map<u64, (u8, Seq<u64>)>,
    m: Map<u64, (u8, Seq<u64>)>,
    l4: u64,
    first: int,
    count: int,
    f: u64,
    pte: u64,
    frames: spec_fn(int) -> u64,
)
    requires
        crate::addrspace::tables_wf(m1),
        extends(m1, m),
        region_already_mapped(m1, m, l4, first, count, f, pte, frames),
        forall|q: usize|
            lookup(m0, l4, q, 4) is None && #[trigger] lookup(m1, l4, q, 4) is Some ==> (lookup(m1, l4, q, 4) matches Some(
                y,
            ) && y.1 != pte),
    ensures
        region_already_mapped(m0, m, l4, first, count, f, pte, frames),
{
    let k = choose|k: int|
        0 <= k < count && (#[trigger] lookup(m, l4, ((first + k) * 4096) as usize, 4) matches Some(x) && x.0 == f
            && (lookup(m1, l4, ((first + k) * 4096) as usize, 4) is Some || x.1 != pte || exists|j: int|
            0 <= j < k && x.0 == #[trigger] frames(j)));
    let a = ((first + k) * 4096) as usize;
    if lookup(m1, l4, a, 4) is Some {
        lemma_extends_lookup(m1, m, l4, a, 4);
    }
}

/// Not meeting new huge entries carries over two steps.
proof fn lemma_no_new_huge_trans(m1: Map<u64, (u8, Seq<u64>)>, m2: Map<u64, (u8, Seq<u64>)>, m3: Map<u64, (u8, Seq<u64>)>, l4: u64)
    requires
        no_new_huge_hits(m1, m2, l4),
        no_new_huge_hits(m2, m3, l4),
    ensures
        no_new_huge_hits(m1, m3, l4),
{
    assert forall|q: usize| #[trigger] hits_huge(m3, l4, q, 4) implies hits_huge(m1, l4, q, 4) by {
        assert(hits_huge(m2, l4, q, 4));
    }
}

/// A translation present in a well-formed store survives its extension.
proof fn lemma_kept(m1: Map<u64, (u8, Seq<u64>)>, m2: Map<u64, (u8, Seq<u64>)>, l4: u64, addr: usize, want: (u64, u64))
    requires
        crate::addrspace::tables_wf(m1),
        extends(m1, m2),
        lookup(m1, l4, addr, 4) == Some(want),
    ensures
        lookup(m2, l4, addr, 4) == Some(want),
{
    lemma_extends_lookup(m1, m2, l4, addr, 4);
}

impl InitLoader {
    /// Maps untyped frame `f` at `UNTYPED_MEMORY_OFFSET + f * 4096` for
    /// every `f` below `pages`.
    fn map_untyped(&mut self, pages: usize) -> (r: Result<(), LoadPageError>)
        requires
            old(self).wf(),
            usize::BITS == 64,
            0x0000_7000_0000_0000 + pages * 4096 <= lower_half_limit(),
        ensures
            final(self).addrspace() == old(self).addrspace(),
            extends(old(self).tables_view(), final(self).tables_view()),
            r is Ok ==> final(self).wf(),
            r is Ok ==> forall|f: int| 0 <= f < pages ==> #[trigger] lookup(
                final(self).tables_view(),
                old(self).addrspace()@,
                (0x0000_7000_0000_0000 + f * 4096) as usize,
                4,
            ) == Some(((f * 4096) as u64, untyped_pte())),
            r is Ok ==> new_untyped_maps(
                old(self).tables_view(),
                final(self).tables_view(),
                old(self).addrspace()@,
                pages as int,
            ),
            no_new_huge_hits(old(self).tables_view(), final(self).tables_view(), old(self).addrspace()@),
            r matches Err(e) ==> map_failed(
                e,
                final(self).out_of_frames(),
                old(self).tables_view(),
                old(self).addrspace()@,
                0x7_0000_0000,
                pages as int,
            ) || (e matches LoadPageError::MapError(MapPageError::AlreadyMapped(fr)) && region_already_mapped(
                old(self).tables_view(),
                final(self).tables_view(),
                old(self).addrspace()@,
                0x7_0000_0000,
                pages as int,
                fr@,
                untyped_pte(),
                |j: int| untyped_frame(j),
            )),
    {
        let untyped_start: usize = 0x7_0000_0000u64 as usize;
        let flags = PageFlags::from_bits_truncate(PageFlags::PRESENT);
        proof {
            assert(1u64 & 31u64 == 1u64 && 1u64 & 1u64 == 1u64) by (bit_vector);
        }
        let ghost m0 = self.tables_view();
        let ghost l4 = self.addrspace()@;
        let mut f: usize = 0;
        while f < pages
            invariant
                f <= pages,
                usize::BITS == 64,
                untyped_start == 0x7_0000_0000,
                0x0000_7000_0000_0000 + pages * 4096 <= lower_half_limit(),
                flags@ == 1,
                flags.has(PageFlags::PRESENT),
                self.wf(),
                self.addrspace()@ == l4,
                self.addrspace() == old(self).addrspace(),
                m0 == old(self).tables_view(),
                extends(m0, self.tables_view()),
                forall|g: int| 0 <= g < f ==> #[trigger] lookup(
                    self.tables_view(),
                    l4,
                    (0x0000_7000_0000_0000 + g * 4096) as usize,
                    4,
                ) == Some(((g * 4096) as u64, untyped_pte())),
                forall|q: usize|
                    lookup(m0, l4, q, 4) is None && #[trigger] lookup(self.tables_view(), l4, q, 4) is Some
                        ==> exists|g: int|
                        0 <= g < f && lookup(self.tables_view(), l4, q, 4) == Some(
                            (#[trigger] untyped_frame(g), untyped_pte()),
                        ),
                no_new_huge_hits(m0, self.tables_view(), l4),
            decreases pages - f,
        {
            let page = match Page::from_index(untyped_start + f) {
                Ok(p) => p,
                Err(_) => vstd::pervasive::unreached(),
            };
            let frame = match Frame::from_index(f as u64) {
                Ok(fr) => fr,
                Err(_) => vstd::pervasive::unreached(),
            };
            let ghost before = self.tables_view();
            proof {
                self.lemma_tables_wf();
            }
            let r = self.map_page(page, frame, flags);
            proof {
                lemma_extends_trans(m0, before, self.tables_view());
                lemma_no_new_huge_trans(m0, before, self.tables_view(), l4);
            }
            if r.is_err() {
                proof {
                    let k = f as int;
                    let a = ((0x7_0000_0000 + k) * 4096) as usize;
                    assert(a == page@);
                    let m = self.tables_view();
                    match r {
                        Err(LoadPageError::MapError(MapPageError::HugeParentEntry)) => {
                            assert(hits_huge(before, l4, a, 4));
                            assert(hits_huge(m0, l4, a, 4));
                        },
                        Err(LoadPageError::MapError(MapPageError::AlreadyMapped(fr))) => {
                            assert(lookup(m, l4, a, 4) matches Some(x) && x.0 == fr@);
                            if lookup(m0, l4, a, 4) is None {
                                let g = choose|g: int|
                                    0 <= g < f && lookup(before, l4, a, 4) == Some((#[trigger] untyped_frame(g), untyped_pte()));
                                let fs = |j: int| untyped_frame(j);
                                assert(fs(g) == untyped_frame(g));
                            }
                        },
                        _ => {},
                    }
                }
                return r;
            }
            proof {
                lemma_present_entry(flags, frame);
                lemma_pte_of(flags);
                assert forall|g: int| 0 <= g < f + 1 implies #[trigger] lookup(
                    self.tables_view(),
                    l4,
                    (0x0000_7000_0000_0000 + g * 4096) as usize,
                    4,
                ) == Some(((g * 4096) as u64, untyped_pte())) by {
                    if g < f {
                        lemma_kept(before, self.tables_view(), l4, (0x0000_7000_0000_0000 + g * 4096) as usize,
                            ((g * 4096) as u64, untyped_pte()));
                    }
                }
                let after = self.tables_view();
                assert forall|q: usize|
                    lookup(m0, l4, q, 4) is None && #[trigger] lookup(after, l4, q, 4) is Some implies exists|g: int|
                        0 <= g < f + 1 && lookup(after, l4, q, 4) == Some((#[trigger] untyped_frame(g), untyped_pte())) by {
                    if lookup(before, l4, q, 4) is Some {
                        let g = choose|g: int|
                            0 <= g < f && lookup(before, l4, q, 4) == Some((#[trigger] untyped_frame(g), untyped_pte()));
                        lemma_kept(before, after, l4, q, (untyped_frame(g), untyped_pte()));
                    } else {
                        assert(untyped_frame(f as int) == frame@);
                    }
                }
            }
            f = f + 1;
        }
        Ok(())
    }
}

impl InitLoader {
    /// Maps `frames` in order at consecutive pages from `start`, present,
    /// readable and user accessible.
    fn map_frames_at(&mut self, start: usize, frames: &Vec<Frame>) -> (r: Result<(), LoadPageError>)
        requires
            old(self).wf(),
            usize::BITS == 64,
            start % 4096 == 0,
            start + frames.len() * 4096 <= lower_half_limit(),
        ensures
            final(self).addrspace() == old(self).addrspace(),
            extends(old(self).tables_view(), final(self).tables_view()),
            r is Ok ==> final(self).wf(),
            r is Ok ==> forall|k: int| 0 <= k < frames.len() ==> #[trigger] lookup(
                final(self).tables_view(),
                old(self).addrspace()@,
                (start + k * 4096) as usize,
                4,
            ) == Some((frames@[k]@, memory_map_pte())),
            r is Ok ==> new_maps_among(
                old(self).tables_view(),
                final(self).tables_view(),
                old(self).addrspace()@,
                frames@,
                memory_map_pte(),
            ),
            no_new_huge_hits(old(self).tables_view(), final(self).tables_view(), old(self).addrspace()@),
            r matches Err(e) ==> map_failed(
                e,
                final(self).out_of_frames(),
                old(self).tables_view(),
                old(self).addrspace()@,
                start as int / 4096,
                frames.len() as int,
            ) || (e matches LoadPageError::MapError(MapPageError::AlreadyMapped(fr)) && region_already_mapped(
                old(self).tables_view(),
                final(self).tables_view(),
                old(self).addrspace()@,
                start as int / 4096,
                frames.len() as int,
                fr@,
                memory_map_pte(),
                |j: int| frames@[j]@,
            )),
    {
        let flags = PageFlags::from_bits_truncate(PageFlags::PRESENT | PageFlags::READABLE | PageFlags::USER_ACCESSIBLE);
        proof {
            assert((1u64 | 2u64 | 16u64) & 31u64 == 19u64 && 19u64 & 1u64 == 1u64) by (bit_vector);
        }
        let ghost m0 = self.tables_view();
        let ghost l4 = self.addrspace()@;
        let mut k: usize = 0;
        while k < frames.len()
            invariant
                k <= frames.len(),
                usize::BITS == 64,
                start % 4096 == 0,
                start + frames.len() * 4096 <= lower_half_limit(),
                flags@ == 19,
                flags.has(PageFlags::PRESENT),
                self.wf(),
                self.addrspace()@ == l4,
                self.addrspace() == old(self).addrspace(),
                m0 == old(self).tables_view(),
                extends(m0, self.tables_view()),
                forall|g: int| 0 <= g < k ==> #[trigger] lookup(self.tables_view(), l4, (start + g * 4096) as usize, 4)
                    == Some((frames@[g]@, memory_map_pte())),
                forall|q: usize|
                    lookup(m0, l4, q, 4) is None && #[trigger] lookup(self.tables_view(), l4, q, 4) is Some
                        ==> exists|j: int|
                        0 <= j < k && lookup(self.tables_view(), l4, q, 4) == Some(
                            (#[trigger] frames@[j]@, memory_map_pte()),
                        ),
                no_new_huge_hits(m0, self.tables_view(), l4),
            decreases frames.len() - k,
        {
            proof {
                assert(k * 4096 < frames.len() * 4096) by (nonlinear_arith)
                    requires
                        k < frames.len(),
                ;
            }
            let addr: usize = start + k * 4096;
            proof {
                assert(addr % 4096 == 0) by {
                    vstd::arithmetic::div_mod::lemma_mod_multiples_vanish(k as int, start as int, 4096);
                }
            }
            let page = Page::from_start_address(crate::mem::VirtAddr::new(addr));
            let frame = frames[k];
            let _base = frame.base();
            let ghost before = self.tables_view();
            proof {
                self.lemma_tables_wf();
            }
            let r = self.map_page(page, frame, flags);
            proof {
                lemma_extends_trans(m0, before, self.tables_view());
                lemma_no_new_huge_trans(m0, before, self.tables_view(), l4);
            }
            if r.is_err() {
                proof {
                    let j = k as int;
                    vstd::arithmetic::div_mod::lemma_fundamental_div_mod(start as int, 4096);
                    assert(((start as int / 4096 + j) * 4096) as usize == page@) by (nonlinear_arith)
                        requires
                            start as int == 4096 * (start as int / 4096) + start as int % 4096,
                            start as int % 4096 == 0,
                            page@ == start + j * 4096,
                    ;
                    let m = self.tables_view();
                    match r {
                        Err(LoadPageError::MapError(MapPageError::HugeParentEntry)) => {
                            assert(hits_huge(before, l4, ((start as int / 4096 + j) * 4096) as usize, 4));
                            assert(hits_huge(m0, l4, ((start as int / 4096 + j) * 4096) as usize, 4));
                        },
                        Err(LoadPageError::MapError(MapPageError::AlreadyMapped(fr))) => {
                            let a = ((start as int / 4096 + j) * 4096) as usize;
                            assert(lookup(m, l4, a, 4) matches Some(x) && x.0 == fr@);
                            if lookup(m0, l4, a, 4) is None {
                                let i = choose|i: int|
                                    0 <= i < k && lookup(before, l4, a, 4) == Some((#[trigger] frames@[i]@, memory_map_pte()));
                                let fs = |i: int| frames@[i]@;
                                assert(fs(i) == frames@[i]@);
                            }
                        },
                        _ => {},
                    }
                }
                return r;
            }
            proof {
                lemma_present_entry(flags, frame);
                lemma_pte_of(flags);
                assert forall|g: int| 0 <= g < k + 1 implies #[trigger] lookup(
                    self.tables_view(),
                    l4,
                    (start + g * 4096) as usize,
                    4,
                ) == Some((frames@[g]@, memory_map_pte())) by {
                    if g < k {
                        lemma_kept(before, self.tables_view(), l4, (start + g * 4096) as usize,
                            (frames@[g]@, memory_map_pte()));
                    }
                }
                let after = self.tables_view();
                assert forall|q: usize|
                    lookup(m0, l4, q, 4) is None && #[trigger] lookup(after, l4, q, 4) is Some implies exists|j: int|
                        0 <= j < k + 1 && lookup(after, l4, q, 4) == Some((#[trigger] frames@[j]@, memory_map_pte())) by {
                    if lookup(before, l4, q, 4) is Some {
                        let j = choose|j: int|
                            0 <= j < k && lookup(before, l4, q, 4) == Some((#[trigger] frames@[j]@, memory_map_pte()));
                        lemma_kept(before, after, l4, q, (frames@[j]@, memory_map_pte()));
                    } else {
                        assert(frames@[k as int] == frame);
                    }
                }
            }
            k = k + 1;
        }
        Ok(())
    }
}

impl Process {
    /// Lays out and maps the initial process whose program enters at
    /// `entry` and whose text ends at `top_of_text` (see `boot_layout`): a
    /// stack of `stack_pages` requested readable and writable, every untyped
    /// frame at its index in the untyped window, present only, the frames of
    /// the memory map read-only, and pages for a ramdisk of `initrd_len`
    /// bytes and boot arguments of `bootargs_size` bytes requested readable.
    /// A segment requested readable is mapped writable as well (see
    /// `PageFlags::from_mem_flags`), so stack, ramdisk and boot-argument
    /// pages all get `user_data_pte`: each of those pages that had no
    /// translation before (in a new address space, every one of them: see
    /// `law_empty_user_half`) is mapped to its frame that way, save that a
    /// ramdisk or boot-argument page whose walk shares a table with a
    /// memory-map or untyped page may show that page's translation. The
    /// process starts at `entry` with its stack at the top and the boot
    /// arguments as argument.
    ///
    /// Loading fails only when the boot allocator runs out of frames, when
    /// the walk of a page to map meets a huge entry that was there before
    /// loading began, or when an untyped or memory-map page is found mapped
    /// other than by the mapping of its own region: before loading began,
    /// by an earlier region, or through a table shared with an earlier page
    /// of the region.
    pub fn load(
        loader: &mut InitLoader,
        entry: usize,
        top_of_text: usize,
        stack_pages: usize,
        initrd_len: usize,
        bootargs_size: usize,
        memory_map: &Vec<Frame>,
        untyped_pages: usize,
    ) -> (r: Result<LoadedProcess, LoadPageError>)
        requires
            old(loader).wf(),
            usize::BITS == 64,
            stack_pages * 4096 <= 0x0000_7000_0000_0000,
            0x0000_7000_0000_0000 + untyped_pages * 4096 <= lower_half_limit(),
            bootargs_size > 0,
            round_up(
                round_up(top_of_text as int, 4096) + memory_map.len() * 4096 + initrd_len,
                bootargs_size as int,
            ) + bootargs_size <= lower_half_limit(),
        ensures
            final(loader).addrspace() == old(loader).addrspace(),
            extends(old(loader).tables_view(), final(loader).tables_view()),
            r matches Ok(lp) ==> {
                let lay = boot_layout(
                    top_of_text as int,
                    stack_pages as int,
                    memory_map.len() as int,
                    initrd_len as int,
                    bootargs_size as int,
                );
                let m = final(loader).tables_view();
                let m0 = old(loader).tables_view();
                let l4 = old(loader).addrspace()@;
                &&& lp.layout == lay
                &&& lp.process.addrspace == old(loader).addrspace()
                &&& lp.process.context@ == entry_regs(entry as u64, lay.stack_top as u64, lay.bootargs_start as u64)
                &&& forall|f: int| 0 <= f < untyped_pages ==> #[trigger] lookup(
                    m,
                    l4,
                    (0x0000_7000_0000_0000 + f * 4096) as usize,
                    4,
                ) == Some(((f * 4096) as u64, untyped_pte()))
                &&& forall|k: int| 0 <= k < memory_map.len() ==> #[trigger] lookup(
                    m,
                    l4,
                    (lay.memory_map_start + k * 4096) as usize,
                    4,
                ) == Some((memory_map@[k]@, memory_map_pte()))
                &&& lp.stack.len() == page_count(lay.stack_bottom as int, lay.stack_top as int)
                &&& lp.initrd.len() == page_count(lay.initrd_start as int, lay.initrd_end as int)
                &&& lp.bootargs.len() == page_count(lay.bootargs_start as int, lay.bootargs_end as int)
                &&& forall|k: int|
                    0 <= k < lp.stack.len() && lookup(m0, l4, region_page(lay.stack_bottom as int, k), 4) is None
                        ==> #[trigger] lookup(m, l4, region_page(lay.stack_bottom as int, k), 4) == Some(
                        (lp.stack@[k]@, user_data_pte()),
                    )
                &&& forall|k: int|
                    0 <= k < lp.initrd.len() ==> #[trigger] data_page(
                        m0,
                        m,
                        l4,
                        region_page(lay.initrd_start as int, k),
                        lp.initrd@[k],
                        memory_map@,
                        untyped_pages as int,
                    )
                &&& forall|k: int|
                    0 <= k < lp.bootargs.len() ==> #[trigger] data_page(
                        m0,
                        m,
                        l4,
                        region_page(lay.bootargs_start as int, k),
                        lp.bootargs@[k],
                        memory_map@,
                        untyped_pages as int,
                    )
            },
            r matches Err(e) ==> {
                let lay = boot_layout(
                    top_of_text as int,
                    stack_pages as int,
                    memory_map.len() as int,
                    initrd_len as int,
                    bootargs_size as int,
                );
                let m0 = old(loader).tables_view();
                let m = final(loader).tables_view();
                let l4 = old(loader).addrspace()@;
                let ex = final(loader).out_of_frames();
                ||| map_failed(
                    e,
                    ex,
                    m0,
                    l4,
                    lay.stack_bottom as int / 4096,
                    page_count(lay.stack_bottom as int, lay.stack_top as int),
                )
                ||| map_failed(e, ex, m0, l4, 0x7_0000_0000, untyped_pages as int)
                ||| map_failed(e, ex, m0, l4, lay.memory_map_start as int / 4096, memory_map.len() as int)
                ||| map_failed(
                    e,
                    ex,
                    m0,
                    l4,
                    lay.initrd_start as int / 4096,
                    page_count(lay.initrd_start as int, lay.initrd_end as int),
                )
                ||| map_failed(
                    e,
                    ex,
                    m0,
                    l4,
                    lay.bootargs_start as int / 4096,
                    page_count(lay.bootargs_start as int, lay.bootargs_end as int),
                )
                ||| e matches LoadPageError::MapError(MapPageError::AlreadyMapped(f)) && region_already_mapped(
                    m0,
                    m,
                    l4,
                    0x7_0000_0000,
                    untyped_pages as int,
                    f@,
                    untyped_pte(),
                    |j: int| untyped_frame(j),
                )
                ||| e matches LoadPageError::MapError(MapPageError::AlreadyMapped(f)) && region_already_mapped(
                    m0,
                    m,
                    l4,
                    lay.memory_map_start as int / 4096,
                    memory_map.len() as int,
                    f@,
                    memory_map_pte(),
                    |j: int| memory_map@[j]@,
                )
            },
    {
        let stack_top: usize = 0x0000_7000_0000_0000u64 as usize;
        let stack_bottom: usize = stack_top - stack_pages * 4096;
        let rw = PageFlags::from_mem_flags(true, true, false);
        let readable = PageFlags::from_mem_flags(true, false, false);
        proof {
            assert(21u64 & 1u64 == 1u64 && 17u64 & 1u64 == 1u64) by (bit_vector);
        }
        let ghost m0 = loader.tables_view();
        let ghost l4 = loader.addrspace()@;
        let stack = match loader.map_range(stack_bottom, stack_top, rw) {
            Ok(v) => v,
            Err(e) => return Err(e),
        };
        let ghost m1 = loader.tables_view();
        proof {
            loader.lemma_tables_wf();
        }
        match loader.map_untyped(untyped_pages) {
            Ok(()) => {},
            Err(e) => {
                proof {
                    lemma_failed_back(e, loader.out_of_frames(), m0, m1, l4, 0x7_0000_0000, untyped_pages as int);
                    match e {
                        LoadPageError::MapError(MapPageError::AlreadyMapped(f)) => {
                            if !map_failed(e, loader.out_of_frames(), m1, l4, 0x7_0000_0000, untyped_pages as int) {
                                lemma_pte_of(rw);
                                assert forall|q: usize|
                                    lookup(m0, l4, q, 4) is None && #[trigger] lookup(m1, l4, q, 4) is Some implies (lookup(
                                    m1,
                                    l4,
                                    q,
                                    4,
                                ) matches Some(y) && y.1 != untyped_pte()) by {
                                    let j = choose|j: int|
                                        0 <= j < stack.len() && lookup(m1, l4, q, 4) == Some((#[trigger] stack@[j]@, pte_bits(rw)));
                                }
                                lemma_already_mapped_back(
                                    m0,
                                    m1,
                                    loader.tables_view(),
                                    l4,
                                    0x7_0000_0000,
                                    untyped_pages as int,
                                    f@,
                                    untyped_pte(),
                                    |j: int| untyped_frame(j),
                                );
                            }
                        },
                        _ => {},
                    }
                }
                return Err(e);
            },
        }
        let ghost m2 = loader.tables_view();
        proof {
            lemma_extends_trans(m0, m1, m2);
            loader.lemma_tables_wf();
        }
        proof {
            lemma_round_up_bounds(top_of_text as int, 4096);
            lemma_round_up_bounds(round_up(top_of_text as int, 4096) + memory_map.len() * 4096 + initrd_len, bootargs_size as int);
        }
        let mm_start: usize = ((top_of_text + 4095) / 4096) * 4096;
        proof {
            assert(mm_start % 4096 == 0) by {
                vstd::arithmetic::div_mod::lemma_mod_multiples_basic(((top_of_text + 4095) / 4096) as int, 4096);
            }
            assert(bootargs_size as int <= round_up(
                round_up(top_of_text as int, 4096) + memory_map.len() * 4096 + initrd_len,
                bootargs_size as int,
            ) + bootargs_size);
            lemma_round_up_bounds(round_up(top_of_text as int, 4096) + memory_map.len() * 4096 + initrd_len, bootargs_size as int);
        }
        match loader.map_frames_at(mm_start, memory_map) {
            Ok(()) => {},
            Err(e) => {
                proof {
                    lemma_no_new_huge_trans(m0, m1, m2, l4);
                    lemma_failed_back(e, loader.out_of_frames(), m0, m2, l4, mm_start as int / 4096, memory_map.len() as int);
                    match e {
                        LoadPageError::MapError(MapPageError::AlreadyMapped(f)) => {
                            if !map_failed(e, loader.out_of_frames(), m2, l4, mm_start as int / 4096, memory_map.len() as int) {
                                lemma_pte_of(rw);
                                assert forall|q: usize|
                                    lookup(m0, l4, q, 4) is None && #[trigger] lookup(m2, l4, q, 4) is Some implies (lookup(
                                    m2,
                                    l4,
                                    q,
                                    4,
                                ) matches Some(y) && y.1 != memory_map_pte()) by {
                                    if lookup(m1, l4, q, 4) is Some {
                                        let j = choose|j: int|
                                            0 <= j < stack.len() && lookup(m1, l4, q, 4) == Some((#[trigger] stack@[j]@, pte_bits(rw)));
                                        lemma_kept(m1, m2, l4, q, (stack@[j]@, pte_bits(rw)));
                                    } else {
                                        let g = choose|g: int|
                                            0 <= g < untyped_pages && lookup(m2, l4, q, 4) == Some((#[trigger] untyped_frame(g), untyped_pte()));
                                    }
                                }
                                lemma_already_mapped_back(
                                    m0,
                                    m2,
                                    loader.tables_view(),
                                    l4,
                                    mm_start as int / 4096,
                                    memory_map.len() as int,
                                    f@,
                                    memory_map_pte(),
                                    |j: int| memory_map@[j]@,
                                );
                            }
                        },
                        _ => {},
                    }
                }
                return Err(e);
            },
        }
        let ghost m3 = loader.tables_view();
        proof {
            lemma_extends_trans(m0, m2, m3);
            assert forall|f: int| 0 <= f < untyped_pages implies #[trigger] lookup(
                m3,
                l4,
                (0x0000_7000_0000_0000 + f * 4096) as usize,
                4,
            ) == Some(((f * 4096) as u64, untyped_pte())) by {
                lemma_kept(m2, m3, l4, (0x0000_7000_0000_0000 + f * 4096) as usize, ((f * 4096) as u64, untyped_pte()));
            }
            loader.lemma_tables_wf();
        }
        let mm_end: usize = mm_start + memory_map.len() * 4096;
        let initrd_start: usize = mm_end;
        let initrd_end: usize = initrd_start + initrd_len;
        let initrd = match loader.map_range(initrd_start, initrd_end, readable) {
            Ok(v) => v,
            Err(e) => return Err(e),
        };
        let ghost m4 = loader.tables_view();
        proof {
            lemma_extends_trans(m0, m3, m4);
            loader.lemma_tables_wf();
        }
        let bootargs_start: usize = ((initrd_end + bootargs_size - 1) / bootargs_size) * bootargs_size;
        let bootargs_end: usize = bootargs_start + bootargs_size;
        let bootargs = match loader.map_range(bootargs_start, bootargs_end, readable) {
            Ok(v) => v,
            Err(e) => return Err(e),
        };
        let ghost m5 = loader.tables_view();
        proof {
            lemma_extends_trans(m0, m4, m5);
            loader.lemma_tables_wf();
            assert forall|f: int| 0 <= f < untyped_pages implies #[trigger] lookup(
                m5,
                l4,
                (0x0000_7000_0000_0000 + f * 4096) as usize,
                4,
            ) == Some(((f * 4096) as u64, untyped_pte())) by {
                lemma_extends_trans(m3, m4, m5);
                lemma_kept(m3, m5, l4, (0x0000_7000_0000_0000 + f * 4096) as usize, ((f * 4096) as u64, untyped_pte()));
            }
            assert forall|k: int| 0 <= k < memory_map.len() implies #[trigger] lookup(
                m5,
                l4,
                (mm_start + k * 4096) as usize,
                4,
            ) == Some((memory_map@[k]@, memory_map_pte())) by {
                lemma_extends_trans(m3, m4, m5);
                lemma_kept(m3, m5, l4, (mm_start + k * 4096) as usize, (memory_map@[k]@, memory_map_pte()));
            }
            lemma_pte_of(rw);
            lemma_pte_of(readable);
            lemma_extends_trans(m1, m2, m3);
            lemma_extends_trans(m1, m3, m4);
            lemma_extends_trans(m1, m4, m5);
            lemma_extends_trans(m3, m4, m5);
            assert forall|k: int|
                0 <= k < stack.len() && lookup(m0, l4, region_page(stack_bottom as int, k), 4) is None implies #[trigger] lookup(
                m5,
                l4,
                region_page(stack_bottom as int, k),
                4,
            ) == Some((stack@[k]@, user_data_pte())) by {
                assert(lookup(m1, l4, ((stack_bottom as int / 4096 + k) * 4096) as usize, 4) == Some(
                    (stack@[k]@, user_data_pte()),
                ));
                lemma_kept(m1, m5, l4, region_page(stack_bottom as int, k), (stack@[k]@, user_data_pte()));
            }
            assert forall|k: int| 0 <= k < initrd.len() implies #[trigger] data_page(
                m0,
                m5,
                l4,
                region_page(initrd_start as int, k),
                initrd@[k],
                memory_map@,
                untyped_pages as int,
            ) by {
                let a = region_page(initrd_start as int, k);
                assert(lookup(m4, l4, ((initrd_start as int / 4096 + k) * 4096) as usize, 4) matches Some(x) && x.0
                    == initrd@[k]@);
                if lookup(m0, l4, a, 4) is None && lookup(m3, l4, a, 4) is Some {
                    lemma_earlier_maps(m0, m1, m2, m3, l4, stack@, untyped_pages as int, memory_map@, a);
                }
                lemma_data_page(m0, m3, m4, m5, l4, a, initrd@[k], memory_map@, untyped_pages as int);
            }
            assert forall|k: int| 0 <= k < bootargs.len() implies #[trigger] data_page(
                m0,
                m5,
                l4,
                region_page(bootargs_start as int, k),
                bootargs@[k],
                memory_map@,
                untyped_pages as int,
            ) by {
                let a = region_page(bootargs_start as int, k);
                assert(lookup(m5, l4, ((bootargs_start as int / 4096 + k) * 4096) as usize, 4) matches Some(x) && x.0
                    == bootargs@[k]@);
                if lookup(m0, l4, a, 4) is None && lookup(m4, l4, a, 4) is Some {
                    if lookup(m3, l4, a, 4) is Some {
                        lemma_earlier_maps(m0, m1, m2, m3, l4, stack@, untyped_pages as int, memory_map@, a);
                        lemma_extends_lookup(m3, m4, l4, a, 4);
                    } else {
                        let j = choose|j: int|
                            0 <= j < initrd.len() && lookup(m4, l4, a, 4) == Some((#[trigger] initrd@[j]@, user_data_pte()));
                    }
                }
                assert(extends(m5, m5));
                lemma_data_page(m0, m4, m5, m5, l4, a, bootargs@[k], memory_map@, untyped_pages as int);
            }
        }
        let context = ExecCtx::for_init_comp(entry, stack_top, bootargs_start);
        let layout = BootLayout {
            stack_bottom,
            stack_top,
            memory_map_start: mm_start,
            memory_map_end: mm_end,
            initrd_start,
            initrd_end,
            bootargs_start,
            bootargs_end,
        };
        Ok(LoadedProcess {
            process: Process { context, addrspace: loader.address_space() },
            layout,
            stack,
            initrd,
            bootargs,
        })
    }
}

/// A translation that the third of three extensions of `m0` has and `m0`
/// lacks was made by one of them: by the first, a stack frame with
/// `user_data_pte`; by the second, an untyped frame present only; by the
/// third, a frame of the memory map.
proof fn lemma_earlier_maps(
    m0: Map<u64, (u8, Seq<u64>)>,
    m1: Map<u64, (u8, Seq<u64>)>,
    m2: Map<u64, (u8, Seq<u64>)>,
    m3: Map<u64, (u8, Seq<u64>)>,
    l4: u64,
    stack: Seq<Frame>,
    untyped_pages: int,
    memory_map: Seq<Frame>,
    a: usize,
)
    requires
        crate::addrspace::tables_wf(m1),
        crate::addrspace::tables_wf(m2),
        extends(m1, m2),
        extends(m2, m3),
        new_maps_among(m0, m1, l4, stack, user_data_pte()),
        new_untyped_maps(m1, m2, l4, untyped_pages),
        new_maps_among(m2, m3, l4, memory_map, memory_map_pte()),
        lookup(m0, l4, a, 4) is None,
        lookup(m3, l4, a, 4) is Some,
    ensures
        lookup(m3, l4, a, 4) matches Some(x) && (x.1 == user_data_pte() || map_or_untyped(x, memory_map, untyped_pages)),
{
    lemma_extends_trans(m1, m2, m3);
    if lookup(m1, l4, a, 4) is Some {
        let j = choose|j: int| 0 <= j < stack.len() && lookup(m1, l4, a, 4) == Some((#[trigger] stack[j]@, user_data_pte()));
        lemma_kept(m1, m3, l4, a, (stack[j]@, user_data_pte()));
    } else if lookup(m2, l4, a, 4) is Some {
        let f = choose|f: int| 0 <= f < untyped_pages && lookup(m2, l4, a, 4) == Some((#[trigger] untyped_frame(f), untyped_pte()));
        lemma_kept(m2, m3, l4, a, (untyped_frame(f), untyped_pte()));
    } else {
        let j = choose|j: int| 0 <= j < memory_map.len() && lookup(m3, l4, a, 4) == Some((#[trigger] memory_map[j]@, memory_map_pte()));
    }
}

/// A page that a mapping step took from `m_pre` to `m_post` (with
/// `user_data_pte` where it had no translation, its frame `frame` in any
/// case), whose translation, if it had one in `m_pre` but not in `m0`, was
/// made with `user_data_pte` or as a memory-map or untyped page, is a data
/// page of any extension `m` of `m_post`.
proof fn lemma_data_page(
    m0: Map<u64, (u8, Seq<u64>)>,
    m_pre: Map<u64, (u8, Seq<u64>)>,
    m_post: Map<u64, (u8, Seq<u64>)>,
    m: Map<u64, (u8, Seq<u64>)>,
    l4: u64,
    a: usize,
    frame: Frame,
    memory_map: Seq<Frame>,
    untyped_pages: int,
)
    requires
        crate::addrspace::tables_wf(m_pre),
        crate::addrspace::tables_wf(m_post),
        extends(m_pre, m_post),
        extends(m_post, m),
        lookup(m_post, l4, a, 4) matches Some(x) && x.0 == frame@,
        lookup(m_pre, l4, a, 4) is None ==> lookup(m_post, l4, a, 4) == Some((frame@, user_data_pte())),
        lookup(m0, l4, a, 4) is None && lookup(m_pre, l4, a, 4) is Some ==> (lookup(m_pre, l4, a, 4) matches Some(x)
            && (x.1 == user_data_pte() || map_or_untyped(x, memory_map, untyped_pages))),
    ensures
        data_page(m0, m, l4, a, frame, memory_map, untyped_pages),
{
    lemma_extends_lookup(m_post, m, l4, a, 4);
    if lookup(m_pre, l4, a, 4) is Some {
        lemma_extends_lookup(m_pre, m_post, l4, a, 4);
    }
}

/// Rounding `n` up to a multiple of `m` neither lowers it nor raises it by
/// `m` or more.
proof fn lemma_round_up_bounds(n: int, m: int)
    requires
        n >= 0,
        m > 0,
    ensures
        n <= round_up(n, m) < n + m,
{
    let q = (n + m - 1) / m;
    let r = (n + m - 1) % m;
    vstd::arithmetic::div_mod::lemma_fundamental_div_mod(n + m - 1, m);
    vstd::arithmetic::div_mod::lemma_mod_bound(n + m - 1, m);
    assert(q * m == n + m - 1 - r) by (nonlinear_arith)
        requires
            n + m - 1 == m * q + r,
    ;
}

/// The name the initial ramdisk module's path ends with.
pub open spec fn initrd_suffix() -> Seq<u8> {
    seq![105u8, 110, 105, 116, 114, 100, 46, 116, 97, 114]
}

/// Whether `path` ends with `initrd.tar`.
pub open spec fn is_initrd_path(path: Seq<u8>) -> bool {
    path.len() >= 10 && path.subrange(path.len() - 10, path.len() as int) == initrd_suffix()
}

/// The first of the boot modules (given by their paths) that is the
/// initial ramdisk, if any.
pub fn find_initrd(paths: &Vec<Vec<u8>>) -> (r: Option<usize>)
    ensures
        r matches Some(i) ==> i < paths.len() && is_initrd_path(paths@[i as int]@) && forall|j: int|
            0 <= j < i ==> !is_initrd_path(#[trigger] paths@[j]@),
        r is None ==> forall|j: int| 0 <= j < paths.len() ==> !is_initrd_path(#[trigger] paths@[j]@),
{
    let suffix: [u8; 10] = [105u8, 110, 105, 116, 114, 100, 46, 116, 97, 114];
    assert(suffix@ == initrd_suffix());
    let mut i: usize = 0;
    while i < paths.len()
        invariant
            i <= paths.len(),
            suffix@ == initrd_suffix(),
            forall|j: int| 0 <= j < i ==> !is_initrd_path(#[trigger] paths@[j]@),
        decreases paths.len() - i,
    {
        let path = &paths[i];
        if path.len() >= 10 {
            let base: usize = path.len() - 10;
            let mut k: usize = 0;
            let mut same = true;
            while k < 10
                invariant
                    k <= 10,
                    base + 10 == path.len(),
                    suffix@ == initrd_suffix(),
                    same <==> forall|x: int| 0 <= x < k ==> path@[base + x] == suffix@[x],
                decreases 10 - k,
            {
                if path[base + k] != suffix[k] {
                    same = false;
                }
                k = k + 1;
            }
            if same {
                assert(path@.subrange(base as int, path@.len() as int) =~= initrd_suffix());
                return Some(i);
            }
            proof {
                let x = choose|x: int| 0 <= x < 10 && path@[base + x] != suffix@[x];
                assert(path@.subrange(base as int, path@.len() as int)[x] != initrd_suffix()[x]);
            }
        }
        i = i + 1;
    }
    None
}

/// A file listed in a tar archive: the bytes of its name when the name is
/// valid UTF-8, and its contents.
#[derive(Debug)]
pub struct TarFile {
    pub name: Option<Vec<u8>>,
    pub data: Vec<u8>,
}

/// A listed file as values: its name's bytes (if valid UTF-8) and contents.
pub open spec fn tar_file_view(f: TarFile) -> (Option<Seq<u8>>, Seq<u8>) {
    (
        match f.name {
            Some(n) => Some(n@),
            None => None,
        },
        f.data@,
    )
}

/// Listed files as values.
pub open spec fn listed(files: Seq<TarFile>) -> Seq<(Option<Seq<u8>>, Seq<u8>)> {
    files.map_values(|f: TarFile| tar_file_view(f))
}

/// The files `tar_no_std` lists in the archive `archive`, in order, each
/// as its name's bytes (when the name is valid UTF-8) and its contents.
pub uninterp spec fn tar_files(archive: Seq<u8>) -> Seq<(Option<Seq<u8>>, Seq<u8>)>;

/// What `tar_no_std` accepts as an archive: a whole number of 512-byte
/// blocks, at least three of them.
pub open spec fn tar_well_sized(archive: Seq<u8>) -> bool {
    &&& archive.len() > 0
    &&& archive.len() % 512 == 0
    &&& archive.len() / 512 >= 3
}

/// `tar_no_std::TarArchiveRef::new` on `archive`, then its `entries`:
/// `None` when the archive is refused (its size is no whole number of at
/// least three 512-byte blocks), else the files listed, each file's name
/// (`filename().as_str()`, as bytes) and contents (`data()`). What the
/// listing holds is named, not stated.
#[verifier::external_body]
fn tar_list(archive: &[u8]) -> (r: Option<Vec<TarFile>>)
    ensures
        r is Some <==> tar_well_sized(archive@),
        r matches Some(v) ==> listed(v@) == tar_files(archive@),
{
    let tar = tar_no_std::TarArchiveRef::new(archive).ok()?;
    let files = tar.entries().map(|e| TarFile {
        name: e.filename().as_str().ok().map(|n| n.as_bytes().to_vec()),
        data: e.data().to_vec(),
    });
    Some(files.collect())
}

/// The name of the initial program in the initial ramdisk: `init`.
pub open spec fn init_name() -> Seq<u8> {
    seq![105u8, 110, 105, 116]
}

/// The contents of the first of `files` named `init`, if any; files whose
/// name isn't valid UTF-8 are skipped.
pub open spec fn init_in(files: Seq<(Option<Seq<u8>>, Seq<u8>)>) -> Option<Seq<u8>>
    decreases files.len(),
{
    if files.len() == 0 {
        None
    } else if files[0].0 == Some(init_name()) {
        Some(files[0].1)
    } else {
        init_in(files.drop_first())
    }
}

/// Errors of finding the initial program.
#[derive(Debug, Clone, Copy, PartialEq, Eq, Structural)]
pub enum InitrdError {
    /// The ramdisk is no tar archive.
    InvalidImage,
    /// The ramdisk holds no file named `init`.
    MissingInit,
}

/// Whether `name` is `init`.
fn is_init_name(name: &Vec<u8>) -> (r: bool)
    ensures
        r == (name@ == init_name()),
{
    if name.len() != 4 {
        return false;
    }
    let same = name[0] == 105u8 && name[1] == 110u8 && name[2] == 105u8 && name[3] == 116u8;
    proof {
        if same {
            assert(name@ =~= init_name());
        }
    }
    same
}

/// The position of the first of the listed `files` named `init`, if any.
fn init_index(files: &Vec<TarFile>) -> (r: Option<usize>)
    ensures
        match init_in(listed(files@)) {
            Some(d) => r matches Some(i) && i < files@.len() && listed(files@)[i as int].1 == d,
            None => r is None,
        },
{
    let ghost all = listed(files@);
    let mut i: usize = 0;
    proof {
        assert(all.skip(0) =~= all);
    }
    while i < files.len()
        invariant
            i <= files.len(),
            all == listed(files@),
            init_in(all) == init_in(all.skip(i as int)),
        decreases files.len() - i,
    {
        proof {
            assert(all.skip(i as int)[0] == all[i as int]);
            assert(all.skip(i as int).drop_first() =~= all.skip(i as int + 1));
            assert(all[i as int] == tar_file_view(files@[i as int]));
        }
        let found = match &files[i].name {
            Some(n) => is_init_name(n),
            None => false,
        };
        if found {
            return Some(i);
        }
        i = i + 1;
    }
    proof {
        assert(all.skip(i as int) =~= Seq::<(Option<Seq<u8>>, Seq<u8>)>::empty());
    }
    None
}

/// The contents of the first of the listed `files` named `init`, if any.
pub fn init_file(files: Vec<TarFile>) -> (r: Option<Vec<u8>>)
    ensures
        match init_in(listed(files@)) {
            Some(d) => r matches Some(v) && v@ == d,
            None => r is None,
        },
{
    match init_index(&files) {
        Some(i) => {
            let ghost here = files@[i as int];
            let mut files = files;
            let f = files.remove(i);
            proof {
                assert(tar_file_view(here).1 == here.data@);
            }
            Some(f.data)
        },
        None => None,
    }
}

/// The initial program in the initial ramdisk `initrd`: the contents of its
/// first file named `init`. A ramdisk that is no tar archive is
/// `InvalidImage`; one without such a file `MissingInit`.
pub fn find_init(initrd: &[u8]) -> (r: Result<Vec<u8>, InitrdError>)
    ensures
        !tar_well_sized(initrd@) ==> r == Err::<Vec<u8>, InitrdError>(InitrdError::InvalidImage),
        tar_well_sized(initrd@) ==> match init_in(tar_files(initrd@)) {
            Some(d) => r matches Ok(v) && v@ == d,
            None => r == Err::<Vec<u8>, InitrdError>(InitrdError::MissingInit),
        },
{
    let files = match tar_list(initrd) {
        Some(f) => f,
        None => return Err(InitrdError::InvalidImage),
    };
    match init_file(files) {
        Some(d) => Ok(d),
        None => Err(InitrdError::MissingInit),
    }
}

/// The end of the lower half of the address space.
pub open spec fn lower_half_limit() -> int {
    0x8000_0000_0000
}

/// The number of pages overlapping `[start, end)`.
pub open spec fn page_count(start: int, end: int) -> int {
    (end + 4095) / 4096 - start / 4096
}

/// An entry made of a frame and present hardware flags reads back as that
/// frame and those flags.
proof fn lemma_present_entry(flags: PageFlags, f: Frame)
    requires
        flags.has(PageFlags::PRESENT),
        f.wf(),
    ensures
        decode_entry(pte_bits(flags) | f@) == Some((f@, pte_bits(flags))),
{
    crate::page_table::lemma_pte_bits(flags);
    let b = flags@;
    let w: u64 = if flags.has(PageFlags::WRITABLE) { 2 } else { 0 };
    let x: u64 = if !flags.has(PageFlags::EXECUTABLE) { 0x8000_0000_0000_0000 } else { 0 };
    let u: u64 = if flags.has(PageFlags::USER_ACCESSIBLE) { 4 } else { 0 };
    let pb = pte_bits(flags);
    assert(pb == w | x | 1 | u);
    assert(pb & 1 == 1 && pb != 0) by (bit_vector)
        requires
            pb == w | x | 1 | u,
    ;
    crate::addrspace::lemma_entry_parts(pb, f@);
}

} // verus!

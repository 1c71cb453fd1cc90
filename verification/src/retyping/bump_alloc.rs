//! The boot-time allocator that carves frames straight out of the
//! bootloader's memory map.

use vstd::prelude::*;

use crate::mem::{Frame, PhysAddr};
use crate::mem::phys::phys_limit;

verus! {

/// Memory-map entry type: usable RAM.
pub const MEMMAP_USABLE: u64 = 0;
/// Memory-map entry type: reserved.
pub const MEMMAP_RESERVED: u64 = 1;
/// Memory-map entry type: ACPI memory that may be reclaimed.
pub const MEMMAP_ACPI_RECLAIMABLE: u64 = 2;
/// Memory-map entry type: ACPI non-volatile storage.
pub const MEMMAP_ACPI_NVS: u64 = 3;
/// Memory-map entry type: defective memory.
pub const MEMMAP_BAD_MEMORY: u64 = 4;
/// Memory-map entry type: bootloader data that may be reclaimed.
pub const MEMMAP_BOOTLOADER_RECLAIMABLE: u64 = 5;
/// Memory-map entry type: the kernel image and boot modules.
pub const MEMMAP_EXECUTABLE_AND_MODULES: u64 = 6;
/// Memory-map entry type: the framebuffer.
pub const MEMMAP_FRAMEBUFFER: u64 = 7;

/// One region of the bootloader's physical memory map.
#[derive(Debug, Copy, Clone)]
pub struct MemMapEntry {
    /// First physical address of the region.
    pub base: u64,
    /// Length in bytes of the region.
    pub length: u64,
    /// What the region holds (one of the `MEMMAP_*` constants).
    pub entry_type: u64,
}

/// A memory-map entry describes whole frames inside 52-bit physical memory.
pub open spec fn entry_wf(e: MemMapEntry) -> bool {
    &&& e.base % 4096 == 0
    &&& e.length % 4096 == 0
    &&& e.base + e.length < phys_limit()
}

/// Every entry of the map is well formed.
pub open spec fn map_wf(es: Seq<MemMapEntry>) -> bool {
    forall|k: int| 0 <= k < es.len() ==> #[trigger] entry_wf(es[k])
}

/// Whether a request for `need` bytes can be carved out of `e`: it must be
/// usable memory at least that long.
pub open spec fn fits(e: MemMapEntry, need: int) -> bool {
    e.entry_type == MEMMAP_USABLE && e.length >= need
}

/// `e` with its first `need` bytes carved off.
pub open spec fn carved(e: MemMapEntry, need: int) -> MemMapEntry {
    MemMapEntry { base: (e.base + need) as u64, length: (e.length - need) as u64, entry_type: e.entry_type }
}

/// The index of the first entry at or after `from` that fits `need`
/// bytes, or the length of the map when none does.
pub open spec fn first_fit(es: Seq<MemMapEntry>, from: int, need: int) -> int
    decreases es.len() - from,
{
    if from >= es.len() {
        es.len() as int
    } else if fits(es[from], need) {
        from
    } else {
        first_fit(es, from + 1, need)
    }
}

/// `first_fit` lands on a fitting entry or past the end, and no entry
/// it skipped fits.
pub proof fn lemma_first_fit(es: Seq<MemMapEntry>, from: int, need: int)
    requires
        0 <= from,
    ensures
        from <= first_fit(es, from, need) || (from > es.len() && first_fit(es, from, need) == es.len()),
        first_fit(es, from, need) <= es.len() || first_fit(es, from, need) == from,
        first_fit(es, from, need) < es.len() ==> fits(es[first_fit(es, from, need)], need),
        forall|k: int| from <= k < first_fit(es, from, need) && k < es.len() ==> !fits(#[trigger] es[k], need),
    decreases es.len() - from,
{
    if from < es.len() && !fits(es[from], need) {
        lemma_first_fit(es, from + 1, need);
    }
}

/// Hands out frames from the usable entries of a memory map, front to back.
#[derive(Debug)]
pub struct BumpAllocator {
    memory_map: Vec<MemMapEntry>,
    index: usize,
}

impl BumpAllocator {
    /// The current state of the memory map.
    pub closed spec fn map(&self) -> Seq<MemMapEntry> {
        self.memory_map@
    }

    /// The entry the allocator currently carves from.
    pub closed spec fn cursor(&self) -> int {
        self.index as int
    }

    /// An allocator starting at the first entry of `memory_map`.
    pub fn new(memory_map: Vec<MemMapEntry>) -> (r: Self)
        ensures
            r.map() == memory_map@,
            r.cursor() == 0,
    {
        Self { memory_map, index: 0 }
    }

    /// Carves one frame off the first non-empty usable entry at or after the
    /// cursor, which moves to that entry; `None` once no such entry remains.
    pub fn alloc_frame(&mut self) -> (r: Option<Frame>)
        requires
            map_wf(old(self).map()),
        ensures
            map_wf(final(self).map()),
            ({
                let j = first_fit(old(self).map(), old(self).cursor(), 4096);
                if j < old(self).map().len() {
                    &&& r matches Some(f) && f@ == old(self).map()[j].base
                    &&& final(self).cursor() == j
                    &&& final(self).map() == old(self).map().update(j, carved(old(self).map()[j], 4096))
                } else {
                    &&& r is None
                    &&& final(self).map() == old(self).map()
                }
            }),
    {
        proof {
            lemma_first_fit(self.memory_map@, self.index as int, 4096);
        }
        let ghost start = self.index as int;
        let ghost need: int = 4096;
        let mut found: u64 = 0;
        loop
            invariant_except_break
                self.memory_map@ == old(self).memory_map@,
                start <= self.index,
                start == old(self).index,
                map_wf(self.memory_map@),
                need == 4096,
                forall|k: int| start <= k < self.index ==> !fits(#[trigger] self.memory_map@[k], 4096),
                first_fit(old(self).memory_map@, start, 4096) == first_fit(
                    self.memory_map@,
                    self.index as int,
                    4096,
                ),
            ensures
                ({
                    let j = first_fit(old(self).map(), start, 4096);
                    j < old(self).map().len() && found == old(self).map()[j].base && self.index
                        == j && self.memory_map@ == old(self).map().update(
                        j,
                        carved(old(self).map()[j], 4096),
                    ) && map_wf(self.memory_map@)
                }),
            decreases self.memory_map.len() - self.index,
        {
            if self.index >= self.memory_map.len() {
                assert(first_fit(self.memory_map@, self.index as int, need) == self.memory_map@.len());
                return None;
            }
            let i = self.index;
            let entry = self.memory_map[i];
            proof {
                assert(entry_wf(self.memory_map@[i as int]));
            }
            if entry.entry_type == MEMMAP_USABLE && entry.length > 0 {
                let start_address: u64 = entry.base;
                let e = MemMapEntry {
                    base: entry.base + Frame::SIZE,
                    length: entry.length - Frame::SIZE,
                    entry_type: entry.entry_type,
                };
                self.memory_map.set(i, e);
                proof {
                    assert(fits(entry, 4096));
                    assert(entry_wf(e));
                    assert forall|k: int| 0 <= k < self.memory_map@.len() implies #[trigger] entry_wf(
                        self.memory_map@[k],
                    ) by {
                        if k != i {
                            assert(entry_wf(old(self).memory_map@[k]));
                        }
                    }
                }
                found = start_address;
                break;
            }
            proof {
                assert(!fits(entry, 4096));
            }
            self.index = self.index + 1;
        }
        proof {
            assert(entry_wf(old(self).memory_map@[self.index as int]));
        }
        Some(Frame::from_start_address(PhysAddr::new(found)))
    }

    /// Carves `count` contiguous frames off the first usable entry at or
    /// after the cursor that is long enough, which the cursor moves to;
    /// returns their first address, or `None` when no entry is long enough.
    pub fn alloc_frames(&mut self, count: usize) -> (r: Option<PhysAddr>)
        requires
            map_wf(old(self).map()),
            count * 4096 <= u64::MAX,
        ensures
            map_wf(final(self).map()),
            ({
                let need = count * 4096;
                let j = first_fit(old(self).map(), old(self).cursor(), need);
                if j < old(self).map().len() {
                    &&& r matches Some(a) && a@ == old(self).map()[j].base
                    &&& final(self).cursor() == j
                    &&& final(self).map() == old(self).map().update(j, carved(old(self).map()[j], need))
                } else {
                    &&& r is None
                    &&& final(self).map() == old(self).map()
                }
            }),
    {
        let requested_length: u64 = count as u64 * Frame::SIZE;
        let ghost need = count * 4096;
        proof {
            lemma_first_fit(self.memory_map@, self.index as int, need);
        }
        let ghost start = self.index as int;
        let mut found: u64 = 0;
        loop
            invariant_except_break
                self.memory_map@ == old(self).memory_map@,
                start <= self.index,
                start == old(self).index,
                requested_length == need,
                need == count * 4096,
                map_wf(self.memory_map@),
                first_fit(old(self).memory_map@, start, need) == first_fit(
                    self.memory_map@,
                    self.index as int,
                    need,
                ),
            ensures
                ({
                    let j = first_fit(old(self).map(), start, need);
                    j < old(self).map().len() && found == old(self).map()[j].base
                        && self.index == j && self.memory_map@ == old(self).map().update(
                        j,
                        carved(old(self).map()[j], need),
                    ) && map_wf(self.memory_map@)
                }),
            decreases self.memory_map.len() - self.index,
        {
            if self.index >= self.memory_map.len() {
                assert(first_fit(self.memory_map@, self.index as int, need) == self.memory_map@.len());
                return None;
            }
            let i = self.index;
            let entry = self.memory_map[i];
            proof {
                assert(entry_wf(self.memory_map@[i as int]));
            }
            if entry.entry_type == MEMMAP_USABLE && entry.length >= requested_length {
                let start_address: u64 = entry.base;
                let e = MemMapEntry {
                    base: entry.base + requested_length,
                    length: entry.length - requested_length,
                    entry_type: entry.entry_type,
                };
                self.memory_map.set(i, e);
                proof {
                    vstd::arithmetic::div_mod::lemma_mod_multiples_basic(count as int, 4096);
                    assert(need % 4096 == 0);
                    assert(entry_wf(e)) by {
                        vstd::arithmetic::div_mod::lemma_mod_adds(entry.base as int, need, 4096);
                        vstd::arithmetic::div_mod::lemma_mod_sub_multiples_vanish(entry.length as int, 4096);
                        assert((entry.length - need) % 4096 == 0) by (nonlinear_arith)
                            requires
                                entry.length % 4096 == 0,
                                need % 4096 == 0,
                                entry.length >= need,
                        ;
                    }
                    assert forall|k: int| 0 <= k < self.memory_map@.len() implies #[trigger] entry_wf(
                        self.memory_map@[k],
                    ) by {
                        if k != i {
                            assert(entry_wf(old(self).memory_map@[k]));
                        }
                    }
                }
                found = start_address;
                break;
            }
            self.index = self.index + 1;
        }
        proof {
            assert(entry_wf(old(self).memory_map@[self.index as int]));
        }
        Some(PhysAddr::new(found))
    }

    /// The memory map, with the allocated frames carved off.
    pub fn into_memory_map(self) -> (r: Vec<MemMapEntry>)
        ensures
            r@ == self.map(),
    {
        self.memory_map
    }

    /// The memory map, with the allocated frames carved off so far.
    pub fn memory_map(&self) -> (r: &Vec<MemMapEntry>)
        ensures
            r@ == self.map(),
    {
        &self.memory_map
    }
}

} // verus!

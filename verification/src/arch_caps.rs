//! Architecture capabilities of x86-64: page tables of each level and the
//! interrupt controller, the page-table operations userspace invokes on
//! them, and the table binding interrupt lines to notifications.

use vstd::prelude::*;

use crate::addrspace::{child_ok, replaced, tables_wf, PageTables, X64Addrspace};
use crate::caps::{CapError, Notification};
use crate::core_local::core_cell::{BindError, CoreCell, GetError, NO_AFFINITY};
use crate::kmem::KPtr;
use crate::mem::{Frame, PageFlags};
use crate::page_table::{
    lemma_pte_bits, pte_bits, PageTableFlags, PageTableOffset, FLAGS_MASK, FRAME_MASK,
};
use crate::retyping::{decode, encode, frame_index, RetypeTable, State, MAX_REF_COUNT};

verus! {

/// A capability on an architecture object.
#[derive(Debug)]
pub enum ArchCaps {
    VMTableL4(KPtr),
    VMTableL3(KPtr),
    VMTableL2(KPtr),
    VMTableL1(KPtr),
    IrqCtrl,
}

/// What introspecting an architecture capability reports.
#[derive(Debug)]
pub enum IntrospectResult {
    VMTable(VMTable),
    IrqCtrl,
}

/// The contents of a page table as reported to userspace.
#[derive(Debug)]
pub struct VMTable {
    /// The frame holding the table.
    pub kobj: Frame,
    pub level: u8,
    /// The raw entries.
    pub entries: Vec<u64>,
}

/// What `vm_link` does: refuse non-table capabilities, levels that aren't
/// adjacent and slots past the table, or else point the slot of the top
/// table at the bottom table with the hardware form of `flags`.
pub open spec fn link_outcome(
    top: ArchCaps,
    slot: usize,
    bottom: ArchCaps,
    flags: PageFlags,
    before: Map<u64, (u8, Seq<u64>)>,
    after: Map<u64, (u8, Seq<u64>)>,
    r: Result<(), CapError>,
) -> bool {
    match (top.vmtable(), bottom.vmtable()) {
        (Some((tf, tl)), Some((bf, bl))) => if tl != bl + 1 {
            r == Err::<(), CapError>(CapError::VMLinkNotFlat) && after == before
        } else if slot >= 512 {
            r == Err::<(), CapError>(CapError::InvalidArg) && after == before
        } else {
            r is Ok && after == before.insert(
                tf@,
                (tl, before[tf@].1.update(slot as int, pte_bits(flags) | bf@)),
            )
        },
        _ => r == Err::<(), CapError>(CapError::InvalidCapType) && after == before,
    }
}

/// What `vm_unlink` does: refuse non-table capabilities and slots past the
/// table, or else clear the slot.
pub open spec fn unlink_outcome(
    table: ArchCaps,
    slot: usize,
    before: Map<u64, (u8, Seq<u64>)>,
    after: Map<u64, (u8, Seq<u64>)>,
    r: Result<(), CapError>,
) -> bool {
    match table.vmtable() {
        Some((tf, tl)) => if slot >= 512 {
            r == Err::<(), CapError>(CapError::InvalidArg) && after == before
        } else {
            r is Ok && after == before.insert(tf@, (tl, before[tf@].1.update(slot as int, 0)))
        },
        None => r == Err::<(), CapError>(CapError::InvalidCapType) && after == before,
    }
}

/// What `vm_set_attributes` does: refuse non-table capabilities and slots
/// past the table, or else keep the slot's frame and replace its flags with
/// the hardware form of `attributes`.
pub open spec fn set_attributes_outcome(
    table: ArchCaps,
    slot: usize,
    attributes: PageFlags,
    before: Map<u64, (u8, Seq<u64>)>,
    after: Map<u64, (u8, Seq<u64>)>,
    r: Result<(), CapError>,
) -> bool {
    match table.vmtable() {
        Some((tf, tl)) => if slot >= 512 {
            r == Err::<(), CapError>(CapError::InvalidArg) && after == before
        } else {
            r is Ok && after == before.insert(
                tf@,
                (tl, before[tf@].1.update(slot as int, (before[tf@].1[slot as int] & FRAME_MASK) | pte_bits(attributes))),
            )
        },
        None => r == Err::<(), CapError>(CapError::InvalidCapType) && after == before,
    }
}

impl ArchCaps {
    /// The frame and level of the page table the capability names, if any.
    pub open spec fn vmtable(&self) -> Option<(Frame, u8)> {
        match self {
            ArchCaps::VMTableL4(k) => Some((k@, 4u8)),
            ArchCaps::VMTableL3(k) => Some((k@, 3u8)),
            ArchCaps::VMTableL2(k) => Some((k@, 2u8)),
            ArchCaps::VMTableL1(k) => Some((k@, 1u8)),
            ArchCaps::IrqCtrl => None,
        }
    }

    /// The page table the capability names is stored at the level the
    /// capability gives it.
    pub open spec fn fits(&self, tables: &PageTables) -> bool {
        self.vmtable() matches Some((f, l)) ==> tables@.contains_key(f@) && tables@[f@].0 == l
    }

    /// A capability on a new, empty page table of `level` in `frame`, which
    /// must be an unused kernel frame; the frame's count becomes 1. Whatever
    /// table the frame held before is replaced (see `replaced`).
    pub fn new_vmtable(frame: Frame, level: u8, retype: &mut RetypeTable, tables: &mut PageTables) -> (r: Result<Self, CapError>)
        requires
            old(tables).wf(),
        ensures
            final(tables).wf(),
            final(retype).base() == old(retype).base(),
            ({
                let v = old(retype)@[frame_index(frame)];
                if !old(retype).covers(frame) {
                    r == Err::<Self, CapError>(CapError::InvalidArg) && final(retype)@ == old(retype)@
                        && final(tables)@ == old(tables)@
                } else if v == encode(State::Kernel, 0) {
                    if 1 <= level <= 4 {
                        &&& r matches Ok(c) && c.vmtable() == Some((frame, level))
                        &&& final(retype)@ == old(retype)@.update(frame_index(frame), encode(State::Kernel, 1))
                        &&& final(tables)@ == replaced(old(tables)@, frame@, level)
                    } else {
                        &&& r == Err::<Self, CapError>(CapError::InvalidVMTableLevel)
                        &&& final(retype)@ == old(retype)@
                        &&& final(tables)@ == old(tables)@
                    }
                } else if decode(v).0 != State::Kernel {
                    r == Err::<Self, CapError>(CapError::NotKernelTyped) && final(retype)@ == old(retype)@
                        && final(tables)@ == old(tables)@
                } else {
                    r == Err::<Self, CapError>(CapError::FrameInUse) && final(retype)@ == old(retype)@
                        && final(tables)@ == old(tables)@
                }
            }),
    {
        let table = match KPtr::new(frame, retype) {
            Ok(k) => k,
            Err(e) => return Err(CapError::from(e)),
        };
        if level < 1 || level > 4 {
            proof {
                assert(decode(encode(State::Kernel, 1)) == (State::Kernel, 1u16));
            }
            table.drop(retype);
            proof {
                assert(final(retype)@ =~= old(retype)@);
            }
            return Err(CapError::InvalidVMTableLevel);
        }
        tables.reset_table(frame, level);
        let cap = if level == 1 {
            ArchCaps::VMTableL1(table)
        } else if level == 2 {
            ArchCaps::VMTableL2(table)
        } else if level == 3 {
            ArchCaps::VMTableL3(table)
        } else {
            ArchCaps::VMTableL4(table)
        };
        Ok(cap)
    }

    /// A level 4 table capability on the table of `addrspace`, whose frame
    /// is a counted kernel frame; its count grows by one.
    pub fn new_addrspace(addrspace: &X64Addrspace, retype: &mut RetypeTable) -> (r: Self)
        requires
            old(retype).covers(addrspace.table_frame()),
            old(retype).state_of(addrspace.table_frame()).0 == State::Kernel,
            0 < old(retype).state_of(addrspace.table_frame()).1 < MAX_REF_COUNT,
        ensures
            r.vmtable() == Some((addrspace.table_frame(), 4u8)),
            final(retype).base() == old(retype).base(),
            final(retype)@ == old(retype)@.update(
                frame_index(addrspace.table_frame()),
                (old(retype)@[frame_index(addrspace.table_frame())] + 1) as u16,
            ),
    {
        let frame = addrspace.frame();
        let k = KPtr::from_frame_unchecked(frame.as_kernel_unchecked(retype));
        ArchCaps::VMTableL4(k)
    }

    /// The level 4 table of an address-space capability.
    pub fn as_addrspace(&self) -> (r: Result<&KPtr, CapError>)
        ensures
            match self {
                ArchCaps::VMTableL4(k) => r == Ok::<&KPtr, CapError>(k),
                _ => r == Err::<&KPtr, CapError>(CapError::InvalidArg),
            },
    {
        match self {
            ArchCaps::VMTableL4(addrspace) => Ok(addrspace),
            _ => Err(CapError::InvalidArg),
        }
    }

    /// The table of a page-table capability of any level.
    pub fn as_vmtable(&self) -> (r: Result<&KPtr, CapError>)
        ensures
            match self.vmtable() {
                Some((f, _)) => r matches Ok(k) && k@ == f,
                None => r == Err::<&KPtr, CapError>(CapError::InvalidCapType),
            },
    {
        match self {
            ArchCaps::VMTableL4(kptr) => Ok(kptr),
            ArchCaps::VMTableL3(kptr) => Ok(kptr),
            ArchCaps::VMTableL2(kptr) => Ok(kptr),
            ArchCaps::VMTableL1(kptr) => Ok(kptr),
            _ => Err(CapError::InvalidCapType),
        }
    }

    /// The table and level of a page-table capability.
    fn table_level(&self) -> (r: Result<(Frame, u8), CapError>)
        ensures
            match self.vmtable() {
                Some(x) => r == Ok::<(Frame, u8), CapError>(x),
                None => r == Err::<(Frame, u8), CapError>(CapError::InvalidCapType),
            },
    {
        match self {
            ArchCaps::VMTableL4(kptr) => Ok((kptr.frame(), 4)),
            ArchCaps::VMTableL3(kptr) => Ok((kptr.frame(), 3)),
            ArchCaps::VMTableL2(kptr) => Ok((kptr.frame(), 2)),
            ArchCaps::VMTableL1(kptr) => Ok((kptr.frame(), 1)),
            _ => Err(CapError::InvalidCapType),
        }
    }

    /// Links entry `slot` of the table of `top_table` to the table of
    /// `bottom_table`, one level down, with `flags`.
    pub fn vm_link(top_table: &Self, slot: usize, bottom_table: &Self, flags: PageFlags, tables: &mut PageTables) -> (r: Result<(), CapError>)
        requires
            old(tables).wf(),
            top_table.fits(old(tables)),
            bottom_table.fits(old(tables)),
        ensures
            final(tables).wf(),
            link_outcome(*top_table, slot, *bottom_table, flags, old(tables)@, final(tables)@, r),
    {
        let (top, top_level) = top_table.table_level()?;
        let (bottom, bottom_level) = bottom_table.table_level()?;
        if top_level != bottom_level + 1 {
            return Err(CapError::VMLinkNotFlat);
        }
        let slot = match PageTableOffset::try_from_usize(slot) {
            Ok(s) => s,
            Err(e) => return Err(CapError::from(e)),
        };
        let pflags = PageTableFlags::from_page_flags(flags);
        let _base = bottom.base();
        proof {
            lemma_pte_bits(flags);
            crate::addrspace::lemma_entry_parts(pflags@, bottom@);
        }
        tables.link_entry(top, slot, bottom, pflags);
        Ok(())
    }

    /// Clears entry `slot` of the table of `table`.
    pub fn vm_unlink(table: &Self, slot: usize, tables: &mut PageTables) -> (r: Result<(), CapError>)
        requires
            old(tables).wf(),
            table.fits(old(tables)),
        ensures
            final(tables).wf(),
            unlink_outcome(*table, slot, old(tables)@, final(tables)@, r),
    {
        let (t, _level) = table.table_level()?;
        let slot = match PageTableOffset::try_from_usize(slot) {
            Ok(s) => s,
            Err(e) => return Err(CapError::from(e)),
        };
        tables.clear_entry(t, slot);
        Ok(())
    }

    /// Replaces the flags of entry `slot` of the table of `table` with the
    /// hardware form of `attributes`, keeping the frame it names. The
    /// store stays well formed when the new entry is one the walk may
    /// follow (always at level 1).
    pub fn vm_set_attributes(table: &Self, slot: usize, attributes: PageFlags, tables: &mut PageTables) -> (r: Result<(), CapError>)
        requires
            old(tables).wf(),
            table.fits(old(tables)),
        ensures
            set_attributes_outcome(*table, slot, attributes, old(tables)@, final(tables)@, r),
            (r is Err || child_ok(old(tables)@, (table.vmtable()->0).1, final(tables)@[(table.vmtable()->0).0@].1[slot as int]))
                ==> final(tables).wf(),
    {
        let (t, _level) = table.table_level()?;
        let slot = match PageTableOffset::try_from_usize(slot) {
            Ok(s) => s,
            Err(e) => return Err(CapError::from(e)),
        };
        proof {
            old(tables).lemma_wf();
        }
        let _ = tables.set_entry_flags(t, slot, PageTableFlags::from_page_flags(attributes));
        Ok(())
    }

    /// Reports what the capability names: a page table with its frame,
    /// level and raw entries, or the interrupt controller.
    pub fn introspect(&self, tables: &PageTables) -> (r: IntrospectResult)
        requires
            tables.wf(),
            self.fits(tables),
        ensures
            match self.vmtable() {
                Some((f, l)) => r matches IntrospectResult::VMTable(t) && t.kobj == f && t.level == l
                    && t.entries@ == tables@[f@].1,
                None => r is IrqCtrl,
            },
    {
        match self {
            ArchCaps::VMTableL4(kptr) => Self::introspect_vmtable(4, kptr, tables),
            ArchCaps::VMTableL3(kptr) => Self::introspect_vmtable(3, kptr, tables),
            ArchCaps::VMTableL2(kptr) => Self::introspect_vmtable(2, kptr, tables),
            ArchCaps::VMTableL1(kptr) => Self::introspect_vmtable(1, kptr, tables),
            ArchCaps::IrqCtrl => IntrospectResult::IrqCtrl,
        }
    }

    fn introspect_vmtable(level: u8, table: &KPtr, tables: &PageTables) -> (r: IntrospectResult)
        requires
            tables.wf(),
            tables@.contains_key(table@@),
        ensures
            r matches IntrospectResult::VMTable(t) && t.kobj == table@ && t.level == level && t.entries@
                == tables@[table@@].1,
    {
        let entries = tables.entries(table.frame());
        IntrospectResult::VMTable(VMTable { kobj: table.frame(), level, entries })
    }

    /// Another capability on the same object; a page-table capability's
    /// table frame gets one more reference.
    pub fn clone(&self, retype: &mut RetypeTable) -> (r: Self)
        requires
            self.vmtable() matches Some((f, _)) ==> old(retype).covers(f) && old(retype).state_of(f).0
                == State::Kernel && 0 < old(retype).state_of(f).1 < MAX_REF_COUNT,
        ensures
            r.vmtable() == self.vmtable(),
            r is IrqCtrl <==> self is IrqCtrl,
            final(retype).base() == old(retype).base(),
            match self.vmtable() {
                Some((f, _)) => final(retype)@ == old(retype)@.update(
                    frame_index(f),
                    (old(retype)@[frame_index(f)] + 1) as u16,
                ),
                None => final(retype)@ == old(retype)@,
            },
    {
        match self {
            ArchCaps::VMTableL4(k) => ArchCaps::VMTableL4(k.clone(retype)),
            ArchCaps::VMTableL3(k) => ArchCaps::VMTableL3(k.clone(retype)),
            ArchCaps::VMTableL2(k) => ArchCaps::VMTableL2(k.clone(retype)),
            ArchCaps::VMTableL1(k) => ArchCaps::VMTableL1(k.clone(retype)),
            ArchCaps::IrqCtrl => ArchCaps::IrqCtrl,
        }
    }

    /// Releases the capability: a page-table capability gives its table
    /// frame's reference back.
    pub fn drop(self, retype: &mut RetypeTable)
        requires
            self.vmtable() matches Some((f, _)) ==> old(retype).covers(f) && old(retype).state_of(f).0
                == State::Kernel && old(retype).state_of(f).1 > 0,
        ensures
            final(retype).base() == old(retype).base(),
            match self.vmtable() {
                Some((f, _)) => final(retype)@ == old(retype)@.update(
                    frame_index(f),
                    (old(retype)@[frame_index(f)] - 1) as u16,
                ),
                None => final(retype)@ == old(retype)@,
            },
    {
        match self {
            ArchCaps::VMTableL4(k) => k.drop(retype),
            ArchCaps::VMTableL3(k) => k.drop(retype),
            ArchCaps::VMTableL2(k) => k.drop(retype),
            ArchCaps::VMTableL1(k) => k.drop(retype),
            ArchCaps::IrqCtrl => {},
        }
    }

    /// The interrupt-controller capability.
    pub fn irq_ctrl() -> (r: Result<Self, CapError>)
        ensures
            r matches Ok(c) && c is IrqCtrl,
    {
        Ok(ArchCaps::IrqCtrl)
    }
}

/// The notification a line holds, as its waiter's frame and badge.
pub open spec fn line_view(n: Option<Notification>) -> Option<(Frame, u32)> {
    match n {
        Some(n) => Some((n.waiter_frame(), n.badge_spec())),
        None => None,
    }
}

/// `f` holds a counted reference in `retype`.
pub open spec fn held(retype: &RetypeTable, f: Frame) -> bool {
    &&& retype.covers(f)
    &&& retype.state_of(f).0 == State::Kernel
    &&& retype.state_of(f).1 > 0
}

/// The notifications bound to the 15 interrupt lines, used from the core the
/// table is bound to.
pub struct IrqCtrlTable {
    binding: CoreCell<()>,
    lines: Vec<Option<Notification>>,
}

impl IrqCtrlTable {
    /// What each line notifies.
    pub closed spec fn view(&self) -> Seq<Option<(Frame, u32)>> {
        self.lines@.map_values(|n: Option<Notification>| line_view(n))
    }

    /// The raw affinity word of the table (`NO_AFFINITY` when unbound).
    pub closed spec fn affinity(&self) -> u16 {
        self.binding.affinity_word()
    }

    /// The number of live guards on the table's binding.
    pub closed spec fn guards(&self) -> usize {
        self.binding.refs_view()
    }

    /// The binding counts exactly the guards taken on it and not given back.
    pub closed spec fn binding_wf(&self) -> bool {
        self.binding.wf()
    }

    /// A table with its 15 lines and a consistent binding.
    pub open spec fn wf(&self) -> bool {
        self@.len() == 15 && self.binding_wf()
    }

    /// Every waiter the table holds has a counted reference in `retype`.
    pub open spec fn held_in(&self, retype: &RetypeTable) -> bool {
        forall|j: int| 0 <= j < self@.len() ==> (#[trigger] self@[j] matches Some((w, _)) ==> held(retype, w))
    }

    /// A table bound to no core whose lines notify nothing.
    pub fn new() -> (r: Self)
        ensures
            r@ == Seq::new(15, |j: int| None::<(Frame, u32)>),
            r.affinity() == NO_AFFINITY,
            r.guards() == 0,
    {
        let mut lines: Vec<Option<Notification>> = Vec::new();
        let mut j: usize = 0;
        while j < 15
            invariant
                j <= 15,
                lines@.len() == j,
                forall|k: int| 0 <= k < j ==> lines@[k] is None,
            decreases 15 - j,
        {
            lines.push(None);
            j = j + 1;
        }
        let r = Self { binding: CoreCell::new(()), lines };
        assert(r@ =~= Seq::new(15, |j: int| None::<(Frame, u32)>));
        r
    }

    /// Binds the table to core `core`, unless it is bound to another one.
    pub fn bind_to_core(&mut self, core: u16) -> (r: Result<(), BindError>)
        requires
            old(self).wf(),
            core != NO_AFFINITY,
            (old(self).affinity() == NO_AFFINITY || old(self).affinity() == core) ==> old(self).guards() == 0,
        ensures
            final(self).wf(),
            final(self)@ == old(self)@,
            final(self).guards() == old(self).guards(),
            (old(self).affinity() == NO_AFFINITY || old(self).affinity() == core) ==> (r is Ok && final(self).affinity() == core),
            (old(self).affinity() != NO_AFFINITY && old(self).affinity() != core) ==> (r matches Err(
                BindError::Bound { affinity },
            ) && affinity == old(self).affinity() && final(self).affinity() == old(self).affinity()),
    {
        let guard = self.binding.bind(core)?;
        self.binding.release(guard);
        Ok(())
    }

    /// Binds line `irq` to `notification` from core `core`; the notification
    /// it held before is released. Refused, releasing `notification`, when
    /// the table is not bound to `core`.
    pub fn set(&mut self, core: u16, irq: u8, notification: Option<Notification>, retype: &mut RetypeTable) -> (r: Result<
        (),
        GetError,
    >)
        requires
            old(self).wf(),
            (old(self).affinity() == core && core != NO_AFFINITY) ==> irq < 15,
            (old(self).affinity() == core && core != NO_AFFINITY) ==> old(self).guards() < usize::MAX,
            notification matches Some(n) ==> held(old(retype), n.waiter_frame()),
            irq < 15 ==> (old(self)@[irq as int] matches Some((w, _)) ==> held(old(retype), w)),
        ensures
            final(self).wf(),
            final(self).affinity() == old(self).affinity(),
            final(self).guards() == old(self).guards(),
            final(retype).base() == old(retype).base(),
            (old(self).affinity() == core && core != NO_AFFINITY) ==> {
                &&& r is Ok
                &&& final(self)@ == old(self)@.update(irq as int, line_view(notification))
                &&& final(retype)@ == match old(self)@[irq as int] {
                    Some((w, _)) => old(retype)@.update(frame_index(w), (old(retype)@[frame_index(w)] - 1) as u16),
                    None => old(retype)@,
                }
            },
            !(old(self).affinity() == core && core != NO_AFFINITY) ==> {
                &&& r == Err::<(), GetError>(GetError::Unbound)
                &&& final(self)@ == old(self)@
                &&& final(retype)@ == match notification {
                    Some(n) => old(retype)@.update(
                        frame_index(n.waiter_frame()),
                        (old(retype)@[frame_index(n.waiter_frame())] - 1) as u16,
                    ),
                    None => old(retype)@,
                }
            },
    {
        let guard = match self.binding.try_get(core) {
            Ok(g) => g,
            Err(e) => {
                match notification {
                    Some(n) => n.into_waiter().drop(retype),
                    None => {},
                }
                return Err(e);
            },
        };
        let i = irq as usize;
        let previous = self.lines.remove(i);
        self.lines.insert(i, notification);
        self.binding.release(guard);
        proof {
            assert(self@ =~= old(self)@.update(irq as int, line_view(notification)));
        }
        match previous {
            Some(n) => n.into_waiter().drop(retype),
            None => {},
        }
        Ok(())
    }

    /// Another handle on the notification line `irq` holds, read from core
    /// `cpu`; its waiter gets one more reference. Refused when the table is
    /// not bound to `cpu`.
    pub fn get(&mut self, cpu: u16, irq: u8, retype: &mut RetypeTable) -> (r: Result<Option<Notification>, GetError>)
        requires
            old(self).wf(),
            (old(self).affinity() == cpu && cpu != NO_AFFINITY) ==> irq < 15,
            (old(self).affinity() == cpu && cpu != NO_AFFINITY) ==> old(self).guards() < usize::MAX,
            irq < 15 ==> (old(self)@[irq as int] matches Some((w, _)) ==> held(old(retype), w) && old(
                retype,
            ).state_of(w).1 < MAX_REF_COUNT),
        ensures
            final(self)@ == old(self)@,
            final(self).affinity() == old(self).affinity(),
            final(self).guards() == old(self).guards(),
            final(retype).base() == old(retype).base(),
            (old(self).affinity() == cpu && cpu != NO_AFFINITY) ==> (r matches Ok(n) && line_view(n) == old(self)@[irq as int]
                && final(retype)@ == match old(self)@[irq as int] {
                Some((w, _)) => old(retype)@.update(frame_index(w), (old(retype)@[frame_index(w)] + 1) as u16),
                None => old(retype)@,
            }),
            !(old(self).affinity() == cpu && cpu != NO_AFFINITY) ==> (r == Err::<Option<Notification>, GetError>(
                GetError::Unbound,
            ) && final(retype)@ == old(retype)@),
    {
        let guard = self.binding.try_get(cpu)?;
        let i = irq as usize;
        let n = match &self.lines[i] {
            Some(n) => Some(Notification::new(n.waiter().clone(retype), n.badge())),
            None => None,
        };
        self.binding.release(guard);
        Ok(n)
    }
}

impl ArchCaps {
    /// Binds interrupt line `irq` of `irqs` to `notification` (or unbinds
    /// it), from core `cpu`. Only the interrupt-controller capability may,
    /// else `InvalidCapType`; a line beyond 255 is `InvalidArg`; a table not
    /// bound to `cpu` is `IrqTableBindInvalid`, whatever the line. A line
    /// from 15 to 255 of a table bound to `cpu` is left out: the table has
    /// 15 lines. On a refusal the
    /// notification is released; on success the one the line held before.
    pub fn irq_set(
        &self,
        irq: usize,
        notification: Option<Notification>,
        irqs: &mut IrqCtrlTable,
        cpu: u16,
        retype: &mut RetypeTable,
    ) -> (r: Result<(), CapError>)
        requires
            old(irqs).wf(),
            self is IrqCtrl && old(irqs).affinity() == cpu && cpu != NO_AFFINITY ==> !(15 <= irq < 256),
            (old(irqs).affinity() == cpu && cpu != NO_AFFINITY) ==> old(irqs).guards() < usize::MAX,
            notification matches Some(n) ==> held(old(retype), n.waiter_frame()),
            old(irqs).held_in(old(retype)),
        ensures
            final(irqs).wf(),
            final(irqs).affinity() == old(irqs).affinity(),
            final(irqs).guards() == old(irqs).guards(),
            final(retype).base() == old(retype).base(),
            ({
                let dropped = match notification {
                    Some(n) => old(retype)@.update(
                        frame_index(n.waiter_frame()),
                        (old(retype)@[frame_index(n.waiter_frame())] - 1) as u16,
                    ),
                    None => old(retype)@,
                };
                if !(self is IrqCtrl) {
                    r == Err::<(), CapError>(CapError::InvalidCapType) && final(irqs)@ == old(irqs)@
                        && final(retype)@ == dropped
                } else if irq > 255 {
                    r == Err::<(), CapError>(CapError::InvalidArg) && final(irqs)@ == old(irqs)@
                        && final(retype)@ == dropped
                } else if !(old(irqs).affinity() == cpu && cpu != NO_AFFINITY) {
                    r == Err::<(), CapError>(CapError::IrqTableBindInvalid) && final(irqs)@ == old(irqs)@
                        && final(retype)@ == dropped
                } else {
                    &&& r is Ok
                    &&& final(irqs)@ == old(irqs)@.update(irq as int, line_view(notification))
                    &&& final(retype)@ == match old(irqs)@[irq as int] {
                        Some((w, _)) => old(retype)@.update(frame_index(w), (old(retype)@[frame_index(w)] - 1) as u16),
                        None => old(retype)@,
                    }
                }
            }),
    {
        let refused = match self {
            ArchCaps::IrqCtrl => if irq > 255 {
                Some(CapError::InvalidArg)
            } else {
                None
            },
            _ => Some(CapError::InvalidCapType),
        };
        if let Some(e) = refused {
            match notification {
                Some(n) => n.into_waiter().drop(retype),
                None => {},
            }
            return Err(e);
        }
        let line = irq as u8;
        proof {
            if irq < 15 {
                assert(old(irqs)@[irq as int] matches Some((w, _)) ==> held(old(retype), w));
            }
        }
        match irqs.set(cpu, line, notification, retype) {
            Ok(()) => Ok(()),
            Err(_) => Err(CapError::IrqTableBindInvalid),
        }
    }
}

} // verus!

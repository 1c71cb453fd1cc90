//! System calls on capability tables, page tables, frame types, threads and
//! interrupt lines, run for a thread whose capability table is block `root`
//! of the kernel's trie. Arguments arrive already read from the caller's
//! registers and memory.

use vstd::prelude::*;
use vstd::hash_map::HashMapWithView;

use crate::addrspace::{replaced, PageTables};
use crate::arch_caps::{
    held, link_outcome, set_attributes_outcome, unlink_outcome, ArchCaps, IntrospectResult as ArchIntrospect, IrqCtrlTable,
};
use crate::caps::{kernel_use_error_code, retype_error_code, CapBlockRef, CapError, Capability, Notification, SyncCall};
use crate::core_local::core_cell::{BindError, NO_AFFINITY};
use crate::caps::trie::{
    after_release, decode_state, encode_state, lemma_lookup_same_views, lemma_state_roundtrip, InternalState, Trie,
    TrieBlock, TrieSetError, TrieSlotPayload,
};
use crate::exec::{call_regs, entry_regs, AnyRet, CallRetAbi, ExecCtx, IrqCtx, Regs};
use crate::kmem::KPtr;
use crate::mem::{Frame, PageFlags};
use crate::retyping::{decode, encode, frame_index, RetypeError, RetypeTable, State, MAX_REF_COUNT};
use crate::thread::{bound_to, switched_from, DispatchToken, law_call_then_return, same_level_with_regs, posted, RunState, SigWaitResult, popped_return, pushed_call, released, ret_regs, same_but_levels, thread_started, Thread};

verus! {

broadcast use vstd::std_specs::hash::axiom_u64_obeys_hash_table_key_model;

/// No reference count in `retype` has reached the maximum.
pub open spec fn counts_below_max(retype: Seq<u16>) -> bool {
    forall|f: int| 0 <= f < retype.len() ==> decode(#[trigger] retype[f]).1 < MAX_REF_COUNT
}

/// The kernel state system calls act on: frame types, page tables, the
/// capability trie, thread objects (by the address of their frame) and the
/// interrupt line table.
pub struct Kernel<const COUNT: usize> {
    pub retype: RetypeTable,
    pub tables: PageTables,
    pub caps: Trie<COUNT, Capability>,
    pub threads: HashMapWithView<u64, Thread>,
    pub irqs: IrqCtrlTable,
}

/// The kind of object `cap_table_cons` creates, with its arguments.
#[derive(Debug)]
pub enum ConsArgs {
    /// A thread entering at `entry` with stack `rsp` and first argument
    /// `arg0`, running with the resources capability `resources`, its
    /// object in `frame`.
    Thread { entry: usize, rsp: usize, resources: u32, frame: Frame, arg0: usize },
    /// An empty capability table in `frame`.
    CTable { frame: Frame },
    /// An empty page table of `level` in `frame`.
    VMTable { frame: Frame, level: u8 },
    /// A synchronous call endpoint entering at `entry` with the resources
    /// capability `resources`.
    SyncCall { entry: usize, resources: u32 },
}

/// Which type `retype` turns a frame into.
#[derive(Debug, Clone, Copy, PartialEq, Eq, Structural)]
pub enum RetypeKind {
    IntoUntyped,
    IntoKernel,
    IntoUser,
}

/// What a capability names when introspected.
#[derive(Debug)]
pub enum IntrospectResult {
    Thread(Frame),
    CBlock(Frame),
    CLink(usize),
    SyncCall { resources: Frame, entry: usize },
    Resources(Frame),
    Notification { waiter: Frame, badge: u32 },
    Arch(ArchIntrospect),
    Empty,
}

/// The payload of the slot that capability `id` names from block `root`.
pub open spec fn found_payload<const COUNT: usize>(caps: Trie<COUNT, Capability>, root: int, id: nat) -> Option<
    TrieSlotPayload<Capability>,
> {
    match caps.lookup(root, id) {
        Some(i) => caps.payload_at(i),
        None => None,
    }
}

/// The block a capability-table capability names; a missing capability or a
/// link is `CapNotFound`, another capability `InvalidArg`.
pub open spec fn ctable_of(p: Option<TrieSlotPayload<Capability>>) -> Result<usize, CapError> {
    match p {
        Some(TrieSlotPayload::Data(Capability::CapBlock(c))) => Ok(c.block),
        Some(TrieSlotPayload::Data(_)) => Err(CapError::InvalidArg),
        _ => Err(CapError::CapNotFound),
    }
}

/// The architecture capability a payload holds.
pub open spec fn arch_of(p: Option<TrieSlotPayload<Capability>>) -> Result<ArchCaps, CapError> {
    match p {
        Some(TrieSlotPayload::Data(Capability::Arch(a))) => Ok(a),
        Some(TrieSlotPayload::Data(_)) => Err(CapError::InvalidArg),
        _ => Err(CapError::CapNotFound),
    }
}

/// The frame of the resources a resources capability names.
pub open spec fn resources_of(p: Option<TrieSlotPayload<Capability>>) -> Result<Frame, CapError> {
    match p {
        Some(TrieSlotPayload::Data(Capability::CompResource(k))) => Ok(k@),
        Some(TrieSlotPayload::Data(_)) => Err(CapError::InvalidArg),
        _ => Err(CapError::CapNotFound),
    }
}

/// The capability a payload holds; a missing capability or a link is
/// `CapNotFound`.
pub open spec fn data_of(p: Option<TrieSlotPayload<Capability>>) -> Result<Capability, CapError> {
    match p {
        Some(TrieSlotPayload::Data(c)) => Ok(c),
        _ => Err(CapError::CapNotFound),
    }
}

/// `r` reports the payload `p` (nothing, a link, or a capability with the
/// frame it references, and for a page table its level and entries in `m`).
pub open spec fn introspection_of(
    p: Option<TrieSlotPayload<Capability>>,
    m: Map<u64, (u8, Seq<u64>)>,
    r: IntrospectResult,
) -> bool {
    match p {
        None => r is Empty,
        Some(TrieSlotPayload::Link(k)) => r == IntrospectResult::CLink(k),
        Some(TrieSlotPayload::Data(c)) => match c {
            Capability::Thread(k) => r == IntrospectResult::Thread(k@),
            Capability::CapBlock(b) => r == IntrospectResult::CBlock(b.kptr@),
            Capability::SyncCall(s) => r == IntrospectResult::SyncCall { resources: s.comp_frame(), entry: s.entry_spec() },
            Capability::CompResource(k) => r == IntrospectResult::Resources(k@),
            Capability::Notification(n) => r == IntrospectResult::Notification {
                waiter: n.waiter_frame(),
                badge: n.badge_spec(),
            },
            Capability::Arch(a) => r matches IntrospectResult::Arch(x) && match a.vmtable() {
                Some((f, l)) => x matches ArchIntrospect::VMTable(t) && t.kobj == f && t.level == l && t.entries@
                    == m[f@].1,
                None => x is IrqCtrl,
            },
        },
    }
}

/// The resources frame and entry point of a synchronous-call capability.
pub open spec fn synccall_of(p: Option<TrieSlotPayload<Capability>>) -> Result<(Frame, usize), CapError> {
    match p {
        Some(TrieSlotPayload::Data(Capability::SyncCall(s))) => Ok((s.comp_frame(), s.entry_spec())),
        Some(TrieSlotPayload::Data(_)) => Err(CapError::InvalidArg),
        _ => Err(CapError::CapNotFound),
    }
}

/// The waiter frame and badge of a notification capability.
pub open spec fn notification_of(p: Option<TrieSlotPayload<Capability>>) -> Result<(Frame, u32), CapError> {
    match p {
        Some(TrieSlotPayload::Data(Capability::Notification(n))) => Ok((n.waiter_frame(), n.badge_spec())),
        Some(TrieSlotPayload::Data(_)) => Err(CapError::InvalidArg),
        _ => Err(CapError::CapNotFound),
    }
}

/// The frame of the thread a thread capability names.
pub open spec fn thread_of(p: Option<TrieSlotPayload<Capability>>) -> Result<Frame, CapError> {
    match p {
        Some(TrieSlotPayload::Data(Capability::Thread(k))) => Ok(k@),
        Some(TrieSlotPayload::Data(_)) => Err(CapError::InvalidArg),
        _ => Err(CapError::CapNotFound),
    }
}

/// What a synchronous call through an endpoint with resources `f` and entry
/// `entry`, made from the registers `regs`, does to thread `t0` (giving
/// `t1`) and to the retype entries `e0` (giving `e1`), and returns: refused
/// at 16 levels, else the callee level is pushed and its registers are
/// returned, the endpoint's resources gaining a reference.
pub open spec fn invoke_outcome(
    t0: Thread,
    t1: Thread,
    e0: Seq<u16>,
    e1: Seq<u16>,
    f: Frame,
    entry: usize,
    regs: Regs,
    r: Result<ExecCtx, CapError>,
) -> bool {
    let before = t0.stack().contexts();
    let after = t1.stack().contexts();
    &&& same_but_levels(t0, t1)
    &&& if before.len() == 16 {
        &&& r == Err::<ExecCtx, CapError>(CapError::SyncInvokeLimit)
        &&& after == before
        &&& e1 == e0
    } else {
        &&& r matches Ok(x) && x@ == call_regs(entry as u64, regs)
        &&& pushed_call(before, after, after.last(), regs)
        &&& after.last().regs() == call_regs(entry as u64, regs)
        &&& after.last().resources_frame() == f
        &&& after.last().ret_abi() is Standard
        &&& e1 == e0.update(frame_index(f), (e0[frame_index(f)] + 1) as u16)
    }
}

/// What returning from the active level of thread `t0` does to it (giving
/// `t1`) and to the retype entries `e0` (giving `e1`), and returns: refused
/// at the base level; otherwise the level is removed and releases its
/// resources, and unless it never returns the caller resumes by its
/// convention.
pub open spec fn ret_outcome(t0: Thread, t1: Thread, e0: Seq<u16>, e1: Seq<u16>, r: Result<ExecCtx, CapError>) -> bool {
    let before = t0.stack().contexts();
    let after = t1.stack().contexts();
    let n = before.len();
    &&& same_but_levels(t0, t1)
    &&& if n == 1 {
        &&& r == Err::<ExecCtx, CapError>(CapError::SyncRetLimit)
        &&& after == before
        &&& e1 == e0
    } else {
        &&& e1 == released(e0, before.last().resources_frame())
        &&& if before.last().ret_abi() is NoReturn {
            r == Err::<ExecCtx, CapError>(CapError::SyncRetOnNoRetAbi) && after == before.drop_last()
        } else {
            &&& r matches Ok(x) && x@ == ret_regs(before.last().ret_abi(), before[n - 2].regs())
            &&& popped_return(before, after)
        }
    }
}

/// A synchronous call that went through, followed by the return from it,
/// leaves the retype entries as they were and the thread's levels as they
/// were, but for the caller's registers: those saved at the call with the
/// call's result in `rax`, which is also what is dispatched.
pub proof fn law_sync_call_round_trip(
    t0: Thread,
    t1: Thread,
    t2: Thread,
    e0: Seq<u16>,
    e1: Seq<u16>,
    e2: Seq<u16>,
    f: Frame,
    entry: usize,
    regs: Regs,
    r1: Result<ExecCtx, CapError>,
    r2: Result<ExecCtx, CapError>,
)
    requires
        1 <= t0.stack().contexts().len() < 16,
        0 <= frame_index(f) < e0.len(),
        e0[frame_index(f)] < u16::MAX,
        invoke_outcome(t0, t1, e0, e1, f, entry, regs, r1),
        ret_outcome(t1, t2, e1, e2, r2),
    ensures
        e2 == e0,
        same_but_levels(t0, t2),
        t2.stack().contexts().len() == t0.stack().contexts().len(),
        forall|i: int| 0 <= i < t0.stack().contexts().len() - 1 ==> t2.stack().contexts()[i]
            == t0.stack().contexts()[i],
        same_level_with_regs(
            t2.stack().contexts().last(),
            t0.stack().contexts().last(),
            ret_regs(AnyRet::Standard(CallRetAbi), regs),
        ),
        r2 matches Ok(x) && x@ == ret_regs(AnyRet::Standard(CallRetAbi), regs),
{
    let a = t0.stack().contexts();
    let b = t1.stack().contexts();
    let c = t2.stack().contexts();
    law_call_then_return(a, b, c, b.last(), regs);
    assert(e2 =~= e0);
}

/// The outcome of checking that `frame` is an unused kernel frame.
pub open spec fn unused_kernel(t: RetypeTable, frame: Frame) -> Result<(), CapError> {
    if !t.covers(frame) {
        Err(CapError::InvalidArg)
    } else if t@[frame_index(frame)] == encode(State::Kernel, 0) {
        Ok(())
    } else if decode(t@[frame_index(frame)]).0 != State::Kernel {
        Err(CapError::NotKernelTyped)
    } else {
        Err(CapError::FrameInUse)
    }
}

/// What `retype` does to the entries `t` for the frame with entry `i`: a
/// free untyped frame becomes a user or kernel frame without references, a
/// user or kernel frame without references becomes untyped again.
pub open spec fn retype_outcome(t: Seq<u16>, i: int, to: RetypeKind) -> (Result<(), CapError>, Seq<u16>) {
    if !(0 <= i < t.len()) {
        (Err(CapError::FrameOffAvailableMemoryRange), t)
    } else {
        let v = t[i];
        let s = decode(v).0;
        match to {
            RetypeKind::IntoUser => if v == encode(State::Untyped, 0) {
                (Ok(()), t.update(i, encode(State::User, 0)))
            } else {
                (Err(retype_error_code(RetypeError::InvalidFromState(s))), t)
            },
            RetypeKind::IntoKernel => if v == encode(State::Untyped, 0) {
                (Ok(()), t.update(i, encode(State::Kernel, 0)))
            } else {
                (Err(retype_error_code(RetypeError::InvalidFromState(s))), t)
            },
            RetypeKind::IntoUntyped => if v == encode(State::User, 0) || v == encode(State::Kernel, 0) {
                (Ok(()), t.update(i, encode(State::Untyped, 0)))
            } else if s == State::Kernel {
                (Err(CapError::FrameRefsExist), t)
            } else {
                (Err(retype_error_code(RetypeError::InvalidFromState(s))), t)
            },
        }
    }
}

impl<const COUNT: usize> Kernel<COUNT> {
    /// A kernel state over the given frame types, page tables and
    /// capabilities, with no thread objects.
    pub fn new(retype: RetypeTable, tables: PageTables, caps: Trie<COUNT, Capability>) -> (r: Self)
        ensures
            r.retype == retype,
            r.tables == tables,
            r.caps == caps,
            r.threads@ == Map::<u64, Thread>::empty(),
            r.irqs@ == Seq::new(15, |j: int| None::<(Frame, u32)>),
            r.irqs.affinity() == NO_AFFINITY,
            r.irqs.guards() == 0,
    {
        Self { retype, tables, caps, threads: HashMapWithView::new(), irqs: IrqCtrlTable::new() }
    }

    /// `f` is a kernel frame with at least one reference.
    pub open spec fn counted(&self, f: Frame) -> bool {
        &&& self.retype.covers(f)
        &&& self.retype.state_of(f).0 == State::Kernel
        &&& self.retype.state_of(f).1 > 0
    }

    /// A capability held in slot `i` fits the rest of the state: the frame
    /// it references is a counted kernel frame, a table capability names an
    /// existing block, and an architecture capability a stored table of its
    /// level.
    pub open spec fn slot_fits(&self, i: int) -> bool {
        match self.caps.payload_at(i) {
            Some(TrieSlotPayload::Data(c)) => {
                &&& (c.frame() matches Some(f) ==> self.counted(f))
                &&& (c matches Capability::CapBlock(b) ==> b.block < self.caps.blocks())
                &&& (c matches Capability::Arch(a) ==> a.fits(&self.tables))
            },
            _ => true,
        }
    }

    /// What system calls of the thread with table `root` need: well-formed
    /// trie and page tables, no saturated reference count, and capabilities
    /// that fit the state.
    pub open spec fn ready(&self, root: usize) -> bool {
        &&& self.caps.wf()
        &&& self.caps.refs_ok()
        &&& root < self.caps.blocks()
        &&& self.tables.wf()
        &&& forall|f: int| 0 <= f < self.retype@.len() ==> decode(#[trigger] self.retype@[f]).1 < MAX_REF_COUNT
        &&& forall|i: int| 0 <= i < self.caps.slot_count() ==> #[trigger] self.slot_fits(i)
    }

    /// Looks `id` up from `root`: the flat index of the slot, or `None`.
    fn find(&mut self, root: usize, id: u32) -> (r: Option<usize>)
        requires
            old(self).ready(root),
        ensures
            final(self).ready(root),
            final(self).retype == old(self).retype,
            final(self).tables == old(self).tables,
            final(self).threads == old(self).threads,
            final(self).irqs == old(self).irqs,
            final(self).caps.payloads_view() == old(self).caps.payloads_view(),
            final(self).caps.blocks() == old(self).caps.blocks(),
            final(self).caps.slot_count() == old(self).caps.slot_count(),
            r is Some <==> old(self).caps.lookup(root as int, id as nat) is Some,
            r matches Some(i) ==> i == old(self).caps.lookup(root as int, id as nat)->0 && i
                < old(self).caps.slot_count() && final(self).caps.states_view() == old(self).caps.states_view()
                && !(crate::caps::trie::decode_state(old(self).caps.state_at(i as int)) is Dead),
    {
        let r = self.caps.find(root, id as usize);
        proof {
            assert forall|i: int| 0 <= i < self.caps.slot_count() implies #[trigger] self.slot_fits(i) by {
                assert(old(self).slot_fits(i));
            }
        }
        r
    }

    /// The block named by the capability-table capability `id`.
    fn lookup_ctable(&mut self, root: usize, id: u32) -> (r: Result<usize, CapError>)
        requires
            old(self).ready(root),
        ensures
            final(self).ready(root),
            final(self).retype == old(self).retype,
            final(self).tables == old(self).tables,
            final(self).threads == old(self).threads,
            final(self).irqs == old(self).irqs,
            final(self).caps.payloads_view() == old(self).caps.payloads_view(),
            final(self).caps.blocks() == old(self).caps.blocks(),
            final(self).caps.slot_count() == old(self).caps.slot_count(),
            r == ctable_of(found_payload(old(self).caps, root as int, id as nat)),
            r is Ok ==> final(self).caps.states_view() == old(self).caps.states_view() && r->Ok_0
                < old(self).caps.blocks(),
    {
        let i = match self.find(root, id) {
            Some(i) => i,
            None => return Err(CapError::CapNotFound),
        };
        proof {
            assert(old(self).slot_fits(i as int));
        }
        match self.caps.payload_at_index(i) {
            TrieSlotPayload::Data(Capability::CapBlock(c)) => Ok(c.block),
            TrieSlotPayload::Data(_) => Err(CapError::InvalidArg),
            TrieSlotPayload::Link(_) => Err(CapError::CapNotFound),
        }
    }

    /// The slot of the architecture capability `id`, checked to hold one.
    fn lookup_arch(&mut self, root: usize, id: u32) -> (r: Result<usize, CapError>)
        requires
            old(self).ready(root),
        ensures
            final(self).ready(root),
            final(self).retype == old(self).retype,
            final(self).tables == old(self).tables,
            final(self).threads == old(self).threads,
            final(self).irqs == old(self).irqs,
            final(self).caps.payloads_view() == old(self).caps.payloads_view(),
            arch_of(found_payload(old(self).caps, root as int, id as nat)) matches Err(e) ==> r == Err::<
                usize,
                CapError,
            >(e),
            arch_of(found_payload(old(self).caps, root as int, id as nat)) matches Ok(a) ==> (r matches Ok(i)
                && i < old(self).caps.slot_count() && old(self).caps.payload_at(i as int) == Some(
                TrieSlotPayload::Data(Capability::Arch(a)),
            ) && final(self).caps.states_view() == old(self).caps.states_view() && !(
            crate::caps::trie::decode_state(old(self).caps.state_at(i as int)) is Dead)),
    {
        let i = match self.find(root, id) {
            Some(i) => i,
            None => return Err(CapError::CapNotFound),
        };
        match self.caps.payload_at_index(i) {
            TrieSlotPayload::Data(Capability::Arch(_)) => Ok(i),
            TrieSlotPayload::Data(_) => Err(CapError::InvalidArg),
            TrieSlotPayload::Link(_) => Err(CapError::CapNotFound),
        }
    }

    /// The architecture capability held in slot `i`.
    fn arch_at(caps: &Trie<COUNT, Capability>, i: usize) -> (r: &ArchCaps)
        requires
            caps.wf(),
            i < caps.slot_count(),
            !(crate::caps::trie::decode_state(caps.state_at(i as int)) is Dead),
            caps.payload_at(i as int) matches Some(TrieSlotPayload::Data(Capability::Arch(_))),
        ensures
            caps.payload_at(i as int) == Some(TrieSlotPayload::Data(Capability::Arch(*r))),
    {
        match caps.payload_at_index(i) {
            TrieSlotPayload::Data(Capability::Arch(a)) => a,
            _ => vstd::pervasive::unreached(),
        }
    }

    /// Links slot `offset` of the page table named by `top` to the page
    /// table named by `bottom`, one level down (see `ArchCaps::vm_link`).
    pub fn vm_link(&mut self, root: usize, top: u32, offset: usize, bottom: u32, flags: PageFlags) -> (r: Result<
        (),
        CapError,
    >)
        requires
            old(self).ready(root),
        ensures
            final(self).threads == old(self).threads,
            final(self).irqs == old(self).irqs,
            final(self).ready(root),
            final(self).retype == old(self).retype,
            final(self).caps.payloads_view() == old(self).caps.payloads_view(),
            ({
                let pt = arch_of(found_payload(old(self).caps, root as int, top as nat));
                let pb = arch_of(found_payload(old(self).caps, root as int, bottom as nat));
                match (pt, pb) {
                    (Err(e), _) => r == Err::<(), CapError>(e) && final(self).tables@ == old(self).tables@,
                    (Ok(_), Err(e)) => r == Err::<(), CapError>(e) && final(self).tables@ == old(self).tables@,
                    (Ok(a), Ok(b)) => link_outcome(a, offset, b, flags, old(self).tables@, final(self).tables@, r),
                }
            }),
    {
        let it = self.lookup_arch(root, top)?;
        proof {
            crate::caps::trie::lemma_lookup_same_views(&self.caps, &old(self).caps, root as int, bottom as nat);
        }
        let ib = self.lookup_arch(root, bottom)?;
        proof {
            assert(self.slot_fits(it as int));
            assert(self.slot_fits(ib as int));
        }
        let r = {
            let caps = &self.caps;
            let a = Self::arch_at(caps, it);
            let b = Self::arch_at(caps, ib);
            ArchCaps::vm_link(a, offset, b, flags, &mut self.tables)
        };
        proof {
            self.tables.lemma_wf();
            assert forall|i: int| 0 <= i < self.caps.slot_count() implies #[trigger] self.slot_fits(i) by {
                assert(old(self).slot_fits(i));
            }
        }
        r
    }

    /// Clears slot `offset` of the page table named by `table`.
    pub fn vm_unlink(&mut self, root: usize, table: u32, offset: usize) -> (r: Result<(), CapError>)
        requires
            old(self).ready(root),
        ensures
            final(self).threads == old(self).threads,
            final(self).irqs == old(self).irqs,
            final(self).ready(root),
            final(self).retype == old(self).retype,
            final(self).caps.payloads_view() == old(self).caps.payloads_view(),
            match arch_of(found_payload(old(self).caps, root as int, table as nat)) {
                Err(e) => r == Err::<(), CapError>(e) && final(self).tables@ == old(self).tables@,
                Ok(a) => unlink_outcome(a, offset, old(self).tables@, final(self).tables@, r),
            },
    {
        let it = self.lookup_arch(root, table)?;
        proof {
            assert(self.slot_fits(it as int));
        }
        let r = {
            let caps = &self.caps;
            let a = Self::arch_at(caps, it);
            ArchCaps::vm_unlink(a, offset, &mut self.tables)
        };
        proof {
            assert forall|i: int| 0 <= i < self.caps.slot_count() implies #[trigger] self.slot_fits(i) by {
                assert(old(self).slot_fits(i));
            }
        }
        r
    }

    /// Replaces the flags of slot `offset` of the page table named by
    /// `table`. The state stays ready when the new entry is one the page
    /// walk may follow; otherwise only the page tables' well-formedness is
    /// no longer known.
    pub fn vm_set_attr(&mut self, root: usize, table: u32, offset: usize, flags: PageFlags) -> (r: Result<(), CapError>)
        requires
            old(self).ready(root),
        ensures
            final(self).threads == old(self).threads,
            final(self).irqs == old(self).irqs,
            final(self).retype == old(self).retype,
            final(self).caps.payloads_view() == old(self).caps.payloads_view(),
            final(self).caps.wf(),
            match arch_of(found_payload(old(self).caps, root as int, table as nat)) {
                Err(e) => r == Err::<(), CapError>(e) && final(self).tables@ == old(self).tables@ && final(self).ready(root),
                Ok(a) => set_attributes_outcome(a, offset, flags, old(self).tables@, final(self).tables@, r),
            },
    {
        let it = self.lookup_arch(root, table)?;
        proof {
            assert(self.slot_fits(it as int));
        }
        let caps = &self.caps;
        let a = Self::arch_at(caps, it);
        ArchCaps::vm_set_attributes(a, offset, flags, &mut self.tables)
    }

    /// Retypes `frame` as `to` says, leaving it without references (see
    /// `retype_outcome`).
    pub fn retype(&mut self, frame: Frame, to: RetypeKind) -> (r: Result<(), CapError>)
        requires
            old(self).ready(0),
        ensures
            final(self).threads == old(self).threads,
            final(self).irqs == old(self).irqs,
            final(self).ready(0),
            final(self).tables == old(self).tables,
            final(self).caps == old(self).caps,
            final(self).retype.base() == old(self).retype.base(),
            (r, final(self).retype@) == retype_outcome(old(self).retype@, frame_index(frame), to),
    {
        let r = match to {
            RetypeKind::IntoUntyped => match frame.try_into_untyped(&mut self.retype) {
                Ok(_) => Ok(()),
                Err(e) => Err(CapError::from(e)),
            },
            RetypeKind::IntoKernel => match frame.try_into_kernel(&mut self.retype) {
                Ok(k) => {
                    proof {
                        assert(decode(encode(State::Kernel, 1)).1 == 1);
                    }
                    let _ = k.drop(&mut self.retype);
                    proof {
                        assert(self.retype@ =~= old(self).retype@.update(frame_index(frame), encode(State::Kernel, 0)));
                    }
                    Ok(())
                },
                Err(e) => Err(CapError::from(e)),
            },
            RetypeKind::IntoUser => match frame.try_into_user(&mut self.retype) {
                Ok(u) => {
                    proof {
                        assert(decode(encode(State::User, 1)).1 == 1);
                    }
                    let _ = u.drop(&mut self.retype);
                    proof {
                        assert(self.retype@ =~= old(self).retype@.update(frame_index(frame), encode(State::User, 0)));
                    }
                    Ok(())
                },
                Err(e) => Err(CapError::from(e)),
            },
        };
        proof {
            assert(decode(encode(State::User, 0)).1 == 0);
            assert(decode(encode(State::Kernel, 0)).1 == 0);
            assert(decode(encode(State::Untyped, 0)).1 == 0);
            assert forall|f: int| 0 <= f < self.retype@.len() implies decode(#[trigger] self.retype@[f]).1
                < MAX_REF_COUNT by {
                if f != frame_index(frame) {
                    assert(decode(old(self).retype@[f]).1 < MAX_REF_COUNT);
                }
            }
            assert forall|i: int| 0 <= i < self.caps.slot_count() implies #[trigger] self.slot_fits(i) by {
                assert(old(self).slot_fits(i));
                if let Some(TrieSlotPayload::Data(c)) = self.caps.payload_at(i) {
                    if let Some(f) = c.frame() {
                        assert(self.retype@[frame_index(f)] == old(self).retype@[frame_index(f)]);
                    }
                }
            }
        }
        r
    }

    /// Kills slot `slot_id` of the table named by `table_cap`.
    pub fn cap_table_drop(&mut self, root: usize, table_cap: u32, slot_id: usize) -> (r: Result<(), CapError>)
        requires
            old(self).ready(root),
            slot_id < COUNT,
        ensures
            final(self).threads == old(self).threads,
            final(self).irqs == old(self).irqs,
            final(self).caps.wf(),
            final(self).retype == old(self).retype,
            final(self).tables == old(self).tables,
            final(self).caps.payloads_view() == old(self).caps.payloads_view(),
            final(self).ready(root),
            match ctable_of(found_payload(old(self).caps, root as int, table_cap as nat)) {
                Err(e) => r == Err::<(), CapError>(e),
                Ok(b) => {
                    let i = Trie::<COUNT, Capability>::flat(b as int, slot_id as int);
                    &&& r is Ok
                    &&& final(self).caps.states_view() == old(self).caps.states_view().update(
                        i,
                        old(self).caps.state_at(i) & 0x7FFF_FFFF_FFFF_FFFF,
                    )
                },
            },
    {
        let b = self.lookup_ctable(root, table_cap)?;
        let ghost mid = *self;
        let at = TrieBlock::<COUNT, Capability>::at(b, slot_id);
        at.kill(&mut self.caps);
        proof {
            let i = Trie::<COUNT, Capability>::flat(b as int, slot_id as int);
            let s0 = mid.caps.state_at(i);
            assert((s0 & 0x7FFF_FFFF_FFFF_FFFF) % 0x1_0000_0000 == s0 % 0x1_0000_0000) by (bit_vector);
            assert forall|j: int| 0 <= j < self.caps.slot_count() implies #[trigger] self.caps.can_ref(j) by {
                assert(mid.caps.can_ref(j));
            }
            assert forall|j: int| 0 <= j < self.caps.slot_count() implies #[trigger] self.slot_fits(j) by {
                assert(mid.slot_fits(j));
                assert(self.caps.payload_at(j) == mid.caps.payload_at(j));
            }
        }
        Ok(())
    }

    /// Puts `payload` into slot `slot_id` of block `b` if the slot is dead,
    /// leaving it alive with no reference held; otherwise hands the payload
    /// back.
    fn place(&mut self, b: usize, slot_id: usize, payload: TrieSlotPayload<Capability>) -> (r: Result<
        (),
        TrieSlotPayload<Capability>,
    >)
        requires
            old(self).caps.wf(),
            b < old(self).caps.blocks(),
            slot_id < COUNT,
            payload matches TrieSlotPayload::Link(k) ==> k < old(self).caps.blocks(),
        ensures
            final(self).caps.wf(),
            final(self).retype == old(self).retype,
            final(self).tables == old(self).tables,
            final(self).threads == old(self).threads,
            final(self).irqs == old(self).irqs,
            final(self).caps.blocks() == old(self).caps.blocks(),
            final(self).caps.slot_count() == old(self).caps.slot_count(),
            Trie::<COUNT, Capability>::flat(b as int, slot_id as int) < old(self).caps.slot_count(),
            ({
                let i = Trie::<COUNT, Capability>::flat(b as int, slot_id as int);
                if old(self).caps.state_at(i) == 0 {
                    &&& r is Ok
                    &&& final(self).caps.states_view() == old(self).caps.states_view().update(
                        i,
                        encode_state(InternalState::Alive { refs: 0 }),
                    )
                    &&& final(self).caps.payloads_view() == old(self).caps.payloads_view().update(i, Some(payload))
                } else {
                    &&& r == Err::<(), TrieSlotPayload<Capability>>(payload)
                    &&& final(self).caps.states_view() == old(self).caps.states_view()
                    &&& final(self).caps.payloads_view() == old(self).caps.payloads_view()
                }
            }),
    {
        let at = TrieBlock::<COUNT, Capability>::at(b, slot_id);
        match at.try_set(&mut self.caps, payload) {
            Ok(t) => {
                proof {
                    lemma_state_roundtrip(InternalState::Alive { refs: 1 });
                    assert(encode_state(InternalState::Alive { refs: 1 }) % 0x1_0000_0000 == 1);
                }
                t.drop(&mut self.caps);
                proof {
                    assert(after_release(encode_state(InternalState::Alive { refs: 1 })) == encode_state(
                        InternalState::Alive { refs: 0 },
                    ));
                    assert(self.caps.states_view() =~= old(self).caps.states_view().update(
                        Trie::<COUNT, Capability>::flat(b as int, slot_id as int),
                        encode_state(InternalState::Alive { refs: 0 }),
                    ));
                }
                Ok(())
            },
            Err(TrieSetError::NotDead(p)) => Err(p),
        }
    }

    /// Sets slot `slot_id` of the table named by `top` to a link to the
    /// table named by `bottom`; `CapNotEmpty` when the slot isn't dead.
    pub fn cap_table_link(&mut self, root: usize, top: u32, slot_id: usize, bottom: u32) -> (r: Result<(), CapError>)
        requires
            old(self).ready(root),
            slot_id < COUNT,
        ensures
            final(self).threads == old(self).threads,
            final(self).irqs == old(self).irqs,
            final(self).caps.wf(),
            final(self).retype == old(self).retype,
            final(self).tables == old(self).tables,
            final(self).ready(root),
            match ctable_of(found_payload(old(self).caps, root as int, top as nat)) {
                Err(e) => r == Err::<(), CapError>(e),
                Ok(t) => match ctable_of(found_payload(old(self).caps, root as int, bottom as nat)) {
                    Err(e) => r == Err::<(), CapError>(e),
                    Ok(b) => {
                        let i = Trie::<COUNT, Capability>::flat(t as int, slot_id as int);
                        if old(self).caps.state_at(i) == 0 {
                            &&& r is Ok
                            &&& final(self).caps.state_at(i) == encode_state(InternalState::Alive { refs: 0 })
                            &&& final(self).caps.payloads_view() == old(self).caps.payloads_view().update(
                                i,
                                Some(TrieSlotPayload::Link(b)),
                            )
                        } else {
                            &&& r == Err::<(), CapError>(CapError::CapNotEmpty)
                            &&& final(self).caps.payloads_view() == old(self).caps.payloads_view()
                        }
                    },
                },
            },
            r is Err ==> final(self).caps.payloads_view() == old(self).caps.payloads_view(),
    {
        let t = self.lookup_ctable(root, top)?;
        proof {
            lemma_lookup_same_views(&self.caps, &old(self).caps, root as int, bottom as nat);
        }
        let b = self.lookup_ctable(root, bottom)?;
        let ghost mid = *self;
        let r = match self.place(t, slot_id, TrieSlotPayload::Link(b)) {
            Ok(()) => Ok(()),
            Err(_) => Err(CapError::CapNotEmpty),
        };
        proof {
            let i = Trie::<COUNT, Capability>::flat(t as int, slot_id as int);
            lemma_state_roundtrip(InternalState::Alive { refs: 0 });
            assert forall|j: int| 0 <= j < self.caps.slot_count() implies #[trigger] self.caps.can_ref(j) by {
                assert(mid.caps.can_ref(j));
            }
            assert forall|j: int| 0 <= j < self.caps.slot_count() implies #[trigger] self.slot_fits(j) by {
                assert(mid.slot_fits(j));
            }
        }
        r
    }

    /// The capability `id` names, checked to hold a value.
    fn lookup_data(&mut self, root: usize, id: u32) -> (r: Result<usize, CapError>)
        requires
            old(self).ready(root),
        ensures
            final(self).ready(root),
            final(self).retype == old(self).retype,
            final(self).tables == old(self).tables,
            final(self).threads == old(self).threads,
            final(self).irqs == old(self).irqs,
            final(self).caps.payloads_view() == old(self).caps.payloads_view(),
            final(self).caps.blocks() == old(self).caps.blocks(),
            final(self).caps.slot_count() == old(self).caps.slot_count(),
            data_of(found_payload(old(self).caps, root as int, id as nat)) matches Err(e) ==> r == Err::<
                usize,
                CapError,
            >(e),
            data_of(found_payload(old(self).caps, root as int, id as nat)) matches Ok(c) ==> (r matches Ok(i)
                && i < old(self).caps.slot_count() && old(self).caps.payload_at(i as int) == Some(
                TrieSlotPayload::Data(c),
            ) && final(self).caps.states_view() == old(self).caps.states_view() && !(decode_state(
                old(self).caps.state_at(i as int),
            ) is Dead)),
    {
        let i = match self.find(root, id) {
            Some(i) => i,
            None => return Err(CapError::CapNotFound),
        };
        match self.caps.payload_at_index(i) {
            TrieSlotPayload::Data(_) => Ok(i),
            TrieSlotPayload::Link(_) => Err(CapError::CapNotFound),
        }
    }

    /// Copies the capability `from_cap` into slot `to_slot` of the table
    /// named by `to_table`; the copy holds its own reference.
    pub fn cap_table_copy(&mut self, root: usize, to_table: u32, to_slot: usize, from_cap: u32) -> (r: Result<
        (),
        CapError,
    >)
        requires
            old(self).ready(root),
            to_slot < COUNT,
        ensures
            final(self).threads == old(self).threads,
            final(self).irqs == old(self).irqs,
            final(self).caps.wf(),
            final(self).tables == old(self).tables,
            counts_below_max(final(self).retype@) ==> final(self).ready(root),
            match ctable_of(found_payload(old(self).caps, root as int, to_table as nat)) {
                Err(e) => r == Err::<(), CapError>(e) && final(self).retype@ == old(self).retype@
                    && final(self).caps.payloads_view() == old(self).caps.payloads_view(),
                Ok(t) => match data_of(found_payload(old(self).caps, root as int, from_cap as nat)) {
                    Err(e) => r == Err::<(), CapError>(e) && final(self).retype@ == old(self).retype@
                        && final(self).caps.payloads_view() == old(self).caps.payloads_view(),
                    Ok(c) => {
                        let i = Trie::<COUNT, Capability>::flat(t as int, to_slot as int);
                        if old(self).caps.state_at(i) == 0 {
                            &&& r is Ok
                            &&& final(self).caps.state_at(i) == encode_state(InternalState::Alive { refs: 0 })
                            &&& final(self).caps.payload_at(i) matches Some(TrieSlotPayload::Data(d)) && c.same_as(d)
                            &&& same_but(old(self).caps.payloads_view(), final(self).caps.payloads_view(), i)
                            &&& match c.frame() {
                                Some(f) => final(self).retype@ == old(self).retype@.update(
                                    frame_index(f),
                                    (old(self).retype@[frame_index(f)] + 1) as u16,
                                ),
                                None => final(self).retype@ == old(self).retype@,
                            }
                        } else {
                            &&& r == Err::<(), CapError>(CapError::CapNotEmpty)
                            &&& final(self).retype@ == old(self).retype@
                            &&& final(self).caps.payloads_view() == old(self).caps.payloads_view()
                        }
                    },
                },
            },
    {
        let t = self.lookup_ctable(root, to_table)?;
        proof {
            lemma_lookup_same_views(&self.caps, &old(self).caps, root as int, from_cap as nat);
        }
        let fi = self.lookup_data(root, from_cap)?;
        proof {
            assert(self.slot_fits(fi as int));
        }
        let copy = match self.caps.payload_at_index(fi) {
            TrieSlotPayload::Data(c) => c.clone(&mut self.retype),
            TrieSlotPayload::Link(_) => vstd::pervasive::unreached(),
        };
        let ghost mid = self.retype@;
        let ghost before = *self;
        let r = match self.place(t, to_slot, TrieSlotPayload::Data(copy)) {
            Ok(()) => Ok(()),
            Err(p) => {
                match p {
                    TrieSlotPayload::Data(c) => {
                        c.drop(&mut self.retype);
                        proof {
                            assert(self.retype@ =~= old(self).retype@);
                        }
                    },
                    TrieSlotPayload::Link(_) => {},
                }
                Err(CapError::CapNotEmpty)
            },
        };
        proof {
            lemma_state_roundtrip(InternalState::Alive { refs: 0 });
            assert forall|j: int| 0 <= j < self.caps.slot_count() implies #[trigger] self.caps.can_ref(j) by {
                assert(before.caps.can_ref(j));
            }
            assert forall|j: int| 0 <= j < self.caps.slot_count() implies #[trigger] self.slot_fits(j) by {
                assert(old(self).slot_fits(j));
                if let Some(TrieSlotPayload::Data(c)) = self.caps.payload_at(j) {
                    if let Some(f) = c.frame() {
                        assert(decode(self.retype@[frame_index(f)]).1 >= decode(old(self).retype@[frame_index(f)]).1);
                    }
                }
            }
        }
        r
    }

    /// What capability `cap` names (see `introspection_of`).
    pub fn introspect(&mut self, root: usize, cap: u32) -> (r: IntrospectResult)
        requires
            old(self).ready(root),
        ensures
            final(self).threads == old(self).threads,
            final(self).irqs == old(self).irqs,
            final(self).ready(root),
            final(self).retype == old(self).retype,
            final(self).tables == old(self).tables,
            final(self).caps.payloads_view() == old(self).caps.payloads_view(),
            introspection_of(found_payload(old(self).caps, root as int, cap as nat), old(self).tables@, r),
    {
        let i = match self.find(root, cap) {
            Some(i) => i,
            None => return IntrospectResult::Empty,
        };
        proof {
            assert(self.slot_fits(i as int));
        }
        match self.caps.payload_at_index(i) {
            TrieSlotPayload::Data(Capability::Thread(k)) => IntrospectResult::Thread(k.frame()),
            TrieSlotPayload::Data(Capability::CapBlock(c)) => IntrospectResult::CBlock(c.kptr.frame()),
            TrieSlotPayload::Data(Capability::SyncCall(s)) => IntrospectResult::SyncCall {
                resources: s.resources().frame(),
                entry: s.entry(),
            },
            TrieSlotPayload::Data(Capability::CompResource(k)) => IntrospectResult::Resources(k.frame()),
            TrieSlotPayload::Data(Capability::Notification(n)) => IntrospectResult::Notification {
                waiter: n.waiter().frame(),
                badge: n.badge(),
            },
            TrieSlotPayload::Data(Capability::Arch(a)) => IntrospectResult::Arch(a.introspect(&self.tables)),
            TrieSlotPayload::Link(k) => IntrospectResult::CLink(*k),
        }
    }

    /// Readiness carries over a step that keeps the frame types, lowers no
    /// count and reaches no maximum, keeps every stored table but the one in
    /// frame `t` at its level (or all of them, when `t` is named by a
    /// capability), only grows the trie, and leaves every slot it changes fitting and able to
    /// take a reference.
    proof fn lemma_ready_step(a: &Self, b: &Self, root: usize, t: u64)
        requires
            a.ready(root),
            b.caps.wf(),
            b.tables.wf(),
            b.caps.slot_count() >= a.caps.slot_count(),
            counts_below_max(b.retype@),
            b.retype.base() == a.retype.base(),
            b.retype@.len() == a.retype@.len(),
            forall|f: int|
                0 <= f < a.retype@.len() ==> decode(#[trigger] b.retype@[f]).0 == decode(a.retype@[f]).0 && decode(
                    b.retype@[f],
                ).1 >= decode(a.retype@[f]).1,
            forall|k: u64|
                #[trigger] a.tables@.contains_key(k) && k != t ==> b.tables@.contains_key(k) && b.tables@[k].0
                    == a.tables@[k].0,
            b.tables@ == a.tables@ || forall|j: int|
                0 <= j < a.caps.slot_count() ==> (#[trigger] a.caps.payload_at(j) matches Some(
                    TrieSlotPayload::Data(Capability::Arch(x)),
                ) ==> (x.vmtable() matches Some((f, _)) ==> f@ != t)),
            forall|j: int|
                0 <= j < b.caps.slot_count() ==> #[trigger] b.caps.can_ref(j) || (j < a.caps.slot_count()
                    && b.caps.state_at(j) == a.caps.state_at(j)),
            forall|j: int|
                0 <= j < b.caps.slot_count() ==> #[trigger] b.slot_fits(j) || (j < a.caps.slot_count()
                    && b.caps.payload_at(j) == a.caps.payload_at(j)),
        ensures
            b.ready(root),
    {
        assert forall|j: int| 0 <= j < b.caps.slot_count() implies #[trigger] b.caps.can_ref(j) by {
            if !b.caps.can_ref(j) {
                assert(a.caps.can_ref(j));
            }
        }
        vstd::arithmetic::div_mod::lemma_div_is_ordered(
            a.caps.slot_count() as int,
            b.caps.slot_count() as int,
            COUNT as int,
        );
        assert forall|j: int| 0 <= j < b.caps.slot_count() implies #[trigger] b.slot_fits(j) by {
            if !b.slot_fits(j) {
                assert(a.slot_fits(j));
                assert(b.caps.payload_at(j) == a.caps.payload_at(j));
                if let Some(TrieSlotPayload::Data(c)) = a.caps.payload_at(j) {
                    if let Some(f) = c.frame() {
                        assert(a.counted(f));
                        assert(decode(b.retype@[frame_index(f)]).0 == decode(a.retype@[frame_index(f)]).0);
                        assert(b.counted(f));
                    }
                    if let Capability::Arch(x) = c {
                        if let Some((f, l)) = x.vmtable() {
                            assert(a.tables@.contains_key(f@));
                            assert(b.tables@.contains_key(f@));
                        }
                    }
                }
            }
        }
    }

    /// Readiness does not depend on the thread objects.
    proof fn lemma_ready_without_threads(a: &Self, b: &Self, root: usize)
        requires
            a.ready(root),
            b.caps == a.caps,
            b.retype == a.retype,
            b.tables == a.tables,
        ensures
            b.ready(root),
    {
        assert forall|i: int| 0 <= i < b.caps.slot_count() implies #[trigger] b.slot_fits(i) by {
            assert(a.slot_fits(i));
        }
    }

    /// Readiness for every table carries over a step that changes only the
    /// thread objects.
    proof fn lemma_ready_all_without_threads(a: &Self, b: &Self)
        requires
            b.caps == a.caps,
            b.retype == a.retype,
            b.tables == a.tables,
        ensures
            forall|root: usize| #[trigger] a.ready(root) ==> b.ready(root),
    {
        assert forall|root: usize| #[trigger] a.ready(root) implies b.ready(root) by {
            Self::lemma_ready_without_threads(a, b, root);
        }
    }

    /// The synchronous-call system call: the thread keyed `thread`, whose
    /// table is block `root`, calls through the endpoint `cap` from the
    /// state in `ctx` (see `Thread::invoke`); the registers to dispatch are
    /// returned.
    pub fn sync_invoke(&mut self, root: usize, thread: u64, cap: u32, ctx: &IrqCtx) -> (r: Result<ExecCtx, CapError>)
        requires
            old(self).ready(root),
            old(self).threads@.contains_key(thread),
        ensures
            final(self).irqs == old(self).irqs,
            final(self).caps.wf(),
            final(self).caps.payloads_view() == old(self).caps.payloads_view(),
            final(self).tables == old(self).tables,
            final(self).retype.base() == old(self).retype.base(),
            counts_below_max(final(self).retype@) ==> final(self).ready(root),
            match synccall_of(found_payload(old(self).caps, root as int, cap as nat)) {
                Err(e) => r == Err::<ExecCtx, CapError>(e) && final(self).retype@ == old(self).retype@
                    && final(self).threads@ == old(self).threads@,
                Ok((f, entry)) => {
                    &&& final(self).threads@ == old(self).threads@.insert(thread, final(self).threads@[thread])
                    &&& invoke_outcome(
                        old(self).threads@[thread],
                        final(self).threads@[thread],
                        old(self).retype@,
                        final(self).retype@,
                        f,
                        entry,
                        ctx.regs_view(),
                        r,
                    )
                },
            },
    {
        let i = self.lookup_data(root, cap)?;
        let ghost s1 = *self;
        proof {
            assert(old(self).slot_fits(i as int));
            assert(s1.slot_fits(i as int));
        }
        match self.caps.payload_at_index(i) {
            TrieSlotPayload::Data(Capability::SyncCall(_)) => {},
            _ => return Err(CapError::InvalidArg),
        }
        let mut th = match self.threads.remove(&thread) {
            Some(t) => t,
            None => vstd::pervasive::unreached(),
        };
        if th.execution_stack().is_full() {
            self.threads.insert(thread, th);
            proof {
                assert(self.threads@ =~= old(self).threads@);
                Self::lemma_ready_without_threads(&s1, self, root);
            }
            return Err(CapError::SyncInvokeLimit);
        }
        let call = {
            let caps = &self.caps;
            match caps.payload_at_index(i) {
                TrieSlotPayload::Data(Capability::SyncCall(s)) => SyncCall::new(s.resources().clone(&mut self.retype), s.entry()),
                _ => vstd::pervasive::unreached(),
            }
        };
        let invocation = call.create_invocation(ctx);
        let r = th.invoke(invocation, ctx, &mut self.retype);
        self.threads.insert(thread, th);
        proof {
            if counts_below_max(self.retype@) {
                Self::lemma_ready_step(&s1, self, root, 0);
            }
        }
        r
    }

    /// The synchronous-return system call of the thread keyed `thread`
    /// (see `Thread::sync_ret`).
    pub fn sync_ret(&mut self, thread: u64, ctx: &IrqCtx) -> (r: Result<ExecCtx, CapError>)
        requires
            old(self).threads@.contains_key(thread),
            old(self).threads@[thread].stack().contexts().len() > 1 ==> old(
                self,
            ).threads@[thread].stack().contexts().last().resources_held_in(&old(self).retype),
        ensures
            final(self).irqs == old(self).irqs,
            final(self).caps == old(self).caps,
            final(self).tables == old(self).tables,
            final(self).retype.base() == old(self).retype.base(),
            final(self).threads@ == old(self).threads@.insert(thread, final(self).threads@[thread]),
            ret_outcome(
                old(self).threads@[thread],
                final(self).threads@[thread],
                old(self).retype@,
                final(self).retype@,
                r,
            ),
    {
        let mut th = match self.threads.remove(&thread) {
            Some(t) => t,
            None => vstd::pervasive::unreached(),
        };
        let r = th.sync_ret(ctx, &mut self.retype);
        self.threads.insert(thread, th);
        r
    }

    /// The signal-wait system call of the thread keyed `thread` (see
    /// `Thread::sig_wait`).
    pub fn thread_sig_wait(&mut self, thread: u64) -> (r: Result<SigWaitResult, CapError>)
        requires
            old(self).threads@.contains_key(thread),
        ensures
            final(self).irqs == old(self).irqs,
            final(self).caps == old(self).caps,
            final(self).tables == old(self).tables,
            final(self).retype == old(self).retype,
            forall|root: usize| #[trigger] old(self).ready(root) ==> final(self).ready(root),
            final(self).threads@ == old(self).threads@.insert(thread, final(self).threads@[thread]),
            ({
                let t0 = old(self).threads@[thread];
                let t1 = final(self).threads@[thread];
                &&& t1.pending() == 0
                &&& t1.stack().contexts() == t0.stack().contexts()
                &&& t1.affinity() == t0.affinity()
                &&& t1.priority() == t0.priority()
                &&& t1.parent_frame() == t0.parent_frame()
                &&& if t0.pending() != 0 {
                    r == Ok::<SigWaitResult, CapError>(SigWaitResult::Signalled(t0.pending()))
                        && t1.stack().state() == t0.stack().state()
                } else if t0.parent_frame() is None {
                    r == Err::<SigWaitResult, CapError>(CapError::SigWaitNoParent) && t1.stack().state()
                        == t0.stack().state()
                } else {
                    r == Ok::<SigWaitResult, CapError>(SigWaitResult::Blocked) && t1.stack().state()
                        == RunState::SigBlocked
                }
            }),
    {
        let mut th = match self.threads.remove(&thread) {
            Some(t) => t,
            None => vstd::pervasive::unreached(),
        };
        let r = th.sig_wait();
        self.threads.insert(thread, th);
        proof {
            Self::lemma_ready_all_without_threads(&*old(self), self);
        }
        r
    }

    /// The thread-dispatch system call: the frame of the thread that the
    /// thread capability `cap` names, to be bound and run.
    pub fn dispatch(&mut self, root: usize, cap: u32) -> (r: Result<Frame, CapError>)
        requires
            old(self).ready(root),
        ensures
            final(self).ready(root),
            final(self).retype == old(self).retype,
            final(self).tables == old(self).tables,
            final(self).threads == old(self).threads,
            final(self).irqs == old(self).irqs,
            final(self).caps.payloads_view() == old(self).caps.payloads_view(),
            r == thread_of(found_payload(old(self).caps, root as int, cap as nat)),
    {
        let i = self.lookup_data(root, cap)?;
        match self.caps.payload_at_index(i) {
            TrieSlotPayload::Data(Capability::Thread(k)) => Ok(k.frame()),
            _ => Err(CapError::InvalidArg),
        }
    }

    /// The notify system call: posts the badge of the notification `cap` to
    /// its waiter (see `Thread::notify`); the waiter's frame is returned
    /// when it now has pending signals and is to be dispatched if it
    /// outranks the running thread. A waiter with no thread object is
    /// reported as `CapNotFound`.
    pub fn notify(&mut self, root: usize, cap: u32) -> (r: Result<Option<Frame>, CapError>)
        requires
            old(self).ready(root),
        ensures
            final(self).irqs == old(self).irqs,
            final(self).ready(root),
            final(self).retype == old(self).retype,
            final(self).tables == old(self).tables,
            final(self).caps.payloads_view() == old(self).caps.payloads_view(),
            match notification_of(found_payload(old(self).caps, root as int, cap as nat)) {
                Err(e) => r == Err::<Option<Frame>, CapError>(e) && final(self).threads@ == old(self).threads@,
                Ok((w, badge)) => if !old(self).threads@.contains_key(w@) {
                    r == Err::<Option<Frame>, CapError>(CapError::CapNotFound) && final(self).threads@
                        == old(self).threads@
                } else {
                    let t0 = old(self).threads@[w@];
                    let t1 = final(self).threads@[w@];
                    &&& final(self).threads@ == old(self).threads@.insert(w@, t1)
                    &&& posted(t0, t1, badge)
                    &&& r == Ok::<Option<Frame>, CapError>(if t1.pending() != 0 { Some(w) } else { None })
                },
            },
    {
        let i = self.lookup_data(root, cap)?;
        let (waiter, badge) = match self.caps.payload_at_index(i) {
            TrieSlotPayload::Data(Capability::Notification(n)) => (n.waiter().frame(), n.badge()),
            _ => return Err(CapError::InvalidArg),
        };
        let key = waiter.base().as_u64();
        let ghost before = *self;
        let mut th = match self.threads.remove(&key) {
            Some(t) => t,
            None => {
                proof {
                    Self::lemma_ready_without_threads(&before, self, root);
                }
                return Err(CapError::CapNotFound);
            },
        };
        let dispatch = th.notify(badge);
        self.threads.insert(key, th);
        proof {
            Self::lemma_ready_without_threads(&before, self, root);
        }
        if dispatch {
            Ok(Some(waiter))
        } else {
            Ok(None)
        }
    }

    /// The interrupt-binding system call: line `irq` is bound to a copy of
    /// the notification `notification` through the interrupt-controller
    /// capability `irq_ctrl`, from core `cpu` (see `ArchCaps::irq_set`).
    pub fn irq_set(&mut self, root: usize, irq_ctrl: u32, notification: u32, irq: usize, cpu: u16) -> (r: Result<
        (),
        CapError,
    >)
        requires
            old(self).ready(root),
            old(self).irqs.wf(),
            old(self).irqs.held_in(&old(self).retype),
            (old(self).irqs.affinity() == cpu && cpu != NO_AFFINITY) ==> old(self).irqs.guards() < usize::MAX,
            (arch_of(found_payload(old(self).caps, root as int, irq_ctrl as nat)) matches Ok(a) && a is IrqCtrl)
                && notification_of(found_payload(old(self).caps, root as int, notification as nat)) is Ok
                && old(self).irqs.affinity() == cpu && cpu != NO_AFFINITY ==> !(15 <= irq < 256),
        ensures
            final(self).irqs.wf(),
            final(self).caps.payloads_view() == old(self).caps.payloads_view(),
            final(self).tables == old(self).tables,
            final(self).threads == old(self).threads,
            final(self).retype.base() == old(self).retype.base(),
            match arch_of(found_payload(old(self).caps, root as int, irq_ctrl as nat)) {
                Err(e) => r == Err::<(), CapError>(e) && final(self).retype@ == old(self).retype@
                    && final(self).irqs@ == old(self).irqs@,
                Ok(a) => match notification_of(found_payload(old(self).caps, root as int, notification as nat)) {
                    Err(e) => r == Err::<(), CapError>(e) && final(self).retype@ == old(self).retype@
                        && final(self).irqs@ == old(self).irqs@,
                    Ok((w, badge)) => if !(a is IrqCtrl) {
                        r == Err::<(), CapError>(CapError::InvalidCapType) && final(self).retype@ == old(self).retype@
                            && final(self).irqs@ == old(self).irqs@
                    } else if irq > 255 {
                        r == Err::<(), CapError>(CapError::InvalidArg) && final(self).retype@ == old(self).retype@
                            && final(self).irqs@ == old(self).irqs@
                    } else if !(old(self).irqs.affinity() == cpu && cpu != NO_AFFINITY) {
                        r == Err::<(), CapError>(CapError::IrqTableBindInvalid) && final(self).retype@
                            == old(self).retype@ && final(self).irqs@ == old(self).irqs@
                    } else {
                        let counted = old(self).retype@.update(
                            frame_index(w),
                            (old(self).retype@[frame_index(w)] + 1) as u16,
                        );
                        &&& r is Ok
                        &&& final(self).irqs@ == old(self).irqs@.update(irq as int, Some((w, badge)))
                        &&& final(self).retype@ == match old(self).irqs@[irq as int] {
                            Some((p, _)) => counted.update(frame_index(p), (counted[frame_index(p)] - 1) as u16),
                            None => counted,
                        }
                    },
                },
            },
    {
        let ai = self.lookup_arch(root, irq_ctrl)?;
        proof {
            lemma_lookup_same_views(&self.caps, &old(self).caps, root as int, notification as nat);
        }
        let ni = self.lookup_data(root, notification)?;
        proof {
            assert(old(self).slot_fits(ni as int));
        }
        match self.caps.payload_at_index(ni) {
            TrieSlotPayload::Data(Capability::Notification(_)) => {},
            _ => return Err(CapError::InvalidArg),
        }
        let ghost before = self.retype@;
        let copy = {
            let caps = &self.caps;
            match caps.payload_at_index(ni) {
                TrieSlotPayload::Data(Capability::Notification(n)) => Notification::new(
                    n.waiter().clone(&mut self.retype),
                    n.badge(),
                ),
                _ => vstd::pervasive::unreached(),
            }
        };
        proof {
            let wi = frame_index(copy.waiter_frame());
            assert forall|j: int| 0 <= j < self.irqs@.len() implies (#[trigger] self.irqs@[j] matches Some((p, _))
                ==> held(&self.retype, p)) by {
                match self.irqs@[j] {
                    Some((p, _)) => {
                        assert(held(&old(self).retype, p));
                    },
                    None => {},
                }
            }
        }
        let arch = Self::arch_at(&self.caps, ai);
        arch.irq_set(irq, Some(copy), &mut self.irqs, cpu, &mut self.retype)
    }

    /// The interrupt-unbinding system call: line `irq` notifies nothing
    /// any more (see `ArchCaps::irq_set`).
    pub fn irq_unset(&mut self, root: usize, irq_ctrl: u32, irq: usize, cpu: u16) -> (r: Result<(), CapError>)
        requires
            old(self).ready(root),
            old(self).irqs.wf(),
            old(self).irqs.held_in(&old(self).retype),
            (old(self).irqs.affinity() == cpu && cpu != NO_AFFINITY) ==> old(self).irqs.guards() < usize::MAX,
            arch_of(found_payload(old(self).caps, root as int, irq_ctrl as nat)) matches Ok(a) && a is IrqCtrl
                && old(self).irqs.affinity() == cpu && cpu != NO_AFFINITY ==> !(15 <= irq < 256),
        ensures
            final(self).irqs.wf(),
            final(self).caps.payloads_view() == old(self).caps.payloads_view(),
            final(self).tables == old(self).tables,
            final(self).threads == old(self).threads,
            final(self).retype.base() == old(self).retype.base(),
            match arch_of(found_payload(old(self).caps, root as int, irq_ctrl as nat)) {
                Err(e) => r == Err::<(), CapError>(e) && final(self).retype@ == old(self).retype@
                    && final(self).irqs@ == old(self).irqs@,
                Ok(a) => if !(a is IrqCtrl) {
                    r == Err::<(), CapError>(CapError::InvalidCapType) && final(self).retype@ == old(self).retype@
                        && final(self).irqs@ == old(self).irqs@
                } else if irq > 255 {
                    r == Err::<(), CapError>(CapError::InvalidArg) && final(self).retype@ == old(self).retype@
                        && final(self).irqs@ == old(self).irqs@
                } else if !(old(self).irqs.affinity() == cpu && cpu != NO_AFFINITY) {
                    r == Err::<(), CapError>(CapError::IrqTableBindInvalid) && final(self).retype@
                        == old(self).retype@ && final(self).irqs@ == old(self).irqs@
                } else {
                    &&& r is Ok
                    &&& final(self).irqs@ == old(self).irqs@.update(irq as int, None)
                    &&& final(self).retype@ == match old(self).irqs@[irq as int] {
                        Some((p, _)) => old(self).retype@.update(
                            frame_index(p),
                            (old(self).retype@[frame_index(p)] - 1) as u16,
                        ),
                        None => old(self).retype@,
                    }
                },
            },
    {
        let ai = self.lookup_arch(root, irq_ctrl)?;
        let arch = Self::arch_at(&self.caps, ai);
        arch.irq_set(irq, None, &mut self.irqs, cpu, &mut self.retype)
    }

    /// Interrupt line `irq` fired on core `cpu`, to which the interrupt
    /// table is bound: the badge of the notification the line holds is
    /// posted to its waiter, and the waiter's frame is returned when it now
    /// has pending signals and is to be dispatched if it outranks the
    /// running thread. A line without notification, or whose waiter has no
    /// thread object, notifies nobody.
    pub fn irq_notify(&mut self, cpu: u16, irq: u8) -> (r: Option<Frame>)
        requires
            old(self).irqs.wf(),
            irq < 15,
            old(self).irqs.affinity() == cpu,
            cpu != NO_AFFINITY,
            old(self).irqs.guards() < usize::MAX,
            old(self).irqs@[irq as int] matches Some((w, _)) ==> held(&old(self).retype, w) && old(
                self,
            ).retype.state_of(w).1 < MAX_REF_COUNT,
        ensures
            final(self).retype@ == old(self).retype@,
            final(self).retype.base() == old(self).retype.base(),
            final(self).irqs@ == old(self).irqs@,
            final(self).irqs.affinity() == old(self).irqs.affinity(),
            final(self).irqs.guards() == old(self).irqs.guards(),
            final(self).caps == old(self).caps,
            final(self).tables == old(self).tables,
            match old(self).irqs@[irq as int] {
                None => r is None && final(self).threads@ == old(self).threads@,
                Some((w, badge)) => if !old(self).threads@.contains_key(w@) {
                    r is None && final(self).threads@ == old(self).threads@
                } else {
                    let t0 = old(self).threads@[w@];
                    let t1 = final(self).threads@[w@];
                    &&& final(self).threads@ == old(self).threads@.insert(w@, t1)
                    &&& posted(t0, t1, badge)
                    &&& r == if t1.pending() != 0 { Some(w) } else { None::<Frame> }
                },
            },
    {
        let handler = match self.irqs.get(cpu, irq, &mut self.retype) {
            Ok(h) => h,
            Err(_) => vstd::pervasive::unreached(),
        };
        let n = match handler {
            Some(n) => n,
            None => return None,
        };
        let waiter = n.waiter().frame();
        let badge = n.badge();
        n.into_waiter().drop(&mut self.retype);
        proof {
            assert(self.retype@ =~= old(self).retype@);
        }
        let key = waiter.base().as_u64();
        let mut th = match self.threads.remove(&key) {
            Some(t) => t,
            None => return None,
        };
        let dispatch = th.notify(badge);
        self.threads.insert(key, th);
        if dispatch {
            Some(waiter)
        } else {
            None
        }
    }

    /// Prepares core `cpu` to run the thread keyed `next` in place of the
    /// thread keyed `previous`, if any, whose registers are captured in
    /// `ctx`: `next` is bound to `cpu` (refused when it is bound to another
    /// core, and nothing changes), its active registers are what is to be
    /// loaded, and `previous` has its registers saved and is unbound.
    pub fn dispatch_token(&mut self, next: u64, previous: Option<u64>, cpu: u16, ctx: Option<&IrqCtx>) -> (r: Result<
        DispatchToken,
        BindError,
    >)
        requires
            cpu != NO_AFFINITY,
            old(self).threads@.contains_key(next),
            previous matches Some(p) ==> {
                &&& old(self).threads@.contains_key(p)
                &&& ctx is Some
                &&& (old(self).threads@[p].affinity() == NO_AFFINITY || old(self).threads@[p].affinity() == cpu)
            },
        ensures
            final(self).caps == old(self).caps,
            final(self).tables == old(self).tables,
            final(self).retype == old(self).retype,
            final(self).irqs == old(self).irqs,
            forall|root: usize| #[trigger] old(self).ready(root) ==> final(self).ready(root),
            ({
                let n0 = old(self).threads@[next];
                if n0.affinity() != NO_AFFINITY && n0.affinity() != cpu {
                    &&& r == Err::<DispatchToken, BindError>(BindError::Bound { affinity: n0.affinity() })
                    &&& final(self).threads@ == old(self).threads@
                } else {
                    &&& r matches Ok(tok) && tok.next_key() == next && tok.regs() == n0.stack().contexts().last().regs()
                    &&& match (previous, ctx) {
                        (Some(p), Some(c)) => if p == next {
                            &&& final(self).threads@ == old(self).threads@.insert(next, final(self).threads@[next])
                            &&& switched_from(n0, final(self).threads@[next], c.regs_view())
                        } else {
                            &&& final(self).threads@ == old(self).threads@.insert(next, final(self).threads@[next]).insert(
                                p,
                                final(self).threads@[p],
                            )
                            &&& bound_to(n0, final(self).threads@[next], cpu)
                            &&& switched_from(old(self).threads@[p], final(self).threads@[p], c.regs_view())
                        },
                        _ => {
                            &&& final(self).threads@ == old(self).threads@.insert(next, final(self).threads@[next])
                            &&& bound_to(n0, final(self).threads@[next], cpu)
                        },
                    }
                }
            }),
    {
        let mut th = match self.threads.remove(&next) {
            Some(t) => t,
            None => vstd::pervasive::unreached(),
        };
        match th.bind(cpu) {
            Ok(()) => {},
            Err(e) => {
                self.threads.insert(next, th);
                proof {
                    assert(self.threads@ =~= old(self).threads@);
                    Self::lemma_ready_all_without_threads(&*old(self), self);
                }
                return Err(e);
            },
        }
        let exec_state = th.active_state();
        self.threads.insert(next, th);
        if let Some(p) = previous {
            let mut prev = match self.threads.remove(&p) {
                Some(t) => t,
                None => vstd::pervasive::unreached(),
            };
            match ctx {
                Some(c) => prev.save_context(c),
                None => {},
            }
            let _ = prev.unbind(cpu);
            self.threads.insert(p, prev);
        }
        proof {
            Self::lemma_ready_all_without_threads(&*old(self), self);
        }
        Ok(DispatchToken::new(next, exec_state))
    }

    /// Gives the initial thread its capabilities: slots 0 to 4 of its table
    /// (block `root`) receive its resources, its capability table, its
    /// address space, itself and the interrupt controller.
    pub fn install_boot_caps(
        &mut self,
        root: usize,
        resources: KPtr,
        table: CapBlockRef,
        addrspace: ArchCaps,
        thread: KPtr,
    )
        requires
            old(self).caps.wf(),
            root < old(self).caps.blocks(),
            COUNT >= 5,
            forall|s: int| 0 <= s < 5 ==> old(self).caps.state_at(#[trigger] Trie::<COUNT, Capability>::flat(root as int, s)) == 0,
        ensures
            final(self).threads == old(self).threads,
            final(self).irqs == old(self).irqs,
            final(self).caps.wf(),
            final(self).retype == old(self).retype,
            final(self).tables == old(self).tables,
            final(self).caps.payload_at(Trie::<COUNT, Capability>::flat(root as int, 0)) matches Some(
                TrieSlotPayload::Data(Capability::CompResource(k))) && k@ == resources@,
            final(self).caps.payload_at(Trie::<COUNT, Capability>::flat(root as int, 1)) matches Some(
                TrieSlotPayload::Data(Capability::CapBlock(c))) && c.kptr@ == table.kptr@ && c.block == table.block,
            final(self).caps.payload_at(Trie::<COUNT, Capability>::flat(root as int, 2)) matches Some(
                TrieSlotPayload::Data(Capability::Arch(a))) && a.vmtable() == addrspace.vmtable(),
            final(self).caps.payload_at(Trie::<COUNT, Capability>::flat(root as int, 3)) matches Some(
                TrieSlotPayload::Data(Capability::Thread(k))) && k@ == thread@,
            final(self).caps.payload_at(Trie::<COUNT, Capability>::flat(root as int, 4)) matches Some(
                TrieSlotPayload::Data(Capability::Arch(a))) && a is IrqCtrl,
    {
        let ghost s0 = Trie::<COUNT, Capability>::flat(root as int, 0);
        let ghost s1 = Trie::<COUNT, Capability>::flat(root as int, 1);
        let ghost s2 = Trie::<COUNT, Capability>::flat(root as int, 2);
        let ghost s3 = Trie::<COUNT, Capability>::flat(root as int, 3);
        let ghost s4 = Trie::<COUNT, Capability>::flat(root as int, 4);
        proof {
            assert(self.caps.state_at(s0) == 0);
            assert(self.caps.state_at(s1) == 0);
            assert(self.caps.state_at(s2) == 0);
            assert(self.caps.state_at(s3) == 0);
            assert(self.caps.state_at(s4) == 0);
        }
        let _ = self.place(root, 0, TrieSlotPayload::Data(Capability::CompResource(resources)));
        let _ = self.place(root, 1, TrieSlotPayload::Data(Capability::CapBlock(table)));
        let _ = self.place(root, 2, TrieSlotPayload::Data(Capability::Arch(addrspace)));
        let _ = self.place(root, 3, TrieSlotPayload::Data(Capability::Thread(thread)));
        let irq = ArchCaps::IrqCtrl;
        let _ = self.place(root, 4, TrieSlotPayload::Data(Capability::Arch(irq)));
    }

    /// The slot of the resources capability `id`, checked to hold one.
    fn lookup_resources(&mut self, root: usize, id: u32) -> (r: Result<usize, CapError>)
        requires
            old(self).ready(root),
        ensures
            final(self).ready(root),
            final(self).retype == old(self).retype,
            final(self).tables == old(self).tables,
            final(self).threads == old(self).threads,
            final(self).irqs == old(self).irqs,
            final(self).caps.payloads_view() == old(self).caps.payloads_view(),
            final(self).caps.blocks() == old(self).caps.blocks(),
            resources_of(found_payload(old(self).caps, root as int, id as nat)) matches Err(e) ==> r == Err::<
                usize,
                CapError,
            >(e),
            resources_of(found_payload(old(self).caps, root as int, id as nat)) matches Ok(f) ==> (r matches Ok(i)
                && i < old(self).caps.slot_count() && (old(self).caps.payload_at(i as int) matches Some(
                TrieSlotPayload::Data(Capability::CompResource(k))) && k@ == f)
                && final(self).caps.states_view() == old(self).caps.states_view() && !(
            decode_state(old(self).caps.state_at(i as int)) is Dead)),
    {
        let i = match self.find(root, id) {
            Some(i) => i,
            None => return Err(CapError::CapNotFound),
        };
        match self.caps.payload_at_index(i) {
            TrieSlotPayload::Data(Capability::CompResource(_)) => Ok(i),
            TrieSlotPayload::Data(_) => Err(CapError::InvalidArg),
            TrieSlotPayload::Link(_) => Err(CapError::CapNotFound),
        }
    }

    /// Another handle on the resources held in slot `i`; the frame's count
    /// grows by one.
    fn clone_resources(&mut self, root: usize, i: usize) -> (r: KPtr)
        requires
            old(self).ready(root),
            i < old(self).caps.slot_count(),
            !(decode_state(old(self).caps.state_at(i as int)) is Dead),
            old(self).caps.payload_at(i as int) matches Some(TrieSlotPayload::Data(Capability::CompResource(_))),
        ensures
            old(self).caps.payload_at(i as int) matches Some(TrieSlotPayload::Data(Capability::CompResource(k)))
                && r@ == k@,
            final(self).caps == old(self).caps,
            final(self).tables == old(self).tables,
            final(self).threads == old(self).threads,
            final(self).irqs == old(self).irqs,
            final(self).retype.base() == old(self).retype.base(),
            final(self).retype@ == old(self).retype@.update(
                frame_index(r@),
                (old(self).retype@[frame_index(r@)] + 1) as u16,
            ),
            decode(old(self).retype@[frame_index(r@)]).0 == State::Kernel,
            decode(old(self).retype@[frame_index(r@)]).1 > 0,
            frame_index(r@) < old(self).retype@.len(),
    {
        proof {
            assert(old(self).slot_fits(i as int));
        }
        let caps = &self.caps;
        let k = match caps.payload_at_index(i) {
            TrieSlotPayload::Data(Capability::CompResource(k)) => k,
            _ => vstd::pervasive::unreached(),
        };
        k.clone(&mut self.retype)
    }

    /// Creates the object `args` describes and sets slot `slot_id` of the
    /// table named by `table_cap` to a capability on it (see
    /// `cons_outcome`).
    pub fn cap_table_cons(&mut self, root: usize, table_cap: u32, slot_id: usize, args: ConsArgs) -> (r: Result<
        (),
        CapError,
    >)
        requires
            old(self).ready(root),
            slot_id < COUNT,
            old(self).caps.slot_count() + COUNT <= usize::MAX,
        ensures
            final(self).irqs == old(self).irqs,
            !(args is Thread) ==> final(self).threads == old(self).threads,
            final(self).caps.wf(),
            counts_below_max(final(self).retype@) ==> final(self).ready(root),
            match ctable_of(found_payload(old(self).caps, root as int, table_cap as nat)) {
                Err(e) => r == Err::<(), CapError>(e) && final(self).retype@ == old(self).retype@
                    && final(self).tables@ == old(self).tables@
                    && final(self).caps.payloads_view() == old(self).caps.payloads_view()
                    && final(self).threads@ == old(self).threads@,
                Ok(b) => cons_outcome(*old(self), *final(self), root, b, slot_id, args, r),
            },
    {
        let b = self.lookup_ctable(root, table_cap)?;
        let ghost i = Trie::<COUNT, Capability>::flat(b as int, slot_id as int);
        let ghost a0 = args;
        let ghost s1 = *self;
        proof {
            lemma_state_roundtrip(InternalState::Alive { refs: 0 });
            assert(decode(encode(State::Kernel, 1)) == (State::Kernel, 1u16));
            assert(decode(encode(State::Kernel, 0)) == (State::Kernel, 0u16));
        }
        match args {
            ConsArgs::Thread { entry, rsp, resources, frame, arg0 } => {
                proof {
                    lemma_lookup_same_views(&self.caps, &old(self).caps, root as int, resources as nat);
                }
                let ri = self.lookup_resources(root, resources)?;
                let ghost s2 = *self;
                let comp = self.clone_resources(root, ri);
                let ghost mid = self.retype@;
                proof {
                    let o = old(self).retype@;
                    assert(decode(encode(State::Kernel, 0)).1 == 0);
                    if old(self).retype.covers(frame) && o[frame_index(frame)] == encode(State::Kernel, 0) {
                        assert(frame_index(frame) != frame_index(comp@));
                    }
                    if !old(self).retype.covers(frame) {
                    } else if frame_index(frame) != frame_index(comp@) {
                        assert(mid[frame_index(frame)] == o[frame_index(frame)]);
                    } else {
                        assert(decode(mid[frame_index(frame)]).0 == State::Kernel);
                        assert(decode(mid[frame_index(frame)]).1 > 0);
                    }
                }
                let context = ExecCtx::new_thread(entry, rsp, arg0);
                let thread = match KPtr::new(frame, &mut self.retype) {
                    Ok(k) => k,
                    Err(e) => {
                        comp.drop(&mut self.retype);
                        proof {
                            assert(self.retype@ =~= old(self).retype@);
                            if counts_below_max(self.retype@) {
                                Self::lemma_ready_step(&s2, self, root, 0);
                            }
                        }
                        return Err(CapError::from(e));
                    },
                };
                let key: u64 = frame.base().as_u64();
                self.threads.insert(key, Thread::new(context, comp, 0, None));
                let res = match self.place(b, slot_id, TrieSlotPayload::Data(Capability::Thread(thread))) {
                    Ok(()) => Ok(()),
                    Err(p) => {
                        match p {
                            TrieSlotPayload::Data(Capability::Thread(k)) => {
                                proof {
                                    assert(decode(encode(State::Kernel, 1)) == (State::Kernel, 1u16));
                                }
                                k.drop(&mut self.retype);
                                proof {
                                    assert(self.retype@ =~= mid);
                                }
                            },
                            _ => {},
                        }
                        Err(CapError::CapNotEmpty)
                    },
                };
                proof {
                    assert(cons_outcome(*old(self), *self, root, b, slot_id, a0, res));
                    if counts_below_max(self.retype@) {
                        if res is Ok {
                            assert(self.slot_fits(i));
                        }
                        Self::lemma_ready_step(&s2, self, root, 0);
                    }
                }
                res
            },
            ConsArgs::CTable { frame } => {
                let kptr = match KPtr::new(frame, &mut self.retype) {
                    Ok(k) => k,
                    Err(e) => {
                        proof {
                            if counts_below_max(self.retype@) {
                                Self::lemma_ready_step(&s1, self, root, 0);
                            }
                        }
                        return Err(CapError::from(e));
                    },
                };
                let block = self.caps.blocks_count();
                let res = match self.place(b, slot_id, TrieSlotPayload::Data(Capability::CapBlock(CapBlockRef { kptr, block }))) {
                    Ok(()) => {
                        let _ = self.caps.add_block(TrieBlock::empty());
                        Ok(())
                    },
                    Err(p) => {
                        match p {
                            TrieSlotPayload::Data(Capability::CapBlock(c)) => {
                                proof {
                                    assert(decode(encode(State::Kernel, 1)) == (State::Kernel, 1u16));
                                }
                                c.kptr.drop(&mut self.retype);
                                proof {
                                    assert(self.retype@ =~= old(self).retype@);
                                }
                            },
                            _ => {},
                        }
                        Err(CapError::CapNotEmpty)
                    },
                };
                proof {
                    assert(cons_outcome(*old(self), *self, root, b, slot_id, a0, res));
                    if counts_below_max(self.retype@) {
                        if res is Ok {
                            assert(self.slot_fits(i));
                        }
                        Self::lemma_ready_step(&s1, self, root, 0);
                    }
                }
                res
            },
            ConsArgs::VMTable { frame, level } => {
                let acap = match ArchCaps::new_vmtable(frame, level, &mut self.retype, &mut self.tables) {
                    Ok(a) => a,
                    Err(e) => {
                        proof {
                            if counts_below_max(self.retype@) {
                                Self::lemma_ready_step(&s1, self, root, 0);
                            }
                        }
                        return Err(e);
                    },
                };
                proof {
                    assert forall|j: int|
                        0 <= j < s1.caps.slot_count() implies (#[trigger] s1.caps.payload_at(j) matches Some(
                            TrieSlotPayload::Data(Capability::Arch(x)),
                        ) ==> (x.vmtable() matches Some((f, _)) ==> f@ != frame@)) by {
                        assert(s1.slot_fits(j));
                    }
                }
                let res = match self.place(b, slot_id, TrieSlotPayload::Data(Capability::Arch(acap))) {
                    Ok(()) => Ok(()),
                    Err(p) => {
                        match p {
                            TrieSlotPayload::Data(Capability::Arch(a)) => {
                                proof {
                                    assert(decode(encode(State::Kernel, 1)) == (State::Kernel, 1u16));
                                }
                                a.drop(&mut self.retype);
                                proof {
                                    assert(self.retype@ =~= old(self).retype@);
                                }
                            },
                            _ => {},
                        }
                        Err(CapError::CapNotEmpty)
                    },
                };
                proof {
                    assert(cons_outcome(*old(self), *self, root, b, slot_id, a0, res));
                    if counts_below_max(self.retype@) {
                        if res is Ok {
                            assert(self.slot_fits(i));
                        }
                        Self::lemma_ready_step(&s1, self, root, frame@);
                    }
                }
                res
            },
            ConsArgs::SyncCall { entry, resources } => {
                proof {
                    lemma_lookup_same_views(&self.caps, &old(self).caps, root as int, resources as nat);
                }
                let ri = self.lookup_resources(root, resources)?;
                let ghost s3 = *self;
                let comp = self.clone_resources(root, ri);
                let call = SyncCall::new(comp, entry);
                let res = match self.place(b, slot_id, TrieSlotPayload::Data(Capability::SyncCall(call))) {
                    Ok(()) => Ok(()),
                    Err(p) => {
                        match p {
                            TrieSlotPayload::Data(Capability::SyncCall(c)) => {
                                c.into_resources().drop(&mut self.retype);
                                proof {
                                    assert(self.retype@ =~= old(self).retype@);
                                }
                            },
                            _ => {},
                        }
                        Err(CapError::CapNotEmpty)
                    },
                };
                proof {
                    assert(cons_outcome(*old(self), *self, root, b, slot_id, a0, res));
                    if counts_below_max(self.retype@) {
                        if res is Ok {
                            assert(self.slot_fits(i));
                        }
                        Self::lemma_ready_step(&s3, self, root, 0);
                    }
                }
                res
            },
        }
    }
}

/// Retyping a free untyped frame into user or kernel memory and back
/// leaves the retype table as it was.
pub proof fn law_retype_round_trip(t: Seq<u16>, i: int, to: RetypeKind)
    requires
        0 <= i < t.len(),
        t[i] == encode(State::Untyped, 0),
        to != RetypeKind::IntoUntyped,
    ensures
        retype_outcome(t, i, to).0 is Ok,
        retype_outcome(retype_outcome(t, i, to).1, i, RetypeKind::IntoUntyped) == (Ok::<(), CapError>(()), t),
{
    let t2 = retype_outcome(t, i, to).1;
    assert(t2.update(i, encode(State::Untyped, 0)) =~= t);
}

/// A capability just set in a slot is found there: once slot `slot_id` of
/// block `b` is alive, looking `slot_id` up from `b` reaches it.
pub proof fn law_set_capability_found<const COUNT: usize>(caps: &Trie<COUNT, Capability>, b: int, slot_id: nat)
    requires
        COUNT >= 2,
        slot_id < COUNT,
        caps.state_at(Trie::<COUNT, Capability>::flat(b, slot_id as int)) == encode_state(
            InternalState::Alive { refs: 0 },
        ),
    ensures
        caps.lookup(b, slot_id) == Some(Trie::<COUNT, Capability>::flat(b, slot_id as int)),
{
    lemma_state_roundtrip(InternalState::Alive { refs: 0 });
    crate::caps::trie::law_alive_slot_found(caps, b, slot_id);
}

/// The payloads of a trie after a block is added: the old ones, then
/// `COUNT` empty ones.
pub open spec fn grown<const COUNT: usize>(p: Seq<Option<TrieSlotPayload<Capability>>>) -> Seq<
    Option<TrieSlotPayload<Capability>>,
> {
    p + Seq::new(COUNT as nat, |j: int| None::<TrieSlotPayload<Capability>>)
}

/// `after` agrees with `before` everywhere but at `i`.
pub open spec fn same_but(
    before: Seq<Option<TrieSlotPayload<Capability>>>,
    after: Seq<Option<TrieSlotPayload<Capability>>>,
    i: int,
) -> bool {
    &&& after.len() == before.len()
    &&& forall|j: int| 0 <= j < before.len() && j != i ==> after[j] == before[j]
}

/// What `cap_table_cons` does once the table capability named block `b`:
/// the checks of each kind in order, then the capability set in slot
/// `slot_id` of the block when it is dead, or `CapNotEmpty`.
pub open spec fn cons_outcome<const COUNT: usize>(
    o: Kernel<COUNT>,
    f: Kernel<COUNT>,
    root: usize,
    b: usize,
    slot_id: usize,
    args: ConsArgs,
    r: Result<(), CapError>,
) -> bool {
    let i = Trie::<COUNT, Capability>::flat(b as int, slot_id as int);
    let empty = o.caps.state_at(i) == 0;
    let pv = o.caps.payloads_view();
    match args {
        ConsArgs::Thread { entry, rsp, resources, frame, arg0 } => match resources_of(
            found_payload(o.caps, root as int, resources as nat),
        ) {
            Err(e) => r == Err::<(), CapError>(e) && f.retype@ == o.retype@ && f.caps.payloads_view() == pv
                && f.threads@ == o.threads@,
            Ok(rf) => match unused_kernel(o.retype, frame) {
                Err(e) => r == Err::<(), CapError>(e) && f.retype@ == o.retype@ && f.caps.payloads_view() == pv
                    && f.threads@ == o.threads@,
                Ok(_) => {
                    let counted = o.retype@.update(frame_index(rf), (o.retype@[frame_index(rf)] + 1) as u16);
                    &&& f.threads@ == o.threads@.insert(frame@, f.threads@[frame@])
                    &&& thread_started(f.threads@[frame@], entry_regs(entry as u64, rsp as u64, arg0 as u64), rf)
                    &&& if empty {
                        &&& r is Ok
                        &&& f.caps.state_at(i) == encode_state(InternalState::Alive { refs: 0 })
                        &&& f.retype@ == counted.update(frame_index(frame), encode(State::Kernel, 1))
                        &&& f.caps.payload_at(i) matches Some(TrieSlotPayload::Data(Capability::Thread(k)))
                            && k@ == frame
                        &&& same_but(pv, f.caps.payloads_view(), i)
                    } else {
                        &&& r == Err::<(), CapError>(CapError::CapNotEmpty)
                        &&& f.retype@ == counted
                        &&& f.caps.payloads_view() == pv
                    }
                },
            },
        },
        ConsArgs::CTable { frame } => match unused_kernel(o.retype, frame) {
            Err(e) => r == Err::<(), CapError>(e) && f.retype@ == o.retype@ && f.caps.payloads_view() == pv,
            Ok(_) => if empty {
                &&& r is Ok
                &&& f.caps.state_at(i) == encode_state(InternalState::Alive { refs: 0 })
                &&& f.caps.blocks() == o.caps.blocks() + 1
                &&& f.retype@ == o.retype@.update(frame_index(frame), encode(State::Kernel, 1))
                &&& f.caps.payload_at(i) matches Some(TrieSlotPayload::Data(Capability::CapBlock(c)))
                    && c.kptr@ == frame && c.block == o.caps.blocks()
                &&& same_but(grown::<COUNT>(pv), f.caps.payloads_view(), i)
            } else {
                &&& r == Err::<(), CapError>(CapError::CapNotEmpty)
                &&& f.retype@ == o.retype@
                &&& f.caps.payloads_view() == pv
            },
        },
        ConsArgs::VMTable { frame, level } => match unused_kernel(o.retype, frame) {
            Err(e) => r == Err::<(), CapError>(e) && f.retype@ == o.retype@ && f.tables@ == o.tables@
                && f.caps.payloads_view() == pv,
            Ok(_) => if !(1 <= level <= 4) {
                r == Err::<(), CapError>(CapError::InvalidVMTableLevel) && f.retype@ == o.retype@ && f.tables@
                    == o.tables@ && f.caps.payloads_view() == pv
            } else {
                &&& f.tables@ == replaced(o.tables@, frame@, level)
                &&& if empty {
                    &&& r is Ok
                    &&& f.caps.state_at(i) == encode_state(InternalState::Alive { refs: 0 })
                    &&& f.retype@ == o.retype@.update(frame_index(frame), encode(State::Kernel, 1))
                    &&& f.caps.payload_at(i) matches Some(TrieSlotPayload::Data(Capability::Arch(a)))
                        && a.vmtable() == Some((frame, level))
                    &&& same_but(pv, f.caps.payloads_view(), i)
                } else {
                    &&& r == Err::<(), CapError>(CapError::CapNotEmpty)
                    &&& f.retype@ == o.retype@
                    &&& f.caps.payloads_view() == pv
                }
            },
        },
        ConsArgs::SyncCall { entry, resources } => match resources_of(
            found_payload(o.caps, root as int, resources as nat),
        ) {
            Err(e) => r == Err::<(), CapError>(e) && f.retype@ == o.retype@ && f.caps.payloads_view() == pv,
            Ok(rf) => if empty {
                &&& r is Ok
                &&& f.caps.state_at(i) == encode_state(InternalState::Alive { refs: 0 })
                &&& f.retype@ == o.retype@.update(frame_index(rf), (o.retype@[frame_index(rf)] + 1) as u16)
                &&& f.caps.payload_at(i) matches Some(TrieSlotPayload::Data(Capability::SyncCall(s)))
                    && s.comp_frame() == rf && s.entry_spec() == entry
                &&& same_but(pv, f.caps.payloads_view(), i)
            } else {
                &&& r == Err::<(), CapError>(CapError::CapNotEmpty)
                &&& f.retype@ == o.retype@
                &&& f.caps.payloads_view() == pv
            },
        },
    }
}

} // verus!

//! Capabilities, the errors capability operations report, and the trie that
//! stores capabilities.

use vstd::prelude::*;
use vstd::std_specs::convert::FromSpecImpl;

pub mod trie;

use crate::addrspace::X64Addrspace;
use crate::arch_caps::ArchCaps;
use crate::core_local::core_cell::BindError;
use crate::exec::{call_regs, CallAbi, IrqCtx};
use crate::kmem::KPtr;
use crate::thread::ThreadExecCtx;
use crate::mem::virt::VirtAddr;
use crate::mem::{Frame, UNTYPED_MEMORY_OFFSET};
use crate::retyping::{frame_index, KernelFrame, RetypeTable, MAX_REF_COUNT};
use crate::mem::phys::BadAddress;
use crate::page_table::PageTableOffsetError;
use crate::retyping::{AsUnusedKernelError, RetypeError, State};
use trie::{decode_state, InternalState, Trie, TrieRef, TrieSetError, TrieSlotPayload};

verus! {

/// Why a capability operation was refused.
#[derive(Debug, Clone, Copy, PartialEq, Eq, Structural)]
pub enum CapError {
    BadUserMemory,
    CapNotEmpty,
    CapNotFound,
    FrameAlreadyTyped,
    FrameAlreadyUntyped,
    FrameInUse,
    FrameOffAvailableMemoryRange,
    FrameRefsExist,
    FrameUnavailable,
    InvalidArg,
    InvalidCapType,
    InvalidVMTableLevel,
    IrqTableBindInvalid,
    NotKernelTyped,
    SigWaitNoParent,
    SyncInvokeLimit,
    SyncRetLimit,
    SyncRetOnNoRetAbi,
    SyscallNotImplemented,
    ThreadBoundToOtherCore,
    VMLinkNotFlat,
}

/// A capability on a block of the capability trie: the kernel frame
/// holding the block and the block's number in the trie.
#[derive(Debug)]
pub struct CapBlockRef {
    pub kptr: KPtr,
    pub block: usize,
}

/// A synchronous call endpoint: the resources the callee runs with and its
/// entry point.
#[derive(Debug)]
pub struct SyncCall {
    comp: KPtr,
    entry: usize,
}

impl SyncCall {
    pub closed spec fn comp_frame(&self) -> Frame {
        self.comp@
    }

    pub closed spec fn entry_spec(&self) -> usize {
        self.entry
    }

    pub fn new(comp: KPtr, entry: usize) -> (r: Self)
        ensures
            r.comp_frame() == comp@,
            r.entry_spec() == entry,
    {
        Self { comp, entry }
    }

    /// The resources of the callee.
    pub fn resources(&self) -> (r: &KPtr)
        ensures
            r@ == self.comp_frame(),
    {
        &self.comp
    }

    /// Gives up the endpoint, keeping its handle on the resources.
    pub fn into_resources(self) -> (r: KPtr)
        ensures
            r@ == self.comp_frame(),
    {
        self.comp
    }

    /// The entry point of the callee.
    pub fn entry(&self) -> (r: usize)
        ensures
            r == self.entry_spec(),
    {
        self.entry
    }

    /// The level a call through this endpoint runs: the callee entered by
    /// the standard call convention from the caller's state in `ctx`, with
    /// the endpoint's resources.
    pub fn create_invocation(self, ctx: &IrqCtx) -> (r: ThreadExecCtx)
        ensures
            r.regs() == call_regs(self.entry_spec() as u64, ctx.regs_view()),
            r.resources_frame() == self.comp_frame(),
            r.ret_abi() is Standard,
    {
        let (xstate, abi) = CallAbi.new_invocation(self.entry, ctx);
        ThreadExecCtx::new(xstate, self.comp, abi)
    }
}

/// A notification: the thread to wake and the badge it receives.
#[derive(Debug)]
pub struct Notification {
    waiter: KPtr,
    badge: u32,
}

impl Notification {
    pub closed spec fn waiter_frame(&self) -> Frame {
        self.waiter@
    }

    pub closed spec fn badge_spec(&self) -> u32 {
        self.badge
    }

    pub fn new(waiter: KPtr, badge: u32) -> (r: Self)
        ensures
            r.waiter_frame() == waiter@,
            r.badge_spec() == badge,
    {
        Self { waiter, badge }
    }

    /// The badge the thread receives.
    pub fn badge(&self) -> (r: u32)
        ensures
            r == self.badge_spec(),
    {
        self.badge
    }

    /// Gives up the notification, keeping its handle on the thread.
    pub fn into_waiter(self) -> (r: KPtr)
        ensures
            r@ == self.waiter_frame(),
    {
        self.waiter
    }

    /// The thread to wake.
    pub fn waiter(&self) -> (r: &KPtr)
        ensures
            r@ == self.waiter_frame(),
    {
        &self.waiter
    }
}

/// What a thread runs with: its address space (the frame of its level 4
/// table) and its capability table.
#[derive(Debug)]
pub struct Resources {
    addrspace: KPtr,
    capabilities: CapBlockRef,
}

impl Resources {
    pub closed spec fn addrspace_frame(&self) -> Frame {
        self.addrspace@
    }

    pub closed spec fn table_block(&self) -> usize {
        self.capabilities.block
    }

    pub closed spec fn table_frame(&self) -> Frame {
        self.capabilities.kptr@
    }

    /// Resources over `addrspace`, whose level 4 table frame is already a
    /// counted kernel frame, and `capabilities`.
    pub fn new(addrspace: X64Addrspace, capabilities: CapBlockRef) -> (r: Self)
        ensures
            r.addrspace_frame() == addrspace.table_frame(),
            r.table_block() == capabilities.block,
            r.table_frame() == capabilities.kptr@,
    {
        let page_table = KPtr::from_frame_unchecked(KernelFrame::from_raw(addrspace.into_frame()));
        Self { addrspace: page_table, capabilities }
    }

    /// Resources from an address-space capability and a table capability.
    pub fn from_parts(addrspace: KPtr, capabilities: CapBlockRef) -> (r: Self)
        ensures
            r.addrspace_frame() == addrspace@,
            r.table_block() == capabilities.block,
            r.table_frame() == capabilities.kptr@,
    {
        Self { addrspace, capabilities }
    }

    /// The capability on the level 4 table.
    pub fn addrspace_cap(&self) -> (r: &KPtr)
        ensures
            r@ == self.addrspace_frame(),
    {
        &self.addrspace
    }

    /// The address space.
    pub fn addrspace(&self) -> (r: X64Addrspace)
        ensures
            r.table_frame() == self.addrspace_frame(),
    {
        X64Addrspace::from_frame(self.addrspace.frame())
    }

    /// The capability table.
    pub fn cap_table(&self) -> (r: &CapBlockRef)
        ensures
            r.block == self.table_block(),
            r.kptr@ == self.table_frame(),
    {
        &self.capabilities
    }
}

/// What a capability slot holds.
#[derive(Debug)]
pub enum Capability {
    Thread(KPtr),
    CapBlock(CapBlockRef),
    SyncCall(SyncCall),
    CompResource(KPtr),
    Notification(Notification),
    Arch(ArchCaps),
}

impl Capability {
    /// The counted kernel frame the capability holds a reference to, if any.
    pub open spec fn frame(&self) -> Option<Frame> {
        match self {
            Capability::Thread(k) => Some(k@),
            Capability::CapBlock(c) => Some(c.kptr@),
            Capability::SyncCall(s) => Some(s.comp_frame()),
            Capability::CompResource(k) => Some(k@),
            Capability::Notification(n) => Some(n.waiter_frame()),
            Capability::Arch(a) => match a.vmtable() {
                Some((f, _)) => Some(f),
                None => None,
            },
        }
    }

    /// `c` is the same capability as `self`, holding its own reference.
    pub open spec fn same_as(&self, c: Capability) -> bool {
        match (self, c) {
            (Capability::Thread(a), Capability::Thread(b)) => a@ == b@,
            (Capability::CapBlock(a), Capability::CapBlock(b)) => a.kptr@ == b.kptr@ && a.block == b.block,
            (Capability::SyncCall(a), Capability::SyncCall(b)) => a.comp_frame() == b.comp_frame()
                && a.entry_spec() == b.entry_spec(),
            (Capability::CompResource(a), Capability::CompResource(b)) => a@ == b@,
            (Capability::Notification(a), Capability::Notification(b)) => a.waiter_frame() == b.waiter_frame()
                && a.badge_spec() == b.badge_spec(),
            (Capability::Arch(a), Capability::Arch(b)) => a.vmtable() == b.vmtable() && (a is IrqCtrl <==> b is IrqCtrl),
            _ => false,
        }
    }

    /// Another capability on the same object; the count of the frame it
    /// holds grows by one.
    pub fn clone(&self, table: &mut RetypeTable) -> (r: Self)
        requires
            self.frame() matches Some(f) ==> old(table).covers(f) && old(table).state_of(f).0
                == crate::retyping::State::Kernel && 0 < old(table).state_of(f).1 < MAX_REF_COUNT,
        ensures
            self.same_as(r),
            r.frame() == self.frame(),
            final(table).base() == old(table).base(),
            match self.frame() {
                Some(f) => final(table)@ == old(table)@.update(frame_index(f), (old(table)@[frame_index(f)] + 1) as u16),
                None => final(table)@ == old(table)@,
            },
    {
        match self {
            Capability::Thread(k) => Capability::Thread(k.clone(table)),
            Capability::CapBlock(c) => Capability::CapBlock(CapBlockRef { kptr: c.kptr.clone(table), block: c.block }),
            Capability::SyncCall(s) => Capability::SyncCall(SyncCall::new(s.resources().clone(table), s.entry())),
            Capability::CompResource(k) => Capability::CompResource(k.clone(table)),
            Capability::Notification(n) => Capability::Notification(Notification::new(n.waiter().clone(table), n.badge())),
            Capability::Arch(a) => Capability::Arch(a.clone(table)),
        }
    }

    /// Releases the capability's reference on its frame.
    pub fn drop(self, table: &mut RetypeTable)
        requires
            self.frame() matches Some(f) ==> old(table).covers(f) && old(table).state_of(f).0
                == crate::retyping::State::Kernel && old(table).state_of(f).1 > 0,
        ensures
            final(table).base() == old(table).base(),
            match self.frame() {
                Some(f) => final(table)@ == old(table)@.update(frame_index(f), (old(table)@[frame_index(f)] - 1) as u16),
                None => final(table)@ == old(table)@,
            },
    {
        match self {
            Capability::Thread(k) => k.drop(table),
            Capability::CapBlock(c) => c.kptr.drop(table),
            Capability::SyncCall(s) => s.into_resources().drop(table),
            Capability::CompResource(k) => k.drop(table),
            Capability::Notification(n) => n.into_waiter().drop(table),
            Capability::Arch(a) => a.drop(table),
        }
    }
}

/// `size` bytes from `addr` lie in user memory: the span neither wraps
/// around nor reaches past the start of the untyped window.
pub open spec fn user_span(addr: usize, size: usize) -> bool {
    &&& addr + size <= usize::MAX
    &&& addr < UNTYPED_MEMORY_OFFSET
    &&& addr + size < UNTYPED_MEMORY_OFFSET
}

/// The address `addr` checked to start `size` bytes of user memory; a span
/// that is not is `BadUserMemory`.
fn checked_user_span(addr: usize, size: usize) -> (r: Result<usize, CapError>)
    ensures
        user_span(addr, size) ==> r == Ok::<usize, CapError>(addr),
        !user_span(addr, size) ==> r == Err::<usize, CapError>(CapError::BadUserMemory),
{
    let end = match addr.checked_add(size) {
        Some(e) => e,
        None => return Err(CapError::BadUserMemory),
    };
    let start_ptr = match VirtAddr::try_new(addr) {
        Ok(p) => p,
        Err(_) => return Err(CapError::BadUserMemory),
    };
    let end_ptr = match VirtAddr::try_new(end) {
        Ok(p) => p,
        Err(_) => return Err(CapError::BadUserMemory),
    };
    if !start_ptr.is_user() || !end_ptr.is_user() {
        return Err(CapError::BadUserMemory);
    }
    Ok(addr)
}

/// A pointer a thread handed in, checked to span the `size` bytes of the
/// value it points to inside user memory; the kernel reads through it.
#[derive(Debug, Clone, Copy)]
pub struct TrustedUserPtr {
    addr: usize,
    size: usize,
}

impl TrustedUserPtr {
    pub closed spec fn addr_view(&self) -> usize {
        self.addr
    }

    pub closed spec fn size_view(&self) -> usize {
        self.size
    }

    /// The user pointer `addr` to a value of `size` bytes, if those bytes
    /// are user memory; `BadUserMemory` otherwise.
    pub fn try_from(addr: usize, size: usize) -> (r: Result<Self, CapError>)
        ensures
            user_span(addr, size) ==> (r matches Ok(p) && p.addr_view() == addr && p.size_view() == size),
            !user_span(addr, size) ==> r == Err::<Self, CapError>(CapError::BadUserMemory),
    {
        let start = checked_user_span(addr, size)?;
        Ok(Self { addr: start, size })
    }

    /// The address.
    pub fn addr(&self) -> (r: usize)
        ensures
            r == self.addr_view(),
    {
        self.addr
    }

    /// The size of the value pointed to.
    pub fn size(&self) -> (r: usize)
        ensures
            r == self.size_view(),
    {
        self.size
    }
}

/// A pointer a thread handed in, checked like `TrustedUserPtr`; the kernel
/// reads and writes through it.
#[derive(Debug, Clone, Copy)]
pub struct TrustedUserPtrMut {
    addr: usize,
    size: usize,
}

impl TrustedUserPtrMut {
    pub closed spec fn addr_view(&self) -> usize {
        self.addr
    }

    pub closed spec fn size_view(&self) -> usize {
        self.size
    }

    /// The user pointer `addr` to a value of `size` bytes, if those bytes
    /// are user memory; `BadUserMemory` otherwise.
    pub fn try_from(addr: usize, size: usize) -> (r: Result<Self, CapError>)
        ensures
            user_span(addr, size) ==> (r matches Ok(p) && p.addr_view() == addr && p.size_view() == size),
            !user_span(addr, size) ==> r == Err::<Self, CapError>(CapError::BadUserMemory),
    {
        let start = checked_user_span(addr, size)?;
        Ok(Self { addr: start, size })
    }

    /// The address.
    pub fn addr(&self) -> (r: usize)
        ensures
            r == self.addr_view(),
    {
        self.addr
    }

    /// The size of the value pointed to.
    pub fn size(&self) -> (r: usize)
        ensures
            r == self.size_view(),
    {
        self.size
    }
}

/// The capability error a retype failure is reported as.
pub open spec fn retype_error_code(value: RetypeError) -> CapError {
    match value {
        RetypeError::InvalidFromState(State::Unavailable) => CapError::FrameUnavailable,
        RetypeError::InvalidFromState(State::Untyped) => CapError::FrameAlreadyUntyped,
        RetypeError::InvalidFromState(_) => CapError::FrameAlreadyTyped,
        RetypeError::RefsExist(_) => CapError::FrameRefsExist,
        RetypeError::OutOfBounds(_) => CapError::FrameOffAvailableMemoryRange,
    }
}

/// The capability error a failed use of an unused kernel frame is reported as.
pub open spec fn kernel_use_error_code(value: AsUnusedKernelError) -> CapError {
    match value {
        AsUnusedKernelError::NotExpectedState(_) => CapError::NotKernelTyped,
        AsUnusedKernelError::AlreadyInUse => CapError::FrameInUse,
        AsUnusedKernelError::OutOfBounds(_) => CapError::InvalidArg,
    }
}

impl From<BadAddress> for CapError {
    fn from(value: BadAddress) -> (r: Self) {
        CapError::InvalidArg
    }
}

impl FromSpecImpl<BadAddress> for CapError {
    open spec fn obeys_from_spec() -> bool {
        true
    }

    open spec fn from_spec(v: BadAddress) -> Self {
        CapError::InvalidArg
    }
}

impl From<PageTableOffsetError> for CapError {
    fn from(value: PageTableOffsetError) -> (r: Self) {
        CapError::InvalidArg
    }
}

impl FromSpecImpl<PageTableOffsetError> for CapError {
    open spec fn obeys_from_spec() -> bool {
        true
    }

    open spec fn from_spec(v: PageTableOffsetError) -> Self {
        CapError::InvalidArg
    }
}

impl From<AsUnusedKernelError> for CapError {
    fn from(value: AsUnusedKernelError) -> (r: Self) {
        match value {
            AsUnusedKernelError::NotExpectedState(_) => CapError::NotKernelTyped,
            AsUnusedKernelError::AlreadyInUse => CapError::FrameInUse,
            AsUnusedKernelError::OutOfBounds(_) => CapError::InvalidArg,
        }
    }
}

impl FromSpecImpl<AsUnusedKernelError> for CapError {
    open spec fn obeys_from_spec() -> bool {
        true
    }

    open spec fn from_spec(v: AsUnusedKernelError) -> Self {
        kernel_use_error_code(v)
    }
}

impl From<RetypeError> for CapError {
    fn from(value: RetypeError) -> (r: Self) {
        match value {
            RetypeError::InvalidFromState(State::Unavailable) => CapError::FrameUnavailable,
            RetypeError::InvalidFromState(State::Untyped) => CapError::FrameAlreadyUntyped,
            RetypeError::InvalidFromState(_) => CapError::FrameAlreadyTyped,
            RetypeError::RefsExist(_) => CapError::FrameRefsExist,
            RetypeError::OutOfBounds(_) => CapError::FrameOffAvailableMemoryRange,
        }
    }
}

impl FromSpecImpl<RetypeError> for CapError {
    open spec fn obeys_from_spec() -> bool {
        true
    }

    open spec fn from_spec(v: RetypeError) -> Self {
        retype_error_code(v)
    }
}

impl From<BindError> for CapError {
    fn from(value: BindError) -> (r: Self) {
        CapError::ThreadBoundToOtherCore
    }
}

impl FromSpecImpl<BindError> for CapError {
    open spec fn obeys_from_spec() -> bool {
        true
    }

    open spec fn from_spec(v: BindError) -> Self {
        CapError::ThreadBoundToOtherCore
    }
}

impl<T> From<TrieSetError<T>> for CapError {
    fn from(value: TrieSetError<T>) -> (r: Self) {
        match value {
            TrieSetError::NotDead(_) => CapError::CapNotEmpty,
        }
    }
}

impl<T> FromSpecImpl<TrieSetError<T>> for CapError {
    open spec fn obeys_from_spec() -> bool {
        true
    }

    open spec fn from_spec(v: TrieSetError<T>) -> Self {
        CapError::CapNotEmpty
    }
}

} // verus!

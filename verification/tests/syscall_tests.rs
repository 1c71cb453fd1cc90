use kernel::addrspace::{PageTables, X64Addrspace};
use kernel::arch_caps::{ArchCaps, IntrospectResult as ArchIntrospect};
use kernel::caps::trie::{BlockRef, InternalState, Trie, TrieSetError};
use kernel::caps::trie::TrieSlotPayload;
use kernel::caps::{CapBlockRef, CapError, Capability, Notification};
use kernel::exec::{ExceptionCtx, Interrupt, InterruptFrame, IrqCtx, PreservedRegs, ScratchRegs};
use kernel::core_local::core_cell::BindError;
use kernel::kmem::KPtr;
use kernel::mem::{Frame, PageFlags};
use kernel::mem::phys::BadAddress;
use kernel::page_table::{PageTableFlags, PageTableOffset, PageTableOffsetError};
use kernel::retyping::bump_alloc::{MemMapEntry, MEMMAP_USABLE};
use kernel::retyping::{AsUnusedKernelError, RetypeError, RetypeTable, State};
use kernel::syscall::{ConsArgs, IntrospectResult, Kernel, RetypeKind};
use kernel::thread::SigWaitResult;

const SLOTS: usize = 16;

fn frame(i: u64) -> Frame {
    Frame::from_index(i).unwrap()
}

/// A kernel over 1 MiB of memory whose initial thread has its table in
/// block 0 with the boot capabilities installed.
fn boot_kernel() -> Kernel<SLOTS> {
    let retype = RetypeTable::new(&mut vec![MemMapEntry { base: 0, length: 0x10_0000, entry_type: MEMMAP_USABLE }]).unwrap();
    let mut k: Kernel<SLOTS> = Kernel::new(retype, PageTables::new(), Trie::new());
    for i in 1..5u64 {
        k.retype(frame(i), RetypeKind::IntoKernel).unwrap();
    }
    let l4 = KPtr::new(frame(1), &mut k.retype).unwrap();
    k.tables.insert_table(frame(1), 4);
    let space = X64Addrspace::from_frame(l4.into_raw());
    let addrspace = ArchCaps::new_addrspace(&space, &mut k.retype);
    let table = KPtr::new(frame(2), &mut k.retype).unwrap();
    let resources = KPtr::new(frame(3), &mut k.retype).unwrap();
    let thread = KPtr::new(frame(4), &mut k.retype).unwrap();
    k.install_boot_caps(0, resources, CapBlockRef { kptr: table, block: 0 }, addrspace, thread);
    k
}

#[test]
fn cap_error_conversions() {
    assert_eq!(CapError::from(RetypeError::RefsExist(2)), CapError::FrameRefsExist);
    assert_eq!(CapError::from(RetypeError::InvalidFromState(State::Untyped)), CapError::FrameAlreadyUntyped);
    assert_eq!(CapError::from(RetypeError::InvalidFromState(State::User)), CapError::FrameAlreadyTyped);
    assert_eq!(CapError::from(RetypeError::InvalidFromState(State::Unavailable)), CapError::FrameUnavailable);
    assert_eq!(CapError::from(AsUnusedKernelError::AlreadyInUse), CapError::FrameInUse);
    assert_eq!(CapError::from(AsUnusedKernelError::NotExpectedState(State::User)), CapError::NotKernelTyped);
    assert_eq!(CapError::from(BadAddress), CapError::InvalidArg);
    assert_eq!(CapError::from(PageTableOffsetError::OutOfBounds), CapError::InvalidArg);
    assert_eq!(CapError::from(TrieSetError::NotDead(5u8)), CapError::CapNotEmpty);
    assert_eq!(CapError::from(BindError::Bound { affinity: 3 }), CapError::ThreadBoundToOtherCore);
}

#[test]
fn boot_capabilities_installed() {
    let mut k = boot_kernel();
    assert!(matches!(k.introspect(0, 0), IntrospectResult::Resources(f) if f == frame(3)));
    assert!(matches!(k.introspect(0, 1), IntrospectResult::CBlock(f) if f == frame(2)));
    assert!(matches!(k.introspect(0, 3), IntrospectResult::Thread(f) if f == frame(4)));
    match k.introspect(0, 2) {
        IntrospectResult::Arch(ArchIntrospect::VMTable(t)) => {
            assert_eq!(t.kobj, frame(1));
            assert_eq!(t.level, 4);
            assert_eq!(t.entries.len(), 512);
        }
        _ => panic!("expected the address space"),
    }
    assert!(matches!(k.introspect(0, 4), IntrospectResult::Arch(ArchIntrospect::IrqCtrl)));
    assert!(matches!(k.introspect(0, 5), IntrospectResult::Empty));
}

#[test]
fn retype_round_trip() {
    let mut k = boot_kernel();
    assert_eq!(k.retype(frame(10), RetypeKind::IntoUser), Ok(()));
    assert_eq!(k.retype(frame(10), RetypeKind::IntoUser), Err(CapError::FrameAlreadyTyped));
    assert_eq!(k.retype(frame(10), RetypeKind::IntoUntyped), Ok(()));
    assert_eq!(k.retype(frame(10), RetypeKind::IntoUntyped), Err(CapError::FrameAlreadyUntyped));
    assert_eq!(k.retype(frame(10), RetypeKind::IntoKernel), Ok(()));
    assert_eq!(k.retype(frame(0), RetypeKind::IntoUser), Err(CapError::FrameUnavailable));
    assert_eq!(k.retype(frame(3), RetypeKind::IntoUntyped), Err(CapError::FrameRefsExist));
    assert_eq!(k.retype(frame(1000), RetypeKind::IntoUser), Err(CapError::FrameOffAvailableMemoryRange));
}

#[test]
fn cons_tables_and_link_pages() {
    let mut k = boot_kernel();
    for i in 10..14u64 {
        k.retype(frame(i), RetypeKind::IntoKernel).unwrap();
    }
    // A new capability table in slot 5.
    assert_eq!(k.cap_table_cons(0, 1, 5, ConsArgs::CTable { frame: frame(10) }), Ok(()));
    assert!(matches!(k.introspect(0, 5), IntrospectResult::CBlock(f) if f == frame(10)));
    assert_eq!(k.cap_table_cons(0, 1, 5, ConsArgs::CTable { frame: frame(11) }), Err(CapError::CapNotEmpty));
    // The frame of a refused object is still unused.
    assert_eq!(k.cap_table_cons(0, 1, 6, ConsArgs::VMTable { frame: frame(11), level: 3 }), Ok(()));
    assert_eq!(k.cap_table_cons(0, 1, 7, ConsArgs::VMTable { frame: frame(12), level: 1 }), Ok(()));
    assert_eq!(k.cap_table_cons(0, 1, 8, ConsArgs::VMTable { frame: frame(13), level: 9 }), Err(CapError::InvalidVMTableLevel));
    assert_eq!(k.cap_table_cons(0, 1, 8, ConsArgs::VMTable { frame: frame(12), level: 2 }), Err(CapError::FrameInUse));
    assert_eq!(k.cap_table_cons(0, 1, 8, ConsArgs::VMTable { frame: frame(20), level: 2 }), Err(CapError::NotKernelTyped));
    assert_eq!(k.cap_table_cons(0, 9, 8, ConsArgs::CTable { frame: frame(13) }), Err(CapError::CapNotFound));
    assert_eq!(k.cap_table_cons(0, 0, 8, ConsArgs::CTable { frame: frame(13) }), Err(CapError::InvalidArg));
    // Linking a level 1 table under the level 4 table is not flat.
    let flags = PageFlags::from_bits_truncate(PageFlags::PRESENT | PageFlags::WRITABLE);
    assert_eq!(k.vm_link(0, 2, 0, 7, flags), Err(CapError::VMLinkNotFlat));
    assert_eq!(k.vm_link(0, 2, 512, 6, flags), Err(CapError::InvalidArg));
    assert_eq!(k.vm_link(0, 4, 0, 6, flags), Err(CapError::InvalidCapType));
    assert_eq!(k.vm_link(0, 5, 0, 6, flags), Err(CapError::InvalidArg));
    assert_eq!(k.vm_link(0, 2, 3, 6, flags), Ok(()));
    match k.introspect(0, 2) {
        IntrospectResult::Arch(ArchIntrospect::VMTable(t)) => {
            assert_eq!(t.entries[3], 11 * 4096 + 0x8000_0000_0000_0003);
        }
        _ => panic!("expected the address space"),
    }
    let user = PageFlags::from_bits_truncate(PageFlags::PRESENT | PageFlags::USER_ACCESSIBLE | PageFlags::EXECUTABLE);
    assert_eq!(k.vm_set_attr(0, 2, 3, user), Ok(()));
    match k.introspect(0, 2) {
        IntrospectResult::Arch(ArchIntrospect::VMTable(t)) => assert_eq!(t.entries[3], 11 * 4096 + 5),
        _ => panic!("expected the address space"),
    }
    assert_eq!(k.vm_unlink(0, 2, 3), Ok(()));
    match k.introspect(0, 2) {
        IntrospectResult::Arch(ArchIntrospect::VMTable(t)) => assert_eq!(t.entries[3], 0),
        _ => panic!("expected the address space"),
    }
    assert_eq!(k.vm_unlink(0, 4, 3), Err(CapError::InvalidCapType));
}

#[test]
fn copy_drop_and_link_slots() {
    let mut k = boot_kernel();
    k.retype(frame(10), RetypeKind::IntoKernel).unwrap();
    assert_eq!(k.cap_table_copy(0, 1, 9, 2), Ok(()));
    assert!(matches!(k.introspect(0, 9), IntrospectResult::Arch(ArchIntrospect::VMTable(_))));
    assert_eq!(k.cap_table_copy(0, 1, 9, 3), Err(CapError::CapNotEmpty));
    assert_eq!(k.cap_table_copy(0, 1, 10, 12), Err(CapError::CapNotFound));
    assert_eq!(k.cap_table_drop(0, 1, 9), Ok(()));
    assert!(matches!(k.introspect(0, 9), IntrospectResult::Empty));
    // A second table linked in slot 11: capability 11 + 16 * s names its slot s.
    assert_eq!(k.cap_table_cons(0, 1, 5, ConsArgs::CTable { frame: frame(10) }), Ok(()));
    assert_eq!(k.cap_table_link(0, 1, 11, 5), Ok(()));
    assert!(matches!(k.introspect(0, 11), IntrospectResult::CLink(1)));
    assert_eq!(k.cap_table_copy(0, 5, 2, 3), Ok(()));
    assert!(matches!(k.introspect(0, 11 + 16 * 2), IntrospectResult::Thread(f) if f == frame(4)));
    assert_eq!(k.cap_table_link(0, 1, 11, 5), Err(CapError::CapNotEmpty));
    assert_eq!(k.cap_table_drop(0, 3, 0), Err(CapError::InvalidArg));
}

#[test]
fn cons_threads_and_calls() {
    let mut k = boot_kernel();
    k.retype(frame(20), RetypeKind::IntoKernel).unwrap();
    let args = ConsArgs::Thread { entry: 0x40_0000, rsp: 0x7000, resources: 0, frame: frame(20), arg0: 9 };
    assert_eq!(k.cap_table_cons(0, 1, 6, args), Ok(()));
    assert!(matches!(k.introspect(0, 6), IntrospectResult::Thread(f) if f == frame(20)));
    let t = k.threads.get(&(20 * 4096)).unwrap();
    let stack = t.execution_stack();
    assert!(stack.is_base());
    let regs = stack.active().exec_state().regs();
    assert_eq!(regs.control.rip, 0x40_0000);
    assert_eq!(regs.control.rsp, 0x7000);
    assert_eq!(regs.scratch.rdi, 9);
    assert_eq!(stack.active().resources().frame(), frame(3));
    assert_eq!(t.flat_priority(), 0);
    assert_eq!(t.signals(), 0);
    let bad = ConsArgs::Thread { entry: 0, rsp: 0, resources: 1, frame: frame(21), arg0: 0 };
    assert_eq!(k.cap_table_cons(0, 1, 7, bad), Err(CapError::InvalidArg));
    assert_eq!(k.cap_table_cons(0, 1, 7, ConsArgs::SyncCall { entry: 0x1234, resources: 0 }), Ok(()));
    assert!(matches!(k.introspect(0, 7), IntrospectResult::SyncCall { resources, entry: 0x1234 } if resources == frame(3)));
    assert_eq!(k.cap_table_cons(0, 1, 8, ConsArgs::SyncCall { entry: 1, resources: 12 }), Err(CapError::CapNotFound));
}

#[test]
fn trie_slot_lifecycle() {
    let mut t: Trie<4, u32> = Trie::new();
    let at = BlockRef { block: 0, slot: 2 };
    let r = at.try_set(&mut t, kernel::caps::trie::TrieSlotPayload::Data(7)).unwrap();
    assert_eq!(*r.data(&t).unwrap(), 7);
    r.drop(&mut t);
    let found = t.get(2).unwrap();
    assert_eq!(*found.data(&t).unwrap(), 7);
    found.drop(&mut t);
    assert!(t.get(1).is_none());
    at.kill(&mut t);
    // A killed slot with no reference left is superposed: not dead yet, so it
    // can't be set again until a lookup runs into it and clears it.
    assert!(matches!(at.try_set(&mut t, kernel::caps::trie::TrieSlotPayload::Data(8)), Err(TrieSetError::NotDead(_))));
    assert!(t.get(2).is_none());
    let r = at.try_set(&mut t, kernel::caps::trie::TrieSlotPayload::Data(8)).unwrap();
    assert_eq!(*r.data(&t).unwrap(), 8);
    assert_eq!(InternalState::from_raw(InternalState::Alive { refs: 3 }.into_raw()), InternalState::Alive { refs: 3 });
    assert_eq!(InternalState::from_raw(0), InternalState::Dead);
}

#[test]
fn kernel_pointer_counts() {
    let mut table = RetypeTable::new(&mut vec![MemMapEntry { base: 0, length: 0x10_0000, entry_type: MEMMAP_USABLE }]).unwrap();
    assert!(matches!(KPtr::new(frame(5), &mut table), Err(AsUnusedKernelError::NotExpectedState(State::Untyped))));
    frame(5).try_into_kernel(&mut table).unwrap().drop(&mut table);
    let k = KPtr::new(frame(5), &mut table).unwrap();
    assert_eq!(frame(5).retype_entry(&table).unwrap().get(), (State::Kernel, 1));
    assert!(matches!(KPtr::new(frame(5), &mut table), Err(AsUnusedKernelError::AlreadyInUse)));
    let k2 = k.clone(&mut table);
    assert_eq!(frame(5).retype_entry(&table).unwrap().get(), (State::Kernel, 2));
    k2.drop(&mut table);
    k.drop(&mut table);
    assert_eq!(frame(5).retype_entry(&table).unwrap().get(), (State::Kernel, 0));
}

#[test]
fn refused_table_frame_can_be_used_again() {
    let mut k = boot_kernel();
    k.retype(frame(10), RetypeKind::IntoKernel).unwrap();
    k.retype(frame(11), RetypeKind::IntoKernel).unwrap();
    assert_eq!(k.cap_table_cons(0, 1, 5, ConsArgs::CTable { frame: frame(10) }), Ok(()));
    assert_eq!(k.cap_table_cons(0, 1, 5, ConsArgs::VMTable { frame: frame(11), level: 2 }), Err(CapError::CapNotEmpty));
    assert_eq!(k.cap_table_cons(0, 1, 6, ConsArgs::VMTable { frame: frame(11), level: 4 }), Ok(()));
    assert_eq!(k.tables.level_of(frame(11)), 4);
}

#[test]
fn reset_table_unlinks_a_table_of_another_level() {
    let mut tables = PageTables::new();
    tables.insert_table(frame(1), 3);
    tables.insert_table(frame(2), 2);
    let flags = PageTableFlags::from_page_flags(PageFlags::all());
    tables.link_entry(frame(1), PageTableOffset::new(7).unwrap(), frame(2), flags);
    tables.reset_table(frame(2), 2);
    assert_ne!(tables.entries(frame(1))[7], 0);
    tables.reset_table(frame(2), 1);
    assert_eq!(tables.entries(frame(1))[7], 0);
    assert_eq!(tables.level_of(frame(2)), 1);
}

#[test]
fn new_vmtable_directly() {
    let mut retype = RetypeTable::new(&mut vec![MemMapEntry { base: 0, length: 0x10_0000, entry_type: MEMMAP_USABLE }]).unwrap();
    let mut tables = PageTables::new();
    frame(8).try_into_kernel(&mut retype).unwrap().drop(&mut retype);
    let cap = ArchCaps::new_vmtable(frame(8), 2, &mut retype, &mut tables).unwrap();
    assert!(tables.contains(frame(8)));
    assert_eq!(tables.level_of(frame(8)), 2);
    assert_eq!(cap.as_vmtable().unwrap().frame(), frame(8));
    assert_eq!(cap.as_addrspace().unwrap_err(), CapError::InvalidArg);
    assert!(matches!(ArchCaps::irq_ctrl(), Ok(ArchCaps::IrqCtrl)));
    assert_eq!(ArchCaps::IrqCtrl.as_vmtable().unwrap_err(), CapError::InvalidCapType);
}

/// The state captured when a thread traps at `rip` with `rsi` and `rdx` set.
fn trap(rip: u64, rsi: u64, rdx: u64) -> IrqCtx {
    let frame = InterruptFrame { instruction_pointer: rip, code_segment: 0x23, cpu_flags: 0x202, stack_pointer: 0x8000, stack_segment: 0x1b };
    let mut scratch = ScratchRegs::default();
    scratch.rsi = rsi;
    scratch.rdx = rdx;
    IrqCtx::Interrupt(ExceptionCtx::<Interrupt>::new(frame, scratch, PreservedRegs::default(), 0))
}

/// The boot kernel with a thread object in frame 20 (capability 6) and a
/// call endpoint into entry 0x1234 (capability 7), both on resources 3.
fn kernel_with_thread() -> Kernel<SLOTS> {
    let mut k = boot_kernel();
    k.retype(frame(20), RetypeKind::IntoKernel).unwrap();
    let args = ConsArgs::Thread { entry: 0x40_0000, rsp: 0x7000, resources: 0, frame: frame(20), arg0: 9 };
    k.cap_table_cons(0, 1, 6, args).unwrap();
    k.cap_table_cons(0, 1, 7, ConsArgs::SyncCall { entry: 0x1234, resources: 0 }).unwrap();
    k
}

const THREAD_KEY: u64 = 20 * 4096;

#[test]
fn sync_call_and_return() {
    let mut k = kernel_with_thread();
    let refs = frame(3).retype_entry(&k.retype).unwrap().get().1;
    let callee = k.sync_invoke(0, THREAD_KEY, 7, &trap(0x40_0010, 41, 5)).unwrap();
    assert_eq!(callee.regs().control.rip, 0x1234);
    // The caller's rdx is the callee's first argument.
    assert_eq!(callee.regs().scratch.rdi, 5);
    assert_eq!(frame(3).retype_entry(&k.retype).unwrap().get().1, refs + 1);
    let caller = k.sync_ret(THREAD_KEY, &trap(0x1240, 0, 0)).unwrap();
    assert_eq!(caller.regs().control.rip, 0x40_0010);
    assert_eq!(caller.regs().scratch.rax, 41);
    assert_eq!(frame(3).retype_entry(&k.retype).unwrap().get().1, refs);
    assert_eq!(k.sync_ret(THREAD_KEY, &trap(0, 0, 0)).err(), Some(CapError::SyncRetLimit));
}

#[test]
fn sync_call_needs_an_endpoint() {
    let mut k = kernel_with_thread();
    assert_eq!(k.sync_invoke(0, THREAD_KEY, 6, &trap(0, 0, 0)).err(), Some(CapError::InvalidArg));
    assert_eq!(k.sync_invoke(0, THREAD_KEY, 12, &trap(0, 0, 0)).err(), Some(CapError::CapNotFound));
}

#[test]
fn sync_calls_stop_at_sixteen_levels() {
    let mut k = kernel_with_thread();
    for _ in 0..15 {
        assert!(k.sync_invoke(0, THREAD_KEY, 7, &trap(0, 0, 0)).is_ok());
    }
    let refs = frame(3).retype_entry(&k.retype).unwrap().get().1;
    assert_eq!(k.sync_invoke(0, THREAD_KEY, 7, &trap(0, 0, 0)).err(), Some(CapError::SyncInvokeLimit));
    assert_eq!(frame(3).retype_entry(&k.retype).unwrap().get().1, refs);
}

#[test]
fn dispatch_names_the_thread() {
    let mut k = kernel_with_thread();
    assert_eq!(k.dispatch(0, 6), Ok(frame(20)));
    assert_eq!(k.dispatch(0, 7), Err(CapError::InvalidArg));
    assert_eq!(k.dispatch(0, 13), Err(CapError::CapNotFound));
}

/// Puts a notification of the thread in frame `waiter` with `badge` into
/// slot `slot` of block 0.
fn add_notification(k: &mut Kernel<SLOTS>, slot: usize, waiter: u64, badge: u32) {
    let w = KPtr::new_unchecked(frame(waiter).try_as_kernel(&mut k.retype).unwrap());
    let n = Capability::Notification(Notification::new(w, badge));
    BlockRef { block: 0, slot }.try_set(&mut k.caps, TrieSlotPayload::Data(n)).unwrap().drop(&mut k.caps);
}

#[test]
fn notify_posts_the_badge() {
    let mut k = kernel_with_thread();
    add_notification(&mut k, 9, 20, 0b100);
    assert_eq!(k.notify(0, 9), Ok(Some(frame(20))));
    assert_eq!(k.threads.get(&THREAD_KEY).unwrap().signals(), 0b100);
    assert_eq!(k.notify(0, 7), Err(CapError::InvalidArg));
    assert_eq!(k.notify(0, 13), Err(CapError::CapNotFound));
    // A zero badge leaves nothing new pending, but earlier signals still are.
    add_notification(&mut k, 10, 20, 0);
    assert_eq!(k.notify(0, 10), Ok(Some(frame(20))));
}

#[test]
fn notify_without_pending_signals_dispatches_nothing() {
    let mut k = kernel_with_thread();
    add_notification(&mut k, 10, 20, 0);
    assert_eq!(k.notify(0, 10), Ok(None));
}

#[test]
fn interrupt_lines_bind_notifications() {
    let mut k = kernel_with_thread();
    add_notification(&mut k, 9, 20, 0b1);
    let refs = frame(20).retype_entry(&k.retype).unwrap().get().1;
    // The table isn't bound to a core yet, whatever the line.
    assert_eq!(k.irq_set(0, 4, 9, 3, 0), Err(CapError::IrqTableBindInvalid));
    assert_eq!(k.irq_set(0, 4, 9, 20, 0), Err(CapError::IrqTableBindInvalid));
    assert_eq!(k.irq_unset(0, 4, 20, 0), Err(CapError::IrqTableBindInvalid));
    assert_eq!(frame(20).retype_entry(&k.retype).unwrap().get().1, refs);
    k.irqs.bind_to_core(0).unwrap();
    assert_eq!(k.irq_set(0, 2, 9, 3, 0), Err(CapError::InvalidCapType));
    assert_eq!(k.irq_set(0, 4, 9, 300, 0), Err(CapError::InvalidArg));
    assert_eq!(k.irq_set(0, 4, 7, 3, 0), Err(CapError::InvalidArg));
    assert_eq!(k.irq_set(0, 4, 13, 3, 0), Err(CapError::CapNotFound));
    assert_eq!(frame(20).retype_entry(&k.retype).unwrap().get().1, refs);
    assert_eq!(k.irq_set(0, 4, 9, 3, 0), Ok(()));
    assert_eq!(frame(20).retype_entry(&k.retype).unwrap().get().1, refs + 1);
    let n = k.irqs.get(0, 3, &mut k.retype).unwrap().unwrap();
    assert_eq!(n.badge(), 0b1);
    assert_eq!(n.waiter().frame(), frame(20));
    n.into_waiter().drop(&mut k.retype);
    assert!(k.irqs.get(0, 4, &mut k.retype).unwrap().is_none());
    assert_eq!(k.irq_unset(0, 4, 3, 0), Ok(()));
    assert_eq!(frame(20).retype_entry(&k.retype).unwrap().get().1, refs);
    assert!(k.irqs.get(0, 3, &mut k.retype).unwrap().is_none());
}

#[test]
fn interrupts_notify_the_bound_thread() {
    let mut k = kernel_with_thread();
    add_notification(&mut k, 9, 20, 0b10);
    k.irqs.bind_to_core(1).unwrap();
    assert_eq!(k.irq_set(0, 4, 9, 5, 1), Ok(()));
    let refs = frame(20).retype_entry(&k.retype).unwrap().get().1;
    assert_eq!(k.irq_notify(1, 5), Some(frame(20)));
    assert_eq!(k.threads.get(&THREAD_KEY).unwrap().signals(), 0b10);
    assert_eq!(frame(20).retype_entry(&k.retype).unwrap().get().1, refs);
    // A line with nothing bound notifies nobody.
    assert_eq!(k.irq_notify(1, 6), None);
}

#[test]
fn signal_wait_of_an_orphan_thread() {
    let mut k = kernel_with_thread();
    assert_eq!(k.thread_sig_wait(THREAD_KEY), Err(CapError::SigWaitNoParent));
    add_notification(&mut k, 9, 20, 0b11);
    k.notify(0, 9).unwrap();
    assert_eq!(k.thread_sig_wait(THREAD_KEY), Ok(SigWaitResult::Signalled(0b11)));
    assert_eq!(k.threads.get(&THREAD_KEY).unwrap().signals(), 0);
}

#[test]
fn dispatching_switches_threads() {
    let mut k = kernel_with_thread();
    k.retype(frame(21), RetypeKind::IntoKernel).unwrap();
    let args = ConsArgs::Thread { entry: 0x50_0000, rsp: 0x9000, resources: 0, frame: frame(21), arg0: 1 };
    k.cap_table_cons(0, 1, 8, args).unwrap();
    let other = 21 * 4096;
    // The first thread starts on core 0.
    let tok = k.dispatch_token(THREAD_KEY, None, 0, None).unwrap();
    assert_eq!(tok.next(), THREAD_KEY);
    assert_eq!(tok.exec_state().regs().control.rip, 0x40_0000);
    assert!(k.threads.get(&THREAD_KEY).unwrap().is_locally_bound(0));
    // It traps at 0x40_0123 and core 0 switches to the other thread.
    let tok = k.dispatch_token(other, Some(THREAD_KEY), 0, Some(&trap(0x40_0123, 0, 0))).unwrap();
    assert_eq!(tok.exec_state().regs().control.rip, 0x50_0000);
    let first = k.threads.get(&THREAD_KEY).unwrap();
    assert!(!first.is_locally_bound(0));
    assert_eq!(first.execution_stack().active().exec_state().regs().control.rip, 0x40_0123);
    // The other thread is bound to core 0, so core 1 cannot take it.
    assert!(matches!(k.dispatch_token(other, None, 1, None), Err(BindError::Bound { affinity: 0 })));
}

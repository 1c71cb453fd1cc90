use kernel::core_local::core_cell::{Affinity, CoreCell, Lock, LockError, NO_AFFINITY};
use kernel::core_local::{CoreLocal, CoreLocalData, KernelLocalStore};
use kernel::exec::{ExecCtx, USER_RFLAGS};
use kernel::fault::{page_fault_action, PageFaultAction};
use kernel::hint::{likely, unlikely};
use kernel::mem::{Frame, PhysAddr};
use kernel::retyping::bump_alloc::{
    BumpAllocator, MemMapEntry, MEMMAP_BOOTLOADER_RECLAIMABLE, MEMMAP_RESERVED, MEMMAP_USABLE,
};
use kernel::retyping::{RetypeEntry, RetypeInitError, RetypeTable, State};
use kernel::selfie::{DeferInit, Uninit};
use kernel::stack_list::{StackList, StackNode, StackNodeError};
use kernel::sync::Singleton;
use kernel::util::{OptionExt, ResultExt};

#[test]
fn singleton_taken_once() {
    let mut s = Singleton::new(5u32);
    assert_eq!(s.take(), Some(5));
    assert_eq!(s.take(), None);
    let mut r = Singleton::new(7u32);
    assert_eq!(r.take_ref(), Some(&7));
    assert_eq!(r.take_ref(), None);
    assert_eq!(r.into_inner(), None);
    let mut m = Singleton::new(1u8);
    assert_eq!(m.take_mut(), Some(1));
    assert_eq!(Singleton::new(3u8).into_inner(), Some(3));
    let mut w = Singleton::new(5u32);
    if let Some(v) = w.take_ref_mut() {
        *v = 6;
    }
    assert!(w.take_ref_mut().is_none());
    assert_eq!(w.take(), None);
}

#[test]
fn lib_smoke() {
    // Deferred initialisation: set later, then known to be set.
    let mut d: DeferInit<u32, Uninit> = DeferInit::uninit();
    d.set(10);
    let d = d.assume_init();
    assert_eq!(*d.get(), 10);
    assert_eq!(*DeferInit::new(10u32).get(), 10);
}

#[test]
fn smoke() {
    // Buffers come back in the reverse order of their pushes, whole.
    let mut stacks = StackList::new();
    let mut bufs = Vec::new();
    for tag in 1..=3u128 {
        let mut b = vec![0u128; 256];
        b[0] = tag;
        bufs.push(b);
    }
    for b in bufs {
        stacks.push_front(StackNode::new(b).unwrap());
    }
    for tag in (1..=3u128).rev() {
        let stack = stacks.pop_front().unwrap().into_buffer();
        assert_eq!(stack.len(), 256);
        assert_eq!(stack[0], tag);
        assert_eq!(stack[255], 256u128 << 64);
    }
    assert!(stacks.pop_front().is_none());
    assert_eq!(StackNode::new(Vec::new()).unwrap_err(), StackNodeError::BufferTooSmall);
}

#[test]
fn unwrap_known_values() {
    assert_eq!(Some(4).unwrap_debug(), 4);
    let r: Result<u8, ()> = Ok(9);
    assert_eq!(r.unwrap_debug(), 9);
}

#[test]
fn core_local_addresses() {
    let store = KernelLocalStore::new(3);
    assert_eq!(store.core_id, 3);
    assert!(store.current_thread.is_none());
    assert!(!store.safe_buffer_lock);
    let data = CoreLocalData::new(0xFFFF_8000_0010_0000, store);
    assert_eq!(data.get_ptr(), 0xFFFF_8000_0010_0000);
    let field: CoreLocal<24, bool> = CoreLocal::new();
    assert_eq!(field.offset(), 24);
    assert_eq!(CoreLocal::<24, bool>::get_ptr(0x1000), 0x1018);
    assert_eq!(CoreLocal::<24, bool>::get_ptr_mut(usize::MAX), 23);
}

#[test]
fn page_fault_decisions() {
    assert_eq!(page_fault_action(3, 0x1234, false, 6), PageFaultAction::Forward { code: 6, addr: 0x1234 });
    assert_eq!(page_fault_action(0, 0x1234, true, 2), PageFaultAction::ResumeUserCopyFailure);
    assert_eq!(page_fault_action(0, 0x1234, false, 2), PageFaultAction::Panic);
    assert_eq!(page_fault_action(0, 0xFFFF_8000_0000_0000, true, 2), PageFaultAction::Panic);
    assert_eq!(page_fault_action(0, 0x0000_7000_0000_0000, true, 2), PageFaultAction::Panic);
    assert_eq!(page_fault_action(0, 0x0000_8000_0000_0000, true, 2), PageFaultAction::Panic);
    assert_eq!(page_fault_action(1, 0x1234, true, 2), PageFaultAction::Panic);
}

#[test]
fn hints_pass_through() {
    assert!(likely(true));
    assert!(!unlikely(false));
}

#[test]
fn thread_contexts() {
    let ctx = ExecCtx::new_thread(0x40_0000, 0x7FFF_0000, 42);
    let regs = ctx.regs();
    assert_eq!(regs.control.rip, 0x40_0000);
    assert_eq!(regs.control.rsp, 0x7FFF_0000);
    assert_eq!(regs.control.rflags, USER_RFLAGS);
    assert_eq!(regs.scratch.rdi, 42);
    assert_eq!(regs.scratch.rax, 0);
}

#[test]
fn core_cells_and_locks() {
    let mut cell = CoreCell::new(5u32);
    assert_eq!(cell.current_bind(), Affinity::Unset);
    let g = cell.bind(2).unwrap();
    assert_eq!(*cell.get(&g), 5);
    cell.release(g);
    assert_eq!(cell.current_bind(), Affinity::Bound(2));
    assert!(cell.bind(3).is_err());
    assert!(cell.try_get(3).is_err());
    assert!(cell.is_locally_bound(2));
    assert!(cell.unbind(2).is_ok());
    assert_eq!(cell.current_bind(), Affinity::Unset);
    assert_ne!(NO_AFFINITY, 2);
    let mut lock = Lock::new(1u8);
    let guard = lock.try_lock().unwrap();
    assert!(matches!(lock.try_lock(), Err(LockError::AlreadyLocked)));
    lock.unlock(guard);
    assert_eq!(lock.replace(7).unwrap(), 1);
}

#[test]
fn locked_runs_the_closure_and_releases() {
    let mut lock = Lock::new(10u32);
    let out = lock.locked(|v| {
        *v += 5;
        *v * 2
    });
    assert_eq!(out, 30);
    assert_eq!(lock.try_locked(|v| *v).unwrap(), 15);
    let guard = lock.try_lock().unwrap();
    assert!(matches!(lock.try_locked(|v| *v), Err(LockError::AlreadyLocked)));
    lock.unlock(guard);
    assert_eq!(lock.replace(1).unwrap(), 15);
}

#[test]
fn singleton_lent_out_is_gone() {
    let mut s = Singleton::new(4u8);
    assert_eq!(s.take_ref(), Some(&4));
    assert!(s.take_ref_mut().is_none());
    assert_eq!(s.take(), None);
    assert_eq!(s.into_inner(), None);
}

#[test]
fn retype_entries_and_table() {
    let mut e = RetypeEntry::kernel(2);
    assert_eq!(e.get(), (State::Kernel, 2));
    assert_eq!(e.increment().unwrap(), 2);
    assert_eq!(e.decrement().unwrap(), 3);
    assert_eq!(RetypeEntry::untyped().get(), (State::Untyped, 0));
    let mut z = RetypeEntry::untyped();
    assert!(z.decrement().is_err());
    assert!(matches!(RetypeTable::new(&mut vec![MemMapEntry { base: 0, length: 0x1000, entry_type: MEMMAP_RESERVED }]), Err(RetypeInitError::MemoryMapEmpty)));
    let t = RetypeTable::new(&mut vec![MemMapEntry { base: 0, length: 0x10_0000, entry_type: MEMMAP_USABLE }]).unwrap();
    assert_eq!(t.len(), 256);
    assert_eq!(t.memory_limit(), 0x10_0000);
    let f = Frame::from_start_address(PhysAddr::new(0));
    assert_eq!(f.retype_entry(&t).unwrap().get().0, State::Unavailable);
    let meta = t.memory_map_meta();
    assert_eq!(meta.map.1, 256);
    assert_eq!(meta.frames.len(), 1);
}

#[test]
fn retype_table_carves_its_frames_off_the_memory_map() {
    let mut map = vec![
        MemMapEntry { base: 0x0, length: 0x3000, entry_type: MEMMAP_USABLE },
        MemMapEntry { base: 0x3000, length: 0x1000, entry_type: MEMMAP_BOOTLOADER_RECLAIMABLE },
        MemMapEntry { base: 0x4000, length: 0x1000, entry_type: MEMMAP_RESERVED },
    ];
    let t = RetypeTable::new(&mut map).unwrap();
    assert_eq!(t.len(), 4);
    let states: Vec<(State, u16)> =
        (0..4u64).map(|i| Frame::from_index(i).unwrap().retype_entry(&t).unwrap().get()).collect();
    assert_eq!(
        states,
        vec![(State::Unavailable, 0), (State::Untyped, 0), (State::Untyped, 0), (State::Kernel, 1)]
    );
    assert_eq!((map[0].base, map[0].length), (0x1000, 0x2000));
    assert_eq!((map[1].base, map[1].length), (0x3000, 0x1000));

    let mut only_reserved = vec![MemMapEntry { base: 0, length: 0x1000, entry_type: MEMMAP_RESERVED }];
    assert!(RetypeTable::new(&mut only_reserved).is_err());
    assert_eq!(only_reserved[0].length, 0x1000);
}

#[test]
fn bump_allocator_carves() {
    let mut b = BumpAllocator::new(vec![
        MemMapEntry { base: 0x1000, length: 0x1000, entry_type: MEMMAP_USABLE },
        MemMapEntry { base: 0x10000, length: 0x4000, entry_type: MEMMAP_USABLE },
    ]);
    assert_eq!(b.alloc_frame().unwrap().base().as_u64(), 0x1000);
    assert_eq!(b.alloc_frames(2).unwrap().as_u64(), 0x10000);
    assert_eq!(b.alloc_frame().unwrap().base().as_u64(), 0x12000);
    assert!(b.alloc_frames(5).is_none());
}

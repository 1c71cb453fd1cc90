use kernel::caps::CapError;
use kernel::core_local::core_cell::{BindError, UnbindError};
use kernel::exec::{
    AnyRet, CallRetAbi, ExceptionCtx, ExceptionRetAbi, ExecCtx, Interrupt, InterruptFrame, IrqCtx, PreservedRegs, Regs,
    ScratchRegs,
};
use kernel::kmem::KPtr;
use kernel::mem::Frame;
use kernel::retyping::bump_alloc::{MemMapEntry, MEMMAP_USABLE};
use kernel::retyping::{RetypeTable, State};
use kernel::thread::{SigWaitResult, Thread, ThreadExecCtx};

fn frame(i: u64) -> Frame {
    Frame::from_index(i).unwrap()
}

fn kptr(table: &mut RetypeTable, i: u64) -> KPtr {
    frame(i).try_into_kernel(table).unwrap().drop(table);
    KPtr::new(frame(i), table).unwrap()
}

fn table() -> RetypeTable {
    RetypeTable::new(&mut vec![MemMapEntry { base: 0, length: 0x10_0000, entry_type: MEMMAP_USABLE }]).unwrap()
}

fn regs_with(rip: u64, rsi: u64) -> Regs {
    let mut r = Regs::default();
    r.control.rip = rip;
    r.scratch.rsi = rsi;
    r
}

/// The state captured when a thread traps with its instruction pointer at
/// `rip` and `rsi` holding `rsi`.
fn trap(rip: u64, rsi: u64) -> IrqCtx {
    let frame = InterruptFrame { instruction_pointer: rip, code_segment: 0x23, cpu_flags: 0x202, stack_pointer: 0x8000, stack_segment: 0x1b };
    let mut scratch = ScratchRegs::default();
    scratch.rsi = rsi;
    IrqCtx::Interrupt(ExceptionCtx::<Interrupt>::new(frame, scratch, PreservedRegs::default(), 0))
}

fn thread(table: &mut RetypeTable) -> Thread {
    Thread::new(ExecCtx::new(regs_with(0x1000, 0)), kptr(table, 3), 2, None)
}

#[test]
fn call_and_return_restore_the_caller() {
    let mut t = table();
    let mut th = thread(&mut t);
    let callee = ThreadExecCtx::new(ExecCtx::new(regs_with(0x5000, 0)), kptr(&mut t, 4), AnyRet::Standard(CallRetAbi));
    let dispatched = th.invoke(callee, &trap(0x1234, 77), &mut t).unwrap();
    assert_eq!(dispatched.regs().control.rip, 0x5000);
    assert!(!th.execution_stack().is_base());
    assert_eq!(th.execution_stack().active().resources().frame(), frame(4));
    let back = th.sync_ret(&trap(0x5008, 0), &mut t).unwrap();
    // The caller resumes where it trapped, with the call's result in rax.
    assert_eq!(back.regs().control.rip, 0x1234);
    assert_eq!(back.regs().scratch.rax, 77);
    assert!(th.execution_stack().is_base());
    assert_eq!(th.execution_stack().active().resources().frame(), frame(3));
    assert_eq!(th.execution_stack().active().exec_state().regs().scratch.rax, 77);
    // The callee's level gave up its reference on its resources.
    assert_eq!(frame(4).retype_entry(&t).unwrap().get(), (State::Kernel, 0));
}

#[test]
fn negative_call_results_read_as_zero() {
    let mut t = table();
    let mut th = thread(&mut t);
    let callee = ThreadExecCtx::new(ExecCtx::new(regs_with(0x5000, 0)), kptr(&mut t, 4), AnyRet::Standard(CallRetAbi));
    th.invoke(callee, &trap(0x1234, u64::MAX), &mut t).unwrap();
    let back = th.sync_ret(&trap(0x5008, 0), &mut t).unwrap();
    assert_eq!(back.regs().scratch.rax, 0);
}

#[test]
fn exception_return_resumes_untouched() {
    let mut t = table();
    let mut th = thread(&mut t);
    let handler = ThreadExecCtx::new(ExecCtx::new(regs_with(0x6000, 0)), kptr(&mut t, 4), AnyRet::Exception(ExceptionRetAbi));
    th.invoke(handler, &trap(0x2000, 5), &mut t).unwrap();
    let back = th.sync_ret(&trap(0x6010, 0), &mut t).unwrap();
    assert_eq!(back.regs().control.rip, 0x2000);
    assert_eq!(back.regs().scratch.rsi, 5);
    assert_eq!(back.regs().scratch.rax, 0);
}

#[test]
fn return_at_base_is_refused() {
    let mut t = table();
    let mut th = thread(&mut t);
    assert!(matches!(th.sync_ret(&trap(0, 0), &mut t), Err(CapError::SyncRetLimit)));
    assert!(th.execution_stack().is_base());
}

#[test]
fn return_from_a_level_that_never_returns() {
    let mut t = table();
    let mut th = thread(&mut t);
    let level = ThreadExecCtx::new(ExecCtx::new(regs_with(0x7000, 0)), kptr(&mut t, 4), AnyRet::NoReturn);
    th.invoke(level, &trap(0x10, 0), &mut t).unwrap();
    assert!(matches!(th.sync_ret(&trap(0, 0), &mut t), Err(CapError::SyncRetOnNoRetAbi)));
    // The level is gone all the same.
    assert!(th.execution_stack().is_base());
}

#[test]
fn calls_nest_sixteen_deep() {
    let mut t = table();
    let mut th = thread(&mut t);
    for depth in 1..16u64 {
        let callee = ThreadExecCtx::new(ExecCtx::new(regs_with(depth, 0)), kptr(&mut t, 3 + depth), AnyRet::Standard(CallRetAbi));
        assert!(th.invoke(callee, &trap(depth, 0), &mut t).is_ok());
    }
    assert!(th.execution_stack().is_full());
    let extra = ThreadExecCtx::new(ExecCtx::new(regs_with(99, 0)), kptr(&mut t, 40), AnyRet::Standard(CallRetAbi));
    assert!(matches!(th.invoke(extra, &trap(0, 0), &mut t), Err(CapError::SyncInvokeLimit)));
    assert_eq!(frame(40).retype_entry(&t).unwrap().get(), (State::Kernel, 0));
    assert_eq!(th.execution_stack().active().exec_state().regs().control.rip, 15);
}

#[test]
fn resources_handle_is_counted() {
    let mut t = table();
    let th = thread(&mut t);
    let r = th.resources(&mut t);
    assert_eq!(r.frame(), frame(3));
    assert_eq!(frame(3).retype_entry(&t).unwrap().get(), (State::Kernel, 2));
}

#[test]
fn signals_wake_a_waiting_thread() {
    let mut t = table();
    let parent = thread(&mut t);
    let mut th = Thread::new(ExecCtx::new(regs_with(0x1000, 0)), kptr(&mut t, 5), 1, Some(kptr(&mut t, 6)));
    assert!(!th.notify(0));
    assert_eq!(th.sig_wait(), Ok(SigWaitResult::Blocked));
    assert!(th.notify(0b101));
    assert!(Thread::priority_dispatch(&parent, &th));
    assert!(!Thread::priority_dispatch(&th, &parent));
    assert_eq!(th.wake(), Some(0b101));
    assert_eq!(th.signals(), 0);
    // Runnable now: a further wake-up is left to the scheduler.
    th.notify(0b10);
    assert_eq!(th.wake(), None);
    assert_eq!(th.signals(), 0b10);
    assert_eq!(th.sig_wait(), Ok(SigWaitResult::Signalled(0b10)));
}

#[test]
fn signals_arriving_while_blocking_redispatch() {
    let mut t = table();
    let mut th = Thread::new(ExecCtx::new(regs_with(0x1000, 0)), kptr(&mut t, 5), 1, Some(kptr(&mut t, 6)));
    assert_eq!(th.sig_wait(), Ok(SigWaitResult::Blocked));
    th.notify(4);
    assert_eq!(th.sig_wait_rebound(), SigWaitResult::Redispatch(4));
    assert_eq!(th.sig_wait_rebound(), SigWaitResult::Blocked);
}

#[test]
fn waiting_without_a_parent_is_refused() {
    let mut t = table();
    let mut th = thread(&mut t);
    assert_eq!(th.sig_wait(), Err(CapError::SigWaitNoParent));
}

#[test]
fn threads_bind_to_one_core_at_a_time() {
    let mut t = table();
    let mut th = thread(&mut t);
    assert!(!th.is_locally_bound(0));
    assert!(th.bind(0).is_ok());
    assert!(th.is_locally_bound(0));
    assert!(th.bind(0).is_ok());
    assert!(matches!(th.bind(1), Err(BindError::Bound { affinity: 0 })));
    assert!(matches!(th.unbind(1), Err(UnbindError::Bound { affinity: 0 })));
    assert!(th.unbind(0).is_ok());
    assert!(!th.is_locally_bound(0));
    assert!(th.unbind(0).is_ok());
    assert!(th.bind(1).is_ok());
}

#[test]
fn switching_away_saves_the_context() {
    let mut t = table();
    let mut th = thread(&mut t);
    assert_eq!(th.active_state().regs().control.rip, 0x1000);
    th.save_context(&trap(0x1500, 3));
    assert_eq!(th.active_state().regs().control.rip, 0x1500);
    assert_eq!(th.active_state().regs().scratch.rsi, 3);
}

#[test]
fn interrupt_frame_can_be_rewritten() {
    let mut ctx = trap(0x100, 0);
    ctx.interrupt_stack_frame_mut().instruction_pointer = 0x200;
    assert_eq!(ctx.interrupt_stack_frame().instruction_pointer, 0x200);
    assert_eq!(ctx.regs().control.rip, 0x200);
    assert_eq!(ctx.error_code(), None);
}

//! Threads: the stack of execution contexts a thread runs through while it
//! makes synchronous calls, and what a call and a return do to it.

use vstd::prelude::*;

use crate::caps::CapError;
use crate::exec::{call_result, AnyRet, ExecCtx, IrqCtx, Regs, ScratchRegs};
use crate::core_local::core_cell::{affinity_of, Affinity, BindError, CoreCell, UnbindError, NO_AFFINITY};
use crate::kmem::KPtr;
use crate::retyping::{frame_index, RetypeTable, State, MAX_REF_COUNT};

verus! {

#[verifier::external_type_specification]
#[verifier::external_body]
#[verifier::reject_recursive_types(T)]
pub struct ExHeaplessVec<T, const N: usize>(heapless::Vec<T, N>);

/// What a fixed-capacity vector of execution contexts holds, in push order.
pub uninterp spec fn ctx_stack_contents(v: heapless::Vec<ThreadExecCtx, 16>) -> Seq<ThreadExecCtx>;

/// `heapless::Vec::new`: an empty vector.
#[verifier::external_body]
fn ctx_stack_new() -> (r: heapless::Vec<ThreadExecCtx, 16>)
    ensures
        ctx_stack_contents(r) == Seq::<ThreadExecCtx>::empty(),
{
    heapless::Vec::new()
}

/// `heapless::Vec::push`: appends `item` while fewer than 16 items are held;
/// otherwise hands `item` back and leaves the vector as it was.
#[verifier::external_body]
fn ctx_stack_push(v: &mut heapless::Vec<ThreadExecCtx, 16>, item: ThreadExecCtx) -> (r: Result<(), ThreadExecCtx>)
    ensures
        ctx_stack_contents(*old(v)).len() < 16 ==> (r is Ok && ctx_stack_contents(*final(v))
            == ctx_stack_contents(*old(v)).push(item)),
        ctx_stack_contents(*old(v)).len() >= 16 ==> (r == Err::<(), ThreadExecCtx>(item)
            && ctx_stack_contents(*final(v)) == ctx_stack_contents(*old(v))),
    no_unwind
{
    v.push(item)
}

/// `heapless::Vec::pop`: removes and returns the last item, `None` when
/// empty.
#[verifier::external_body]
fn ctx_stack_pop(v: &mut heapless::Vec<ThreadExecCtx, 16>) -> (r: Option<ThreadExecCtx>)
    ensures
        ctx_stack_contents(*old(v)).len() > 0 ==> (r == Some(ctx_stack_contents(*old(v)).last())
            && ctx_stack_contents(*final(v)) == ctx_stack_contents(*old(v)).drop_last()),
        ctx_stack_contents(*old(v)).len() == 0 ==> (r is None
            && ctx_stack_contents(*final(v)) == ctx_stack_contents(*old(v))),
    no_unwind
{
    v.pop()
}

/// `heapless::Vec::is_full`: whether all 16 places are taken.
#[verifier::external_body]
fn ctx_stack_is_full(v: &heapless::Vec<ThreadExecCtx, 16>) -> (r: bool)
    ensures
        r == (ctx_stack_contents(*v).len() == 16),
{
    v.is_full()
}

/// The number of items (`len` of the slice a `heapless::Vec` derefs to).
#[verifier::external_body]
fn ctx_stack_len(v: &heapless::Vec<ThreadExecCtx, 16>) -> (r: usize)
    ensures
        r == ctx_stack_contents(*v).len(),
    no_unwind
{
    v.len()
}

/// The last item (`last` of the slice a `heapless::Vec` derefs to).
#[verifier::external_body]
fn ctx_stack_last(v: &heapless::Vec<ThreadExecCtx, 16>) -> (r: &ThreadExecCtx)
    requires
        ctx_stack_contents(*v).len() > 0,
    ensures
        *r == ctx_stack_contents(*v).last(),
{
    v.last().unwrap()
}

/// The last item, mutably (`last_mut` of the slice a `heapless::Vec` derefs
/// to); what is written through it becomes the vector's last item.
#[verifier::external_body]
fn ctx_stack_last_mut(v: &mut heapless::Vec<ThreadExecCtx, 16>) -> (r: &mut ThreadExecCtx)
    requires
        ctx_stack_contents(*old(v)).len() > 0,
    ensures
        *r == ctx_stack_contents(*old(v)).last(),
        ctx_stack_contents(*final(v)) == ctx_stack_contents(*old(v)).update(ctx_stack_contents(*old(v)).len() - 1, *final(r)),
    no_unwind
{
    v.last_mut().unwrap()
}

/// One level of a thread's execution: its saved registers, the resources
/// (address space and capabilities) it runs with, and how it returns to the
/// level below.
#[derive(Debug)]
pub struct ThreadExecCtx {
    exec_state: ExecCtx,
    resources: KPtr,
    abi: AnyRet,
}

impl ThreadExecCtx {
    /// The saved registers.
    pub closed spec fn regs(&self) -> Regs {
        self.exec_state@
    }

    /// The frame of the resources object it runs with.
    pub closed spec fn resources_frame(&self) -> crate::mem::Frame {
        self.resources@
    }

    /// How it returns.
    pub closed spec fn ret_abi(&self) -> AnyRet {
        self.abi
    }

    /// Whether `table` counts the reference held on the resources.
    pub open spec fn resources_held_in(&self, table: &RetypeTable) -> bool {
        &&& table.covers(self.resources_frame())
        &&& table.state_of(self.resources_frame()).0 == State::Kernel
        &&& table.state_of(self.resources_frame()).1 > 0
    }

    /// Gives up the level, releasing its reference on the resources.
    pub fn drop(self, table: &mut RetypeTable)
        requires
            self.resources_held_in(old(table)),
        ensures
            final(table).base() == old(table).base(),
            final(table)@ == released(old(table)@, self.resources_frame()),
    {
        self.resources.drop(table)
    }

    /// A level running from `state` with `resources`, returning by `abi`.
    pub fn new(state: ExecCtx, resources: KPtr, abi: AnyRet) -> (r: Self)
        ensures
            r.regs() == state@,
            r.resources_frame() == resources@,
            r.ret_abi() == abi,
    {
        Self { exec_state: state, resources, abi }
    }

    /// The saved execution state.
    pub fn exec_state(&self) -> (r: &ExecCtx)
        ensures
            r@ == self.regs(),
    {
        &self.exec_state
    }

    /// The resources it runs with.
    pub fn resources(&self) -> (r: &KPtr)
        ensures
            r@ == self.resources_frame(),
    {
        &self.resources
    }
}

/// Whether a thread may run, or waits for signals.
#[derive(Debug, Clone, Copy, PartialEq, Eq, Structural)]
pub enum RunState {
    Runnable,
    SigBlocked,
}

/// The levels of a thread's execution, the base first and the active one
/// last, at most 16 of them.
pub struct ThreadExecStack {
    exec_stack: heapless::Vec<ThreadExecCtx, 16>,
    run_state: RunState,
}

impl ThreadExecStack {
    /// The levels, the base first.
    pub closed spec fn contexts(&self) -> Seq<ThreadExecCtx> {
        ctx_stack_contents(self.exec_stack)
    }

    /// Whether the thread may run.
    pub closed spec fn state(&self) -> RunState {
        self.run_state
    }

    /// A stack in use: it has its base level.
    pub open spec fn wf(&self) -> bool {
        1 <= self.contexts().len() <= 16
    }

    /// A runnable stack holding the levels of `exec_stack`.
    pub fn new(exec_stack: heapless::Vec<ThreadExecCtx, 16>) -> (r: Self)
        ensures
            r.contexts() == ctx_stack_contents(exec_stack),
            r.state() == RunState::Runnable,
    {
        Self { exec_stack, run_state: RunState::Runnable }
    }

    /// The active level.
    pub fn active(&self) -> (r: &ThreadExecCtx)
        requires
            self.wf(),
        ensures
            *r == self.contexts().last(),
    {
        ctx_stack_last(&self.exec_stack)
    }

    /// The active level, mutably.
    pub fn active_mut(&mut self) -> (r: &mut ThreadExecCtx)
        requires
            old(self).wf(),
        ensures
            *r == old(self).contexts().last(),
            final(self).contexts() == old(self).contexts().update(old(self).contexts().len() - 1, *final(r)),
            final(self).state() == old(self).state(),
        no_unwind
    {
        ctx_stack_last_mut(&mut self.exec_stack)
    }

    /// Whether no further level fits.
    pub fn is_full(&self) -> (r: bool)
        ensures
            r == (self.contexts().len() == 16),
    {
        ctx_stack_is_full(&self.exec_stack)
    }

    /// Whether only the base level is left.
    pub fn is_base(&self) -> (r: bool)
        ensures
            r == (self.contexts().len() == 1),
        no_unwind
    {
        ctx_stack_len(&self.exec_stack) == 1
    }

    /// Adds `ctx` as the new active level; when the stack is full, hands
    /// `ctx` back and changes nothing.
    pub fn push(&mut self, ctx: ThreadExecCtx) -> (r: Result<(), ThreadExecCtx>)
        ensures
            old(self).contexts().len() < 16 ==> r is Ok && final(self).contexts() == old(self).contexts().push(ctx),
            old(self).contexts().len() >= 16 ==> r == Err::<(), ThreadExecCtx>(ctx) && final(self).contexts()
                == old(self).contexts(),
            final(self).state() == old(self).state(),
        no_unwind
    {
        ctx_stack_push(&mut self.exec_stack, ctx)
    }

    /// Removes and returns the active level, unless it is the base one.
    pub fn pop(&mut self) -> (r: Option<ThreadExecCtx>)
        requires
            old(self).contexts().len() >= 1,
        ensures
            old(self).contexts().len() == 1 ==> r is None && final(self).contexts() == old(self).contexts(),
            old(self).contexts().len() > 1 ==> r == Some(old(self).contexts().last()) && final(self).contexts()
                == old(self).contexts().drop_last(),
            final(self).state() == old(self).state(),
        no_unwind
    {
        if self.is_base() {
            None
        } else {
            ctx_stack_pop(&mut self.exec_stack)
        }
    }
}

/// The registers a caller resumes with once an invocation that returns by
/// `abi` completes: a standard call leaves its result in `rax`, an
/// exception handler resumes the caller untouched.
pub open spec fn ret_regs(abi: AnyRet, caller: Regs) -> Regs {
    match abi {
        AnyRet::Standard(_) => Regs {
            scratch: ScratchRegs { rax: call_result(caller.scratch.rsi), ..caller.scratch },
            ..caller
        },
        _ => caller,
    }
}

/// The retype entries `t` once a reference on the object in `f` is
/// released.
pub open spec fn released(t: Seq<u16>, f: crate::mem::Frame) -> Seq<u16> {
    t.update(frame_index(f), (t[frame_index(f)] - 1) as u16)
}

/// `a` is the level `b` with its registers replaced by `regs`.
pub open spec fn same_level_with_regs(a: ThreadExecCtx, b: ThreadExecCtx, regs: Regs) -> bool {
    &&& a.regs() == regs
    &&& a.resources_frame() == b.resources_frame()
    &&& a.ret_abi() == b.ret_abi()
}

/// `after` is `before` with the active level's registers replaced by
/// `saved` and `invocation` on top as the new active level.
pub open spec fn pushed_call(before: Seq<ThreadExecCtx>, after: Seq<ThreadExecCtx>, invocation: ThreadExecCtx, saved: Regs) -> bool {
    let n = before.len();
    &&& after.len() == n + 1
    &&& after.last() == invocation
    &&& same_level_with_regs(after[n - 1], before[n - 1], saved)
    &&& forall|i: int| 0 <= i < n - 1 ==> after[i] == before[i]
}

/// `after` is `before` without its active level, the level below resumed
/// as the removed level's return convention says.
pub open spec fn popped_return(before: Seq<ThreadExecCtx>, after: Seq<ThreadExecCtx>) -> bool {
    let n = before.len();
    let resumed = ret_regs(before.last().ret_abi(), before[n - 2].regs());
    &&& after.len() == n - 1
    &&& same_level_with_regs(after[n - 2], before[n - 2], resumed)
    &&& forall|i: int| 0 <= i < n - 2 ==> after[i] == before[i]
}

/// A call followed by its return leaves the levels as they were, but for
/// the caller's registers: those saved at the call, completed by the
/// invocation's return convention.
pub proof fn law_call_then_return(
    a: Seq<ThreadExecCtx>,
    b: Seq<ThreadExecCtx>,
    c: Seq<ThreadExecCtx>,
    invocation: ThreadExecCtx,
    saved: Regs,
)
    requires
        1 <= a.len(),
        pushed_call(a, b, invocation, saved),
        popped_return(b, c),
    ensures
        c.len() == a.len(),
        forall|i: int| 0 <= i < a.len() - 1 ==> c[i] == a[i],
        same_level_with_regs(c[a.len() - 1], a[a.len() - 1], ret_regs(invocation.ret_abi(), saved)),
{
    let n = a.len();
    assert(b[n - 1].regs() == saved);
    assert forall|i: int| 0 <= i < n - 1 implies c[i] == a[i] by {
        assert(c[i] == b[i]);
    }
}

/// `b` is the thread `a` with `signals` posted: they join the pending
/// ones, and nothing else changes.
pub open spec fn posted(a: Thread, b: Thread, signals: u32) -> bool {
    &&& b.pending() == a.pending() | signals
    &&& b.stack() == a.stack()
    &&& b.affinity() == a.affinity()
    &&& b.priority() == a.priority()
    &&& b.parent_frame() == a.parent_frame()
}

/// `b` and `r` are what waking `a` gives: a runnable thread is left as it
/// is (`None`); a blocked one becomes runnable and hands over all its
/// pending signals.
pub open spec fn woken(a: Thread, b: Thread, r: Option<u32>) -> bool {
    if a.stack().state() == RunState::Runnable {
        r is None && b == a
    } else {
        &&& r == Some(a.pending())
        &&& b.pending() == 0
        &&& b.stack().state() == RunState::Runnable
        &&& b.stack().contexts() == a.stack().contexts()
        &&& b.affinity() == a.affinity()
        &&& b.priority() == a.priority()
        &&& b.parent_frame() == a.parent_frame()
    }
}

/// A thread blocked waiting for signals, woken after `signals` are posted
/// to it, receives every signal pending before together with `signals`,
/// and is left runnable with none pending.
pub proof fn law_notify_then_wake(a: Thread, b: Thread, c: Thread, signals: u32, r: Option<u32>)
    requires
        a.stack().state() == RunState::SigBlocked,
        posted(a, b, signals),
        woken(b, c, r),
    ensures
        r == Some(a.pending() | signals),
        c.pending() == 0,
        c.stack().state() == RunState::Runnable,
        c.stack().contexts() == a.stack().contexts(),
{
}

/// `b` is the thread `a` bound to core `cpu`; nothing else changes.
pub open spec fn bound_to(a: Thread, b: Thread, cpu: u16) -> bool {
    &&& b.affinity() == cpu
    &&& b.stack() == a.stack()
    &&& b.priority() == a.priority()
    &&& b.pending() == a.pending()
    &&& b.parent_frame() == a.parent_frame()
}

/// `b` is the thread `a` switched away from: the registers `regs` are saved
/// into its active level and it is bound to no core; nothing else changes.
pub open spec fn switched_from(a: Thread, b: Thread, regs: Regs) -> bool {
    let before = a.stack().contexts();
    let after = b.stack().contexts();
    &&& b.affinity() == NO_AFFINITY
    &&& b.stack().state() == a.stack().state()
    &&& b.priority() == a.priority()
    &&& b.pending() == a.pending()
    &&& b.parent_frame() == a.parent_frame()
    &&& after.len() == before.len()
    &&& same_level_with_regs(after.last(), before.last(), regs)
    &&& forall|i: int| 0 <= i < before.len() - 1 ==> after[i] == before[i]
}

/// A thread about to run: the key of its thread object and the registers
/// to load.
pub struct DispatchToken {
    next: u64,
    exec_state: ExecCtx,
}

impl DispatchToken {
    /// The key of the thread to run.
    pub closed spec fn next_key(&self) -> u64 {
        self.next
    }

    /// The registers to load.
    pub closed spec fn regs(&self) -> Regs {
        self.exec_state@
    }

    /// A token for the thread keyed `next` resuming with `exec_state`.
    pub fn new(next: u64, exec_state: ExecCtx) -> (r: Self)
        ensures
            r.next_key() == next,
            r.regs() == exec_state@,
    {
        Self { next, exec_state }
    }

    /// The key of the thread to run.
    pub fn next(&self) -> (r: u64)
        ensures
            r == self.next_key(),
    {
        self.next
    }

    /// The registers to load.
    pub fn exec_state(&self) -> (r: &ExecCtx)
        ensures
            r@ == self.regs(),
    {
        &self.exec_state
    }
}

/// `t` is a fresh thread: runnable, no pending signal, no parent, priority
/// 0, and one level running from `regs` with the resources in `resources`
/// that never returns.
pub open spec fn thread_started(t: Thread, regs: Regs, resources: crate::mem::Frame) -> bool {
    &&& t.stack().wf()
    &&& t.stack().contexts().len() == 1
    &&& t.stack().contexts()[0].regs() == regs
    &&& t.stack().contexts()[0].resources_frame() == resources
    &&& t.stack().contexts()[0].ret_abi() is NoReturn
    &&& t.stack().state() == RunState::Runnable
    &&& t.affinity() == NO_AFFINITY
    &&& t.priority() == 0
    &&& t.pending() == 0
    &&& t.parent_frame() is None
}

/// `b` is the thread `a` with other levels: same run state, binding,
/// priority, pending signals and parent.
pub open spec fn same_but_levels(a: Thread, b: Thread) -> bool {
    &&& b.stack().state() == a.stack().state()
    &&& b.affinity() == a.affinity()
    &&& b.priority() == a.priority()
    &&& b.pending() == a.pending()
    &&& b.parent_frame() == a.parent_frame()
}

/// The outcome of waiting for signals.
#[derive(Debug, Clone, Copy, PartialEq, Eq, Structural)]
pub enum SigWaitResult {
    /// The thread blocks; its parent runs.
    Blocked,
    /// Signals were pending: the thread goes on with them at once.
    Signalled(u32),
    /// Signals came in while the thread was blocking: it is dispatched
    /// again with them.
    Redispatch(u32),
}

/// A thread: its stack of execution levels, the core it is bound to while
/// it runs, its priority, the signals posted to it and not yet taken, and
/// the thread that scheduled it.
pub struct Thread {
    execution_stack: ThreadExecStack,
    binding: CoreCell<()>,
    flat_priority: u32,
    signals: u32,
    parent: Option<KPtr>,
}

impl Thread {
    /// A thread always has its base level, and no guard on its binding
    /// outlives a call.
    #[verifier::type_invariant]
    spec fn inv(self) -> bool {
        &&& self.execution_stack.wf()
        &&& self.binding.wf()
        &&& self.binding.refs_view() == 0
    }

    /// The raw affinity word of the core the thread is bound to
    /// (`NO_AFFINITY` when unbound).
    pub closed spec fn affinity(&self) -> u16 {
        self.binding.affinity_word()
    }

    /// The execution levels.
    pub closed spec fn stack(&self) -> ThreadExecStack {
        self.execution_stack
    }

    /// The priority.
    pub closed spec fn priority(&self) -> u32 {
        self.flat_priority
    }

    /// The signals posted and not yet taken.
    pub closed spec fn pending(&self) -> u32 {
        self.signals
    }

    /// The frame of the parent thread, if there is one.
    pub closed spec fn parent_frame(&self) -> Option<crate::mem::Frame> {
        match self.parent {
            Some(p) => Some(p@),
            None => None,
        }
    }

    /// A runnable thread with no pending signal whose only level runs from
    /// `exec_state` with the resources `comp`, and never returns.
    pub fn new(exec_state: ExecCtx, comp: KPtr, priority: u32, parent: Option<KPtr>) -> (r: Self)
        ensures
            r.stack().wf(),
            r.stack().contexts().len() == 1,
            r.stack().contexts()[0].regs() == exec_state@,
            r.stack().contexts()[0].resources_frame() == comp@,
            r.stack().contexts()[0].ret_abi() is NoReturn,
            r.stack().state() == RunState::Runnable,
            r.affinity() == NO_AFFINITY,
            r.priority() == priority,
            r.pending() == 0,
            r.parent_frame() == match parent {
                Some(p) => Some(p@),
                None => None::<crate::mem::Frame>,
            },
    {
        let mut ctx = ctx_stack_new();
        let base = ThreadExecCtx { exec_state, resources: comp, abi: AnyRet::NoReturn };
        let _ = ctx_stack_push(&mut ctx, base);
        Self {
            execution_stack: ThreadExecStack::new(ctx),
            binding: CoreCell::new(()),
            flat_priority: priority,
            signals: 0,
            parent,
        }
    }

    /// The priority.
    pub fn flat_priority(&self) -> (r: u32)
        ensures
            r == self.priority(),
    {
        self.flat_priority
    }

    /// The execution levels.
    pub fn execution_stack(&self) -> (r: &ThreadExecStack)
        ensures
            *r == self.stack(),
    {
        &self.execution_stack
    }

    /// Binds the thread to core `cpu`, unless it is bound to another core.
    pub fn bind(&mut self, cpu: u16) -> (r: Result<(), BindError>)
        requires
            cpu != NO_AFFINITY,
        ensures
            final(self).stack() == old(self).stack(),
            final(self).priority() == old(self).priority(),
            final(self).pending() == old(self).pending(),
            final(self).parent_frame() == old(self).parent_frame(),
            (old(self).affinity() == NO_AFFINITY || old(self).affinity() == cpu) ==> (r is Ok
                && final(self).affinity() == cpu),
            (old(self).affinity() != NO_AFFINITY && old(self).affinity() != cpu) ==> (r matches Err(
                BindError::Bound { affinity },
            ) && affinity == old(self).affinity() && *final(self) == *old(self)),
    {
        proof {
            use_type_invariant(&*self);
        }
        let mut binding = CoreCell::new(());
        core::mem::swap(&mut binding, &mut self.binding);
        let r = match binding.bind(cpu) {
            Ok(guard) => {
                binding.release(guard);
                Ok(())
            },
            Err(e) => Err(e),
        };
        core::mem::swap(&mut binding, &mut self.binding);
        r
    }

    /// Unbinds the thread from core `cpu`: nothing to do when unbound, an
    /// error when bound to another core.
    pub fn unbind(&mut self, cpu: u16) -> (r: Result<(), UnbindError>)
        ensures
            final(self).stack() == old(self).stack(),
            final(self).priority() == old(self).priority(),
            final(self).pending() == old(self).pending(),
            final(self).parent_frame() == old(self).parent_frame(),
            old(self).affinity() == NO_AFFINITY ==> r is Ok && final(self).affinity() == NO_AFFINITY,
            old(self).affinity() != NO_AFFINITY && old(self).affinity() != cpu ==> (r matches Err(
                UnbindError::Bound { affinity },
            ) && affinity == old(self).affinity() && final(self).affinity() == old(self).affinity()),
            old(self).affinity() == cpu ==> r is Ok && final(self).affinity() == NO_AFFINITY,
    {
        proof {
            use_type_invariant(&*self);
        }
        self.binding.unbind(cpu)
    }

    /// Whether the thread is bound to core `cpu`.
    pub fn is_locally_bound(&self, cpu: u16) -> (r: bool)
        ensures
            r == (affinity_of(self.affinity()) == Affinity::Bound(cpu)),
    {
        self.binding.is_locally_bound(cpu)
    }

    /// Saves the registers captured in `ctx` into the active level, as when
    /// the thread is switched away from.
    pub fn save_context(&mut self, ctx: &IrqCtx)
        ensures
            same_but_levels(*old(self), *final(self)),
            final(self).stack().contexts().len() == old(self).stack().contexts().len(),
            same_level_with_regs(
                final(self).stack().contexts().last(),
                old(self).stack().contexts().last(),
                ctx.regs_view(),
            ),
            forall|i: int|
                0 <= i < old(self).stack().contexts().len() - 1 ==> final(self).stack().contexts()[i] == old(
                    self,
                ).stack().contexts()[i],
    {
        proof {
            use_type_invariant(&*self);
        }
        let active = self.execution_stack.active_mut();
        active.exec_state.save(ctx);
    }

    /// The registers of the active level, to be dispatched.
    pub fn active_state(&self) -> (r: ExecCtx)
        ensures
            r@ == self.stack().contexts().last().regs(),
    {
        proof {
            use_type_invariant(self);
        }
        ExecCtx::new(self.execution_stack.active().exec_state.regs())
    }

    /// Another handle on the resources of the active level; their frame's
    /// count grows by one.
    pub fn resources(&self, table: &mut RetypeTable) -> (r: KPtr)
        requires
            self.stack().contexts().last().resources_held_in(old(table)),
            old(table).state_of(self.stack().contexts().last().resources_frame()).1 < MAX_REF_COUNT,
        ensures
            r@ == self.stack().contexts().last().resources_frame(),
            final(table).base() == old(table).base(),
            final(table)@ == old(table)@.update(
                frame_index(r@),
                (old(table)@[frame_index(r@)] + 1) as u16,
            ),
    {
        proof {
            use_type_invariant(self);
        }
        self.execution_stack.active().resources.clone(table)
    }

    /// Whether `next` should run in place of `current`: it has the higher
    /// priority.
    pub fn priority_dispatch(next: &Thread, current: &Thread) -> (r: bool)
        ensures
            r == (next.priority() > current.priority()),
    {
        next.flat_priority() > current.flat_priority()
    }

    /// Posts `signals`; whether any signal is now pending, in which case
    /// the thread is to be dispatched if it outranks the running one.
    pub fn notify(&mut self, signals: u32) -> (r: bool)
        ensures
            posted(*old(self), *final(self), signals),
            r == (final(self).pending() != 0),
    {
        proof {
            use_type_invariant(&*self);
        }
        let old_sigs = self.signals;
        self.signals = old_sigs | signals;
        (old_sigs | signals) != 0
    }

    /// The thread was dispatched because of signals: if it was blocked
    /// waiting for them it becomes runnable and takes them all, to be
    /// handed over on dispatch; a runnable thread is left to the scheduler.
    pub fn wake(&mut self) -> (r: Option<u32>)
        ensures
            woken(*old(self), *final(self), r),
    {
        proof {
            use_type_invariant(&*self);
        }
        match self.execution_stack.run_state {
            RunState::Runnable => None,
            RunState::SigBlocked => {
                self.execution_stack.run_state = RunState::Runnable;
                let sigs = self.signals;
                self.signals = 0;
                Some(sigs)
            },
        }
    }

    /// Waits for signals: pending ones are taken at once; otherwise the
    /// thread blocks and its parent is to run, which a thread without a
    /// parent cannot do.
    pub fn sig_wait(&mut self) -> (r: Result<SigWaitResult, CapError>)
        ensures
            final(self).pending() == 0,
            final(self).stack().contexts() == old(self).stack().contexts(),
            final(self).affinity() == old(self).affinity(),
            final(self).priority() == old(self).priority(),
            final(self).parent_frame() == old(self).parent_frame(),
            old(self).pending() != 0 ==> r == Ok::<SigWaitResult, CapError>(SigWaitResult::Signalled(old(self).pending()))
                && final(self).stack().state() == old(self).stack().state(),
            old(self).pending() == 0 && old(self).parent_frame() is None ==> r == Err::<SigWaitResult, CapError>(
                CapError::SigWaitNoParent,
            ) && final(self).stack().state() == old(self).stack().state(),
            old(self).pending() == 0 && old(self).parent_frame() is Some ==> r == Ok::<SigWaitResult, CapError>(
                SigWaitResult::Blocked,
            ) && final(self).stack().state() == RunState::SigBlocked,
    {
        proof {
            use_type_invariant(&*self);
        }
        let signals = self.signals;
        self.signals = 0;
        if signals != 0 {
            return Ok(SigWaitResult::Signalled(signals));
        }
        if self.parent.is_none() {
            return Err(CapError::SigWaitNoParent);
        }
        self.execution_stack.run_state = RunState::SigBlocked;
        Ok(SigWaitResult::Blocked)
    }

    /// The signals pending now.
    pub fn signals(&self) -> (r: u32)
        ensures
            r == self.pending(),
    {
        self.signals
    }

    /// A blocking thread saw signals arrive and got itself bound again: if
    /// it is still blocked it wakes and is dispatched again with them;
    /// otherwise another core already ran it and it stays blocked here.
    pub fn sig_wait_rebound(&mut self) -> (r: SigWaitResult)
        ensures
            old(self).stack().state() == RunState::Runnable ==> r == SigWaitResult::Blocked && *final(self)
                == *old(self),
            old(self).stack().state() == RunState::SigBlocked ==> {
                &&& r == SigWaitResult::Redispatch(old(self).pending())
                &&& final(self).pending() == 0
                &&& final(self).stack().state() == RunState::Runnable
                &&& final(self).stack().contexts() == old(self).stack().contexts()
                &&& final(self).affinity() == old(self).affinity()
                &&& final(self).priority() == old(self).priority()
                &&& final(self).parent_frame() == old(self).parent_frame()
            },
    {
        match self.wake() {
            Some(signals) => SigWaitResult::Redispatch(signals),
            None => SigWaitResult::Blocked,
        }
    }

    /// Enters `invocation` as a synchronous call made from the state in
    /// `ctx`: the active level's registers are saved from `ctx` and
    /// `invocation` becomes the active level; the registers to dispatch are
    /// returned. With 16 levels already, the call is refused, nothing
    /// changes and `invocation` is given up.
    pub fn invoke(&mut self, invocation: ThreadExecCtx, ctx: &IrqCtx, table: &mut RetypeTable) -> (r: Result<
        ExecCtx,
        CapError,
    >)
        requires
            old(self).stack().contexts().len() == 16 ==> invocation.resources_held_in(old(table)),
        ensures
            old(self).stack().wf(),
            final(self).stack().wf(),
            final(self).stack().state() == old(self).stack().state(),
            final(self).affinity() == old(self).affinity(),
            final(self).priority() == old(self).priority(),
            final(self).pending() == old(self).pending(),
            final(self).parent_frame() == old(self).parent_frame(),
            ({
                let before = old(self).stack().contexts();
                let after = final(self).stack().contexts();
                let n = before.len();
                if n == 16 {
                    &&& r == Err::<ExecCtx, CapError>(CapError::SyncInvokeLimit)
                    &&& after == before
                    &&& final(table)@ == released(old(table)@, invocation.resources_frame())
                } else {
                    &&& r matches Ok(x) && x@ == invocation.regs()
                    &&& pushed_call(before, after, invocation, ctx.regs_view())
                    &&& final(table)@ == old(table)@
                }
            }),
            final(table).base() == old(table).base(),
    {
        proof {
            use_type_invariant(&*self);
        }
        if self.execution_stack.is_full() {
            invocation.drop(table);
            return Err(CapError::SyncInvokeLimit);
        }
        let active = self.execution_stack.active_mut();
        active.exec_state.save(ctx);
        let xstate = ExecCtx::new(invocation.exec_state.regs());
        let _ = self.execution_stack.push(invocation);
        Ok(xstate)
    }

    /// Returns from the active level to the one below, with the state the
    /// callee left in `callee_ctx`: the active level is removed and the
    /// caller's registers are completed by the callee's return convention;
    /// the registers to dispatch are returned. Refused at the base level
    /// (nothing changes), and for a level that does not return (it is
    /// removed all the same). The removed level gives up its reference on
    /// its resources.
    pub fn sync_ret(&mut self, callee_ctx: &IrqCtx, table: &mut RetypeTable) -> (r: Result<ExecCtx, CapError>)
        requires
            old(self).stack().contexts().len() > 1 ==> old(self).stack().contexts().last().resources_held_in(
                old(table),
            ),
        ensures
            old(self).stack().wf(),
            final(self).stack().wf(),
            final(self).stack().state() == old(self).stack().state(),
            final(self).affinity() == old(self).affinity(),
            final(self).priority() == old(self).priority(),
            final(self).pending() == old(self).pending(),
            final(self).parent_frame() == old(self).parent_frame(),
            ({
                let before = old(self).stack().contexts();
                let after = final(self).stack().contexts();
                let n = before.len();
                if n == 1 {
                    r == Err::<ExecCtx, CapError>(CapError::SyncRetLimit) && after == before && final(table)@ == old(
                        table,
                    )@
                } else if before.last().ret_abi() is NoReturn {
                    r == Err::<ExecCtx, CapError>(CapError::SyncRetOnNoRetAbi) && after == before.drop_last()
                } else {
                    &&& r matches Ok(x) && x@ == ret_regs(before.last().ret_abi(), before[n - 2].regs())
                    &&& popped_return(before, after)
                }
            }),
            old(self).stack().contexts().len() > 1 ==> final(table)@ == released(
                old(table)@,
                old(self).stack().contexts().last().resources_frame(),
            ),
            final(table).base() == old(table).base(),
    {
        proof {
            use_type_invariant(&*self);
        }
        if self.execution_stack.is_base() {
            return Err(CapError::SyncRetLimit);
        }
        let abi = match self.execution_stack.pop() {
            Some(callee) => {
                let ThreadExecCtx { exec_state, resources, abi } = callee;
                resources.drop(table);
                abi
            },
            None => {
                return vstd::pervasive::unreached();
            },
        };
        let caller = self.execution_stack.active_mut();
        match abi {
            AnyRet::NoReturn => Err(CapError::SyncRetOnNoRetAbi),
            abi => {
                abi.ret(callee_ctx, &mut caller.exec_state);
                Ok(ExecCtx::new(caller.exec_state.regs()))
            },
        }
    }
}

} // verus!

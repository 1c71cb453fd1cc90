//! x86-64 execution contexts: saved registers, the state captured when an
//! interrupt or exception enters the kernel, and the register conventions
//! for invoking and returning from synchronous calls.

use vstd::prelude::*;

use core::marker::PhantomData;

verus! {

/// `RFLAGS` for user code: interrupts enabled (bit 9) and I/O privilege
/// level 3 (bits 12 and 13).
pub const USER_RFLAGS: u64 = 0x3200;

/// Registers a callee may clobber.
#[derive(Debug, Clone, Copy)]
pub struct ScratchRegs {
    pub rax: u64,
    pub rcx: u64,
    pub rdx: u64,
    pub rsi: u64,
    pub rdi: u64,
    pub r8: u64,
    pub r9: u64,
    pub r10: u64,
    pub r11: u64,
}

/// Registers a callee must preserve.
#[derive(Debug, Clone, Copy)]
pub struct PreservedRegs {
    pub rbx: u64,
    pub rbp: u64,
    pub r12: u64,
    pub r13: u64,
    pub r14: u64,
    pub r15: u64,
}

/// Flags, stack pointer and instruction pointer.
#[derive(Debug, Clone, Copy)]
pub struct ControlRegs {
    pub rflags: u64,
    pub rsp: u64,
    pub rip: u64,
}

/// A full register file.
#[derive(Debug, Clone, Copy)]
pub struct Regs {
    pub scratch: ScratchRegs,
    pub preserved: PreservedRegs,
    pub control: ControlRegs,
}

/// All scratch registers zero.
pub open spec fn zero_scratch() -> ScratchRegs {
    ScratchRegs { rax: 0, rcx: 0, rdx: 0, rsi: 0, rdi: 0, r8: 0, r9: 0, r10: 0, r11: 0 }
}

/// All preserved registers zero.
pub open spec fn zero_preserved() -> PreservedRegs {
    PreservedRegs { rbx: 0, rbp: 0, r12: 0, r13: 0, r14: 0, r15: 0 }
}

/// All registers zero.
pub open spec fn zero_regs() -> Regs {
    Regs { scratch: zero_scratch(), preserved: zero_preserved(), control: ControlRegs { rflags: 0, rsp: 0, rip: 0 } }
}

impl Default for ScratchRegs {
    fn default() -> (r: Self)
        ensures
            r == zero_scratch(),
    {
        ScratchRegs { rax: 0, rcx: 0, rdx: 0, rsi: 0, rdi: 0, r8: 0, r9: 0, r10: 0, r11: 0 }
    }
}

impl Default for PreservedRegs {
    fn default() -> (r: Self)
        ensures
            r == zero_preserved(),
    {
        PreservedRegs { rbx: 0, rbp: 0, r12: 0, r13: 0, r14: 0, r15: 0 }
    }
}

impl Default for ControlRegs {
    fn default() -> (r: Self)
        ensures
            r == (ControlRegs { rflags: 0, rsp: 0, rip: 0 }),
    {
        ControlRegs { rflags: 0, rsp: 0, rip: 0 }
    }
}

impl Default for Regs {
    fn default() -> (r: Self)
        ensures
            r == zero_regs(),
    {
        Regs { scratch: ScratchRegs::default(), preserved: PreservedRegs::default(), control: ControlRegs::default() }
    }
}

/// The registers a fresh user context starts with: everything zero except
/// the entry point, the stack pointer, the first argument (`rdi`) and user
/// flags.
pub open spec fn entry_regs(entry: u64, stack_top: u64, arg0: u64) -> Regs {
    Regs {
        scratch: ScratchRegs { rdi: arg0, ..zero_scratch() },
        preserved: zero_preserved(),
        control: ControlRegs { rflags: USER_RFLAGS, rsp: stack_top, rip: entry },
    }
}

/// An execution context that can be dispatched: the saved register file.
#[derive(Debug, Clone)]
pub struct ExecCtx {
    regs: Regs,
}

impl ExecCtx {
    pub closed spec fn view(&self) -> Regs {
        self.regs
    }

    /// A context with the register file `regs`.
    pub fn new(regs: Regs) -> (r: Self)
        ensures
            r@ == regs,
    {
        Self { regs }
    }

    /// The saved registers.
    pub fn regs(&self) -> (r: Regs)
        ensures
            r == self@,
    {
        self.regs
    }

    /// Mutable access to the saved registers.
    pub fn regs_mut(&mut self) -> (r: &mut Regs)
        ensures
            *r == old(self)@,
            final(self)@ == *final(r),
    {
        &mut self.regs
    }

    /// The context of a new thread entering at `entry` with stack `stack_top`
    /// and first argument `arg0`.
    pub fn new_thread(entry: usize, stack_top: usize, arg0: usize) -> (r: Self)
        ensures
            r@ == entry_regs(entry as u64, stack_top as u64, arg0 as u64),
    {
        let mut regs = Regs::default();
        regs.control.rip = entry as u64;
        regs.control.rsp = stack_top as u64;
        regs.scratch.rdi = arg0 as u64;
        regs.control.rflags = USER_RFLAGS;
        Self { regs }
    }

    /// The context of the initial component entering at `entry_fun` with
    /// stack `stack_top` and its boot arguments at `arg0`.
    pub fn for_init_comp(entry_fun: usize, stack_top: usize, arg0: usize) -> (r: Self)
        ensures
            r@ == entry_regs(entry_fun as u64, stack_top as u64, arg0 as u64),
    {
        let mut regs = Regs::default();
        regs.scratch.rdi = arg0 as u64;
        regs.control.rip = entry_fun as u64;
        regs.control.rsp = stack_top as u64;
        regs.control.rflags = USER_RFLAGS;
        Self { regs }
    }

    /// Saves the registers captured by `ctx` into this context.
    pub fn save(&mut self, ctx: &IrqCtx)
        ensures
            final(self)@ == ctx.regs_view(),
    {
        self.regs = ctx.regs();
    }
}

/// Marker for a context entered through an exception (with an error code).
#[derive(Debug)]
pub struct Exception;

/// Marker for a context entered through an interrupt (no error code).
#[derive(Debug)]
pub struct Interrupt;

/// The frame the processor pushes when it takes an interrupt.
#[derive(Debug, Clone, Copy)]
pub struct InterruptFrame {
    pub instruction_pointer: u64,
    pub code_segment: u64,
    pub cpu_flags: u64,
    pub stack_pointer: u64,
    pub stack_segment: u64,
}

/// The machine state captured on entry to an interrupt or exception
/// handler: the interrupt frame, the registers the entry stub saved, and for
/// exceptions the error code.
#[derive(Debug)]
pub struct ExceptionCtx<Kind> {
    frame: InterruptFrame,
    scratch: ScratchRegs,
    preserved: PreservedRegs,
    error_code: u64,
    _kind: PhantomData<Kind>,
}

impl<Kind> ExceptionCtx<Kind> {
    pub closed spec fn frame_view(&self) -> InterruptFrame {
        self.frame
    }

    pub closed spec fn scratch_view(&self) -> ScratchRegs {
        self.scratch
    }

    pub closed spec fn preserved_view(&self) -> PreservedRegs {
        self.preserved
    }

    pub closed spec fn error_code_view(&self) -> u64 {
        self.error_code
    }

    /// The control registers the frame describes.
    pub open spec fn ctrl_view(&self) -> ControlRegs {
        ControlRegs {
            rflags: self.frame_view().cpu_flags,
            rsp: self.frame_view().stack_pointer,
            rip: self.frame_view().instruction_pointer,
        }
    }

    /// A captured state (the error code is ignored for interrupts).
    pub fn new(frame: InterruptFrame, scratch: ScratchRegs, preserved: PreservedRegs, error_code: u64) -> (r: Self)
        ensures
            r.frame_view() == frame,
            r.scratch_view() == scratch,
            r.preserved_view() == preserved,
            r.error_code_view() == error_code,
    {
        Self { frame, scratch, preserved, error_code, _kind: PhantomData }
    }

    /// The interrupt frame.
    pub fn interrupt_stack_frame(&self) -> (r: &InterruptFrame)
        ensures
            *r == self.frame_view(),
    {
        &self.frame
    }

    /// The interrupt frame, mutably: what is written becomes the frame
    /// restored on return.
    pub fn interrupt_stack_frame_mut(&mut self) -> (r: &mut InterruptFrame)
        ensures
            *r == old(self).frame_view(),
            final(self).frame_view() == *final(r),
            final(self).scratch_view() == old(self).scratch_view(),
            final(self).preserved_view() == old(self).preserved_view(),
            final(self).error_code_view() == old(self).error_code_view(),
    {
        &mut self.frame
    }

    /// The control registers at the time of the interrupt: the instruction
    /// pointer, stack pointer and flags the interrupt frame holds.
    pub fn ctrl_regs(&self) -> (r: ControlRegs)
        ensures
            r == self.ctrl_view(),
            r.rip == self.frame_view().instruction_pointer,
            r.rsp == self.frame_view().stack_pointer,
            r.rflags == self.frame_view().cpu_flags,
    {
        let isr = self.interrupt_stack_frame();
        ControlRegs { rflags: isr.cpu_flags, rsp: isr.stack_pointer, rip: isr.instruction_pointer }
    }

    /// The preserved registers saved on entry.
    pub fn preserved_regs(&self) -> (r: &PreservedRegs)
        ensures
            *r == self.preserved_view(),
    {
        &self.preserved
    }

    /// The scratch registers saved on entry.
    pub fn scratch_regs(&self) -> (r: &ScratchRegs)
        ensures
            *r == self.scratch_view(),
    {
        &self.scratch
    }

    /// Mutable access to the scratch registers restored on exit.
    pub fn scratch_regs_mut(&mut self) -> (r: &mut ScratchRegs)
        ensures
            *r == old(self).scratch_view(),
            final(self).scratch_view() == *final(r),
            final(self).frame_view() == old(self).frame_view(),
            final(self).preserved_view() == old(self).preserved_view(),
            final(self).error_code_view() == old(self).error_code_view(),
    {
        &mut self.scratch
    }

    /// The control registers as `current_control` reports them.
    pub fn current_control(&self) -> (r: ControlRegs)
        ensures
            r == self.ctrl_view(),
            r.rip == self.frame_view().instruction_pointer,
            r.rsp == self.frame_view().stack_pointer,
            r.rflags == self.frame_view().cpu_flags,
    {
        self.ctrl_regs()
    }
}

impl ExceptionCtx<Exception> {
    /// The error code pushed with the exception.
    pub fn error_code(&self) -> (r: u64)
        ensures
            r == self.error_code_view(),
    {
        self.error_code
    }
}

/// The context of whatever brought the processor into the kernel.
#[derive(Debug)]
pub enum IrqCtx {
    Exception(ExceptionCtx<Exception>),
    Interrupt(ExceptionCtx<Interrupt>),
}

impl IrqCtx {
    /// The full register file captured.
    pub open spec fn regs_view(&self) -> Regs {
        match self {
            IrqCtx::Exception(c) => Regs { scratch: c.scratch_view(), preserved: c.preserved_view(), control: c.ctrl_view() },
            IrqCtx::Interrupt(c) => Regs { scratch: c.scratch_view(), preserved: c.preserved_view(), control: c.ctrl_view() },
        }
    }

    /// The error code, for exceptions.
    pub open spec fn error_code_spec(&self) -> Option<u64> {
        match self {
            IrqCtx::Exception(c) => Some(c.error_code_view()),
            IrqCtx::Interrupt(_) => None,
        }
    }

    /// The interrupt frame captured.
    pub open spec fn frame_spec(&self) -> InterruptFrame {
        match self {
            IrqCtx::Exception(c) => c.frame_view(),
            IrqCtx::Interrupt(c) => c.frame_view(),
        }
    }

    /// The interrupt frame.
    pub fn interrupt_stack_frame(&self) -> (r: &InterruptFrame)
        ensures
            *r == self.frame_spec(),
    {
        match self {
            IrqCtx::Exception(ctx) => ctx.interrupt_stack_frame(),
            IrqCtx::Interrupt(ctx) => ctx.interrupt_stack_frame(),
        }
    }

    /// The interrupt frame, mutably: what is written becomes the frame
    /// restored on return; the saved registers and the kind of entry stay.
    pub fn interrupt_stack_frame_mut(&mut self) -> (r: &mut InterruptFrame)
        ensures
            *r == old(self).frame_spec(),
            final(self).frame_spec() == *final(r),
            (*final(self) is Exception) <==> (*old(self) is Exception),
            final(self).regs_view().scratch == old(self).regs_view().scratch,
            final(self).regs_view().preserved == old(self).regs_view().preserved,
            final(self).error_code_spec() == old(self).error_code_spec(),
    {
        match self {
            IrqCtx::Exception(ctx) => ctx.interrupt_stack_frame_mut(),
            IrqCtx::Interrupt(ctx) => ctx.interrupt_stack_frame_mut(),
        }
    }

    /// The preserved registers saved on entry.
    pub fn preserved_regs(&self) -> (r: &PreservedRegs)
        ensures
            *r == self.regs_view().preserved,
    {
        match self {
            IrqCtx::Exception(ctx) => ctx.preserved_regs(),
            IrqCtx::Interrupt(ctx) => ctx.preserved_regs(),
        }
    }

    /// The scratch registers saved on entry.
    pub fn scratch_regs(&self) -> (r: &ScratchRegs)
        ensures
            *r == self.regs_view().scratch,
    {
        match self {
            IrqCtx::Exception(ctx) => ctx.scratch_regs(),
            IrqCtx::Interrupt(ctx) => ctx.scratch_regs(),
        }
    }

    /// The control registers at the time of entry.
    pub fn ctrl_regs(&self) -> (r: ControlRegs)
        ensures
            r == self.regs_view().control,
    {
        match self {
            IrqCtx::Exception(ctx) => ctx.ctrl_regs(),
            IrqCtx::Interrupt(ctx) => ctx.ctrl_regs(),
        }
    }

    /// The full register file captured.
    pub fn regs(&self) -> (r: Regs)
        ensures
            r == self.regs_view(),
            r.control.rip == self.frame_spec().instruction_pointer,
            r.control.rsp == self.frame_spec().stack_pointer,
            r.control.rflags == self.frame_spec().cpu_flags,
    {
        let preserved = self.preserved_regs();
        let scratch = self.scratch_regs();
        let control = self.ctrl_regs();
        Regs { scratch: *scratch, preserved: *preserved, control }
    }

    /// The error code, for exceptions.
    pub fn error_code(&self) -> (r: Option<u64>)
        ensures
            r == self.error_code_spec(),
    {
        match self {
            IrqCtx::Exception(ctx) => Some(ctx.error_code()),
            IrqCtx::Interrupt(_) => None,
        }
    }
}

/// Returning from a standard synchronous call.
#[derive(Debug)]
pub struct CallRetAbi;

/// Returning from an exception handler.
#[derive(Debug)]
pub struct ExceptionRetAbi;

/// How an invocation returns to its caller.
#[derive(Debug)]
pub enum AnyRet {
    NoReturn,
    Standard(CallRetAbi),
    Exception(ExceptionRetAbi),
}

/// The standard synchronous-call convention.
#[derive(Debug)]
pub struct CallAbi;

/// The convention for invoking an exception handler: which exception, and
/// its error code if it has one.
#[derive(Debug, Copy, Clone)]
pub struct ExceptionAbi {
    pub which: u64,
    pub code: Option<u64>,
}

/// The registers a callee starts with under the standard call convention:
/// entry point `entry`, null stack, user flags, and the four arguments the
/// caller passed in `rdx`, `rcx`, `r8` and `r9` moved to `rdi`, `rsi`,
/// `rdx` and `rcx`; everything else zero.
pub open spec fn call_regs(entry: u64, caller: Regs) -> Regs {
    Regs {
        scratch: ScratchRegs {
            rdi: caller.scratch.rdx,
            rsi: caller.scratch.rcx,
            rdx: caller.scratch.r8,
            rcx: caller.scratch.r9,
            ..zero_scratch()
        },
        preserved: zero_preserved(),
        control: ControlRegs { rflags: USER_RFLAGS, rsp: 0, rip: entry },
    }
}

/// The registers an exception handler starts with: entry point `entry`,
/// null stack, user flags, the exception number in `rdi` and the error
/// code (all ones when there is none) in `rsi`; everything else zero.
pub open spec fn exception_regs(entry: u64, which: u64, code: Option<u64>) -> Regs {
    Regs {
        scratch: ScratchRegs {
            rdi: which,
            rsi: match code {
                Some(c) => c,
                None => u64::MAX,
            },
            ..zero_scratch()
        },
        preserved: zero_preserved(),
        control: ControlRegs { rflags: USER_RFLAGS, rsp: 0, rip: entry },
    }
}

impl CallAbi {
    /// The context of a call to `entry` made from the state in `ctx`, and
    /// how it returns.
    pub fn new_invocation(self, entry: usize, ctx: &IrqCtx) -> (r: (ExecCtx, AnyRet))
        ensures
            r.0@ == call_regs(entry as u64, ctx.regs_view()),
            r.0@.scratch.rdi == ctx.regs_view().scratch.rdx,
            r.0@.scratch.rsi == ctx.regs_view().scratch.rcx,
            r.0@.scratch.rdx == ctx.regs_view().scratch.r8,
            r.0@.scratch.rcx == ctx.regs_view().scratch.r9,
            r.0@.control.rip == entry as u64,
            r.0@.control.rsp == 0,
            r.0@.control.rflags == USER_RFLAGS,
            r.1 matches AnyRet::Standard(_),
    {
        let curr_regs = ctx.regs();
        let mut regs = Regs::default();
        regs.control.rip = entry as u64;
        regs.control.rsp = 0;
        regs.scratch.rdi = curr_regs.scratch.rdx;
        regs.scratch.rsi = curr_regs.scratch.rcx;
        regs.scratch.rdx = curr_regs.scratch.r8;
        regs.scratch.rcx = curr_regs.scratch.r9;
        regs.control.rflags = USER_RFLAGS;
        (ExecCtx { regs }, AnyRet::Standard(CallRetAbi))
    }
}

impl ExceptionAbi {
    /// The convention for exception number `which` with error code `code`.
    pub fn new(which: u64, code: Option<u64>) -> (r: Self)
        ensures
            r.which == which,
            r.code == code,
    {
        Self { which, code }
    }

    /// The context of the handler at `entry` for this exception, and how it
    /// returns.
    pub fn new_invocation(self, entry: usize, ctx: &IrqCtx) -> (r: (ExecCtx, AnyRet))
        ensures
            r.0@ == exception_regs(entry as u64, self.which, self.code),
            r.0@.scratch.rdi == self.which,
            self.code matches Some(c) ==> r.0@.scratch.rsi == c,
            self.code is None ==> r.0@.scratch.rsi == u64::MAX,
            r.0@.control.rip == entry as u64,
            r.0@.control.rsp == 0,
            r.0@.control.rflags == USER_RFLAGS,
            r.1 matches AnyRet::Exception(_),
    {
        let mut regs = Regs::default();
        regs.control.rip = entry as u64;
        regs.control.rsp = 0;
        regs.scratch.rdi = self.which;
        regs.scratch.rsi = match self.code {
            Some(c) => c,
            None => u64::MAX,
        };
        regs.control.rflags = USER_RFLAGS;
        (ExecCtx { regs }, AnyRet::Exception(ExceptionRetAbi))
    }
}

/// A standard call hands the caller's four argument registers `rdx`,
/// `rcx`, `r8` and `r9` to the callee in `rdi`, `rsi`, `rdx` and `rcx`, in
/// that order, and starts it at `entry` with a null stack and user flags.
pub proof fn law_call_moves_arguments(entry: u64, caller: Regs)
    ensures
        call_regs(entry, caller).scratch.rdi == caller.scratch.rdx,
        call_regs(entry, caller).scratch.rsi == caller.scratch.rcx,
        call_regs(entry, caller).scratch.rdx == caller.scratch.r8,
        call_regs(entry, caller).scratch.rcx == caller.scratch.r9,
        call_regs(entry, caller).control.rip == entry,
        call_regs(entry, caller).control.rsp == 0,
        call_regs(entry, caller).control.rflags == USER_RFLAGS,
{
}

/// An exception handler starts at `entry` with the exception number in
/// `rdi` and, in `rsi`, the error code the exception carries, or all ones
/// when it carries none.
pub proof fn law_exception_passes_code(entry: u64, which: u64, code: Option<u64>)
    ensures
        exception_regs(entry, which, code).scratch.rdi == which,
        code matches Some(c) ==> exception_regs(entry, which, code).scratch.rsi == c,
        code is None ==> exception_regs(entry, which, code).scratch.rsi == u64::MAX,
        exception_regs(entry, which, code).control.rip == entry,
{
}

/// The registers captured on a trap resume the thread where it was: the
/// instruction pointer, stack pointer and flags of the interrupt frame.
pub proof fn law_trap_captures_frame(ctx: IrqCtx)
    ensures
        ctx.regs_view().control.rip == ctx.frame_spec().instruction_pointer,
        ctx.regs_view().control.rsp == ctx.frame_spec().stack_pointer,
        ctx.regs_view().control.rflags == ctx.frame_spec().cpu_flags,
{
}

/// A standard call hands back the caller's `rsi` when it reads as a
/// non-negative signed number, and 0 when it reads as a negative one.
pub proof fn law_call_result_clamps(rsi: u64)
    ensures
        rsi < 0x8000_0000_0000_0000 ==> call_result(rsi) == rsi,
        rsi >= 0x8000_0000_0000_0000 ==> call_result(rsi) == 0,
{
}

/// The result a standard call hands back: the caller's `rsi` read as a
/// signed number, negative values clamped to 0.
pub open spec fn call_result(rsi: u64) -> u64 {
    if rsi >= 0x8000_0000_0000_0000 {
        0
    } else {
        rsi
    }
}

impl CallRetAbi {
    /// Completes a standard call: the caller's `rax` receives the result
    /// (`call_result` of its `rsi`); nothing else changes.
    pub fn ret(self, callee_ctx: &IrqCtx, caller_ctx: &mut ExecCtx)
        ensures
            final(caller_ctx)@ == (Regs {
                scratch: ScratchRegs { rax: call_result(old(caller_ctx)@.scratch.rsi), ..old(caller_ctx)@.scratch },
                ..old(caller_ctx)@
            }),
            old(caller_ctx)@.scratch.rsi < 0x8000_0000_0000_0000 ==> final(caller_ctx)@.scratch.rax == old(
                caller_ctx,
            )@.scratch.rsi,
            old(caller_ctx)@.scratch.rsi >= 0x8000_0000_0000_0000 ==> final(caller_ctx)@.scratch.rax == 0,
    {
        let rsi: u64 = caller_ctx.regs().scratch.rsi;
        let resp: u64 = if rsi >= 0x8000_0000_0000_0000 {
            0
        } else {
            rsi
        };
        caller_ctx.regs.scratch.rax = resp;
    }
}

impl ExceptionRetAbi {
    /// Completes an exception handler: the interrupted context is resumed
    /// as it was.
    pub fn ret(self, callee_ctx: &IrqCtx, caller_ctx: &mut ExecCtx)
        ensures
            final(caller_ctx)@ == old(caller_ctx)@,
    {
    }
}

impl AnyRet {
    /// Completes an invocation according to its convention; there is no
    /// returning from a `NoReturn` invocation.
    pub fn ret(self, callee_ctx: &IrqCtx, caller_ctx: &mut ExecCtx)
        requires
            !(self is NoReturn),
        ensures
            self is Exception ==> final(caller_ctx)@ == old(caller_ctx)@,
            self is Standard ==> final(caller_ctx)@ == (Regs {
                scratch: ScratchRegs { rax: call_result(old(caller_ctx)@.scratch.rsi), ..old(caller_ctx)@.scratch },
                ..old(caller_ctx)@
            }),
    {
        match self {
            AnyRet::NoReturn => {},
            AnyRet::Standard(call_abi) => call_abi.ret(callee_ctx, caller_ctx),
            AnyRet::Exception(exception_ret_abi) => exception_ret_abi.ret(callee_ctx, caller_ctx),
        }
    }
}

} // verus!

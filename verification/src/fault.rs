//! What the kernel does about a page fault.

use vstd::prelude::*;

use crate::mem::virt::{is_canonical, segment_of, MemorySegment};
use crate::mem::VirtAddr;

verus! {

/// The kernel's response to a page fault.
#[derive(Debug, PartialEq, Eq, Structural)]
pub enum PageFaultAction {
    /// A guarded copy from user memory faulted: resume at the copy's
    /// recovery point, which reports the failure.
    ResumeUserCopyFailure,
    /// A fault the kernel cannot recover from.
    Panic,
    /// A fault of user code: hand it to the process's exception handler
    /// with the hardware error code and the faulting address.
    Forward { code: u64, addr: u64 },
}

/// The response to a page fault at `addr` raised at privilege level
/// `ring` with `error_code`, while a guarded user copy is or isn't in
/// progress.
pub open spec fn fault_response(ring: u8, addr: usize, copy_in_progress: bool, error_code: u64) -> PageFaultAction {
    if ring == 3 {
        PageFaultAction::Forward { code: error_code, addr: addr as u64 }
    } else if ring == 0 && is_canonical(addr) && segment_of(addr) == MemorySegment::User && copy_in_progress {
        PageFaultAction::ResumeUserCopyFailure
    } else {
        PageFaultAction::Panic
    }
}

/// Decides what to do about a page fault (see `fault_response`): user code
/// faults go to the process; in the kernel, only a fault on user memory
/// during a guarded copy is recoverable.
pub fn page_fault_action(ring: u8, addr: usize, copy_in_progress: bool, error_code: u64) -> (r: PageFaultAction)
    requires
        ring <= 3,
    ensures
        r == fault_response(ring, addr, copy_in_progress, error_code),
{
    if ring == 0 {
        match VirtAddr::try_new(addr) {
            Ok(a) => match a.memory_segment() {
                MemorySegment::User => {
                    if copy_in_progress {
                        PageFaultAction::ResumeUserCopyFailure
                    } else {
                        PageFaultAction::Panic
                    }
                },
                MemorySegment::Kernel | MemorySegment::Untyped => PageFaultAction::Panic,
            },
            Err(_) => PageFaultAction::Panic,
        }
    } else if ring == 3 {
        PageFaultAction::Forward { code: error_code, addr: addr as u64 }
    } else {
        PageFaultAction::Panic
    }
}

} // verus!

//! Verified core of a small capability-based microkernel: address and page
//! arithmetic, page-table entries, the physical frame retype table, the
//! capability trie, core-bound cells, the register-level calling
//! conventions, threads and the system calls.
#![allow(unused_imports)]

use vstd::prelude::*;

pub mod addrspace;
pub mod arch_caps;
pub mod boot;
pub mod caps;
pub mod core_local;
pub mod exec;
pub mod fault;
pub mod hint;
pub mod kmem;
pub mod mem;
pub mod page_table;
pub mod retyping;
pub mod selfie;
pub mod stack_list;
pub mod sync;
pub mod syscall;
pub mod thread;
pub mod util;

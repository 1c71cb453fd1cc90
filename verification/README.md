# kernel

The verified core of a small capability-based x86-64 microkernel, written in
Verus. The functions under `src/` carry contracts that Verus proves (a few,
such as the branch hint `cold`, have nothing to state); the calls into the
`heapless` and `tar-no-std` crates go through a handful of trusted wrappers
whose contracts are stated from those crates' sources.

## Layout

- `src/mem`, `src/page_table.rs`: physical and virtual addresses, frames,
  pages, page-table entries and tables.
- `src/retyping.rs`, `src/retyping/`: the retype table, which records for every
  physical frame whether it is unavailable, untyped, user or kernel memory and
  how many references it has; the bump allocator that builds it from the
  bootloader's memory map.
- `src/kmem.rs`: counted handles on kernel objects.
- `src/addrspace.rs`: page-table walks, mapping and translation of user pages,
  with the kernel half shared by every address space.
- `src/caps.rs`, `src/caps/trie.rs`: capabilities and the trie of capability
  blocks they live in.
- `src/arch_caps.rs`: page-table and interrupt-controller capabilities, and the
  interrupt line table.
- `src/exec.rs`, `src/thread.rs`: register files, calling conventions, and the
  stack of execution levels a thread runs through across synchronous calls.
- `src/syscall.rs`: the kernel state and the system calls on it.
- `src/boot.rs`, `src/boot/`: loading the initial process.
- `src/core_local.rs`, `src/core_local/`: per-core data and core-bound cells.
- `src/fault.rs`, `src/sync.rs`, `src/selfie.rs`, `src/stack_list.rs`,
  `src/util.rs`, `src/hint.rs`: smaller pieces.

`app/` is a partial boot path around the library, not a working kernel: it
answers the bootloader requests, builds the retype table and the kernel state,
finds the initial program in the ramdisk, and builds (without activating) the
initial address space. It does not load or start the initial process,
installs no interrupt table and no system-call or page-fault handlers, and
keeps page tables only in the library's table store, which nothing writes to
physical memory.
`tests/` exercises the library on concrete values.

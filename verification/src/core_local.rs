//! Per-core kernel state.

use vstd::prelude::*;

pub mod core_cell;

use core::marker::PhantomData;

use crate::kmem::KPtr;

verus! {

/// The kernel's per-core data: the thread running on the core, whether a
/// guarded copy from user memory is in progress, and the core's number.
#[derive(Debug)]
pub struct KernelLocalStore {
    pub current_thread: Option<KPtr>,
    pub safe_buffer_lock: bool,
    pub core_id: u16,
}

impl KernelLocalStore {
    /// The data of core `core_id` before any thread runs on it.
    pub fn new(core_id: u16) -> (r: Self)
        ensures
            r.core_id == core_id,
            r.current_thread is None,
            !r.safe_buffer_lock,
    {
        Self { current_thread: None, safe_buffer_lock: false, core_id }
    }
}

/// A core's data block: its own address (found through the core's base
/// register) followed by the data.
#[derive(Debug)]
pub struct CoreLocalData<T> {
    self_ptr: usize,
    pub data: T,
}

impl<T> CoreLocalData<T> {
    /// The address the block was placed at.
    pub closed spec fn address(&self) -> usize {
        self.self_ptr
    }

    /// The data of the block.
    pub closed spec fn contents(&self) -> T {
        self.data
    }

    /// A block to be placed at `self_addr`.
    pub fn new(self_addr: usize, data: T) -> (r: Self)
        ensures
            r.address() == self_addr,
            r.contents() == data,
    {
        Self { self_ptr: self_addr, data }
    }

    /// The address the block was placed at.
    pub fn get_ptr(&self) -> (r: usize)
        ensures
            r == self.address(),
    {
        self.self_ptr
    }
}

/// A field of the core's data block, `BYTE_OFF` bytes into it.
#[derive(Debug)]
pub struct CoreLocal<const BYTE_OFF: usize, T> {
    _data: PhantomData<T>,
}

impl<const BYTE_OFF: usize, T> CoreLocal<BYTE_OFF, T> {
    /// A handle on the field at `BYTE_OFF`.
    pub fn new() -> (r: Self) {
        Self { _data: PhantomData }
    }

    /// The address of the field in the block at `block`.
    pub fn get_ptr(block: usize) -> (r: usize)
        ensures
            r == block.wrapping_add(BYTE_OFF),
    {
        block.wrapping_add(BYTE_OFF)
    }

    /// The address of the field in the block at `block`, for writing.
    pub fn get_ptr_mut(block: usize) -> (r: usize)
        ensures
            r == block.wrapping_add(BYTE_OFF),
    {
        block.wrapping_add(BYTE_OFF)
    }

    /// The byte offset of the field.
    pub fn offset(&self) -> (r: usize)
        ensures
            r == BYTE_OFF,
    {
        BYTE_OFF
    }
}

} // verus!

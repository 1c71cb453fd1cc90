//! The retype table: one 16-bit entry per physical frame recording what the
//! frame is used for (its state) and how many references to it exist.

use vstd::prelude::*;

pub mod bump_alloc;

use crate::mem::{Frame, PhysAddr};
use crate::mem::phys::phys_limit;
use bump_alloc::{
    BumpAllocator, MemMapEntry, MEMMAP_BOOTLOADER_RECLAIMABLE, MEMMAP_EXECUTABLE_AND_MODULES,
    MEMMAP_RESERVED, MEMMAP_USABLE, carved, entry_wf, first_fit, lemma_first_fit, map_wf,
};

verus! {

/// What a physical frame is used for.
#[derive(Debug, PartialEq, Eq, Copy, Clone, Structural)]
pub enum State {
    /// Not usable memory (reserved, or holding the retype table itself).
    Unavailable,
    /// Free memory that may be retyped.
    Untyped,
    /// Memory handed to userspace.
    User,
    /// Memory holding kernel objects.
    Kernel,
}

/// Number of bits that encode the state.
pub const STATE_BITS: u16 = 2;

/// Number of bits that encode the reference counter.
pub const COUNTER_BITS: u16 = 14;

/// The largest reference count an entry can hold.
pub const MAX_REF_COUNT: u16 = 16383;

/// The 2-bit code of a state.
pub open spec fn state_code(s: State) -> u16 {
    match s {
        State::Unavailable => 0,
        State::Untyped => 1,
        State::User => 2,
        State::Kernel => 3,
    }
}

/// The state whose 2-bit code is `code` (codes above 3 are not produced).
pub open spec fn state_of_code(code: int) -> State {
    if code == 0 {
        State::Unavailable
    } else if code == 1 {
        State::Untyped
    } else if code == 2 {
        State::User
    } else {
        State::Kernel
    }
}

/// The raw entry value for `state` and `counter`: the state in the top two
/// bits and `counter % MAX_REF_COUNT` in the low fourteen (so a counter of
/// exactly `MAX_REF_COUNT` is stored as 0).
pub open spec fn encode(state: State, counter: u16) -> u16 {
    (state_code(state) * 16384 + counter as int % 16383) as u16
}

/// The state and counter stored in the raw entry value `value`.
pub open spec fn decode(value: u16) -> (State, u16) {
    (state_of_code(value as int / 16384), (value as int % 16384) as u16)
}

/// Error for a byte that names no state.
#[derive(Debug)]
struct Invalid;

impl State {
    /// The state with code `value`, or `Err(Invalid)` above 3.
    fn try_from(value: u8) -> (r: Result<Self, Invalid>)
        ensures
            value <= 3 <==> r is Ok,
            r matches Ok(s) ==> s == state_of_code(value as int),
    {
        match value {
            0 => Ok(State::Unavailable),
            1 => Ok(State::Untyped),
            2 => Ok(State::User),
            3 => Ok(State::Kernel),
            _ => Err(Invalid),
        }
    }

    /// The 2-bit code of the state.
    fn code(self) -> (r: u16)
        ensures
            r == state_code(self),
    {
        match self {
            State::Unavailable => 0,
            State::Untyped => 1,
            State::User => 2,
            State::Kernel => 3,
        }
    }
}

/// Error: the reference counter is already at `MAX_REF_COUNT`.
#[derive(Debug, Copy, Clone)]
pub struct MaxRefs;

/// Error: the reference counter is already 0.
#[derive(Debug, Copy, Clone)]
pub struct NoRefs;

/// The retype entry of one frame.
#[derive(Debug)]
pub struct RetypeEntry {
    value: u16,
}

impl RetypeEntry {
    pub closed spec fn view(&self) -> u16 {
        self.value
    }

    /// The raw value for `state` and `counter`, which must not exceed `MAX_REF_COUNT`.
    fn value_for(state: State, counter: u16) -> (r: u16)
        requires
            counter <= MAX_REF_COUNT,
        ensures
            r == encode(state, counter),
    {
        let code: u16 = state.code();
        let high: u16 = code << COUNTER_BITS;
        assert(high == code * 16384) by (bit_vector)
            requires
                code <= 3,
                high == code << 14u16,
        ;
        high + counter % MAX_REF_COUNT
    }

    /// The state and counter stored in `value`.
    fn value_into(value: u16) -> (r: (State, u16))
        ensures
            r == decode(value),
    {
        let counter: u16 = value & 0x3FFF;
        let code: u16 = value >> COUNTER_BITS;
        assert(counter == value % 16384 && code == value / 16384 && code <= 3) by (bit_vector)
            requires
                counter == value & 0x3FFFu16,
                code == value >> 14u16,
        ;
        let state = match State::try_from(code as u8) {
            Ok(state) => state,
            Err(_) => {
                proof {
                    assert(false);
                }
                State::Unavailable
            },
        };
        (state, counter)
    }

    /// An entry for an unavailable frame.
    pub fn unavailable() -> (r: Self)
        ensures
            r@ == encode(State::Unavailable, 0),
    {
        Self { value: Self::value_for(State::Unavailable, 0) }
    }

    /// An entry for an untyped frame.
    pub fn untyped() -> (r: Self)
        ensures
            r@ == encode(State::Untyped, 0),
    {
        Self { value: Self::value_for(State::Untyped, 0) }
    }

    /// An entry for a kernel frame with `ref_count` references.
    pub fn kernel(ref_count: u16) -> (r: Self)
        requires
            ref_count <= MAX_REF_COUNT,
        ensures
            r@ == encode(State::Kernel, ref_count),
    {
        Self { value: Self::value_for(State::Kernel, ref_count) }
    }

    /// Adds a reference and returns the previous count, or fails with
    /// `MaxRefs` (leaving the entry unchanged) when the count is at its maximum.
    pub fn increment(&mut self) -> (r: Result<u16, MaxRefs>)
        ensures
            decode(old(self)@).1 == MAX_REF_COUNT <==> r is Err,
            r is Err ==> final(self)@ == old(self)@,
            r matches Ok(c) ==> c == decode(old(self)@).1 && final(self)@ == old(self)@ + 1
                && decode(final(self)@) == (decode(old(self)@).0, (c + 1) as u16),
    {
        let (_, counter) = Self::value_into(self.value);
        if counter == MAX_REF_COUNT {
            Err(MaxRefs)
        } else {
            let v: u16 = self.value;
            assert(v % 16384 < 16383 ==> v + 1 <= 0xFFFF && (v + 1) / 16384 == v / 16384 && (v
                + 1) % 16384 == v % 16384 + 1) by (nonlinear_arith);
            self.value = v + 1;
            Ok(counter)
        }
    }

    /// Drops a reference and returns the previous count, or fails with
    /// `NoRefs` (leaving the entry unchanged) when the count is already 0.
    pub fn decrement(&mut self) -> (r: Result<u16, NoRefs>)
        ensures
            decode(old(self)@).1 == 0 <==> r is Err,
            r is Err ==> final(self)@ == old(self)@,
            r matches Ok(c) ==> c == decode(old(self)@).1 && final(self)@ == old(self)@ - 1
                && decode(final(self)@) == (decode(old(self)@).0, (c - 1) as u16),
    {
        let (_, counter) = Self::value_into(self.value);
        if counter == 0 {
            Err(NoRefs)
        } else {
            let v: u16 = self.value;
            assert(v % 16384 > 0 ==> v >= 1 && (v - 1) / 16384 == v / 16384 && (v - 1) % 16384
                == v % 16384 - 1) by (nonlinear_arith);
            self.value = v - 1;
            Ok(counter)
        }
    }

    /// The state and reference count of the frame.
    pub fn get(&self) -> (r: (State, u16))
        ensures
            r == decode(self@),
    {
        Self::value_into(self.value)
    }

    /// When the frame is in state `wants` with fewer than `MAX_REF_COUNT`
    /// references, stores that state with one more reference; otherwise
    /// leaves the entry unchanged and returns its state and count.
    pub fn get_as_and_increment(&mut self, wants: State) -> (r: Result<(), (State, u16)>)
        ensures
            ({
                let (s, c) = decode(old(self)@);
                if s == wants && c < MAX_REF_COUNT {
                    r is Ok && final(self)@ == encode(s, (c + 1) as u16)
                } else {
                    r == Err::<(), (State, u16)>((s, c)) && final(self)@ == old(self)@
                }
            }),
    {
        let (state, count) = Self::value_into(self.value);
        if wants == state && count < MAX_REF_COUNT {
            self.value = Self::value_for(state, count + 1);
            Ok(())
        } else {
            Err((state, count))
        }
    }

    /// Atomically moves the entry from `(from_state, from_counter)` to
    /// `(to_state, to_counter)`; when it holds anything else, leaves it
    /// unchanged and returns its state and count.
    pub fn retype(&mut self, from_state: State, to_state: State, from_counter: u16, to_counter: u16) -> (r: Result<(), (State, u16)>)
        requires
            from_counter <= MAX_REF_COUNT,
            to_counter <= MAX_REF_COUNT,
        ensures
            old(self)@ == encode(from_state, from_counter) ==> r is Ok && final(self)@ == encode(
                to_state,
                to_counter,
            ),
            old(self)@ != encode(from_state, from_counter) ==> r == Err::<(), (State, u16)>(
                decode(old(self)@),
            ) && final(self)@ == old(self)@,
    {
        let from: u16 = Self::value_for(from_state, from_counter);
        let to: u16 = Self::value_for(to_state, to_counter);
        if self.value == from {
            self.value = to;
            Ok(())
        } else {
            Err(Self::value_into(self.value))
        }
    }

    /// Overwrites the entry with `state` and `value` references.
    pub fn set(&mut self, state: State, value: u16)
        requires
            value <= MAX_REF_COUNT,
        ensures
            final(self)@ == encode(state, value),
    {
        self.value = Self::value_for(state, value);
    }
}

/// Decoding an encoded entry gives back its state, and its counter unless
/// the counter is exactly `MAX_REF_COUNT` (which is stored as 0).
pub proof fn lemma_encode_decode(state: State, counter: u16)
    requires
        counter <= MAX_REF_COUNT,
    ensures
        decode(encode(state, counter)).0 == state,
        counter < MAX_REF_COUNT ==> decode(encode(state, counter)).1 == counter,
        counter == MAX_REF_COUNT ==> decode(encode(state, counter)).1 == 0,
{
}

/// Error: the frame lies past the end of the retype table.
#[derive(Debug)]
pub struct OutOfBounds;

/// Errors of retyping a frame.
#[derive(Debug)]
pub enum RetypeError {
    /// The frame isn't in the state the retype starts from; carries its state.
    InvalidFromState(State),
    /// References to the frame still exist; carries their number.
    RefsExist(u16),
    /// The frame lies past the end of the retype table.
    OutOfBounds(OutOfBounds),
}

/// Errors of taking a reference to a frame of a given type.
#[derive(Debug)]
pub enum AsTypeError {
    /// The frame isn't of the expected type; carries its state.
    NotExpectedState(State),
    /// The frame already has the maximum number of references.
    MaxRefs(MaxRefs),
    /// The frame lies past the end of the retype table.
    OutOfBounds(OutOfBounds),
}

/// Errors of claiming an unused kernel frame.
#[derive(Debug)]
pub enum AsUnusedKernelError {
    /// The frame isn't typed as kernel; carries its state.
    NotExpectedState(State),
    /// The kernel frame is already used.
    AlreadyInUse,
    /// The frame lies past the end of the retype table.
    OutOfBounds(OutOfBounds),
}

/// The table of retype entries, one per physical frame from address 0 up.
#[derive(Debug)]
pub struct RetypeTable {
    retype_map: Vec<RetypeEntry>,
    map_base: u64,
}

/// Where a frame's entry sits in the table.
pub open spec fn frame_index(frame: Frame) -> int {
    frame@ as int / 4096
}

impl RetypeTable {
    /// The raw values of the entries, frame by frame.
    pub closed spec fn view(&self) -> Seq<u16> {
        self.retype_map@.map_values(|e: RetypeEntry| e@)
    }

    /// The physical address the table is stored at.
    pub closed spec fn base(&self) -> u64 {
        self.map_base
    }

    /// The table covers fewer than 2^40 frames (52-bit physical memory)
    /// and is itself stored within physical memory.
    pub open spec fn wf(&self) -> bool {
        &&& self@.len() < 0x100_0000_0000
        &&& self.base() % 4096 == 0
        &&& self.base() + 2 * self@.len() < phys_limit()
    }

    /// Whether `frame` has an entry.
    pub open spec fn covers(&self, frame: Frame) -> bool {
        frame_index(frame) < self@.len()
    }

    /// The state and reference count of a covered frame.
    pub open spec fn state_of(&self, frame: Frame) -> (State, u16) {
        decode(self@[frame_index(frame)])
    }

    /// The number of entries in the table.
    pub fn len(&self) -> (r: usize)
        ensures
            r == self@.len(),
    {
        self.retype_map.len()
    }

    /// The bytes of physical memory the table describes.
    pub fn memory_limit(&self) -> (r: usize)
        requires
            self@.len() * 4096 <= usize::MAX,
        ensures
            r == self@.len() * 4096,
    {
        self.retype_map.len() * (Frame::SIZE as usize)
    }

    /// The index of `frame`'s entry, or `Err(OutOfBounds)` past the table's end.
    fn index_of(&self, frame: &Frame) -> (r: Result<usize, OutOfBounds>)
        ensures
            self.covers(*frame) <==> r is Ok,
            r matches Ok(i) ==> i == frame_index(*frame),
    {
        let index: u64 = frame.addr().as_u64() / Frame::SIZE;
        if index < self.retype_map.len() as u64 {
            Ok(index as usize)
        } else {
            Err(OutOfBounds)
        }
    }

    /// Replaces entry `i` by `e`.
    fn store(&mut self, i: usize, e: RetypeEntry)
        requires
            i < old(self)@.len(),
        ensures
            final(self)@ == old(self)@.update(i as int, e@),
            final(self).base() == old(self).base(),
    {
        self.retype_map.set(i, e);
        proof {
            assert(self@ =~= old(self)@.update(i as int, e@));
        }
    }

    /// A copy of entry `i`.
    fn load(&self, i: usize) -> (r: RetypeEntry)
        requires
            i < self@.len(),
        ensures
            r@ == self@[i as int],
    {
        RetypeEntry { value: self.retype_map[i].value }
    }
}

impl Frame {
    /// The retype entry of this frame, or `Err(OutOfBounds)` past the table's end.
    pub fn retype_entry<'a>(&self, table: &'a RetypeTable) -> (r: Result<&'a RetypeEntry, OutOfBounds>)
        ensures
            table.covers(*self) <==> r is Ok,
            r matches Ok(e) ==> e@ == table@[frame_index(*self)],
    {
        let i = table.index_of(self)?;
        Ok(&table.retype_map[i])
    }

    /// Takes a new reference to this frame as a user frame: fails when the
    /// frame is uncovered, not user typed, or at its maximum reference count,
    /// leaving the table unchanged.
    pub fn try_as_user(self, table: &mut RetypeTable) -> (r: Result<UserFrame, AsTypeError>)
        ensures
            final(table).base() == old(table).base(),
            !old(table).covers(self) ==> (r matches Err(AsTypeError::OutOfBounds(_)) && final(table)@ == old(table)@),
            old(table).covers(self) ==> ({
                let (s, c) = old(table).state_of(self);
                if s != State::User {
                    r matches Err(AsTypeError::NotExpectedState(t)) && t == s && final(table)@ == old(table)@
                } else if c == MAX_REF_COUNT {
                    r matches Err(AsTypeError::MaxRefs(_)) && final(table)@ == old(table)@
                } else {
                    r matches Ok(u) && u@ == self && final(table)@ == old(table)@.update(
                        frame_index(self),
                        encode(State::User, (c + 1) as u16),
                    )
                }
            }),
    {
        let i = match table.index_of(&self) {
            Ok(i) => i,
            Err(e) => return Err(AsTypeError::OutOfBounds(e)),
        };
        let mut e = table.load(i);
        match e.get_as_and_increment(State::User) {
            Ok(()) => {
                table.store(i, e);
                Ok(UserFrame(self))
            },
            Err((state, _value)) => {
                if state != State::User {
                    Err(AsTypeError::NotExpectedState(state))
                } else {
                    Err(AsTypeError::MaxRefs(MaxRefs))
                }
            },
        }
    }

    /// Takes a new reference to this frame, which must be user typed with
    /// fewer than `MAX_REF_COUNT` references.
    pub fn as_user_unchecked(self, table: &mut RetypeTable) -> (r: UserFrame)
        requires
            old(table).covers(self),
            old(table).state_of(self).0 == State::User,
            old(table).state_of(self).1 < MAX_REF_COUNT,
        ensures
            r@ == self,
            final(table).base() == old(table).base(),
            final(table)@ == old(table)@.update(frame_index(self), (old(table)@[frame_index(self)] + 1) as u16),
    {
        let frame = UserFrame(self);
        let i = match table.index_of(&self) {
            Ok(i) => i,
            Err(_) => {
                proof {
                    assert(false);
                }
                0
            },
        };
        let mut e = table.load(i);
        let _ = e.increment();
        table.store(i, e);
        frame
    }

    /// Claims this frame as a kernel frame nobody uses yet: it must be
    /// kernel typed with no reference, and then gets one.
    pub fn try_as_unused_kernel(self, table: &mut RetypeTable) -> (r: Result<KernelFrame, AsUnusedKernelError>)
        ensures
            final(table).base() == old(table).base(),
            !old(table).covers(self) ==> (r matches Err(AsUnusedKernelError::OutOfBounds(_)) && final(table)@ == old(table)@),
            old(table).covers(self) ==> ({
                let v = old(table)@[frame_index(self)];
                let (s, c) = decode(v);
                if v == encode(State::Kernel, 0) {
                    r matches Ok(k) && k@ == self && final(table)@ == old(table)@.update(
                        frame_index(self),
                        encode(State::Kernel, 1),
                    )
                } else if s != State::Kernel {
                    r matches Err(AsUnusedKernelError::NotExpectedState(t)) && t == s && final(table)@ == old(table)@
                } else {
                    r matches Err(AsUnusedKernelError::AlreadyInUse) && final(table)@ == old(table)@
                }
            }),
    {
        let i = match table.index_of(&self) {
            Ok(i) => i,
            Err(e) => return Err(AsUnusedKernelError::OutOfBounds(e)),
        };
        let mut e = table.load(i);
        match e.retype(State::Kernel, State::Kernel, 0, 1) {
            Ok(()) => {
                table.store(i, e);
                Ok(KernelFrame(self))
            },
            Err((state, _value)) => {
                if state != State::Kernel {
                    Err(AsUnusedKernelError::NotExpectedState(state))
                } else {
                    Err(AsUnusedKernelError::AlreadyInUse)
                }
            },
        }
    }

    /// Takes a new reference to this frame as a kernel frame: fails when the
    /// frame is uncovered, not kernel typed, or at its maximum reference
    /// count, leaving the table unchanged.
    pub fn try_as_kernel(self, table: &mut RetypeTable) -> (r: Result<KernelFrame, AsTypeError>)
        ensures
            final(table).base() == old(table).base(),
            !old(table).covers(self) ==> (r matches Err(AsTypeError::OutOfBounds(_)) && final(table)@ == old(table)@),
            old(table).covers(self) ==> ({
                let (s, c) = old(table).state_of(self);
                if s != State::Kernel {
                    r matches Err(AsTypeError::NotExpectedState(t)) && t == s && final(table)@ == old(table)@
                } else if c == MAX_REF_COUNT {
                    r matches Err(AsTypeError::MaxRefs(_)) && final(table)@ == old(table)@
                } else {
                    r matches Ok(k) && k@ == self && final(table)@ == old(table)@.update(
                        frame_index(self),
                        encode(State::Kernel, (c + 1) as u16),
                    )
                }
            }),
    {
        let i = match table.index_of(&self) {
            Ok(i) => i,
            Err(e) => return Err(AsTypeError::OutOfBounds(e)),
        };
        let mut e = table.load(i);
        match e.get_as_and_increment(State::Kernel) {
            Ok(()) => {
                table.store(i, e);
                Ok(KernelFrame(self))
            },
            Err((state, _value)) => {
                if state != State::Kernel {
                    Err(AsTypeError::NotExpectedState(state))
                } else {
                    Err(AsTypeError::MaxRefs(MaxRefs))
                }
            },
        }
    }

    /// This frame if it is untyped; `NotExpectedState` with its state
    /// otherwise, or `OutOfBounds` past the table's end.
    pub fn try_as_untyped(self, table: &RetypeTable) -> (r: Result<Frame, AsTypeError>)
        ensures
            !table.covers(self) ==> (r matches Err(AsTypeError::OutOfBounds(_))),
            table.covers(self) ==> ({
                let (s, c) = table.state_of(self);
                if s == State::Untyped {
                    r == Ok::<Frame, AsTypeError>(self)
                } else {
                    r matches Err(AsTypeError::NotExpectedState(t)) && t == s
                }
            }),
    {
        let i = match table.index_of(&self) {
            Ok(i) => i,
            Err(e) => return Err(AsTypeError::OutOfBounds(e)),
        };
        let (state, _count) = table.retype_map[i].get();
        if state != State::Untyped {
            return Err(AsTypeError::NotExpectedState(state));
        }
        Ok(self)
    }

    /// Takes a new reference to this frame, which must be kernel typed with
    /// fewer than `MAX_REF_COUNT` references.
    pub fn as_kernel_unchecked(self, table: &mut RetypeTable) -> (r: KernelFrame)
        requires
            old(table).covers(self),
            old(table).state_of(self).0 == State::Kernel,
            old(table).state_of(self).1 < MAX_REF_COUNT,
        ensures
            r@ == self,
            final(table).base() == old(table).base(),
            final(table)@ == old(table)@.update(frame_index(self), (old(table)@[frame_index(self)] + 1) as u16),
    {
        let frame = KernelFrame(self);
        let i = match table.index_of(&self) {
            Ok(i) => i,
            Err(_) => {
                proof {
                    assert(false);
                }
                0
            },
        };
        let mut e = table.load(i);
        let _ = e.increment();
        table.store(i, e);
        frame
    }

    /// Retypes an untyped frame without references into a user frame with
    /// one reference.
    pub fn try_into_user(self, table: &mut RetypeTable) -> (r: Result<UserFrame, RetypeError>)
        ensures
            final(table).base() == old(table).base(),
            !old(table).covers(self) ==> (r matches Err(RetypeError::OutOfBounds(_)) && final(table)@ == old(table)@),
            old(table).covers(self) ==> ({
                let v = old(table)@[frame_index(self)];
                if v == encode(State::Untyped, 0) {
                    r matches Ok(u) && u@ == self && final(table)@ == old(table)@.update(
                        frame_index(self),
                        encode(State::User, 1),
                    )
                } else {
                    r matches Err(RetypeError::InvalidFromState(t)) && t == decode(v).0 && final(table)@ == old(table)@
                }
            }),
    {
        let i = match table.index_of(&self) {
            Ok(i) => i,
            Err(e) => return Err(RetypeError::OutOfBounds(e)),
        };
        let mut e = table.load(i);
        match e.retype(State::Untyped, State::User, 0, 1) {
            Ok(()) => {
                table.store(i, e);
                Ok(UserFrame(self))
            },
            Err((state, _count)) => Err(RetypeError::InvalidFromState(state)),
        }
    }

    /// Retypes an untyped frame without references into a kernel frame with
    /// one reference.
    pub fn try_into_kernel(self, table: &mut RetypeTable) -> (r: Result<KernelFrame, RetypeError>)
        ensures
            final(table).base() == old(table).base(),
            !old(table).covers(self) ==> (r matches Err(RetypeError::OutOfBounds(_)) && final(table)@ == old(table)@),
            old(table).covers(self) ==> ({
                let v = old(table)@[frame_index(self)];
                if v == encode(State::Untyped, 0) {
                    r matches Ok(k) && k@ == self && final(table)@ == old(table)@.update(
                        frame_index(self),
                        encode(State::Kernel, 1),
                    )
                } else {
                    r matches Err(RetypeError::InvalidFromState(t)) && t == decode(v).0 && final(table)@ == old(table)@
                }
            }),
    {
        let i = match table.index_of(&self) {
            Ok(i) => i,
            Err(e) => return Err(RetypeError::OutOfBounds(e)),
        };
        let mut e = table.load(i);
        match e.retype(State::Untyped, State::Kernel, 0, 1) {
            Ok(()) => {
                table.store(i, e);
                Ok(KernelFrame(self))
            },
            Err((state, _count)) => Err(RetypeError::InvalidFromState(state)),
        }
    }

    /// Retypes a `from`-typed (user or kernel) frame without references back
    /// into untyped memory. Fails with `RefsExist` when references remain and
    /// with `InvalidFromState` when the frame is in another state.
    pub fn try_into_untyped_from(self, from: State, table: &mut RetypeTable) -> (r: Result<Frame, RetypeError>)
        requires
            from == State::User || from == State::Kernel,
        ensures
            final(table).base() == old(table).base(),
            !old(table).covers(self) ==> (r matches Err(RetypeError::OutOfBounds(_)) && final(table)@ == old(table)@),
            old(table).covers(self) ==> ({
                let v = old(table)@[frame_index(self)];
                let (s, c) = decode(v);
                if v == encode(from, 0) {
                    r == Ok::<Frame, RetypeError>(self) && final(table)@ == old(table)@.update(
                        frame_index(self),
                        encode(State::Untyped, 0),
                    )
                } else if s == from {
                    r matches Err(RetypeError::RefsExist(n)) && n == c && final(table)@ == old(table)@
                } else {
                    r matches Err(RetypeError::InvalidFromState(t)) && t == s && final(table)@ == old(table)@
                }
            }),
    {
        let i = match table.index_of(&self) {
            Ok(i) => i,
            Err(e) => return Err(RetypeError::OutOfBounds(e)),
        };
        let mut e = table.load(i);
        match e.retype(from, State::Untyped, 0, 0) {
            Ok(()) => {
                table.store(i, e);
                Ok(self)
            },
            Err((State::Unavailable, _refs)) => Err(RetypeError::InvalidFromState(State::Unavailable)),
            Err((s, refs)) => {
                if s == from {
                    Err(RetypeError::RefsExist(refs))
                } else {
                    Err(RetypeError::InvalidFromState(s))
                }
            },
        }
    }

    /// Retypes a user or kernel frame without references back into
    /// untyped memory; the error is that of the kernel attempt.
    pub fn try_into_untyped(self, table: &mut RetypeTable) -> (r: Result<Frame, RetypeError>)
        ensures
            final(table).base() == old(table).base(),
            !old(table).covers(self) ==> (r matches Err(RetypeError::OutOfBounds(_)) && final(table)@ == old(table)@),
            old(table).covers(self) ==> ({
                let v = old(table)@[frame_index(self)];
                let (s, c) = decode(v);
                if v == encode(State::User, 0) || v == encode(State::Kernel, 0) {
                    r == Ok::<Frame, RetypeError>(self) && final(table)@ == old(table)@.update(
                        frame_index(self),
                        encode(State::Untyped, 0),
                    )
                } else if s == State::Kernel {
                    r matches Err(RetypeError::RefsExist(n)) && n == c && final(table)@ == old(table)@
                } else {
                    r matches Err(RetypeError::InvalidFromState(t)) && t == s && final(table)@ == old(table)@
                }
            }),
    {
        if self.try_into_untyped_from(State::User, table).is_ok() {
            return Ok(self);
        }
        self.try_into_untyped_from(State::Kernel, table)?;
        Ok(self)
    }
}

/// A counted reference to a user-typed frame.
///
/// Each `UserFrame` stands for one reference in the frame's retype entry;
/// give it back with `drop`, or keep it alive through `into_raw`.
#[derive(Debug)]
pub struct UserFrame(Frame);

/// A counted reference to a kernel-typed frame.
///
/// Each `KernelFrame` stands for one reference in the frame's retype entry;
/// give it back with `drop`, or keep it alive through `into_raw`.
#[derive(Debug)]
pub struct KernelFrame(Frame);

impl UserFrame {
    pub closed spec fn view(&self) -> Frame {
        self.0
    }

    /// The frame.
    pub fn raw(&self) -> (r: Frame)
        ensures
            r == self@,
    {
        self.0
    }

    /// Rebuilds a user frame from a frame given out by `into_raw`.
    pub fn from_raw(frame: Frame) -> (r: Self)
        ensures
            r@ == frame,
    {
        Self(frame)
    }

    /// The frame, keeping the reference alive.
    pub fn into_raw(self) -> (r: Frame)
        ensures
            r == self@,
    {
        self.0
    }

    /// Another reference to the same frame, or `None` when the count is at
    /// its maximum.
    pub fn try_clone(&self, table: &mut RetypeTable) -> (r: Option<Self>)
        requires
            old(table).covers(self@),
        ensures
            final(table).base() == old(table).base(),
            old(table).state_of(self@).1 == MAX_REF_COUNT ==> r is None && final(table)@ == old(table)@,
            old(table).state_of(self@).1 != MAX_REF_COUNT ==> (r matches Some(u) && u@ == self@
                && final(table)@ == old(table)@.update(
                frame_index(self@),
                (old(table)@[frame_index(self@)] + 1) as u16,
            )),
    {
        let i = match table.index_of(&self.0) {
            Ok(i) => i,
            Err(_) => {
                proof {
                    assert(false);
                }
                0
            },
        };
        let mut e = table.load(i);
        match e.increment() {
            Ok(_) => {
                table.store(i, e);
                Some(Self(self.0))
            },
            Err(_) => None,
        }
    }

    /// Gives the reference back; returns the count before the drop.
    pub fn drop(self, table: &mut RetypeTable) -> (r: u16)
        requires
            old(table).covers(self@),
            old(table).state_of(self@).1 > 0,
        ensures
            r == old(table).state_of(self@).1,
            final(table).base() == old(table).base(),
            final(table)@ == old(table)@.update(
                frame_index(self@),
                (old(table)@[frame_index(self@)] - 1) as u16,
            ),
    {
        let i = match table.index_of(&self.0) {
            Ok(i) => i,
            Err(_) => {
                proof {
                    assert(false);
                }
                0
            },
        };
        let mut e = table.load(i);
        let count = match e.decrement() {
            Ok(c) => c,
            Err(_) => {
                proof {
                    assert(false);
                }
                0
            },
        };
        table.store(i, e);
        count
    }
}

impl KernelFrame {
    pub closed spec fn view(&self) -> Frame {
        self.0
    }

    /// The frame.
    pub fn raw(&self) -> (r: Frame)
        ensures
            r == self@,
    {
        self.0
    }

    /// The frame, keeping the reference alive.
    pub fn into_raw(self) -> (r: Frame)
        ensures
            r == self@,
    {
        self.0
    }

    /// Rebuilds a kernel frame from a frame given out by `into_raw`.
    pub fn from_raw(frame: Frame) -> (r: Self)
        ensures
            r@ == frame,
    {
        Self(frame)
    }

    /// Another reference to the same frame, or `None` when the count is at
    /// its maximum.
    pub fn try_clone(&self, table: &mut RetypeTable) -> (r: Option<Self>)
        requires
            old(table).covers(self@),
        ensures
            final(table).base() == old(table).base(),
            old(table).state_of(self@).1 == MAX_REF_COUNT ==> r is None && final(table)@ == old(table)@,
            old(table).state_of(self@).1 != MAX_REF_COUNT ==> (r matches Some(k) && k@ == self@
                && final(table)@ == old(table)@.update(
                frame_index(self@),
                (old(table)@[frame_index(self@)] + 1) as u16,
            )),
    {
        let i = match table.index_of(&self.0) {
            Ok(i) => i,
            Err(_) => {
                proof {
                    assert(false);
                }
                0
            },
        };
        let mut e = table.load(i);
        match e.increment() {
            Ok(_) => {
                table.store(i, e);
                Some(Self(self.0))
            },
            Err(_) => None,
        }
    }

    /// Gives the reference back; returns the count before the drop.
    pub fn drop(self, table: &mut RetypeTable) -> (r: u16)
        requires
            old(table).covers(self@),
            old(table).state_of(self@).1 > 0,
        ensures
            r == old(table).state_of(self@).1,
            final(table).base() == old(table).base(),
            final(table)@ == old(table)@.update(
                frame_index(self@),
                (old(table)@[frame_index(self@)] - 1) as u16,
            ),
    {
        let i = match table.index_of(&self.0) {
            Ok(i) => i,
            Err(_) => {
                proof {
                    assert(false);
                }
                0
            },
        };
        let mut e = table.load(i);
        let count = match e.decrement() {
            Ok(c) => c,
            Err(_) => {
                proof {
                    assert(false);
                }
                0
            },
        };
        table.store(i, e);
        count
    }
}

/// Errors of building the retype table.
#[derive(Debug)]
pub enum RetypeInitError {
    /// The memory map provided is completely empty.
    MemoryMapEmpty,
    /// Insufficient memory in the system to bootstrap the retype table.
    OutOfMemory,
}

/// The entry a frame inside a region of memory-map type `t` starts with:
/// usable memory is untyped, bootloader-reclaimable memory and the kernel
/// image are kernel frames with one reference, everything else is unavailable.
pub open spec fn initial_entry(t: u64) -> u16 {
    if t == MEMMAP_USABLE {
        encode(State::Untyped, 0)
    } else if t == MEMMAP_BOOTLOADER_RECLAIMABLE || t == MEMMAP_EXECUTABLE_AND_MODULES {
        encode(State::Kernel, 1)
    } else {
        encode(State::Unavailable, 0)
    }
}

/// Whether frame number `i` lies in the region `e`.
pub open spec fn region_holds(e: MemMapEntry, i: int) -> bool {
    e.base as int / 4096 <= i < e.base as int / 4096 + e.length as int / 4096
}

/// The initial entry of frame number `i`: that of the last region of `es`
/// holding it, or unavailable when none does.
pub open spec fn classify(es: Seq<MemMapEntry>, i: int) -> u16
    decreases es.len(),
{
    if es.len() == 0 {
        encode(State::Unavailable, 0)
    } else if region_holds(es.last(), i) {
        initial_entry(es.last().entry_type)
    } else {
        classify(es.drop_last(), i)
    }
}

/// Region `k` of `es` is the last one holding frame number `i`.
pub open spec fn last_holder(es: Seq<MemMapEntry>, k: int, i: int) -> bool {
    &&& 0 <= k < es.len()
    &&& region_holds(es[k], i)
    &&& forall|j: int| k < j < es.len() ==> !#[trigger] region_holds(es[j], i)
}

/// A frame starts as the type of the last region holding it gives: a frame
/// of the kernel image or of bootloader-reclaimable memory is a kernel frame
/// with one reference, a frame of usable memory is free untyped memory, a
/// frame of any other region is unavailable.
pub proof fn law_frame_state_from_region(es: Seq<MemMapEntry>, k: int, i: int)
    requires
        last_holder(es, k, i),
    ensures
        (es[k].entry_type == MEMMAP_EXECUTABLE_AND_MODULES || es[k].entry_type == MEMMAP_BOOTLOADER_RECLAIMABLE)
            ==> decode(classify(es, i)) == (State::Kernel, 1u16),
        es[k].entry_type == MEMMAP_USABLE ==> decode(classify(es, i)) == (State::Untyped, 0u16),
        (es[k].entry_type != MEMMAP_EXECUTABLE_AND_MODULES && es[k].entry_type != MEMMAP_BOOTLOADER_RECLAIMABLE
            && es[k].entry_type != MEMMAP_USABLE) ==> decode(classify(es, i)) == (State::Unavailable, 0u16),
    decreases es.len(),
{
    if k < es.len() - 1 {
        assert(!region_holds(es[es.len() - 1], i));
        let d = es.drop_last();
        assert(d[k] == es[k]);
        assert forall|j: int| k < j < d.len() implies !#[trigger] region_holds(d[j], i) by {
            assert(d[j] == es[j]);
        }
        law_frame_state_from_region(d, k, i);
    }
    assert(decode(encode(State::Kernel, 1)) == (State::Kernel, 1u16));
    assert(decode(encode(State::Untyped, 0)) == (State::Untyped, 0u16));
    assert(decode(encode(State::Unavailable, 0)) == (State::Unavailable, 0u16));
}

/// A frame no region holds starts unavailable.
pub proof fn law_frame_outside_regions(es: Seq<MemMapEntry>, i: int)
    requires
        forall|j: int| 0 <= j < es.len() ==> !#[trigger] region_holds(es[j], i),
    ensures
        decode(classify(es, i)) == (State::Unavailable, 0u16),
    decreases es.len(),
{
    if es.len() > 0 {
        let d = es.drop_last();
        assert(!region_holds(es[es.len() - 1], i));
        assert forall|j: int| 0 <= j < d.len() implies !#[trigger] region_holds(d[j], i) by {
            assert(d[j] == es[j]);
        }
        law_frame_outside_regions(d, i);
    } else {
        assert(decode(encode(State::Unavailable, 0)) == (State::Unavailable, 0u16));
    }
}

/// The index of the last entry of `es` that isn't reserved, or -1.
pub open spec fn last_non_reserved(es: Seq<MemMapEntry>) -> int
    decreases es.len(),
{
    if es.len() == 0 {
        -1
    } else if es.last().entry_type != MEMMAP_RESERVED {
        es.len() - 1
    } else {
        last_non_reserved(es.drop_last())
    }
}

proof fn lemma_last_non_reserved(es: Seq<MemMapEntry>)
    ensures
        -1 <= last_non_reserved(es) < es.len(),
        last_non_reserved(es) >= 0 ==> es[last_non_reserved(es)].entry_type != MEMMAP_RESERVED,
        forall|k: int| last_non_reserved(es) < k < es.len() ==> #[trigger] es[k].entry_type == MEMMAP_RESERVED,
    decreases es.len(),
{
    if es.len() > 0 && es.last().entry_type == MEMMAP_RESERVED {
        lemma_last_non_reserved(es.drop_last());
        assert forall|k: int| last_non_reserved(es) < k < es.len() implies #[trigger] es[k].entry_type
            == MEMMAP_RESERVED by {
            if k < es.len() - 1 {
                assert(es[k] == es.drop_last()[k]);
            }
        }
    }
}

/// The top of the memory the table describes: the end of the last region
/// that isn't reserved.
pub open spec fn memory_top(es: Seq<MemMapEntry>) -> int {
    es[last_non_reserved(es)].base + es[last_non_reserved(es)].length
}

/// Bytes reserved for a table of `n` two-byte entries: whole frames.
pub open spec fn table_bytes(n: int) -> int {
    ((2 * n + 4095) / 4096) * 4096
}

/// What `RetypeTable::new` requires of the memory map: well-formed regions,
/// sizes that fit the machine word, and at least one frame of memory below
/// the top.
pub open spec fn map_accepted(es: Seq<MemMapEntry>) -> bool {
    &&& map_wf(es)
    &&& forall|k: int| 0 <= k < es.len() ==> #[trigger] es[k].base + es[k].length <= usize::MAX
    &&& last_non_reserved(es) >= 0 ==> memory_top(es) >= 4096
}

impl RetypeTable {
    /// Builds the table for the memory described by `memory_map`.
    ///
    /// The table has one entry per frame below the end of the last region
    /// that isn't reserved, and is itself stored in frames carved off the
    /// front of the first usable region large enough, which `memory_map`
    /// then describes without them; those frames stay unavailable. Every
    /// other frame starts as `classify` gives for the carved map. Fails with
    /// `MemoryMapEmpty` when every region is reserved, and with `OutOfMemory`
    /// when no usable region can hold the table; the map is then unchanged.
    pub fn new(memory_map: &mut Vec<MemMapEntry>) -> (r: Result<Self, RetypeInitError>)
        requires
            map_accepted(old(memory_map)@),
        ensures
            last_non_reserved(old(memory_map)@) < 0 <==> r matches Err(RetypeInitError::MemoryMapEmpty),
            r is Err ==> final(memory_map)@ == old(memory_map)@,
            last_non_reserved(old(memory_map)@) >= 0 ==> ({
                let es = old(memory_map)@;
                let n = memory_top(es) / 4096;
                let need = table_bytes(n);
                let j = first_fit(es, 0, need);
                if j >= es.len() {
                    r matches Err(RetypeInitError::OutOfMemory)
                } else {
                    &&& final(memory_map)@ == es.update(j, carved(es[j], need))
                    &&& r matches Ok(t) && t.wf() && t@.len() == n && t.base() == es[j].base
                        && forall|i: int| 0 <= i < n ==> #[trigger] t@[i] == classify(
                        es.update(j, carved(es[j], need)),
                        i,
                    )
                    &&& r matches Ok(t) ==> forall|i: int, k: int|
                        0 <= i < n && #[trigger] last_holder(es.update(j, carved(es[j], need)), k, i) ==> {
                            let ty = es.update(j, carved(es[j], need))[k].entry_type;
                            &&& (ty == MEMMAP_EXECUTABLE_AND_MODULES || ty == MEMMAP_BOOTLOADER_RECLAIMABLE)
                                ==> decode(t@[i]) == (State::Kernel, 1u16)
                            &&& ty == MEMMAP_USABLE ==> decode(t@[i]) == (State::Untyped, 0u16)
                            &&& (ty != MEMMAP_EXECUTABLE_AND_MODULES && ty != MEMMAP_BOOTLOADER_RECLAIMABLE && ty
                                != MEMMAP_USABLE) ==> decode(t@[i]) == (State::Unavailable, 0u16)
                        }
                    &&& r matches Ok(t) ==> forall|i: int|
                        0 <= i < n && (forall|k: int|
                            0 <= k < es.len() ==> !#[trigger] region_holds(es.update(j, carved(es[j], need))[k], i))
                            ==> #[trigger] decode(t@[i]) == (State::Unavailable, 0u16)
                }
            }),
    {
        let mut map: Vec<MemMapEntry> = Vec::new();
        core::mem::swap(&mut map, memory_map);
        proof {
            lemma_last_non_reserved(map@);
        }
        let ghost es = map@;
        let mut k: usize = map.len();
        let mut found = false;
        while k > 0
            invariant_except_break
                !found,
                k <= map@.len(),
                -1 <= last_non_reserved(map@) < map@.len(),
                last_non_reserved(map@) >= 0 ==> map@[last_non_reserved(
                    map@,
                )].entry_type != MEMMAP_RESERVED,
                forall|m: int|
                    last_non_reserved(map@) < m < map@.len()
                        ==> #[trigger] map@[m].entry_type == MEMMAP_RESERVED,
                forall|m: int| k <= m < map@.len() ==> #[trigger] map@[m].entry_type
                    == MEMMAP_RESERVED,
            ensures
                found ==> k == last_non_reserved(map@),
                !found ==> last_non_reserved(map@) < 0,
            decreases k,
        {
            k = k - 1;
            if map[k].entry_type != MEMMAP_RESERVED {
                found = true;
                proof {
                    let l = last_non_reserved(map@);
                    if l > k {
                        assert(map@[l].entry_type == MEMMAP_RESERVED);
                    }
                    if l < k {
                        assert(map@[k as int].entry_type == MEMMAP_RESERVED);
                    }
                }
                break;
            }
        }
        if !found {
            proof {
                let l = last_non_reserved(map@);
                if l >= 0 {
                    assert(map@[l].entry_type == MEMMAP_RESERVED);
                }
            }
            *memory_map = map;
            return Err(RetypeInitError::MemoryMapEmpty);
        }
        let last = map[k];
        proof {
            assert(entry_wf(map@[k as int]));
            assert(map@[k as int].base + map@[k as int].length <= usize::MAX);
        }
        let active_memory_top: u64 = last.base + last.length;
        let number_frames: usize = (active_memory_top / Frame::SIZE) as usize;
        let retype_map_size: usize = 2 * number_frames;
        let retype_map_frames: usize = (retype_map_size + 4095) / 4096;
        let ghost need: int = table_bytes(number_frames as int);
        assert(retype_map_frames * 4096 == need);
        let mut allocator = BumpAllocator::new(map);
        let start_physical_address = match allocator.alloc_frames(retype_map_frames) {
            Some(a) => a,
            None => {
                *memory_map = allocator.into_memory_map();
                return Err(RetypeInitError::OutOfMemory);
            },
        };
        let ghost j = first_fit(es, 0, need);
        proof {
            lemma_first_fit(es, 0, need);
        }
        let mut retype_map: Vec<RetypeEntry> = Vec::new();
        while retype_map.len() < number_frames
            invariant
                retype_map.len() <= number_frames,
                forall|i: int| 0 <= i < retype_map.len() ==> #[trigger] retype_map@[i]@ == encode(
                    State::Unavailable,
                    0,
                ),
            decreases number_frames - retype_map.len(),
        {
            retype_map.push(RetypeEntry::unavailable());
        }
        let carved_map = allocator.into_memory_map();
        let ghost es2 = carved_map@;
        let mut m: usize = 0;
        while m < carved_map.len()
            invariant
                es2 == carved_map@,
                map_wf(es2),
                m <= carved_map.len(),
                retype_map.len() == number_frames,
                forall|k: int| 0 <= k < es2.len() ==> #[trigger] es2[k].base + es2[k].length <= usize::MAX,
                forall|i: int| 0 <= i < number_frames ==> #[trigger] retype_map@[i]@ == classify(
                    es2.take(m as int),
                    i,
                ),
            decreases carved_map.len() - m,
        {
            let entry = carved_map[m];
            proof {
                assert(entry_wf(es2[m as int]));
                assert(es2[m as int].base + es2[m as int].length <= usize::MAX);
            }
            let start_idx: usize = (entry.base / Frame::SIZE) as usize;
            let count: usize = (entry.length / Frame::SIZE) as usize;
            let end: usize = if start_idx + count < number_frames {
                start_idx + count
            } else {
                number_frames
            };
            let value: u16 = if entry.entry_type == MEMMAP_USABLE {
                RetypeEntry::value_for(State::Untyped, 0)
            } else if entry.entry_type == MEMMAP_BOOTLOADER_RECLAIMABLE || entry.entry_type
                == MEMMAP_EXECUTABLE_AND_MODULES {
                RetypeEntry::value_for(State::Kernel, 1)
            } else {
                RetypeEntry::value_for(State::Unavailable, 0)
            };
            let mut slot: usize = start_idx;
            while slot < end
                invariant
                    start_idx <= slot,
                    slot == start_idx || slot <= end,
                    end <= number_frames,
                    retype_map.len() == number_frames,
                    value == initial_entry(entry.entry_type),
                    forall|i: int| 0 <= i < number_frames ==> #[trigger] retype_map@[i]@ == if start_idx <= i
                        < slot {
                        value
                    } else {
                        classify(es2.take(m as int), i)
                    },
                decreases end - slot,
            {
                retype_map.set(slot, RetypeEntry { value });
                slot = slot + 1;
            }
            proof {
                let t = es2.take(m as int + 1);
                assert(t.drop_last() =~= es2.take(m as int));
                assert(t.last() == es2[m as int]);
                assert forall|i: int| 0 <= i < number_frames implies #[trigger] retype_map@[i]@
                    == classify(t, i) by {
                    assert(classify(t, i) == if region_holds(t.last(), i) {
                        initial_entry(t.last().entry_type)
                    } else {
                        classify(t.drop_last(), i)
                    });
                    if region_holds(entry, i) {
                        assert(start_idx <= i < end);
                    }
                }
            }
            m = m + 1;
        }
        proof {
            assert(es2.take(es2.len() as int) =~= es2);
            assert(2 * number_frames <= need) by (nonlinear_arith)
                requires
                    need == ((2 * number_frames + 4095) / 4096) * 4096,
            ;
            assert(entry_wf(es[j]));
            assert(start_physical_address@ % 4096 == 0);
        }
        let t = Self { retype_map, map_base: start_physical_address.as_u64() };
        *memory_map = carved_map;
        proof {
            assert(t@ =~= t.retype_map@.map_values(|e: RetypeEntry| e@));
            let c = es.update(j, carved(es[j], need));
            assert(es2 == c);
            assert forall|i: int, k: int| 0 <= i < number_frames && #[trigger] last_holder(c, k, i) implies {
                let ty = c[k].entry_type;
                &&& (ty == MEMMAP_EXECUTABLE_AND_MODULES || ty == MEMMAP_BOOTLOADER_RECLAIMABLE) ==> decode(t@[i])
                    == (State::Kernel, 1u16)
                &&& ty == MEMMAP_USABLE ==> decode(t@[i]) == (State::Untyped, 0u16)
                &&& (ty != MEMMAP_EXECUTABLE_AND_MODULES && ty != MEMMAP_BOOTLOADER_RECLAIMABLE && ty
                    != MEMMAP_USABLE) ==> decode(t@[i]) == (State::Unavailable, 0u16)
            } by {
                law_frame_state_from_region(c, k, i);
            }
            assert forall|i: int|
                0 <= i < number_frames && (forall|k: int| 0 <= k < es.len() ==> !#[trigger] region_holds(c[k], i))
                    implies #[trigger] decode(t@[i]) == (State::Unavailable, 0u16) by {
                law_frame_outside_regions(c, i);
            }
        }
        Ok(t)
    }
}

/// Where the retype table lives in physical memory.
#[derive(Debug)]
pub struct RetypeMetadata {
    /// The physical address of the first entry and the number of entries.
    pub map: (u64, usize),
    /// The frames that hold the table, in ascending order.
    pub frames: Vec<Frame>,
}

impl RetypeTable {
    /// The location of the table: its first address, its number of entries
    /// and every frame from the one holding its first byte up to the one
    /// holding the address just past its end.
    pub fn memory_map_meta(&self) -> (r: RetypeMetadata)
        requires
            self.wf(),
        ensures
            r.map == (self.base(), self@.len() as usize),
            ({
                let end = self.base() + 2 * self@.len();
                let last = end - end % 4096;
                &&& r.frames@.len() == (last - self.base()) / 4096 + 1
                &&& forall|k: int| 0 <= k < r.frames@.len() ==> #[trigger] r.frames@[k]@ == self.base() + 4096 * k
            }),
    {
        let count: usize = self.retype_map.len();
        let start = Frame::from_start_address(PhysAddr::new(self.map_base));
        let end = Frame::within_frame(PhysAddr::new(self.map_base + 2 * (count as u64)));
        let ghost last: int = end@ as int;
        let mut frames: Vec<Frame> = Vec::new();
        let mut cur = start;
        frames.push(cur);
        proof {
            vstd::arithmetic::div_mod::lemma_fundamental_div_mod(self.map_base + 2 * count as int, 4096);
            assert((last - self.base()) % 4096 == 0) by {
                vstd::arithmetic::div_mod::lemma_mod_sub_multiples_vanish(last, 4096);
                assert(last % 4096 == 0);
                assert(self.base() % 4096 == 0);
                vstd::arithmetic::div_mod::lemma_sub_mod_noop(last, self.base() as int, 4096);
            }
        }
        while cur.addr().as_u64() + Frame::SIZE <= end.addr().as_u64()
            invariant
                start@ == self.base(),
                end@ == last,
                self.base() <= cur@ <= last,
                last < phys_limit(),
                (last - self.base()) % 4096 == 0,
                frames@.len() >= 1,
                cur@ == self.base() + 4096 * (frames@.len() - 1),
                forall|k: int| 0 <= k < frames@.len() ==> #[trigger] frames@[k]@ == self.base() + 4096 * k,
            decreases last - cur@,
        {
            cur = cur.next();
            frames.push(cur);
        }
        proof {
            assert(cur@ == last) by {
                assert((cur@ - self.base()) % 4096 == 0) by {
                    vstd::arithmetic::div_mod::lemma_mod_multiples_basic(frames@.len() - 1, 4096);
                }
                assert(((last - self.base()) - (cur@ - self.base())) % 4096 == 0) by {
                    vstd::arithmetic::div_mod::lemma_sub_mod_noop(last - self.base(), cur@ - self.base(), 4096);
                }
            }
            assert(last - self.base() == 4096 * (frames@.len() - 1));
        }
        RetypeMetadata { map: (self.map_base, count), frames }
    }
}

} // verus!

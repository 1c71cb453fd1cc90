//! The capability trie: blocks of `COUNT` slots, each slot holding either a
//! value or a link to a further block, with a reference-counted life cycle
//! (dead, alive, or "superposed" while being set up or torn down).

use vstd::prelude::*;

verus! {

/// The life-cycle state of a slot, decoded from its 64-bit state word: the
/// top two bits give the state and the low 32 bits the reference count.
#[derive(Debug, Copy, Clone, PartialEq, Eq, Structural)]
pub enum InternalState {
    Dead,
    Superposed { refs: u32 },
    Alive { refs: u32 },
}

/// 2^62: the weight of the lower state bit.
pub open spec fn tag_unit() -> int {
    0x4000_0000_0000_0000
}

/// The state a raw state word describes.
pub open spec fn decode_state(raw: u64) -> InternalState {
    let tag = raw as int / tag_unit();
    let refs = (raw as int % 0x1_0000_0000) as u32;
    if tag == 0 {
        InternalState::Dead
    } else if tag == 3 {
        InternalState::Alive { refs }
    } else {
        InternalState::Superposed { refs }
    }
}

/// The raw state word of a state: 0 for dead, tag `0b11` (alive) or `0b10`
/// (superposed) in the top two bits plus the reference count.
pub open spec fn encode_state(s: InternalState) -> u64 {
    match s {
        InternalState::Dead => 0,
        InternalState::Alive { refs } => (3 * tag_unit() + refs) as u64,
        InternalState::Superposed { refs } => (2 * tag_unit() + refs) as u64,
    }
}

impl InternalState {
    pub const STATE_BITS: u32 = 2;

    /// The state a raw state word describes.
    pub fn from_raw(raw: u64) -> (r: Self)
        ensures
            r == decode_state(raw),
    {
        let state: u8 = (raw >> 62u64) as u8;
        let refs: u32 = raw as u32;
        assert(state as int == raw as int / tag_unit() && refs as int == raw as int % 0x1_0000_0000)
            by (bit_vector)
            requires
                state == (raw >> 62u64) as u8,
                refs == raw as u32,
        ;
        match state {
            0 => InternalState::Dead,
            1 | 2 => InternalState::Superposed { refs },
            3 => InternalState::Alive { refs },
            _ => {
                proof {
                    assert(false);
                }
                InternalState::Dead
            },
        }
    }

    /// The raw state word of this state.
    pub fn into_raw(self) -> (r: u64)
        ensures
            r == encode_state(self),
    {
        let (state, refs): (u64, u32) = match self {
            InternalState::Dead => return 0,
            InternalState::Alive { refs } => (3, refs),
            InternalState::Superposed { refs } => (2, refs),
        };
        let high: u64 = state << 62u64;
        assert(high as int == state * tag_unit()) by (bit_vector)
            requires
                state == 2 || state == 3,
                high == state << 62u64,
        ;
        high + refs as u64
    }
}

/// Decoding an encoded state gives it back.
pub proof fn lemma_state_roundtrip(s: InternalState)
    ensures
        decode_state(encode_state(s)) == s,
{
}

/// What a slot holds: a value, or a link to another block of the trie.
#[derive(Debug)]
pub enum TrieSlotPayload<T> {
    Data(T),
    /// The number of the linked block within the trie.
    Link(usize),
}

/// Error of setting a slot that isn't dead; gives the payload back.
#[derive(Debug)]
pub enum TrieSetError<T> {
    NotDead(T),
}

/// One slot: its payload (unset until first written) and its state word.
#[derive(Debug)]
pub struct TrieSlot<T> {
    payload: Option<TrieSlotPayload<T>>,
    state: u64,
}

impl<T> TrieSlot<T> {
    /// A dead, never-written slot.
    pub fn new() -> (r: Self)
        ensures
            r.state_word() == 0,
            r.payload_view() is None,
    {
        Self { payload: None, state: 0 }
    }

    pub closed spec fn state_word(&self) -> u64 {
        self.state
    }

    pub closed spec fn payload_view(&self) -> Option<TrieSlotPayload<T>> {
        self.payload
    }
}

/// A block of `COUNT` slots, all dead when created.
#[derive(Debug)]
pub struct TrieBlock<const COUNT: usize, T> {
    slots: Vec<TrieSlot<T>>,
}

impl<const COUNT: usize, T> TrieBlock<COUNT, T> {
    pub closed spec fn len(&self) -> nat {
        self.slots@.len()
    }

    /// Every slot of the block is dead and unwritten.
    pub closed spec fn all_dead(&self) -> bool {
        forall|i: int| 0 <= i < self.slots@.len() ==> (#[trigger] self.slots@[i]).state == 0
            && self.slots@[i].payload is None
    }

    /// A block of `COUNT` dead slots.
    pub fn empty() -> (r: Self)
        ensures
            r.len() == COUNT,
            r.all_dead(),
    {
        let mut slots: Vec<TrieSlot<T>> = Vec::new();
        while slots.len() < COUNT
            invariant
                slots.len() <= COUNT,
                forall|i: int| 0 <= i < slots@.len() ==> (#[trigger] slots@[i]).state == 0
                    && slots@[i].payload is None,
            decreases COUNT - slots.len(),
        {
            slots.push(TrieSlot::new());
        }
        Self { slots }
    }

    /// A handle on slot `id` of block number `this`.
    pub fn at(this: usize, id: usize) -> (r: BlockRef)
        requires
            id < COUNT,
        ensures
            r.block == this,
            r.slot == id,
    {
        BlockRef { block: this, slot: id }
    }
}

/// A handle on one slot of a block, addressed by block number and slot index.
#[derive(Debug, Copy, Clone)]
pub struct BlockRef {
    pub block: usize,
    pub slot: usize,
}

/// A counted reference to an alive slot; its existence keeps the slot's
/// payload readable. Give it back with `drop`.
#[derive(Debug)]
pub struct TrieRef {
    block: usize,
    slot: usize,
}

impl TrieRef {
    /// The position (block number and slot index) of the referenced slot.
    pub closed spec fn pos(&self) -> (int, int) {
        (self.block as int, self.slot as int)
    }
}

/// The trie: numbered blocks of `COUNT` slots, block 0 being the root.
#[derive(Debug)]
pub struct Trie<const COUNT: usize, T> {
    states: Vec<u64>,
    payloads: Vec<Option<TrieSlotPayload<T>>>,
}

/// The raw state word after one more reference.
pub open spec fn plus_one(raw: u64) -> u64 {
    (raw + 1) as u64
}

/// The state word left when a reader finds a superposed slot: the reader's
/// transient reference comes and goes, and if it was the only one the slot
/// is cleared to dead.
pub open spec fn after_superposed_read(raw: u64) -> u64 {
    if decode_state((raw + 1) as u64) == (InternalState::Superposed { refs: 1 }) {
        raw & 0x3FFF_FFFF_FFFF_FFFF
    } else {
        raw
    }
}

/// The state word after a reference to a non-dead slot is released: the
/// count drops, and a superposed slot whose last reference goes is cleared
/// to dead.
pub open spec fn after_release(raw: u64) -> u64 {
    if decode_state(raw) == (InternalState::Superposed { refs: 1 }) {
        ((raw - 1) as u64) & 0x3FFF_FFFF_FFFF_FFFF
    } else {
        (raw - 1) as u64
    }
}

impl<const COUNT: usize, T> Trie<COUNT, T> {
    /// The state words of all slots, block after block.
    pub closed spec fn states_view(&self) -> Seq<u64> {
        self.states@
    }

    /// The payloads of all slots, block after block.
    pub closed spec fn payloads_view(&self) -> Seq<Option<TrieSlotPayload<T>>> {
        self.payloads@
    }

    /// The number of slots in the trie.
    pub open spec fn slot_count(&self) -> nat {
        self.states_view().len()
    }

    /// The state word of the slot at flat index `i`.
    pub open spec fn state_at(&self, i: int) -> u64 {
        self.states_view()[i]
    }

    /// The payload of the slot at flat index `i`.
    pub open spec fn payload_at(&self, i: int) -> Option<TrieSlotPayload<T>> {
        self.payloads_view()[i]
    }

    /// There is a payload cell for every state word.
    pub open spec fn shape_ok(&self) -> bool {
        &&& self.payloads_view().len() == self.states_view().len()
        &&& self.states_view().len() <= usize::MAX
    }

    /// The flat index of slot `s` of block `b`.
    pub open spec fn flat(b: int, s: int) -> int {
        b * COUNT + s
    }

    /// The number of blocks.
    pub open spec fn blocks(&self) -> int {
        self.slot_count() as int / COUNT as int
    }

    /// The trie is made of whole blocks of at least two slots, and every
    /// slot is consistent (see `slot_ok`).
    pub open spec fn wf(&self) -> bool {
        &&& COUNT >= 2
        &&& self.shape_ok()
        &&& self.slot_count() % (COUNT as nat) == 0
        &&& self.slot_count() >= COUNT
        &&& forall|i: int| 0 <= i < self.slot_count() ==> #[trigger] self.slot_ok(i)
    }

    /// Slot `i` is consistent: a link names an existing block and a live or
    /// superposed slot has a payload.
    pub open spec fn slot_ok(&self, i: int) -> bool {
        &&& (self.payload_at(i) matches Some(TrieSlotPayload::Link(k)) ==> k < self.blocks())
        &&& (decode_state(self.state_at(i)) != InternalState::Dead ==> self.payload_at(i) is Some)
    }

    /// The reference count of slot `i` can take one more reference.
    pub open spec fn can_ref(&self, i: int) -> bool {
        self.state_at(i) as int % 0x1_0000_0000 < 0xFFFF_FFFF
    }

    /// No reference count in the trie is saturated.
    pub open spec fn refs_ok(&self) -> bool {
        forall|i: int| 0 <= i < self.slot_count() ==> #[trigger] self.can_ref(i)
    }

    /// The slot the lookup of `id` starting at block `b` reaches: the slot
    /// selected by the low digit of `id` (base `COUNT`), continuing through
    /// links with the remaining digits. `None` when a slot on the way isn't
    /// alive, or a value is met before the digits run out.
    pub open spec fn lookup(&self, b: int, id: nat) -> Option<int>
        decreases id,
    {
        let i = Self::flat(b, (id % COUNT as nat) as int);
        let rest = id / COUNT as nat;
        if COUNT < 2 || !(decode_state(self.state_at(i)) is Alive) {
            None
        } else if rest == 0 {
            Some(i)
        } else {
            match self.payload_at(i) {
                Some(TrieSlotPayload::Link(k)) => {
                    proof {
                        vstd::arithmetic::div_mod::lemma_div_decreases(id as int, COUNT as int);
                    }
                    self.lookup(k as int, rest)
                },
                _ => None,
            }
        }
    }

    /// An id of more than one digit is only followed through links: when the
    /// slot its low digit selects from block `b` holds a value, the lookup
    /// finds nothing; when it finds a slot, that slot holds a link to a
    /// block from which the remaining digits find the same slot.
    pub proof fn law_value_ends_lookup(&self, b: int, id: nat)
        requires
            id >= COUNT,
        ensures
            self.payload_at(Self::flat(b, (id % COUNT as nat) as int)) matches Some(TrieSlotPayload::Data(_))
                ==> self.lookup(b, id) is None,
            self.lookup(b, id) matches Some(i) ==> (self.payload_at(Self::flat(b, (id % COUNT as nat) as int))
                matches Some(TrieSlotPayload::Link(k)) && self.lookup(k as int, id / COUNT as nat) == Some(i)),
    {
        if COUNT >= 2 {
            assert(id / COUNT as nat != 0) by {
                vstd::arithmetic::div_mod::lemma_div_non_zero(id as int, COUNT as int);
            }
        }
    }

    /// The slot where the lookup of `id` from block `b` stops, whatever the
    /// outcome: the found slot, the first slot that isn't alive, or the
    /// value met too early.
    pub open spec fn stop(&self, b: int, id: nat) -> int
        decreases id,
    {
        let i = Self::flat(b, (id % COUNT as nat) as int);
        let rest = id / COUNT as nat;
        if COUNT < 2 || !(decode_state(self.state_at(i)) is Alive) || rest == 0 {
            i
        } else {
            match self.payload_at(i) {
                Some(TrieSlotPayload::Link(k)) => {
                    proof {
                        vstd::arithmetic::div_mod::lemma_div_decreases(id as int, COUNT as int);
                    }
                    self.stop(k as int, rest)
                },
                _ => i,
            }
        }
    }

    /// The number of blocks.
    pub fn blocks_count(&self) -> (r: usize)
        requires
            self.wf(),
        ensures
            r == self.blocks(),
    {
        self.states.len() / COUNT
    }

    /// The size in bytes of one block.
    pub fn block_size() -> (r: usize)
        ensures
            r as nat == vstd::layout::size_of::<TrieBlock<COUNT, T>>(),
    {
        core::mem::size_of::<TrieBlock<COUNT, T>>()
    }

    /// The size in bytes of one slot.
    pub fn slot_size() -> (r: usize)
        ensures
            r as nat == vstd::layout::size_of::<TrieSlot<T>>(),
    {
        core::mem::size_of::<TrieSlot<T>>()
    }

    /// A trie of one empty block (the root).
    pub fn new() -> (r: Self)
        requires
            COUNT >= 2,
        ensures
            r.wf(),
            r.blocks() == 1,
            forall|i: int| 0 <= i < r.slot_count() ==> r.state_at(i) == 0,
    {
        let mut states: Vec<u64> = Vec::new();
        let mut payloads: Vec<Option<TrieSlotPayload<T>>> = Vec::new();
        while states.len() < COUNT
            invariant
                states.len() == payloads.len(),
                states.len() <= COUNT,
                forall|i: int| 0 <= i < states.len() ==> states@[i] == 0 && payloads@[i] is None,
            decreases COUNT - states.len(),
        {
            states.push(0);
            payloads.push(None);
        }
        let r = Self { states, payloads };
        proof {
            assert(r.blocks() == 1) by {
                vstd::arithmetic::div_mod::lemma_div_basics(COUNT as int);
            }
            assert forall|i: int| 0 <= i < r.slot_count() implies #[trigger] r.slot_ok(i) by {}
        }
        r
    }
}

/// The slot a lookup stops at lies in the trie.
pub proof fn lemma_stop_in_bounds<const COUNT: usize, T>(t: &Trie<COUNT, T>, b: int, id: nat)
    requires
        t.wf(),
        0 <= b < t.blocks(),
    ensures
        0 <= t.stop(b, id) < t.slot_count(),
        t.lookup(b, id) matches Some(i) ==> i == t.stop(b, id),
    decreases id,
{
    let i = Trie::<COUNT, T>::flat(b, (id % COUNT as nat) as int);
    lemma_flat_in_bounds(b, (id % COUNT as nat) as int, COUNT as int, t.slot_count() as int);
    let rest = id / COUNT as nat;
    if decode_state(t.state_at(i)) is Alive && rest != 0 {
        assert(t.slot_ok(i));
        match t.payload_at(i) {
            Some(TrieSlotPayload::Link(k)) => {
                vstd::arithmetic::div_mod::lemma_div_decreases(id as int, COUNT as int);
                lemma_stop_in_bounds(t, k as int, rest);
            },
            _ => {},
        }
    }
}

/// Lookups only depend on the state words and payloads.
pub proof fn lemma_lookup_same_views<const COUNT: usize, T>(a: &Trie<COUNT, T>, c: &Trie<COUNT, T>, b: int, id: nat)
    requires
        a.states_view() == c.states_view(),
        a.payloads_view() == c.payloads_view(),
    ensures
        a.lookup(b, id) == c.lookup(b, id),
        a.stop(b, id) == c.stop(b, id),
    decreases id,
{
    let i = Trie::<COUNT, T>::flat(b, (id % COUNT as nat) as int);
    let rest = id / COUNT as nat;
    if COUNT >= 2 && decode_state(a.state_at(i)) is Alive && rest != 0 {
        match a.payload_at(i) {
            Some(TrieSlotPayload::Link(k)) => {
                vstd::arithmetic::div_mod::lemma_div_decreases(id as int, COUNT as int);
                lemma_lookup_same_views(a, c, k as int, rest);
            },
            _ => {},
        }
    }
}

/// A killed slot is never found: once the state word of the slot that a
/// one-digit `id` selects has been cleared of its alive bit (as `kill`
/// does), looking `id` up from that block fails.
pub proof fn law_killed_slot_not_found<const COUNT: usize, T>(
    before: &Trie<COUNT, T>,
    after: &Trie<COUNT, T>,
    b: int,
    id: nat,
)
    requires
        id < COUNT,
        after.payloads_view() == before.payloads_view(),
        ({
            let i = Trie::<COUNT, T>::flat(b, id as int);
            after.states_view() == before.states_view().update(i, before.state_at(i) & 0x7FFF_FFFF_FFFF_FFFF)
        }),
        0 <= Trie::<COUNT, T>::flat(b, id as int) < before.slot_count(),
    ensures
        after.lookup(b, id) is None,
{
    let i = Trie::<COUNT, T>::flat(b, id as int);
    let raw = before.state_at(i);
    let v: u64 = raw & 0x7FFF_FFFF_FFFF_FFFF;
    assert(v < 0x8000_0000_0000_0000) by (bit_vector)
        requires
            v == raw & 0x7FFF_FFFF_FFFF_FFFF,
    ;
    assert(id % COUNT as nat == id) by {
        vstd::arithmetic::div_mod::lemma_small_mod(id, COUNT as nat);
    }
    assert(after.state_at(i) == v);
    assert(!(decode_state(v) is Alive));
}

/// A slot that holds a payload and is alive is found: a one-digit `id`
/// whose slot is alive is looked up to that slot.
pub proof fn law_alive_slot_found<const COUNT: usize, T>(t: &Trie<COUNT, T>, b: int, id: nat)
    requires
        COUNT >= 2,
        id < COUNT,
        decode_state(t.state_at(Trie::<COUNT, T>::flat(b, id as int))) is Alive,
    ensures
        t.lookup(b, id) == Some(Trie::<COUNT, T>::flat(b, id as int)),
{
    assert(id % COUNT as nat == id && id / COUNT as nat == 0) by {
        vstd::arithmetic::div_mod::lemma_small_mod(id, COUNT as nat);
        vstd::arithmetic::div_mod::lemma_basic_div(id as int, COUNT as int);
    }
}

/// A slot a lookup finds is alive.
pub proof fn lemma_lookup_alive<const COUNT: usize, T>(t: &Trie<COUNT, T>, b: int, id: nat)
    requires
        t.wf(),
        0 <= b < t.blocks(),
    ensures
        t.lookup(b, id) matches Some(i) ==> decode_state(t.state_at(i)) is Alive,
    decreases id,
{
    let i = Trie::<COUNT, T>::flat(b, (id % COUNT as nat) as int);
    lemma_flat_in_bounds(b, (id % COUNT as nat) as int, COUNT as int, t.slot_count() as int);
    let rest = id / COUNT as nat;
    if decode_state(t.state_at(i)) is Alive && rest != 0 {
        assert(t.slot_ok(i));
        match t.payload_at(i) {
            Some(TrieSlotPayload::Link(k)) => {
                vstd::arithmetic::div_mod::lemma_div_decreases(id as int, COUNT as int);
                lemma_lookup_alive(t, k as int, rest);
            },
            _ => {},
        }
    }
}

/// A failed lookup leaves the reference count of the slot it stops at as
/// it was.
proof fn lemma_low_bits_kept(raw: u64)
    ensures
        after_lookup(raw, false) as int % 0x1_0000_0000 == raw as int % 0x1_0000_0000,
{
    let m: u64 = raw & 0x3FFF_FFFF_FFFF_FFFF;
    assert(m % 0x1_0000_0000 == raw % 0x1_0000_0000) by (bit_vector)
        requires
            m == raw & 0x3FFF_FFFF_FFFF_FFFF,
    ;
}

/// What a lookup leaves in the state word of the slot it stops at: one more
/// reference when it found the slot; the clean-up of a superposed slot it
/// ran into; nothing otherwise.
pub open spec fn after_lookup(raw: u64, found: bool) -> u64 {
    if found {
        plus_one(raw)
    } else if decode_state(raw) is Superposed {
        after_superposed_read(raw)
    } else {
        raw
    }
}

proof fn lemma_plus_one_state(raw: u64)
    requires
        raw as int % 0x1_0000_0000 < 0xFFFF_FFFF,
    ensures
        raw + 1 <= u64::MAX,
        (raw + 1) as int / tag_unit() == raw as int / tag_unit(),
        (raw + 1) as int % 0x1_0000_0000 == raw as int % 0x1_0000_0000 + 1,
{
    assert((raw + 1) as int / tag_unit() == raw as int / tag_unit() && (raw + 1) as int % 0x1_0000_0000
        == raw as int % 0x1_0000_0000 + 1) by (nonlinear_arith)
        requires
            raw as int % 0x1_0000_0000 < 0xFFFF_FFFF,
            tag_unit() == 0x4000_0000_0000_0000,
    ;
}

proof fn lemma_mask_dead(raw: u64)
    ensures
        decode_state(raw & 0x3FFF_FFFF_FFFF_FFFF) == InternalState::Dead,
        decode_state(raw & 0x7FFF_FFFF_FFFF_FFFF) == InternalState::Dead
            <==> decode_state(raw) is Dead || raw as int / tag_unit() == 2,
{
    let a: u64 = raw & 0x3FFF_FFFF_FFFF_FFFF;
    let b: u64 = raw & 0x7FFF_FFFF_FFFF_FFFF;
    assert(a < 0x4000_0000_0000_0000) by (bit_vector)
        requires
            a == raw & 0x3FFF_FFFF_FFFF_FFFF,
    ;
    assert((b < 0x4000_0000_0000_0000) == (raw < 0x4000_0000_0000_0000 || (0x8000_0000_0000_0000
        <= raw && raw < 0xC000_0000_0000_0000))) by (bit_vector)
        requires
            b == raw & 0x7FFF_FFFF_FFFF_FFFF,
    ;
}

impl<const COUNT: usize, T> Trie<COUNT, T> {
    /// Try to take a reference to the slot at flat index `i`: succeeds on an
    /// alive slot, adding a reference; a transient reference on a dead slot
    /// leaves it unchanged; on a superposed slot it clears the slot to dead
    /// if it was the only reference.
    fn try_read(&mut self, i: usize) -> (r: bool)
        requires
            old(self).wf(),
            i < old(self).slot_count(),
            old(self).can_ref(i as int),
        ensures
            final(self).wf(),
            final(self).payloads_view() == old(self).payloads_view(),
            r == (decode_state(old(self).state_at(i as int)) is Alive),
            final(self).states_view() == old(self).states_view().update(
                i as int,
                after_lookup(old(self).state_at(i as int), r),
            ),
    {
        let raw: u64 = self.states[i];
        let prev = InternalState::from_raw(raw);
        proof {
            lemma_plus_one_state(raw);
        }
        self.states.set(i, raw + 1);
        let r = match prev {
            InternalState::Dead => {
                self.states.set(i, raw);
                false
            },
            InternalState::Superposed { .. } => {
                let cur: u64 = self.states[i];
                self.states.set(i, cur - 1);
                match InternalState::from_raw(cur) {
                    InternalState::Dead => {
                        proof {
                            assert(false);
                        }
                    },
                    InternalState::Superposed { refs: 1 } => {
                        let v: u64 = self.states[i];
                        self.states.set(i, v & 0x3FFF_FFFF_FFFF_FFFF);
                        proof {
                            lemma_mask_dead(v);
                        }
                    },
                    InternalState::Superposed { .. } => {},
                    InternalState::Alive { .. } => {},
                }
                false
            },
            InternalState::Alive { .. } => true,
        };
        proof {
            assert forall|j: int| 0 <= j < self.slot_count() implies #[trigger] self.slot_ok(j) by {
                assert(old(self).slot_ok(j));
            }
        }
        r
    }

    /// Releases one reference to the non-dead slot at flat index `i`; a
    /// superposed slot losing its last reference is cleared to dead.
    fn release(&mut self, i: usize)
        requires
            old(self).wf(),
            i < old(self).slot_count(),
            !(decode_state(old(self).state_at(i as int)) is Dead),
            old(self).state_at(i as int) as int % 0x1_0000_0000 > 0,
        ensures
            final(self).wf(),
            final(self).payloads_view() == old(self).payloads_view(),
            final(self).states_view() == old(self).states_view().update(
                i as int,
                after_release(old(self).state_at(i as int)),
            ),
    {
        let raw: u64 = self.states[i];
        self.states.set(i, raw - 1);
        match InternalState::from_raw(raw) {
            InternalState::Dead => {
                proof {
                    assert(false);
                }
            },
            InternalState::Superposed { refs: 1 } => {
                let v: u64 = self.states[i];
                self.states.set(i, v & 0x3FFF_FFFF_FFFF_FFFF);
                proof {
                    lemma_mask_dead(v);
                }
            },
            InternalState::Superposed { .. } => {},
            InternalState::Alive { .. } => {},
        }
        proof {
            assert((raw - 1) as int / tag_unit() == raw as int / tag_unit()) by (nonlinear_arith)
                requires
                    raw as int % 0x1_0000_0000 > 0,
                    tag_unit() == 0x4000_0000_0000_0000,
            ;
            assert forall|j: int| 0 <= j < self.slot_count() implies #[trigger] self.slot_ok(j) by {
                assert(old(self).slot_ok(j));
            }
        }
    }

    /// Sets the dead, reference-free slot at flat index `i` to `value`,
    /// making it alive with one reference; any other slot is left unchanged
    /// and the value handed back.
    fn try_resurrect(&mut self, i: usize, value: TrieSlotPayload<T>) -> (r: Result<(), TrieSetError<TrieSlotPayload<T>>>)
        requires
            old(self).wf(),
            i < old(self).slot_count(),
            value matches TrieSlotPayload::Link(k) ==> k < old(self).blocks(),
        ensures
            final(self).wf(),
            old(self).state_at(i as int) == 0 ==> r is Ok && final(self).states_view() == old(self).states_view().update(
                i as int,
                encode_state(InternalState::Alive { refs: 1 }),
            ) && final(self).payloads_view() == old(self).payloads_view().update(i as int, Some(value)),
            old(self).state_at(i as int) != 0 ==> r == Err::<(), _>(TrieSetError::NotDead(value))
                && final(self).states_view() == old(self).states_view() && final(self).payloads_view() == old(self).payloads@,
    {
        if self.states[i] != 0 {
            return Err(TrieSetError::NotDead(value));
        }
        self.states.set(i, InternalState::Superposed { refs: 1 }.into_raw());
        self.payloads.set(i, Some(value));
        let v: u64 = self.states[i];
        assert(v | 0xC000_0000_0000_0000u64 == 0xC000_0000_0000_0001u64) by (bit_vector)
            requires
                v == 0x8000_0000_0000_0001u64,
        ;
        self.states.set(i, v | 0xC000_0000_0000_0000);
        proof {
            assert forall|j: int| 0 <= j < self.slot_count() implies #[trigger] self.slot_ok(j) by {
                assert(old(self).slot_ok(j));
            }
        }
        Ok(())
    }

    /// Kills the slot at flat index `i` by clearing the top state bit: an
    /// alive slot becomes superposed (to be cleared by its last reader),
    /// a superposed one with the top bit set becomes dead.
    fn kill(&mut self, i: usize)
        requires
            old(self).wf(),
            i < old(self).slot_count(),
        ensures
            final(self).wf(),
            final(self).payloads_view() == old(self).payloads_view(),
            final(self).states_view() == old(self).states_view().update(
                i as int,
                old(self).state_at(i as int) & 0x7FFF_FFFF_FFFF_FFFF,
            ),
    {
        let v: u64 = self.states[i];
        self.states.set(i, v & 0x7FFF_FFFF_FFFF_FFFF);
        proof {
            lemma_mask_dead(v);
            assert forall|j: int| 0 <= j < self.slot_count() implies #[trigger] self.slot_ok(j) by {
                assert(old(self).slot_ok(j));
            }
        }
    }
}

/// Slot `s` of block `b` lies within a trie of `n` slots made of whole blocks.
proof fn lemma_flat_in_bounds(b: int, s: int, count: int, n: int)
    requires
        count > 0,
        n % count == 0,
        0 <= b < n / count,
        0 <= s < count,
    ensures
        0 <= b * count + s < n,
{
    assert(0 <= b * count + s < n) by (nonlinear_arith)
        requires
            count > 0,
            n % count == 0,
            0 <= b < n / count,
            0 <= s < count,
    {
        vstd::arithmetic::div_mod::lemma_fundamental_div_mod(n, count);
        assert((b + 1) * count <= (n / count) * count) by (nonlinear_arith)
            requires
                b + 1 <= n / count,
                count > 0,
        ;
    }
}

impl BlockRef {
    /// The flat index of the slot.
    fn index<const COUNT: usize, T>(&self, trie: &Trie<COUNT, T>) -> (r: usize)
        requires
            trie.wf(),
            self.block < trie.blocks(),
            self.slot < COUNT,
        ensures
            r == Trie::<COUNT, T>::flat(self.block as int, self.slot as int),
            r < trie.slot_count(),
    {
        proof {
            lemma_flat_in_bounds(self.block as int, self.slot as int, COUNT as int, trie.slot_count() as int);
        }
        self.block * COUNT + self.slot
    }

    /// A reference to the slot if it is alive (see `Trie::try_read`).
    pub fn try_get<const COUNT: usize, T>(&self, trie: &mut Trie<COUNT, T>) -> (r: Option<TrieRef>)
        requires
            old(trie).wf(),
            self.block < old(trie).blocks(),
            self.slot < COUNT,
            old(trie).can_ref(Trie::<COUNT, T>::flat(self.block as int, self.slot as int)),
        ensures
            final(trie).wf(),
            final(trie).payloads_view() == old(trie).payloads_view(),
            ({
                let i = Trie::<COUNT, T>::flat(self.block as int, self.slot as int);
                let found = decode_state(old(trie).state_at(i)) is Alive;
                &&& found <==> r is Some
                &&& r matches Some(t) ==> t.pos() == (self.block as int, self.slot as int)
                &&& final(trie).states_view() == old(trie).states_view().update(i, after_lookup(old(trie).state_at(i), found))
            }),
    {
        let i = self.index(trie);
        if trie.try_read(i) {
            Some(TrieRef { block: self.block, slot: self.slot })
        } else {
            None
        }
    }

    /// Sets the slot to `payload` if it is dead with no reference left,
    /// returning a reference to it; otherwise gives `payload` back.
    pub fn try_set<const COUNT: usize, T>(&self, trie: &mut Trie<COUNT, T>, payload: TrieSlotPayload<T>) -> (r: Result<TrieRef, TrieSetError<TrieSlotPayload<T>>>)
        requires
            old(trie).wf(),
            self.block < old(trie).blocks(),
            self.slot < COUNT,
            payload matches TrieSlotPayload::Link(k) ==> k < old(trie).blocks(),
        ensures
            final(trie).wf(),
            final(trie).slot_count() == old(trie).slot_count(),
            Trie::<COUNT, T>::flat(self.block as int, self.slot as int) < old(trie).slot_count(),
            ({
                let i = Trie::<COUNT, T>::flat(self.block as int, self.slot as int);
                if old(trie).state_at(i) == 0 {
                    &&& r matches Ok(t) && t.pos() == (self.block as int, self.slot as int)
                    &&& final(trie).states_view() == old(trie).states_view().update(i, encode_state(InternalState::Alive { refs: 1 }))
                    &&& final(trie).payloads_view() == old(trie).payloads_view().update(i, Some(payload))
                } else {
                    &&& r == Err::<TrieRef, _>(TrieSetError::NotDead(payload))
                    &&& final(trie).states_view() == old(trie).states_view()
                    &&& final(trie).payloads_view() == old(trie).payloads_view()
                }
            }),
    {
        let i = self.index(trie);
        match trie.try_resurrect(i, payload) {
            Ok(()) => Ok(TrieRef { block: self.block, slot: self.slot }),
            Err(e) => Err(e),
        }
    }

    /// Kills the slot (see `Trie::kill`).
    pub fn kill<const COUNT: usize, T>(&self, trie: &mut Trie<COUNT, T>)
        requires
            old(trie).wf(),
            self.block < old(trie).blocks(),
            self.slot < COUNT,
        ensures
            final(trie).wf(),
            final(trie).slot_count() == old(trie).slot_count(),
            Trie::<COUNT, T>::flat(self.block as int, self.slot as int) < old(trie).slot_count(),
            final(trie).payloads_view() == old(trie).payloads_view(),
            ({
                let i = Trie::<COUNT, T>::flat(self.block as int, self.slot as int);
                final(trie).states_view() == old(trie).states_view().update(i, old(trie).state_at(i) & 0x7FFF_FFFF_FFFF_FFFF)
            }),
    {
        let i = self.index(trie);
        trie.kill(i);
    }
}

impl TrieRef {
    /// The flat index of the referenced slot.
    fn index<const COUNT: usize, T>(&self, trie: &Trie<COUNT, T>) -> (r: usize)
        requires
            trie.wf(),
            self.pos().0 < trie.blocks(),
            self.pos().1 < COUNT,
        ensures
            r == Trie::<COUNT, T>::flat(self.pos().0, self.pos().1),
            r < trie.slot_count(),
    {
        BlockRef { block: self.block, slot: self.slot }.index(trie)
    }

    /// The payload of the referenced slot, which isn't dead.
    pub fn payload<'a, const COUNT: usize, T>(&self, trie: &'a Trie<COUNT, T>) -> (r: &'a TrieSlotPayload<T>)
        requires
            trie.wf(),
            self.pos().0 < trie.blocks(),
            self.pos().1 < COUNT,
            !(decode_state(trie.state_at(Trie::<COUNT, T>::flat(self.pos().0, self.pos().1))) is Dead),
        ensures
            Some(*r) == trie.payload_at(Trie::<COUNT, T>::flat(self.pos().0, self.pos().1)),
    {
        let i = self.index(trie);
        proof {
            assert(trie.slot_ok(i as int));
        }
        trie.payloads[i].as_ref().unwrap()
    }

    /// The value held by the referenced slot, or `None` when it holds a link.
    pub fn data<'a, const COUNT: usize, T>(&self, trie: &'a Trie<COUNT, T>) -> (r: Option<&'a T>)
        requires
            trie.wf(),
            self.pos().0 < trie.blocks(),
            self.pos().1 < COUNT,
            !(decode_state(trie.state_at(Trie::<COUNT, T>::flat(self.pos().0, self.pos().1))) is Dead),
        ensures
            match trie.payload_at(Trie::<COUNT, T>::flat(self.pos().0, self.pos().1)) {
                Some(TrieSlotPayload::Data(d)) => r == Some(&d),
                _ => r is None,
            },
    {
        match self.payload(trie) {
            TrieSlotPayload::Data(data) => Some(data),
            TrieSlotPayload::Link(_) => None,
        }
    }

    /// Gives the reference back (see `Trie::release`).
    pub fn drop<const COUNT: usize, T>(self, trie: &mut Trie<COUNT, T>)
        requires
            old(trie).wf(),
            self.pos().0 < old(trie).blocks(),
            self.pos().1 < COUNT,
            ({
                let raw = old(trie).state_at(Trie::<COUNT, T>::flat(self.pos().0, self.pos().1));
                !(decode_state(raw) is Dead) && raw as int % 0x1_0000_0000 > 0
            }),
        ensures
            final(trie).wf(),
            final(trie).slot_count() == old(trie).slot_count(),
            final(trie).payloads_view() == old(trie).payloads_view(),
            ({
                let i = Trie::<COUNT, T>::flat(self.pos().0, self.pos().1);
                final(trie).states_view() == old(trie).states_view().update(i, after_release(old(trie).state_at(i)))
            }),
    {
        let i = self.index(trie);
        trie.release(i);
    }
}

impl<const COUNT: usize, T> Trie<COUNT, T> {
    /// Looks up `id` starting at block `this` (see `lookup`): a reference to
    /// the slot reached, or `None`. Only the slot where the walk stops
    /// changes (see `after_lookup`).
    pub fn get_inner(&mut self, this: usize, id: usize) -> (r: Option<TrieRef>)
        requires
            old(self).wf(),
            old(self).refs_ok(),
            this < old(self).blocks(),
        ensures
            final(self).wf(),
            final(self).payloads_view() == old(self).payloads_view(),
            (id >= COUNT && old(self).payload_at(Self::flat(this as int, (id as nat % COUNT as nat) as int))
                matches Some(TrieSlotPayload::Data(_))) ==> r is None,
            ({
                let found = old(self).lookup(this as int, id as nat);
                let stop = old(self).stop(this as int, id as nat);
                &&& found is Some <==> r is Some
                &&& r matches Some(t) ==> Self::flat(t.pos().0, t.pos().1) == found->0 && t.pos().0
                    < old(self).blocks() && 0 <= t.pos().1 < COUNT
                &&& final(self).states_view() == old(self).states_view().update(
                    stop,
                    after_lookup(old(self).state_at(stop), found is Some),
                )
            }),
    {
        let ghost s0 = *self;
        proof {
            if id >= COUNT {
                s0.law_value_ends_lookup(this as int, id as nat);
            }
        }
        let mut block: usize = this;
        let mut rem: usize = id;
        loop
            invariant
                self.wf(),
                self.refs_ok(),
                self.states@ == old(self).states@,
                self.payloads@ == old(self).payloads@,
                old(self).wf(),
                old(self).refs_ok(),
                block < self.blocks(),
                old(self).lookup(this as int, id as nat) == old(self).lookup(block as int, rem as nat),
                old(self).stop(this as int, id as nat) == old(self).stop(block as int, rem as nat),
                (id >= COUNT && old(self).payload_at(Self::flat(this as int, (id as nat % COUNT as nat) as int))
                    matches Some(TrieSlotPayload::Data(_))) ==> old(self).lookup(this as int, id as nat) is None,
            decreases rem,
        {
            let idx: usize = rem % COUNT;
            let rest: usize = rem / COUNT;
            let at = TrieBlock::<COUNT, T>::at(block, idx);
            let ghost i = Self::flat(block as int, idx as int);
            proof {
                lemma_flat_in_bounds(block as int, idx as int, COUNT as int, self.slot_count() as int);
                assert(self.can_ref(i));
            }
            proof {
                assert(old(self).slot_ok(i));
                assert(old(self).lookup(block as int, rem as nat) == if !(decode_state(old(self).state_at(i)) is Alive) {
                    None
                } else if rest == 0 {
                    Some(i)
                } else {
                    match old(self).payload_at(i) {
                        Some(TrieSlotPayload::Link(k)) => old(self).lookup(k as int, rest as nat),
                        _ => None,
                    }
                });
                assert(old(self).stop(block as int, rem as nat) == if !(decode_state(old(self).state_at(i)) is Alive) || rest == 0 {
                    i
                } else {
                    match old(self).payload_at(i) {
                        Some(TrieSlotPayload::Link(k)) => old(self).stop(k as int, rest as nat),
                        _ => i,
                    }
                });
            }
            let slot = match at.try_get(self) {
                Some(s) => s,
                None => {
                    proof {
                        assert(old(self).lookup(block as int, rem as nat) is None);
                        assert(old(self).stop(block as int, rem as nat) == i);
                        assert(old(self).lookup(this as int, id as nat) is None);
                        assert(self.states@ == old(self).states@.update(i, after_lookup(old(self).states@[i], false)));
                    }
                    return None;
                },
            };
            if rest == 0 {
                return Some(slot);
            }
            let ghost raw = old(self).states@[i];
            proof {
                lemma_plus_one_state(raw);
            }
            let next = match slot.payload(self) {
                TrieSlotPayload::Data(_) => None,
                TrieSlotPayload::Link(k) => Some(*k),
            };
            slot.drop(self);
            proof {
                assert(self.states@ =~= old(self).states@);
                assert forall|j: int| 0 <= j < self.slot_count() implies #[trigger] self.can_ref(j) by {
                    assert(old(self).can_ref(j));
                }
            }
            match next {
                None => {
                    proof {
                        assert(old(self).payload_at(i) matches Some(TrieSlotPayload::Data(_)));
                        assert(old(self).states@.update(i, old(self).states@[i]) =~= old(self).states@);
                    }
                    return None;
                },
                Some(k) => {
                    proof {
                        vstd::arithmetic::div_mod::lemma_div_decreases(rem as int, COUNT as int);
                    }
                    block = k;
                    rem = rest;
                },
            }
        }
    }

    /// Looks up `id` from block `this` (see `lookup`) and gives the
    /// reference straight back: the flat index of the slot found, or
    /// `None`. A successful lookup leaves every state word as it was; a
    /// failed one may only clean up the slot where the walk stopped.
    pub fn find(&mut self, this: usize, id: usize) -> (r: Option<usize>)
        requires
            old(self).wf(),
            old(self).refs_ok(),
            this < old(self).blocks(),
        ensures
            final(self).wf(),
            final(self).refs_ok(),
            final(self).payloads_view() == old(self).payloads_view(),
            final(self).blocks() == old(self).blocks(),
            final(self).slot_count() == old(self).slot_count(),
            r is Some <==> old(self).lookup(this as int, id as nat) is Some,
            r matches Some(i) ==> i == old(self).lookup(this as int, id as nat)->0 && i < old(self).slot_count() && final(self).states_view() == old(self).states_view()
                && decode_state(old(self).state_at(i as int)) is Alive,
            r is None ==> ({
                let stop = old(self).stop(this as int, id as nat);
                final(self).states_view() == old(self).states_view().update(
                    stop,
                    after_lookup(old(self).state_at(stop), false),
                )
            }),
    {
        match self.get_inner(this, id) {
            None => {
                proof {
                    let stop = old(self).stop(this as int, id as nat);
                    let raw = old(self).state_at(stop);
                    lemma_stop_in_bounds(old(self), this as int, id as nat);
                    lemma_low_bits_kept(raw);
                    assert forall|j: int| 0 <= j < self.slot_count() implies #[trigger] self.can_ref(j) by {
                        assert(old(self).can_ref(j));
                    }
                }
                None
            },
            Some(t) => {
                let i = t.index(self);
                let ghost raw = old(self).state_at(i as int);
                proof {
                    lemma_lookup_alive(old(self), this as int, id as nat);
                    lemma_stop_in_bounds(old(self), this as int, id as nat);
                    assert(old(self).can_ref(i as int));
                    lemma_plus_one_state(raw);
                    assert(self.state_at(i as int) == plus_one(raw));
                    assert(self.state_at(i as int) as int / tag_unit() == raw as int / tag_unit());
                }
                t.drop(self);
                proof {
                    assert(self.states@ =~= old(self).states@);
                    assert forall|j: int| 0 <= j < self.slot_count() implies #[trigger] self.can_ref(j) by {
                        assert(old(self).can_ref(j));
                    }
                }
                Some(i)
            },
        }
    }

    /// The payload of the slot at flat index `i`, which isn't dead.
    pub fn payload_at_index(&self, i: usize) -> (r: &TrieSlotPayload<T>)
        requires
            self.wf(),
            i < self.slot_count(),
            !(decode_state(self.state_at(i as int)) is Dead),
        ensures
            Some(*r) == self.payload_at(i as int),
    {
        proof {
            assert(self.slot_ok(i as int));
        }
        self.payloads[i].as_ref().unwrap()
    }

    /// Looks up capability `id` from the root block (see `get_inner`).
    pub fn get(&mut self, id: u32) -> (r: Option<TrieRef>)
        requires
            old(self).wf(),
            old(self).refs_ok(),
        ensures
            final(self).wf(),
            final(self).payloads_view() == old(self).payloads_view(),
            ({
                let found = old(self).lookup(0, id as nat);
                let stop = old(self).stop(0, id as nat);
                &&& found is Some <==> r is Some
                &&& r matches Some(t) ==> Self::flat(t.pos().0, t.pos().1) == found->0
                &&& final(self).states_view() == old(self).states_view().update(
                    stop,
                    after_lookup(old(self).state_at(stop), found is Some),
                )
            }),
    {
        proof {
            vstd::arithmetic::div_mod::lemma_div_basics(COUNT as int);
            vstd::arithmetic::div_mod::lemma_div_pos_is_pos(self.slot_count() as int, COUNT as int);
            vstd::arithmetic::div_mod::lemma_div_is_ordered(COUNT as int, self.slot_count() as int, COUNT as int);
        }
        self.get_inner(0, id as usize)
    }

    /// Adds `block` (whose slots are all dead and unwritten) to the trie and
    /// returns its number.
    pub fn add_block(&mut self, block: TrieBlock<COUNT, T>) -> (r: usize)
        requires
            old(self).wf(),
            block.len() == COUNT,
            block.all_dead(),
            old(self).slot_count() + COUNT <= usize::MAX,
        ensures
            final(self).wf(),
            r == old(self).blocks(),
            final(self).blocks() == old(self).blocks() + 1,
            final(self).states_view() == old(self).states_view() + Seq::new(COUNT as nat, |i: int| 0u64),
            final(self).payloads_view() == old(self).payloads_view() + Seq::new(
                COUNT as nat,
                |i: int| None::<TrieSlotPayload<T>>,
            ),
    {
        let r: usize = self.states.len() / COUNT;
        let mut n: usize = 0;
        while n < COUNT
            invariant
                n <= COUNT,
                self.states@ == old(self).states@ + Seq::new(n as nat, |i: int| 0u64),
                self.payloads@ == old(self).payloads@ + Seq::new(
                    n as nat,
                    |i: int| None::<TrieSlotPayload<T>>,
                ),
                old(self).slot_count() + COUNT <= usize::MAX,
            decreases COUNT - n,
        {
            self.states.push(0);
            self.payloads.push(None);
            n = n + 1;
            proof {
                assert(self.states@ =~= old(self).states@ + Seq::new(n as nat, |i: int| 0u64));
                assert(self.payloads@ =~= old(self).payloads@ + Seq::new(
                    n as nat,
                    |i: int| None::<TrieSlotPayload<T>>,
                ));
            }
        }
        proof {
            let old_n = old(self).slot_count() as int;
            vstd::arithmetic::div_mod::lemma_fundamental_div_mod(old_n, COUNT as int);
            assert(self.slot_count() == old_n + COUNT);
            assert((old_n + COUNT) % (COUNT as int) == 0 && (old_n + COUNT) / (COUNT as int) == old_n
                / (COUNT as int) + 1) by {
                vstd::arithmetic::div_mod::lemma_mod_add_multiples_vanish(old_n, COUNT as int);
                vstd::arithmetic::div_mod::lemma_div_plus_one(old_n, COUNT as int);
            }
            assert forall|j: int| 0 <= j < self.slot_count() implies #[trigger] self.slot_ok(j) by {
                if j < old_n {
                    assert(old(self).slot_ok(j));
                }
            }
        }
        r
    }
}

} // verus!

//! Address spaces: the store of page-table frames, the four-level walk that
//! translates a page, and the mapping of pages into it.

use vstd::prelude::*;
use vstd::hash_map::HashMapWithView;

use crate::mem::{Frame, FrameAllocError, FrameAllocator, MapPageError, Page, PageFlags, PhysAddr};
use crate::mem::phys::phys_limit;
use crate::page_table::{
    decode_entry, index_at_level, lemma_pte_bits, pte_bits, AnyPageTable, PageTableFlags,
    PageTableLevel, PageTableOffset, FLAGS_MASK, FRAME_MASK,
};

verus! {

broadcast use vstd::std_specs::hash::axiom_u64_obeys_hash_table_key_model;

/// The huge-page bit of an entry.
pub open spec fn huge_bit() -> u64 {
    PageTableFlags::HUGE_PAGE
}

/// Whether `k` is the base address of a frame.
pub open spec fn is_frame_addr(k: u64) -> bool {
    k % 4096 == 0 && k < phys_limit()
}

/// An entry `e` of a table at `level` that the walk follows (present in the
/// sense of non-zero, above the bottom level and not huge) names a stored
/// table one level down.
pub open spec fn child_ok(m: Map<u64, (u8, Seq<u64>)>, level: u8, e: u64) -> bool {
    (level > 1 && e != 0 && e & huge_bit() == 0) ==> (m.contains_key(e & FRAME_MASK) && m[e
        & FRAME_MASK].0 == level - 1)
}

/// Every stored table sits at a frame address, has a level from 1 to 4 and
/// 512 entries, and every entry the walk follows leads to a stored table one
/// level down.
pub open spec fn tables_wf(m: Map<u64, (u8, Seq<u64>)>) -> bool {
    forall|k: u64| #[trigger]
        m.contains_key(k) ==> {
            &&& is_frame_addr(k)
            &&& 1 <= m[k].0 <= 4
            &&& m[k].1.len() == 512
            &&& forall|i: int| 0 <= i < 512 ==> child_ok(m, m[k].0, #[trigger] m[k].1[i])
        }
}

/// The 4 KiB translation of `addr` starting from table `t` at `level`: the
/// frame and flag bits of the bottom entry, or `None` when the walk meets an
/// unused entry, a huge entry or a missing table.
pub open spec fn lookup(m: Map<u64, (u8, Seq<u64>)>, t: u64, addr: usize, level: int) -> Option<
    (u64, u64),
>
    decreases level,
{
    if level < 1 || !m.contains_key(t) {
        None
    } else {
        let e = m[t].1[index_at_level(addr, level)];
        if e == 0 {
            None
        } else if level == 1 {
            Some((e & FRAME_MASK, e & FLAGS_MASK))
        } else if e & huge_bit() != 0 {
            None
        } else {
            lookup(m, e & FRAME_MASK, addr, level - 1)
        }
    }
}

/// Whether the walk for `addr` from table `t` at `level` stops at a huge
/// entry above the bottom level.
pub open spec fn hits_huge(m: Map<u64, (u8, Seq<u64>)>, t: u64, addr: usize, level: int) -> bool
    decreases level,
{
    if level <= 1 || !m.contains_key(t) {
        false
    } else {
        let e = m[t].1[index_at_level(addr, level)];
        if e == 0 {
            false
        } else if e & huge_bit() != 0 {
            true
        } else {
            hits_huge(m, e & FRAME_MASK, addr, level - 1)
        }
    }
}

/// Whether the walk for `addr` from table `r` at level `k` passes through
/// table `t` at level `l`.
pub open spec fn reaches(
    m: Map<u64, (u8, Seq<u64>)>,
    r: u64,
    addr: usize,
    k: int,
    t: u64,
    l: int,
) -> bool
    decreases k - l,
{
    if k <= l {
        k == l && r == t
    } else {
        &&& m.contains_key(r)
        &&& m[r].1[index_at_level(addr, k)] != 0
        &&& m[r].1[index_at_level(addr, k)] & huge_bit() == 0
        &&& reaches(m, m[r].1[index_at_level(addr, k)] & FRAME_MASK, addr, k - 1, t, l)
    }
}

/// `m2` keeps every table of `m` at its level and every used entry of them.
pub open spec fn extends(m: Map<u64, (u8, Seq<u64>)>, m2: Map<u64, (u8, Seq<u64>)>) -> bool {
    forall|k: u64| #[trigger]
        m.contains_key(k) ==> {
            &&& m2.contains_key(k)
            &&& m2[k].0 == m[k].0
            &&& m2[k].1.len() == m[k].1.len()
            &&& forall|i: int| 0 <= i < m[k].1.len() && #[trigger] m[k].1[i] != 0 ==> m2[k].1[i] == m[k].1[i]
        }
}

pub proof fn lemma_index_in_table(addr: usize, level: int)
    requires
        1 <= level <= 4,
    ensures
        0 <= index_at_level(addr, level) < 512,
{
}

/// The walk through a table reaches the same translation as the walk from it.
pub proof fn lemma_reaches_lookup(m: Map<u64, (u8, Seq<u64>)>, r: u64, addr: usize, k: int, t: u64, l: int)
    requires
        1 <= l <= k,
        reaches(m, r, addr, k, t, l),
    ensures
        lookup(m, r, addr, k) == lookup(m, t, addr, l),
        hits_huge(m, r, addr, k) == hits_huge(m, t, addr, l),
    decreases k - l,
{
    if k > l {
        let e = m[r].1[index_at_level(addr, k)];
        lemma_reaches_lookup(m, e & FRAME_MASK, addr, k - 1, t, l);
    }
}

/// A walk that reaches `t` at `l` and follows `t`'s entry reaches the table
/// that entry names.
pub proof fn lemma_reaches_step(m: Map<u64, (u8, Seq<u64>)>, r: u64, addr: usize, k: int, t: u64, l: int)
    requires
        1 < l <= k,
        reaches(m, r, addr, k, t, l),
        m.contains_key(t),
        m[t].1[index_at_level(addr, l)] != 0,
        m[t].1[index_at_level(addr, l)] & huge_bit() == 0,
    ensures
        reaches(m, r, addr, k, m[t].1[index_at_level(addr, l)] & FRAME_MASK, l - 1),
    decreases k - l,
{
    let c = m[t].1[index_at_level(addr, l)] & FRAME_MASK;
    if k == l {
        assert(reaches(m, c, addr, l - 1, c, l - 1));
    } else {
        let e = m[r].1[index_at_level(addr, k)];
        lemma_reaches_step(m, e & FRAME_MASK, addr, k - 1, t, l);
    }
}

/// A walk survives the addition of tables and entries.
pub proof fn lemma_extends_reaches(
    m: Map<u64, (u8, Seq<u64>)>,
    m2: Map<u64, (u8, Seq<u64>)>,
    r: u64,
    addr: usize,
    k: int,
    t: u64,
    l: int,
)
    requires
        tables_wf(m),
        extends(m, m2),
        1 <= l <= k <= 4,
        reaches(m, r, addr, k, t, l),
    ensures
        reaches(m2, r, addr, k, t, l),
    decreases k - l,
{
    if k > l {
        lemma_index_in_table(addr, k);
        let e = m[r].1[index_at_level(addr, k)];
        assert(m2[r].1[index_at_level(addr, k)] == e);
        lemma_extends_reaches(m, m2, e & FRAME_MASK, addr, k - 1, t, l);
    }
}

/// Adding tables and entries never changes an existing translation.
pub proof fn lemma_extends_lookup(
    m: Map<u64, (u8, Seq<u64>)>,
    m2: Map<u64, (u8, Seq<u64>)>,
    r: u64,
    addr: usize,
    k: int,
)
    requires
        tables_wf(m),
        extends(m, m2),
        1 <= k <= 4,
        lookup(m, r, addr, k) is Some,
    ensures
        lookup(m2, r, addr, k) == lookup(m, r, addr, k),
    decreases k,
{
    lemma_index_in_table(addr, k);
    let e = m[r].1[index_at_level(addr, k)];
    assert(m2[r].1[index_at_level(addr, k)] == e);
    if k > 1 {
        lemma_extends_lookup(m, m2, e & FRAME_MASK, addr, k - 1);
    }
}

pub proof fn lemma_extends_trans(
    m1: Map<u64, (u8, Seq<u64>)>,
    m2: Map<u64, (u8, Seq<u64>)>,
    m3: Map<u64, (u8, Seq<u64>)>,
)
    requires
        extends(m1, m2),
        extends(m2, m3),
    ensures
        extends(m1, m3),
{
    assert forall|k: u64| #[trigger] m1.contains_key(k) implies {
        &&& m3.contains_key(k)
        &&& m3[k].0 == m1[k].0
        &&& m3[k].1.len() == m1[k].1.len()
        &&& forall|i: int| 0 <= i < m1[k].1.len() && #[trigger] m1[k].1[i] != 0 ==> m3[k].1[i] == m1[k].1[i]
    } by {
        assert(m2.contains_key(k));
        assert forall|i: int| 0 <= i < m1[k].1.len() && #[trigger] m1[k].1[i] != 0 implies m3[k].1[i]
            == m1[k].1[i] by {
            assert(m2[k].1[i] == m1[k].1[i]);
        }
    }
}

/// Entry values built from a frame and hardware flags without address bits
/// keep both parts apart.
pub proof fn lemma_entry_parts(flags: u64, frame: u64)
    requires
        flags & FRAME_MASK == 0,
        is_frame_addr(frame),
    ensures
        (flags | frame) & FRAME_MASK == frame,
        (flags | frame) & FLAGS_MASK == flags,
        (flags | frame) & huge_bit() == flags & huge_bit(),
        (flags | frame) == 0 <==> (flags == 0 && frame == 0),
{
    assert((flags | frame) & 0x000F_FFFF_FFFF_F000u64 == frame && (flags | frame) & 0xFFF0_0000_0000_0FFFu64
        == flags && (flags | frame) & 128u64 == flags & 128u64 && ((flags | frame) == 0 <==> (flags == 0
        && frame == 0))) by (bit_vector)
        requires
            flags & 0x000F_FFFF_FFFF_F000u64 == 0,
            frame % 4096 == 0,
            frame < 0x10_0000_0000_0000u64,
    ;
}

/// Whether `e`, an entry of a table at `level`, links to the table at `t`.
pub open spec fn links_to(level: u8, e: u64, t: u64) -> bool {
    level > 1 && e != 0 && e & huge_bit() == 0 && e & FRAME_MASK == t
}

/// The entries `row` of a table at `level` with every link to the table at
/// `t` cleared.
pub open spec fn cleared_row(level: u8, row: Seq<u64>, t: u64) -> Seq<u64> {
    Seq::new(row.len(), |i: int| if links_to(level, row[i], t) { 0u64 } else { row[i] })
}

/// `m` with every link to the table at `t` cleared.
pub open spec fn unlinked(m: Map<u64, (u8, Seq<u64>)>, t: u64) -> Map<u64, (u8, Seq<u64>)> {
    Map::new(|k: u64| m.contains_key(k), |k: u64| (m[k].0, cleared_row(m[k].0, m[k].1, t)))
}

/// `m` with a new table at `level`, every entry unused, in frame `t`. A
/// table stored there at another level is first unlinked from every table,
/// so that no table links to one of the wrong level.
pub open spec fn replaced(m: Map<u64, (u8, Seq<u64>)>, t: u64, level: u8) -> Map<u64, (u8, Seq<u64>)> {
    if m.contains_key(t) && m[t].0 != level {
        unlinked(m, t).insert(t, (level, Seq::new(512, |i: int| 0u64)))
    } else {
        m.insert(t, (level, Seq::new(512, |i: int| 0u64)))
    }
}

/// One stored page table and the level it serves at.
#[derive(Debug)]
struct LeveledTable {
    level: u8,
    table: AnyPageTable,
}

/// The page-table frames of the system, by the base address of their frame,
/// with a list of those addresses to go through them.
pub struct PageTables {
    tables: HashMapWithView<u64, LeveledTable>,
    keys: Vec<u64>,
}

impl PageTables {
    /// Each stored table's level and raw entries.
    pub closed spec fn view(&self) -> Map<u64, (u8, Seq<u64>)> {
        self.tables@.map_values(|t: LeveledTable| (t.level, t.table@))
    }

    /// The list of stored frames the store goes through.
    pub closed spec fn key_list(&self) -> Seq<u64> {
        self.keys@
    }

    pub closed spec fn wf(&self) -> bool {
        &&& tables_wf(self@)
        &&& forall|k: u64| #[trigger] self.tables@.contains_key(k) ==> self.tables@[k].table.wf()
        &&& forall|k: u64| #[trigger] self.tables@.contains_key(k) ==> self.keys@.contains(k)
    }

    /// A well-formed store satisfies `tables_wf`.
    pub proof fn lemma_wf(&self)
        requires
            self.wf(),
        ensures
            tables_wf(self@),
    {
    }

    /// An empty store.
    pub fn new() -> (r: Self)
        ensures
            r.wf(),
            r@ == Map::<u64, (u8, Seq<u64>)>::empty(),
    {
        let r = Self { tables: HashMapWithView::new(), keys: Vec::new() };
        assert(r@ =~= Map::<u64, (u8, Seq<u64>)>::empty());
        r
    }

    /// Whether a table is stored at `frame`.
    pub fn contains(&self, frame: Frame) -> (r: bool)
        ensures
            r == self@.contains_key(frame@),
    {
        let k: u64 = frame.base().as_u64();
        self.tables.contains_key(&k)
    }

    /// The level of the table stored at `frame`.
    pub fn level_of(&self, frame: Frame) -> (r: u8)
        requires
            self@.contains_key(frame@),
        ensures
            r == self@[frame@].0,
    {
        let k: u64 = frame.base().as_u64();
        match self.tables.get(&k) {
            Some(t) => t.level,
            None => 0,
        }
    }

    /// The table stored at `frame`.
    pub fn table(&self, frame: Frame) -> (r: &AnyPageTable)
        requires
            self.wf(),
            self@.contains_key(frame@),
        ensures
            r.wf(),
            r@ == self@[frame@].1,
    {
        let k: u64 = frame.base().as_u64();
        &self.tables.get(&k).unwrap().table
    }

    /// Stores a new table, every entry unused, at `frame` for `level`.
    pub fn insert_table(&mut self, frame: Frame, level: u8)
        requires
            old(self).wf(),
            !old(self)@.contains_key(frame@),
            1 <= level <= 4,
        ensures
            final(self).wf(),
            final(self)@ == old(self)@.insert(frame@, (level, Seq::new(512, |i: int| 0u64))),
            extends(old(self)@, final(self)@),
    {
        let k: u64 = frame.base().as_u64();
        let table = AnyPageTable::new();
        assert(table@ =~= Seq::new(512, |i: int| 0u64));
        self.tables.insert(k, LeveledTable { level, table });
        self.keys.push(k);
        proof {
            assert forall|j: u64| #[trigger] self.tables@.contains_key(j) implies self.keys@.contains(j) by {
                if j != k {
                    assert(old(self).tables@.contains_key(j));
                    assert(old(self).keys@.contains(j));
                    let x = choose|x: int| 0 <= x < old(self).keys@.len() && old(self).keys@[x] == j;
                    assert(self.keys@[x] == j);
                } else {
                    assert(self.keys@[self.keys@.len() - 1] == k);
                }
            }
        }
        proof {
            let m = self@;
            assert(m =~= old(self)@.insert(frame@, (level, Seq::new(512, |i: int| 0u64))));
            assert forall|j: u64| #[trigger] m.contains_key(j) implies {
                &&& is_frame_addr(j)
                &&& 1 <= m[j].0 <= 4
                &&& m[j].1.len() == 512
                &&& forall|i: int| 0 <= i < 512 ==> child_ok(m, m[j].0, #[trigger] m[j].1[i])
            } by {
                if j != frame@ {
                    assert forall|i: int| 0 <= i < 512 implies child_ok(m, m[j].0, #[trigger] m[j].1[i]) by {
                        assert(child_ok(old(self)@, old(self)@[j].0, old(self)@[j].1[i]));
                    }
                }
            }
        }
    }

    /// Takes the table at `k` out of the store.
    fn take(&mut self, k: u64) -> (r: LeveledTable)
        requires
            old(self)@.contains_key(k),
            old(self).wf(),
        ensures
            final(self).tables@ == old(self).tables@.remove(k),
            final(self).keys == old(self).keys,
            r == old(self).tables@[k],
            r.table.wf(),
    {
        self.tables.remove(&k).unwrap()
    }

    /// Writes `value` as entry `offset` of the table at `frame`, through
    /// `write`, which sets the entry of a taken-out table.
    fn write_entry(&mut self, frame: Frame, offset: PageTableOffset, target: Frame, flags: PageTableFlags)
        requires
            old(self).wf(),
            old(self)@.contains_key(frame@),
        ensures
            final(self)@ == old(self)@.insert(
                frame@,
                (old(self)@[frame@].0, old(self)@[frame@].1.update(offset@ as int, flags@ | target@)),
            ),
            forall|k: u64| #[trigger] final(self).tables@.contains_key(k) ==> final(self).tables@[k].table.wf(),
            forall|k: u64| #[trigger] final(self).tables@.contains_key(k) ==> final(self).keys@.contains(k),
            target.wf(),
    {
        let k: u64 = frame.base().as_u64();
        let mut t = self.take(k);
        let _ = t.table.map(offset, target, flags);
        self.tables.insert(k, t);
        proof {
            assert forall|j: u64| #[trigger] self.tables@.contains_key(j) implies self.keys@.contains(j) by {
                assert(old(self).tables@.contains_key(j));
            }
        }
        proof {
            assert(self@ =~= old(self)@.insert(
                frame@,
                (old(self)@[frame@].0, old(self)@[frame@].1.update(offset@ as int, flags@ | target@)),
            ));
        }
    }
}

impl PageTables {
    /// Writing `v` into entry `i` of the stored table `t` keeps the store
    /// well formed when the entry is one the walk may follow.
    proof fn lemma_write_wf(m: Map<u64, (u8, Seq<u64>)>, t: u64, i: int, v: u64)
        requires
            tables_wf(m),
            m.contains_key(t),
            0 <= i < 512,
            child_ok(m, m[t].0, v),
        ensures
            tables_wf(m.insert(t, (m[t].0, m[t].1.update(i, v)))),
    {
        let m2 = m.insert(t, (m[t].0, m[t].1.update(i, v)));
        assert forall|k: u64| #[trigger] m2.contains_key(k) implies {
            &&& is_frame_addr(k)
            &&& 1 <= m2[k].0 <= 4
            &&& m2[k].1.len() == 512
            &&& forall|x: int| 0 <= x < 512 ==> child_ok(m2, m2[k].0, #[trigger] m2[k].1[x])
        } by {
            assert forall|x: int| 0 <= x < 512 implies child_ok(m2, m2[k].0, #[trigger] m2[k].1[x]) by {
                if k == t && x == i {
                } else {
                    assert(child_ok(m, m[k].0, m[k].1[x]));
                }
            }
        }
    }

    /// Points entry `offset` of the table at `table` to `target` with
    /// `flags`, whatever it held before.
    pub fn link_entry(&mut self, table: Frame, offset: PageTableOffset, target: Frame, flags: PageTableFlags)
        requires
            old(self).wf(),
            old(self)@.contains_key(table@),
            child_ok(old(self)@, old(self)@[table@].0, flags@ | target@),
        ensures
            final(self).wf(),
            final(self)@ == old(self)@.insert(
                table@,
                (old(self)@[table@].0, old(self)@[table@].1.update(offset@ as int, flags@ | target@)),
            ),
    {
        let _slot: u16 = offset.as_u16();
        proof {
            Self::lemma_write_wf(self@, table@, offset@ as int, flags@ | target@);
        }
        self.write_entry(table, offset, target, flags);
    }

    /// Clears entry `offset` of the table at `table`.
    pub fn clear_entry(&mut self, table: Frame, offset: PageTableOffset)
        requires
            old(self).wf(),
            old(self)@.contains_key(table@),
        ensures
            final(self).wf(),
            final(self).key_list() == old(self).key_list(),
            final(self)@ == old(self)@.insert(
                table@,
                (old(self)@[table@].0, old(self)@[table@].1.update(offset@ as int, 0)),
            ),
    {
        let _slot: u16 = offset.as_u16();
        let k: u64 = table.base().as_u64();
        let mut t = self.take(k);
        let _ = t.table.unmap(offset);
        self.tables.insert(k, t);
        proof {
            assert forall|j: u64| #[trigger] self.tables@.contains_key(j) implies self.keys@.contains(j) by {
                assert(old(self).tables@.contains_key(j));
            }
        }
        proof {
            Self::lemma_write_wf(old(self)@, table@, offset@ as int, 0);
            assert(self@ =~= old(self)@.insert(
                table@,
                (old(self)@[table@].0, old(self)@[table@].1.update(offset@ as int, 0)),
            ));
        }
    }

    /// Replaces the flags of entry `offset` of the table at `table`, keeping
    /// the frame it names; returns the old flags. The store stays well
    /// formed when the new entry is one the walk may follow.
    pub fn set_entry_flags(&mut self, table: Frame, offset: PageTableOffset, flags: PageTableFlags) -> (r: PageTableFlags)
        requires
            old(self).wf(),
            old(self)@.contains_key(table@),
        ensures
            ({
                let e = old(self)@[table@].1[offset@ as int];
                let v = (e & FRAME_MASK) | flags@;
                &&& final(self)@ == old(self)@.insert(
                    table@,
                    (old(self)@[table@].0, old(self)@[table@].1.update(offset@ as int, v)),
                )
                &&& r@ == e & FLAGS_MASK
                &&& child_ok(old(self)@, old(self)@[table@].0, v) ==> final(self).wf()
            }),
    {
        let _slot: u16 = offset.as_u16();
        let k: u64 = table.base().as_u64();
        let mut t = self.take(k);
        let r = t.table.set_flags(offset, flags);
        self.tables.insert(k, t);
        proof {
            assert forall|j: u64| #[trigger] self.tables@.contains_key(j) implies self.keys@.contains(j) by {
                assert(old(self).tables@.contains_key(j));
            }
        }
        proof {
            let e = old(self)@[table@].1[offset@ as int];
            let v = (e & FRAME_MASK) | flags@;
            if child_ok(old(self)@, old(self)@[table@].0, v) {
                Self::lemma_write_wf(old(self)@, table@, offset@ as int, v);
            }
            assert(self@ =~= old(self)@.insert(
                table@,
                (old(self)@[table@].0, old(self)@[table@].1.update(offset@ as int, v)),
            ));
        }
        r
    }

    /// Clears every entry of the table at `table` that links to the table
    /// at `t`.
    fn unlink_in_table(&mut self, table: Frame, t: u64)
        requires
            old(self).wf(),
            old(self)@.contains_key(table@),
        ensures
            final(self).wf(),
            final(self).keys@ == old(self).keys@,
            final(self)@ == old(self)@.insert(
                table@,
                (old(self)@[table@].0, cleared_row(old(self)@[table@].0, old(self)@[table@].1, t)),
            ),
    {
        let ghost m0 = self@;
        let level = self.level_of(table);
        let es = self.entries(table);
        proof {
            assert(es@.len() == 512);
            assert(Seq::new(512, |x: int| if x < 0 && links_to(level, es@[x], t) { 0u64 } else { es@[x] }) =~= es@);
            assert(self@ =~= m0.insert(
                table@,
                (level, Seq::new(512, |x: int| if x < 0 && links_to(level, es@[x], t) { 0u64 } else { es@[x] })),
            ));
        }
        let mut i: u16 = 0;
        while i < 512
            invariant
                i <= 512,
                self.wf(),
                self.keys@ == old(self).keys@,
                m0 == old(self)@,
                m0.contains_key(table@),
                level == m0[table@].0,
                es@ == m0[table@].1,
                es@.len() == 512,
                self@ == m0.insert(
                    table@,
                    (level, Seq::new(512, |x: int| if x < i && links_to(level, es@[x], t) { 0u64 } else { es@[x] })),
                ),
            decreases 512 - i,
        {
            let e = es[i as usize];
            let ghost before = self@;
            let ghost row = Seq::new(512, |x: int| if x < i + 1 && links_to(level, es@[x], t) { 0u64 } else { es@[x] });
            if level > 1 && e != 0 && e & PageTableFlags::HUGE_PAGE == 0 && e & FRAME_MASK == t {
                let off = PageTableOffset::new_truncate(i);
                proof {
                    assert(links_to(level, es@[i as int], t));
                    assert(off@ == i);
                }
                self.clear_entry(table, off);
                proof {
                    assert(self@[table@].1 =~= row);
                }
            } else {
                proof {
                    assert(!links_to(level, es@[i as int], t));
                    assert(before[table@].1 =~= row);
                }
            }
            proof {
                assert(self@ =~= m0.insert(table@, (level, row)));
            }
            i = i + 1;
        }
        proof {
            assert(Seq::new(512, |x: int| if x < 512 && links_to(level, es@[x], t) { 0u64 } else { es@[x] }) =~= cleared_row(level, es@, t));
        }
    }

    /// Clears every entry of every stored table that links to the table at
    /// `t`.
    fn unlink_all(&mut self, t: u64)
        requires
            old(self).wf(),
        ensures
            final(self).wf(),
            final(self)@ == unlinked(old(self)@, t),
    {
        let ghost m0 = self@;
        let ghost k0 = self.keys@;
        let n = self.keys.len();
        let mut j: usize = 0;
        while j < n
            invariant
                j <= n,
                n == k0.len(),
                self.wf(),
                self.keys@ == k0,
                self.key_list() == k0,
                m0 == old(self)@,
                tables_wf(m0),
                self@.dom() == m0.dom(),
                forall|k: u64| #[trigger]
                    m0.contains_key(k) ==> self@[k] == if k0.subrange(0, j as int).contains(k) {
                        (m0[k].0, cleared_row(m0[k].0, m0[k].1, t))
                    } else {
                        m0[k]
                    },
            decreases n - j,
        {
            let k = self.keys[j];
            let ghost before = self@;
            let ghost done = k0.subrange(0, j as int);
            if self.tables.contains_key(&k) {
                proof {
                    assert(before.contains_key(k));
                    assert(m0.contains_key(k));
                    assert(is_frame_addr(k));
                }
                let f = Frame::from_start_address(PhysAddr::new(k));
                self.unlink_in_table(f, t);
                proof {
                    let c = cleared_row(m0[k].0, m0[k].1, t);
                    assert(cleared_row(m0[k].0, c, t) =~= c);
                }
            }
            j = j + 1;
            proof {
                assert forall|x: u64| #[trigger] m0.contains_key(x) implies self@[x] == if k0.subrange(0, j as int).contains(x) {
                    (m0[x].0, cleared_row(m0[x].0, m0[x].1, t))
                } else {
                    m0[x]
                } by {
                    let now = k0.subrange(0, j as int);
                    assert(now =~= done.push(k));
                    assert(before.contains_key(x));
                    if x != k {
                        assert(self@[x] == before[x]);
                    } else {
                        assert(now[now.len() - 1] == k);
                        assert(now.contains(x));
                        let c = cleared_row(m0[k].0, m0[k].1, t);
                        assert(cleared_row(m0[k].0, c, t) =~= c);
                    }
                    if now.contains(x) && !done.contains(x) {
                        let y = choose|y: int| 0 <= y < now.len() && #[trigger] now[y] == x;
                        if y < done.len() {
                            assert(done[y] == x);
                        }
                        assert(x == k);
                    }
                    if !now.contains(x) && done.contains(x) {
                        let y = choose|y: int| 0 <= y < done.len() && #[trigger] done[y] == x;
                        assert(now[y] == x);
                    }
                }
                assert(self@.dom() =~= m0.dom());
            }
        }
        proof {
            assert forall|x: u64| #[trigger] m0.contains_key(x) implies k0.subrange(0, n as int).contains(x) by {
                assert(k0.subrange(0, n as int) =~= k0);
            }
            assert(self@ =~= unlinked(m0, t));
        }
    }

    /// Stores a new table, every entry unused, at `frame` for `level`,
    /// in place of any table stored there; a table stored there at another
    /// level is first unlinked from every table (see `replaced`).
    pub fn reset_table(&mut self, frame: Frame, level: u8)
        requires
            old(self).wf(),
            1 <= level <= 4,
        ensures
            final(self).wf(),
            final(self)@ == replaced(old(self)@, frame@, level),
    {
        if !self.contains(frame) {
            self.insert_table(frame, level);
            return;
        }
        let ghost m0 = self@;
        let k: u64 = frame.base().as_u64();
        if self.level_of(frame) != level {
            self.unlink_all(k);
        }
        let ghost m1 = self@;
        let _ = self.take(k);
        let table = AnyPageTable::new();
        assert(table@ =~= Seq::new(512, |i: int| 0u64));
        self.tables.insert(k, LeveledTable { level, table });
        proof {
            assert forall|j: u64| #[trigger] self.tables@.contains_key(j) implies self.keys@.contains(j) by {
                assert(m1.contains_key(j));
            }
            let m = self@;
            assert(m =~= m1.insert(frame@, (level, Seq::new(512, |i: int| 0u64))));
            assert forall|j: u64| #[trigger] m.contains_key(j) implies {
                &&& is_frame_addr(j)
                &&& 1 <= m[j].0 <= 4
                &&& m[j].1.len() == 512
                &&& forall|i: int| 0 <= i < 512 ==> child_ok(m, m[j].0, #[trigger] m[j].1[i])
            } by {
                if j != frame@ {
                    assert forall|i: int| 0 <= i < 512 implies child_ok(m, m[j].0, #[trigger] m[j].1[i]) by {
                        assert(child_ok(m1, m1[j].0, m1[j].1[i]));
                        if m0[frame@].0 != level {
                            assert(m1[j].1[i] == cleared_row(m0[j].0, m0[j].1, frame@)[i]);
                        }
                    }
                }
            }
        }
    }

    /// The raw entries of the table at `table`.
    pub fn entries(&self, table: Frame) -> (r: Vec<u64>)
        requires
            self.wf(),
            self@.contains_key(table@),
        ensures
            r@ == self@[table@].1,
    {
        let t = self.table(table);
        let mut out: Vec<u64> = Vec::new();
        let mut i: u16 = 0;
        while i < 512
            invariant
                i <= 512,
                t.wf(),
                t@ == self@[table@].1,
                t@.len() == 512,
                out@ == t@.subrange(0, i as int),
            decreases 512 - i,
        {
            let e = t.get(PageTableOffset::new_truncate(i)).get_raw();
            out.push(e);
            i = i + 1;
            proof {
                assert(out@ =~= t@.subrange(0, i as int));
            }
        }
        proof {
            assert(out@ =~= t@);
        }
        out
    }
}

/// A pending TLB invalidation for a page whose mapping changed.
#[derive(Debug)]
#[must_use]
pub struct Flusher {
    page: Page,
}

impl Flusher {
    pub closed spec fn view(&self) -> usize {
        self.page@
    }

    pub fn new(page: Page) -> (r: Self)
        ensures
            r@ == page@,
    {
        Self { page }
    }

    /// The page to invalidate.
    pub fn page(&self) -> (r: Page)
        ensures
            r@ == self@,
    {
        self.page
    }

    /// Drops the invalidation, for a page not yet in use.
    pub fn ignore(self) {
    }
}

/// An x86-64 address space, named by the frame of its level 4 table.
#[derive(Debug, Clone, Copy)]
pub struct X64Addrspace {
    l4_frame: Frame,
}

impl X64Addrspace {
    /// The base address of the level 4 table.
    pub closed spec fn view(&self) -> u64 {
        self.l4_frame@
    }

    /// The address space whose level 4 table is at `frame`.
    pub fn from_frame(frame: Frame) -> (r: Self)
        ensures
            r@ == frame@,
            r.table_frame() == frame,
    {
        Self { l4_frame: frame }
    }

    /// The frame of the level 4 table.
    pub closed spec fn table_frame(&self) -> Frame {
        self.l4_frame
    }

    /// The frame of the level 4 table.
    pub fn frame(&self) -> (r: Frame)
        ensures
            r@ == self@,
            r == self.table_frame(),
    {
        self.l4_frame
    }

    /// Gives up the address space, returning the frame of its level 4 table.
    pub fn into_frame(self) -> (r: Frame)
        ensures
            r@ == self@,
            r == self.table_frame(),
    {
        self.l4_frame
    }

    /// Whether the address space is a stored level 4 table.
    pub open spec fn valid_in(&self, tables: &PageTables) -> bool {
        &&& tables.wf()
        &&& tables@.contains_key(self@)
        &&& tables@[self@].0 == 4
    }

    /// A new address space at `l4_frame` sharing the kernel half (entries 256
    /// to 511) of `current`'s level 4 table; its user half is empty.
    pub fn new_with_kernel_entries(l4_frame: Frame, current: &X64Addrspace, tables: &mut PageTables) -> (r: Self)
        requires
            current.valid_in(old(tables)),
            !old(tables)@.contains_key(l4_frame@),
        ensures
            r@ == l4_frame@,
            r.valid_in(final(tables)),
            current.valid_in(final(tables)),
            extends(old(tables)@, final(tables)@),
            final(tables)@ == old(tables)@.insert(
                l4_frame@,
                (4u8, Seq::new(512, |i: int| if i < 256 { 0u64 } else { old(tables)@[current@].1[i] })),
            ),
    {
        let ghost m0 = tables@;
        tables.insert_table(l4_frame, 4);
        let mut i: u16 = 256;
        assert(Seq::new(512, |j: int| 0u64) =~= Seq::new(
            512,
            |j: int| if 256 <= j < i { m0[current@].1[j] } else { 0u64 },
        ));
        while i < 512
            invariant
                256 <= i <= 512,
                tables.wf(),
                current.valid_in(tables),
                !m0.contains_key(l4_frame@),
                tables_wf(m0),
                current@ != l4_frame@,
                m0.contains_key(current@),
                tables@ == m0.insert(
                    l4_frame@,
                    (4u8, Seq::new(512, |j: int| if 256 <= j < i { m0[current@].1[j] } else { 0u64 })),
                ),
            decreases 512 - i,
        {
            let offset = PageTableOffset::new_truncate(i);
            let e = tables.table(current.l4_frame).get(offset).get();
            let ghost before = tables@;
            if let Some((frame, flags)) = e {
                tables.write_entry(l4_frame, offset, frame, flags);
                proof {
                    let v = m0[current@].1[i as int];
                    let fr = frame@;
                    let fl = flags@;
                    assert(fl | fr == v) by (bit_vector)
                        requires
                            fr == v & 0x000F_FFFF_FFFF_F000u64,
                            fl == v & 0xFFF0_0000_0000_0FFFu64,
                    ;
                }
            }
            proof {
                let m = tables@;
                let nt = Seq::new(512, |j: int| if 256 <= j < i + 1 { m0[current@].1[j] } else { 0u64 });
                if e is None {
                    assert(m0[current@].1[i as int] == 0);
                }
                assert(m[l4_frame@].1 =~= nt);
                assert(m =~= m0.insert(l4_frame@, (4u8, nt)));
                assert forall|k: u64| #[trigger] m.contains_key(k) implies {
                    &&& is_frame_addr(k)
                    &&& 1 <= m[k].0 <= 4
                    &&& m[k].1.len() == 512
                    &&& forall|x: int| 0 <= x < 512 ==> child_ok(m, m[k].0, #[trigger] m[k].1[x])
                } by {
                    assert(before.contains_key(k));
                    assert forall|x: int| 0 <= x < 512 implies child_ok(m, m[k].0, #[trigger] m[k].1[x]) by {
                        if k == l4_frame@ {
                            if 256 <= x < i + 1 {
                                assert(child_ok(m0, 4, m0[current@].1[x]));
                            }
                        } else {
                            assert(child_ok(m0, m0[k].0, m0[k].1[x]));
                        }
                    }
                }
            }
            i = i + 1;
        }
        proof {
            let m = tables@;
            let nt = Seq::new(512, |j: int| if j < 256 { 0u64 } else { m0[current@].1[j] });
            assert(m[l4_frame@].1 =~= nt);
            assert(m =~= m0.insert(l4_frame@, (4u8, nt)));
        }
        Self { l4_frame }
    }

    /// The 4 KiB translation of `page`: the frame it is mapped to and the
    /// entry's flags, or `None` when it isn't mapped.
    pub fn translate_page(&self, tables: &PageTables, page: Page) -> (r: Option<(Frame, PageTableFlags)>)
        requires
            self.valid_in(tables),
        ensures
            match lookup(tables@, self@, page@, 4) {
                None => r is None,
                Some(x) => r matches Some(y) && y.0@ == x.0 && y.1@ == x.1,
            },
    {
        let addr = page.base();
        let mut level: u8 = 4;
        let mut table: Frame = self.l4_frame;
        loop
            invariant
                1 <= level <= 4,
                tables.wf(),
                tables@.contains_key(table@),
                tables@[table@].0 == level,
                addr@ == page@,
                lookup(tables@, self@, page@, 4) == lookup(tables@, table@, page@, level as int),
            decreases level,
        {
            let offset = addr.page_table_index(PageTableLevel::new(level));
            let ghost e = tables@[table@].1[index_at_level(page@, level as int)];
            proof {
                lemma_index_in_table(page@, level as int);
                assert(child_ok(tables@, level, e));
            }
            match tables.table(table).get(offset).get() {
                None => return None,
                Some((frame, flags)) => {
                    if level == 1 {
                        return Some((frame, flags));
                    }
                    if flags.contains(PageTableFlags::HUGE_PAGE) {
                        proof {
                            let fl = flags@;
                            assert(e & 128u64 != 0) by (bit_vector)
                                requires
                                    fl == e & 0xFFF0_0000_0000_0FFFu64,
                                    fl & 128u64 == 128u64,
                            ;
                        }
                        return None;
                    }
                    proof {
                        let fl = flags@;
                        assert(e & 128u64 == 0) by (bit_vector)
                            requires
                                fl == e & 0xFFF0_0000_0000_0FFFu64,
                                fl & 128u64 != 128u64,
                        ;
                    }
                    table = frame;
                    level = level - 1;
                },
            }
        }
    }

    /// Maps `page` to `frame` with `flags`, walking down from the level 4
    /// table and creating each missing intermediate table in a frame from
    /// `alloc`, linked with `parent_flags`.
    ///
    /// Fails with `AlreadyMapped` when the page already has a translation,
    /// with `HugeParentEntry` when the walk meets a huge entry, and with
    /// `AllocError` when `alloc` runs out; in the first two cases nothing is
    /// changed. Whatever happens, no existing translation changes, every
    /// entry written links a new table with the hardware form of
    /// `parent_flags` and the present bit or is the bottom entry for `frame`
    /// and `flags`, and so every page that gains a translation (the page
    /// itself, or another whose walk shares a table) gets that one.
    pub fn map_page<A: FrameAllocator>(
        &self,
        tables: &mut PageTables,
        page: Page,
        frame: Frame,
        flags: PageFlags,
        parent_flags: PageFlags,
        alloc: &mut A,
    ) -> (r: Result<Flusher, MapPageError>)
        requires
            self.valid_in(old(tables)),
            old(alloc).can_alloc(),
            old(alloc).avoids(old(tables)@.dom()),
        ensures
            self.valid_in(final(tables)),
            extends(old(tables)@, final(tables)@),
            final(alloc).avoids(final(tables)@.dom()),
            !(r matches Err(MapPageError::AllocError(_))) ==> final(alloc).can_alloc(),
            r matches Err(MapPageError::AllocError(_)) ==> final(alloc).exhausted(),
            new_entries_ok(old(tables)@, final(tables)@, pte_bits(flags) | frame@, pte_bits(parent_flags) | 1),
            no_new_huge_hits(old(tables)@, final(tables)@, self@),
            forall|q: usize|
                lookup(old(tables)@, self@, q, 4) is None && #[trigger] lookup(final(tables)@, self@, q, 4) is Some
                    ==> lookup(final(tables)@, self@, q, 4) == decode_entry(pte_bits(flags) | frame@),
            lookup(old(tables)@, self@, page@, 4) is Some <==> r is Err && r->Err_0 is AlreadyMapped,
            hits_huge(old(tables)@, self@, page@, 4) <==> r is Err && r->Err_0 is HugeParentEntry,
            match r {
                Ok(fl) => fl@ == page@ && lookup(final(tables)@, self@, page@, 4) == decode_entry(
                    pte_bits(flags) | frame@,
                ),
                Err(MapPageError::AlreadyMapped(f)) => final(tables)@ == old(tables)@ && f@ == (lookup(
                    old(tables)@,
                    self@,
                    page@,
                    4,
                )->0).0,
                Err(MapPageError::HugeParentEntry) => final(tables)@ == old(tables)@,
                Err(MapPageError::AllocError(_)) => lookup(final(tables)@, self@, page@, 4) is None,
            },
    {
        let pte_flags = PageTableFlags::from_page_flags(flags);
        let parent = PageTableFlags::from_page_flags(parent_flags).with(PageTableFlags::PRESENT);
        let addr = page.base();
        let mut level: u8 = 4;
        let mut table: Frame = self.l4_frame;
        let ghost m0 = tables@;
        let ghost v = pte_bits(flags) | frame@;
        proof {
            lemma_pte_bits(flags);
            lemma_pte_bits(parent_flags);
            let pb = pte_bits(parent_flags);
            let pv = parent@;
            assert(pv == pb | 1) by (bit_vector)
                requires
                    pv == pb | (1u64 & 0xFFF0_0000_0000_0FFFu64),
            ;
        }
        loop
            invariant
                1 <= level <= 4,
                tables.wf(),
                tables_wf(m0),
                m0 == old(tables)@,
                m0.contains_key(self@),
                m0[self@].0 == 4,
                extends(m0, tables@),
                v == pte_bits(flags) | frame@,
                new_entries_ok(m0, tables@, v, parent@),
                tables@.contains_key(self@),
                tables@[self@].0 == 4,
                tables@.contains_key(table@),
                tables@[table@].0 == level,
                tables@ == m0 || forall|j: int| 0 <= j < 512 ==> #[trigger] tables@[table@].1[j] == 0,
                addr@ == page@,
                pte_flags@ == pte_bits(flags),
                parent@ == pte_bits(parent_flags) | 1,
                pte_flags@ & FRAME_MASK == 0,
                parent@ & FRAME_MASK == 0,
                parent@ & huge_bit() == 0,
                parent@ != 0,
                reaches(tables@, self@, page@, 4, table@, level as int),
                lookup(m0, self@, page@, 4) == lookup(tables@, table@, page@, level as int),
                hits_huge(m0, self@, page@, 4) == hits_huge(tables@, table@, page@, level as int),
                alloc.can_alloc(),
                alloc.avoids(tables@.dom()),
            decreases level,
        {
            let offset = addr.page_table_index(PageTableLevel::new(level));
            let ghost m = tables@;
            let ghost e = m[table@].1[index_at_level(page@, level as int)];
            proof {
                lemma_index_in_table(page@, level as int);
                assert(child_ok(m, level, e));
                lemma_reaches_lookup(m, self@, page@, 4, table@, level as int);
            }
            match tables.table(table).get(offset).get() {
                Some((mapped, mflags)) => {
                    if level == 1 {
                        proof {
                            lemma_new_translations(m0, m, v, parent@, self@);
                        }
                        return Err(MapPageError::AlreadyMapped(mapped));
                    }
                    if mflags.contains(PageTableFlags::HUGE_PAGE) {
                        proof {
                            let fl = mflags@;
                            assert(e & 128u64 != 0) by (bit_vector)
                                requires
                                    fl == e & 0xFFF0_0000_0000_0FFFu64,
                                    fl & 128u64 == 128u64,
                            ;
                        }
                        proof {
                            lemma_new_translations(m0, m, v, parent@, self@);
                        }
                        return Err(MapPageError::HugeParentEntry);
                    }
                    proof {
                        let fl = mflags@;
                        assert(e & 128u64 == 0) by (bit_vector)
                            requires
                                fl == e & 0xFFF0_0000_0000_0FFFu64,
                                fl & 128u64 != 128u64,
                        ;
                        lemma_reaches_step(m, self@, page@, 4, table@, level as int);
                    }
                    table = mapped;
                    level = level - 1;
                },
                None => {
                    if level == 1 {
                        tables.write_entry(table, offset, frame, pte_flags);
                        proof {
                            let m2 = tables@;
                            lemma_frame_addr(frame);
                            assert(m2.dom() =~= m.dom());
                            lemma_entry_parts(pte_flags@, frame@);
                            lemma_write_keeps(m, table@, index_at_level(page@, 1), pte_flags@ | frame@);
                            lemma_extends_trans(m0, m, m2);
                            lemma_extends_reaches(m, m2, self@, page@, 4, table@, 1);
                            lemma_reaches_lookup(m2, self@, page@, 4, table@, 1);
                            lemma_new_entry_write(m0, m, v, parent@, table@, index_at_level(page@, 1), pte_flags@ | frame@);
                            lemma_new_translations(m0, m2, v, parent@, self@);
                        }
                        return Ok(Flusher::new(page));
                    }
                    let fresh = match alloc.alloc_kernel_frame() {
                        Ok(f) => f,
                        Err(err) => {
                            proof {
                                assert(lookup(m, table@, page@, level as int) is None);
                                lemma_new_translations(m0, m, v, parent@, self@);
                            }
                            return Err(MapPageError::AllocError(err));
                        },
                    };
                    let _ = fresh.base();
                    proof {
                        lemma_frame_addr(fresh);
                        assert(!m.dom().contains(fresh@));
                    }
                    tables.insert_table(fresh, level - 1);
                    let ghost m1 = tables@;
                    tables.write_entry(table, offset, fresh, parent);
                    proof {
                        let m2 = tables@;
                        let link = parent@ | fresh@;
                        lemma_entry_parts(parent@, fresh@);
                        assert(link != 0);
                        lemma_link_keeps(m1, table@, index_at_level(page@, level as int), link);
                        lemma_extends_trans(m0, m, m1);
                        lemma_extends_trans(m0, m1, m2);
                        lemma_extends_reaches(m, m1, self@, page@, 4, table@, level as int);
                        lemma_extends_reaches(m1, m2, self@, page@, 4, table@, level as int);
                        lemma_reaches_step(m2, self@, page@, 4, table@, level as int);
                        assert(m2[fresh@].1[index_at_level(page@, level - 1)] == 0);
                        assert(m2.dom() =~= m.dom().insert(fresh@));
                        lemma_new_entry_table(m0, m, v, parent@, fresh@, (level - 1) as u8);
                        assert(!m0.contains_key(fresh@));
                        lemma_new_entry_write(m0, m1, v, parent@, table@, index_at_level(page@, level as int), link);
                        assert(m2 == m1.insert(table@, (m1[table@].0, m1[table@].1.update(index_at_level(page@, level as int), link))));
                    }
                    table = fresh;
                    level = level - 1;
                },
            }
        }
    }
}

/// Once `map_page` has set the translation of a page to `frame` with the
/// hardware form of `flags`, translating the page gives back exactly that
/// frame and those flags (unless both are zero, which reads as unmapped).
pub proof fn law_map_then_translate(m: Map<u64, (u8, Seq<u64>)>, l4: u64, page: usize, frame: u64, flags: PageFlags)
    requires
        is_frame_addr(frame),
        !(frame == 0 && pte_bits(flags) == 0),
        lookup(m, l4, page, 4) == decode_entry(pte_bits(flags) | frame),
    ensures
        lookup(m, l4, page, 4) == Some((frame, pte_bits(flags))),
{
    lemma_pte_bits(flags);
    lemma_entry_parts(pte_bits(flags), frame);
}

/// Two level 4 tables whose upper halves agree translate every kernel-half
/// address (level 4 index 256 or more) the same way; a level 4 table whose
/// lower half is unused translates no user-half address.
pub proof fn law_kernel_half_shared(m: Map<u64, (u8, Seq<u64>)>, a: u64, b: u64, addr: usize)
    requires
        m.contains_key(a),
        m.contains_key(b),
        forall|i: int| 256 <= i < 512 ==> m[a].1[i] == m[b].1[i],
    ensures
        index_at_level(addr, 4) >= 256 ==> lookup(m, a, addr, 4) == lookup(m, b, addr, 4),
        (index_at_level(addr, 4) < 256 && forall|i: int| 0 <= i < 256 ==> m[a].1[i] == 0) ==> lookup(
            m,
            a,
            addr,
            4,
        ) is None,
{
    lemma_index_in_table(addr, 4);
}

/// Every entry of `m` in use that was not in use in `m0` is, above the
/// bottom level, a link with the flag bits `p` (without the huge bit) to a
/// table `m0` does not hold, and at the bottom level the entry `v`.
pub open spec fn new_entries_ok(m0: Map<u64, (u8, Seq<u64>)>, m: Map<u64, (u8, Seq<u64>)>, v: u64, p: u64) -> bool {
    forall|k: u64, i: int|
        #![trigger m[k].1[i]]
        m.contains_key(k) && 0 <= i < 512 && m[k].1[i] != 0 && !(m0.contains_key(k) && m0[k].1[i] != 0)
            ==> if m[k].0 > 1 {
            m[k].1[i] & FLAGS_MASK == p && m[k].1[i] & huge_bit() == 0 && !m0.contains_key(m[k].1[i] & FRAME_MASK)
        } else {
            m[k].1[i] == v
        }
}

/// Writing entry `i` of table `t` with `e` of the shape `new_entries_ok`
/// allows keeps it.
proof fn lemma_new_entry_write(m0: Map<u64, (u8, Seq<u64>)>, m: Map<u64, (u8, Seq<u64>)>, v: u64, p: u64, t: u64, i: int, e: u64)
    requires
        new_entries_ok(m0, m, v, p),
        m.contains_key(t),
        m[t].1.len() == 512,
        0 <= i < 512,
        e != 0 ==> if m[t].0 > 1 {
            e & FLAGS_MASK == p && e & huge_bit() == 0 && !m0.contains_key(e & FRAME_MASK)
        } else {
            e == v
        },
    ensures
        new_entries_ok(m0, m.insert(t, (m[t].0, m[t].1.update(i, e))), v, p),
{
    let m2 = m.insert(t, (m[t].0, m[t].1.update(i, e)));
    assert forall|k: u64, j: int|
        m2.contains_key(k) && 0 <= j < 512 && #[trigger] m2[k].1[j] != 0 && !(m0.contains_key(k) && m0[k].1[j]
            != 0) implies if m2[k].0 > 1 {
        m2[k].1[j] & FLAGS_MASK == p && m2[k].1[j] & huge_bit() == 0 && !m0.contains_key(m2[k].1[j] & FRAME_MASK)
    } else {
        m2[k].1[j] == v
    } by {
        if !(k == t && j == i) {
            assert(m2[k].1[j] == m[k].1[j]);
        }
    }
}

/// Storing a new table with every entry unused keeps `new_entries_ok`.
proof fn lemma_new_entry_table(m0: Map<u64, (u8, Seq<u64>)>, m: Map<u64, (u8, Seq<u64>)>, v: u64, p: u64, t: u64, level: u8)
    requires
        new_entries_ok(m0, m, v, p),
    ensures
        new_entries_ok(m0, m.insert(t, (level, Seq::new(512, |i: int| 0u64))), v, p),
{
    let m2 = m.insert(t, (level, Seq::new(512, |i: int| 0u64)));
    assert forall|k: u64, j: int|
        m2.contains_key(k) && 0 <= j < 512 && #[trigger] m2[k].1[j] != 0 && !(m0.contains_key(k) && m0[k].1[j]
            != 0) implies if m2[k].0 > 1 {
        m2[k].1[j] & FLAGS_MASK == p && m2[k].1[j] & huge_bit() == 0 && !m0.contains_key(m2[k].1[j] & FRAME_MASK)
    } else {
        m2[k].1[j] == v
    } by {
        if k != t {
            assert(m2[k].1[j] == m[k].1[j]);
        }
    }
}

/// From a table `m0` does not hold, the walk finds nothing or the entry `v`.
proof fn lemma_fresh_lookup(m0: Map<u64, (u8, Seq<u64>)>, m: Map<u64, (u8, Seq<u64>)>, v: u64, p: u64, t: u64, q: usize, l: int)
    requires
        tables_wf(m),
        new_entries_ok(m0, m, v, p),
        m.contains_key(t),
        !m0.contains_key(t),
        m[t].0 == l,
        1 <= l <= 4,
    ensures
        lookup(m, t, q, l) is None || lookup(m, t, q, l) == decode_entry(v),
    decreases l,
{
    lemma_index_in_table(q, l);
    let i = index_at_level(q, l);
    let e = m[t].1[i];
    if e != 0 && l > 1 && e & huge_bit() == 0 {
        assert(child_ok(m, m[t].0, m[t].1[i]));
        lemma_fresh_lookup(m0, m, v, p, e & FRAME_MASK, q, l - 1);
    }
}

/// A page mapped through a table of `m0`, unmapped in `m0` and mapped in
/// `m`, has the entry `v`.
proof fn lemma_new_lookup(m0: Map<u64, (u8, Seq<u64>)>, m: Map<u64, (u8, Seq<u64>)>, v: u64, p: u64, t: u64, q: usize, l: int)
    requires
        tables_wf(m0),
        tables_wf(m),
        extends(m0, m),
        new_entries_ok(m0, m, v, p),
        m0.contains_key(t),
        m0[t].0 == l,
        1 <= l <= 4,
        lookup(m0, t, q, l) is None,
        lookup(m, t, q, l) is Some,
    ensures
        lookup(m, t, q, l) == decode_entry(v),
    decreases l,
{
    lemma_index_in_table(q, l);
    let i = index_at_level(q, l);
    let e0 = m0[t].1[i];
    let e = m[t].1[i];
    if e0 != 0 {
        assert(e == e0);
        assert(child_ok(m0, m0[t].0, m0[t].1[i]));
        lemma_new_lookup(m0, m, v, p, e & FRAME_MASK, q, l - 1);
    } else if l > 1 {
        assert(child_ok(m, m[t].0, m[t].1[i]));
        lemma_fresh_lookup(m0, m, v, p, e & FRAME_MASK, q, l - 1);
    }
}

/// Every walk from the level 4 table `r` that meets a huge entry in `m2`
/// meets one in `m1` too.
pub open spec fn no_new_huge_hits(m1: Map<u64, (u8, Seq<u64>)>, m2: Map<u64, (u8, Seq<u64>)>, r: u64) -> bool {
    forall|q: usize| #[trigger] hits_huge(m2, r, q, 4) ==> hits_huge(m1, r, q, 4)
}

/// From a table `m0` does not hold, no walk meets a huge entry.
proof fn lemma_fresh_no_huge(m0: Map<u64, (u8, Seq<u64>)>, m: Map<u64, (u8, Seq<u64>)>, v: u64, p: u64, t: u64, q: usize, l: int)
    requires
        tables_wf(m),
        new_entries_ok(m0, m, v, p),
        m.contains_key(t),
        !m0.contains_key(t),
        m[t].0 == l,
        1 <= l <= 4,
    ensures
        !hits_huge(m, t, q, l),
    decreases l,
{
    lemma_index_in_table(q, l);
    let i = index_at_level(q, l);
    let e = m[t].1[i];
    if e != 0 && l > 1 {
        assert(m[t].1[i] & huge_bit() == 0);
        assert(child_ok(m, m[t].0, m[t].1[i]));
        lemma_fresh_no_huge(m0, m, v, p, e & FRAME_MASK, q, l - 1);
    }
}

/// A walk from a table of `m0` that meets a huge entry in `m` meets one in
/// `m0` already.
proof fn lemma_no_new_huge(m0: Map<u64, (u8, Seq<u64>)>, m: Map<u64, (u8, Seq<u64>)>, v: u64, p: u64, t: u64, q: usize, l: int)
    requires
        tables_wf(m0),
        tables_wf(m),
        extends(m0, m),
        new_entries_ok(m0, m, v, p),
        m0.contains_key(t),
        m0[t].0 == l,
        1 <= l <= 4,
        hits_huge(m, t, q, l),
    ensures
        hits_huge(m0, t, q, l),
    decreases l,
{
    lemma_index_in_table(q, l);
    let i = index_at_level(q, l);
    let e0 = m0[t].1[i];
    let e = m[t].1[i];
    if e0 != 0 {
        assert(e == e0);
        if e0 & huge_bit() == 0 {
            assert(child_ok(m0, m0[t].0, m0[t].1[i]));
            lemma_no_new_huge(m0, m, v, p, e & FRAME_MASK, q, l - 1);
        }
    } else {
        assert(m[t].1[i] & huge_bit() == 0);
        assert(child_ok(m, m[t].0, m[t].1[i]));
        lemma_fresh_no_huge(m0, m, v, p, e & FRAME_MASK, q, l - 1);
    }
}

/// Every page mapped through the level 4 table `r` in `m` and not in `m0`
/// has the entry `v`.
proof fn lemma_new_translations(m0: Map<u64, (u8, Seq<u64>)>, m: Map<u64, (u8, Seq<u64>)>, v: u64, p: u64, r: u64)
    requires
        tables_wf(m0),
        tables_wf(m),
        extends(m0, m),
        new_entries_ok(m0, m, v, p),
        m0.contains_key(r),
        m0[r].0 == 4,
    ensures
        forall|q: usize|
            lookup(m0, r, q, 4) is None && #[trigger] lookup(m, r, q, 4) is Some ==> lookup(m, r, q, 4)
                == decode_entry(v),
        no_new_huge_hits(m0, m, r),
{
    assert forall|q: usize| #[trigger] hits_huge(m, r, q, 4) implies hits_huge(m0, r, q, 4) by {
        lemma_no_new_huge(m0, m, v, p, r, q, 4);
    }
    assert forall|q: usize| lookup(m0, r, q, 4) is None && #[trigger] lookup(m, r, q, 4) is Some implies lookup(
        m,
        r,
        q,
        4,
    ) == decode_entry(v) by {
        lemma_new_lookup(m0, m, v, p, r, q, 4);
    }
}

/// A level 4 table whose user half (entries 0 to 255) is unused, as that of
/// a new address space, translates no address below the kernel half.
pub proof fn law_empty_user_half(m: Map<u64, (u8, Seq<u64>)>, l4: u64, addr: usize)
    requires
        m.contains_key(l4),
        forall|i: int| 0 <= i < 256 ==> m[l4].1[i] == 0,
        addr < 0x8000_0000_0000,
    ensures
        lookup(m, l4, addr, 4) is None,
{
    assert(addr as int / 0x80_0000_0000 < 256);
    vstd::arithmetic::div_mod::lemma_small_mod((addr as int / 0x80_0000_0000) as nat, 512);
    assert(index_at_level(addr, 4) < 256);
}

/// A frame's base address is a frame address.
proof fn lemma_frame_addr(f: Frame)
    requires
        f.wf(),
    ensures
        is_frame_addr(f@),
{
}

/// Writing a bottom-level entry over an unused one keeps the store well
/// formed and extends it.
proof fn lemma_write_keeps(m: Map<u64, (u8, Seq<u64>)>, t: u64, i: int, v: u64)
    requires
        tables_wf(m),
        m.contains_key(t),
        m[t].0 == 1,
        0 <= i < 512,
        m[t].1[i] == 0,
    ensures
        tables_wf(m.insert(t, (m[t].0, m[t].1.update(i, v)))),
        extends(m, m.insert(t, (m[t].0, m[t].1.update(i, v)))),
{
    let m2 = m.insert(t, (m[t].0, m[t].1.update(i, v)));
    assert forall|k: u64| #[trigger] m2.contains_key(k) implies {
        &&& is_frame_addr(k)
        &&& 1 <= m2[k].0 <= 4
        &&& m2[k].1.len() == 512
        &&& forall|x: int| 0 <= x < 512 ==> child_ok(m2, m2[k].0, #[trigger] m2[k].1[x])
    } by {
        assert forall|x: int| 0 <= x < 512 implies child_ok(m2, m2[k].0, #[trigger] m2[k].1[x]) by {
            if k != t {
                assert(child_ok(m, m[k].0, m[k].1[x]));
            }
        }
    }
}

/// Linking an unused entry of a table to a stored table one level down
/// keeps the store well formed and extends it.
proof fn lemma_link_keeps(m: Map<u64, (u8, Seq<u64>)>, t: u64, i: int, v: u64)
    requires
        tables_wf(m),
        m.contains_key(t),
        0 <= i < 512,
        m[t].1[i] == 0,
        child_ok(m, m[t].0, v),
    ensures
        tables_wf(m.insert(t, (m[t].0, m[t].1.update(i, v)))),
        extends(m, m.insert(t, (m[t].0, m[t].1.update(i, v)))),
{
    let m2 = m.insert(t, (m[t].0, m[t].1.update(i, v)));
    assert forall|k: u64| #[trigger] m2.contains_key(k) implies {
        &&& is_frame_addr(k)
        &&& 1 <= m2[k].0 <= 4
        &&& m2[k].1.len() == 512
        &&& forall|x: int| 0 <= x < 512 ==> child_ok(m2, m2[k].0, #[trigger] m2[k].1[x])
    } by {
        assert forall|x: int| 0 <= x < 512 implies child_ok(m2, m2[k].0, #[trigger] m2[k].1[x]) by {
            if k == t && x == i {
            } else {
                assert(child_ok(m, m[k].0, m[k].1[x]));
            }
        }
    }
}

} // verus!

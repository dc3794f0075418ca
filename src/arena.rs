//! The arena that owns the root table and every child table.
//!
//! Child tables are handed out from a pool of page frames that starts at
//! `base`: the root table sits at `base`, the middle tables in the
//! `middle_slots` frames after it, then the bottom tables in the next
//! `bottom_slots` frames. A table keeps its frame for the life of the arena,
//! so an entry that points to it stays right.
use vstd::prelude::*;

use crate::coverage::tables_unshared;
use crate::descriptors::{
    block_encoding, desc_addr, is_block_at, is_table_at, lemma_block_is_not_table,
    lemma_frame_fits, lemma_table_encoding, lemma_zero_is_empty, page_encoding, table_encoding,
    DescriptorFlags,
};
use crate::levels::{lemma_slot_bound, slot_of, Bottom, Global, Middle, PageTableLevel};
use crate::table::{block_base, empty_table, PageTable};

verus! {

/// The bytes of one table, and of one frame of the pool.
pub const TABLE_BYTES: usize = 4096;

/// Addresses must fit the 48 bits that an entry can hold.
pub const PHYS_LIMIT: u64 = 0x1_0000_0000_0000;

/// What the arena holds: each table as its 512 raw entries, and the pool.
pub struct TablesModel {
    pub global: Seq<u64>,
    pub middle: Seq<Seq<u64>>,
    pub bottom: Seq<Seq<u64>>,
    pub base: nat,
    pub middle_slots: nat,
    pub bottom_slots: nat,
}

/// The frame of middle table `i`.
pub open spec fn middle_addr(m: TablesModel, i: nat) -> int {
    m.base + TABLE_BYTES * (1 + i)
}

/// The frame of bottom table `j`.
pub open spec fn bottom_addr(m: TablesModel, j: nat) -> int {
    m.base + TABLE_BYTES * (1 + m.middle_slots + j)
}

/// The middle table whose frame is at `addr`.
pub open spec fn middle_index(m: TablesModel, addr: int) -> int {
    (addr - m.base) / (TABLE_BYTES as int) - 1
}

/// The bottom table whose frame is at `addr`.
pub open spec fn bottom_index(m: TablesModel, addr: int) -> int {
    (addr - m.base) / (TABLE_BYTES as int) - 1 - m.middle_slots
}

/// `addr` is the frame of a middle table that exists.
pub open spec fn points_to_middle(m: TablesModel, addr: int) -> bool {
    exists|i: nat| i < m.middle.len() && addr == middle_addr(m, i)
}

/// `addr` is the frame of a bottom table that exists.
pub open spec fn points_to_bottom(m: TablesModel, addr: int) -> bool {
    exists|j: nat| j < m.bottom.len() && addr == bottom_addr(m, j)
}

/// The pool fits below the 48-bit limit and is frame aligned; every table
/// has 512 entries; every entry that points to a table points to one that
/// the arena holds.
pub open spec fn tables_wf(m: TablesModel) -> bool {
    &&& m.base % (TABLE_BYTES as nat) == 0
    &&& m.base + TABLE_BYTES * (1 + m.middle_slots + m.bottom_slots) <= PHYS_LIMIT
    &&& m.base + TABLE_BYTES * (1 + m.middle_slots + m.bottom_slots) <= usize::MAX
    &&& m.middle.len() <= m.middle_slots
    &&& m.bottom.len() <= m.bottom_slots
    &&& m.global.len() == 512
    &&& forall|i: int| 0 <= i < m.middle.len() ==> (#[trigger] m.middle[i]).len() == 512
    &&& forall|j: int| 0 <= j < m.bottom.len() ==> (#[trigger] m.bottom[j]).len() == 512
    &&& forall|s: int|
        0 <= s < 512 && is_table_at::<Global>(#[trigger] m.global[s]) ==> points_to_middle(
            m,
            desc_addr(m.global[s]) as int,
        )
    &&& forall|i: int, s: int|
        0 <= i < m.middle.len() && 0 <= s < 512 && is_table_at::<Middle>(
            #[trigger] m.middle[i][s],
        ) ==> points_to_bottom(m, desc_addr(m.middle[i][s]) as int)
}

/// The arena with a new empty middle table after the others.
pub open spec fn with_new_middle(m: TablesModel) -> TablesModel {
    TablesModel { middle: m.middle.push(empty_table()), ..m }
}

/// The arena with a new empty bottom table after the others.
pub open spec fn with_new_bottom(m: TablesModel) -> TablesModel {
    TablesModel { bottom: m.bottom.push(empty_table()), ..m }
}

/// Finds the middle table for `va` through the root entry, or adds one and
/// points the root entry at it. `None` when the pool has no room left.
pub open spec fn ensure_middle_spec(m: TablesModel, va: usize) -> Option<(TablesModel, nat)> {
    let s = slot_of(va, 30) as int;
    let g = m.global[s];
    if is_table_at::<Global>(g) {
        Some((m, middle_index(m, desc_addr(g) as int) as nat))
    } else if m.middle.len() < m.middle_slots {
        let i = m.middle.len();
        let m1 = with_new_middle(m);
        Some(
            (
                TablesModel {
                    global: m1.global.update(s, table_encoding(middle_addr(m, i) as u64, 0)),
                    ..m1
                },
                i,
            ),
        )
    } else {
        None
    }
}

/// Finds the bottom table for `va` through entry of middle table `i`, or
/// adds one and points that entry at it.
pub open spec fn ensure_bottom_spec(m: TablesModel, i: nat, va: usize) -> Option<(TablesModel, nat)> {
    let s = slot_of(va, 21) as int;
    let d = m.middle[i as int][s];
    if is_table_at::<Middle>(d) {
        Some((m, bottom_index(m, desc_addr(d) as int) as nat))
    } else if m.bottom.len() < m.bottom_slots {
        let j = m.bottom.len();
        let m1 = with_new_bottom(m);
        Some(
            (
                TablesModel {
                    middle: m1.middle.update(
                        i as int,
                        m1.middle[i as int].update(s, table_encoding(bottom_addr(m, j) as u64, 0)),
                    ),
                    ..m1
                },
                j,
            ),
        )
    } else {
        None
    }
}

/// Every table of `m` emptied; the tables and the pool stay.
pub open spec fn zeroed(m: TablesModel) -> TablesModel {
    TablesModel {
        global: empty_table(),
        middle: Seq::new(m.middle.len(), |i: int| empty_table()),
        bottom: Seq::new(m.bottom.len(), |j: int| empty_table()),
        ..m
    }
}

/// The middle table that the root entry for `va` points to.
pub open spec fn middle_of(m: TablesModel, va: usize) -> int {
    middle_index(m, desc_addr(m.global[slot_of(va, 30) as int]) as int)
}

/// The middle-level entry for `va`, found through the root entry.
pub open spec fn middle_entry(m: TablesModel, va: usize) -> u64 {
    m.middle[middle_of(m, va)][slot_of(va, 21) as int]
}

/// The bottom table that the middle-level entry for `va` points to.
pub open spec fn bottom_of(m: TablesModel, va: usize) -> int {
    bottom_index(m, desc_addr(middle_entry(m, va)) as int)
}

/// The bottom-level entry for `va`, found through the two above it.
pub open spec fn bottom_entry(m: TablesModel, va: usize) -> u64 {
    m.bottom[bottom_of(m, va)][slot_of(va, 12) as int]
}

/// The root entry for `va` leads to a middle table that the arena holds.
pub open spec fn reaches_middle(m: TablesModel, va: usize) -> bool {
    is_table_at::<Global>(m.global[slot_of(va, 30) as int]) && 0 <= middle_of(m, va)
        < m.middle.len()
}

/// The root and middle entries for `va` lead to a bottom table that the
/// arena holds.
pub open spec fn reaches_bottom(m: TablesModel, va: usize) -> bool {
    reaches_middle(m, va) && is_table_at::<Middle>(middle_entry(m, va)) && 0 <= bottom_of(m, va)
        < m.bottom.len()
}

/// The physical address that `va` translates to: through a block entry at
/// the middle level, or through a page entry at the bottom level. `None`
/// when the walk meets an entry that neither maps nor leads on.
pub open spec fn translate_spec(m: TablesModel, va: usize) -> Option<u64> {
    if !reaches_middle(m, va) {
        None
    } else if is_block_at::<Middle>(middle_entry(m, va)) {
        Some((desc_addr(middle_entry(m, va)) & !0x1f_ffffu64) | (va as u64 & 0x1f_ffff))
    } else if !reaches_bottom(m, va) {
        None
    } else if is_block_at::<Bottom>(bottom_entry(m, va)) {
        Some(desc_addr(bottom_entry(m, va)) | (va as u64 & 0xfff))
    } else {
        None
    }
}

/// Two arenas with the same pool: a table pointer valid in one is valid in
/// the other when the tables it may point to are there.
proof fn lemma_same_pool_pointers(m: TablesModel, m2: TablesModel)
    requires
        m2.base == m.base,
        m2.middle_slots == m.middle_slots,
        m.middle.len() <= m2.middle.len(),
        m.bottom.len() <= m2.bottom.len(),
    ensures
        forall|a: int| points_to_middle(m, a) ==> points_to_middle(m2, a),
        forall|a: int| points_to_bottom(m, a) ==> points_to_bottom(m2, a),
{
    assert forall|a: int| points_to_middle(m, a) implies points_to_middle(m2, a) by {
        let w = choose|w: nat| w < m.middle.len() && a == middle_addr(m, w);
        assert(middle_addr(m2, w) == middle_addr(m, w));
    }
    assert forall|a: int| points_to_bottom(m, a) implies points_to_bottom(m2, a) by {
        let w = choose|w: nat| w < m.bottom.len() && a == bottom_addr(m, w);
        assert(bottom_addr(m2, w) == bottom_addr(m, w));
    }
}

/// What finding or making the middle table for `va` does: the root entry
/// for `va` then leads to the table it names; only that entry may change,
/// and at most one empty table is added.
pub proof fn lemma_ensure_middle(m: TablesModel, va: usize)
    requires
        tables_wf(m),
        ensure_middle_spec(m, va).is_some(),
    ensures
        ({
            let (m1, i) = ensure_middle_spec(m, va).unwrap();
            &&& tables_wf(m1)
            &&& reaches_middle(m1, va)
            &&& middle_of(m1, va) == i
            &&& m1.middle.len() <= m.middle.len() + 1
            &&& forall|k: int| 0 <= k < m.middle.len() ==> #[trigger] m1.middle[k] == m.middle[k]
            &&& forall|k: int| m.middle.len() <= k < m1.middle.len() ==> #[trigger] m1.middle[k] == empty_table()
            &&& m1.bottom == m.bottom
            &&& forall|s: int| 0 <= s < 512 && s != slot_of(va, 30) ==> #[trigger] m1.global[s] == m.global[s]
            &&& m1.base == m.base && m1.middle_slots == m.middle_slots && m1.bottom_slots == m.bottom_slots
        }),
{
    let s = slot_of(va, 30) as int;
    lemma_slot_bound(va, 30);
    let g = m.global[s];
    let (m1, i) = ensure_middle_spec(m, va).unwrap();
    if is_table_at::<Global>(g) {
        let w = choose|w: nat| w < m.middle.len() && desc_addr(g) as int == middle_addr(m, w);
        lemma_middle_index(m, w);
    } else {
        let n = m.middle.len();
        lemma_frame_in_pool(m, n);
        lemma_table_encoding(middle_addr(m, n) as u64, 0);
        lemma_middle_index(m1, n);
        lemma_zero_is_empty::<Middle>();
        lemma_same_pool_pointers(m, m1);
        assert(desc_addr(m1.global[s]) as int == middle_addr(m1, n));
        assert forall|t: int|
            0 <= t < 512 && is_table_at::<Global>(#[trigger] m1.global[t]) implies points_to_middle(
            m1,
            desc_addr(m1.global[t]) as int,
        ) by {
            if t != s {
                assert(m1.global[t] == m.global[t]);
            }
        }
        assert forall|k: int, t: int|
            0 <= k < m1.middle.len() && 0 <= t < 512 && is_table_at::<Middle>(
                #[trigger] m1.middle[k][t],
            ) implies points_to_bottom(m1, desc_addr(m1.middle[k][t]) as int) by {
            if k < n {
                assert(m1.middle[k] == m.middle[k]);
            }
        }
    }
}

/// What finding or making the bottom table for `va` under middle table `i`
/// does: the middle entry for `va` in table `i` then leads to the table it
/// names; only that entry may change, and at most one empty table is added.
pub proof fn lemma_ensure_bottom(m: TablesModel, i: nat, va: usize)
    requires
        tables_wf(m),
        i < m.middle.len(),
        ensure_bottom_spec(m, i, va).is_some(),
    ensures
        ({
            let (m1, j) = ensure_bottom_spec(m, i, va).unwrap();
            &&& tables_wf(m1)
            &&& is_table_at::<Middle>(m1.middle[i as int][slot_of(va, 21) as int])
            &&& bottom_index(m1, desc_addr(m1.middle[i as int][slot_of(va, 21) as int]) as int) == j
            &&& j < m1.bottom.len()
            &&& m1.bottom.len() <= m.bottom.len() + 1
            &&& forall|k: int| 0 <= k < m.bottom.len() ==> #[trigger] m1.bottom[k] == m.bottom[k]
            &&& m1.global == m.global
            &&& m1.middle.len() == m.middle.len()
            &&& forall|k: int| 0 <= k < m.middle.len() && k != i ==> #[trigger] m1.middle[k] == m.middle[k]
            &&& forall|t: int| 0 <= t < 512 && t != slot_of(va, 21) ==> #[trigger] m1.middle[i as int][t] == m.middle[i as int][t]
            &&& m1.base == m.base && m1.middle_slots == m.middle_slots && m1.bottom_slots == m.bottom_slots
        }),
{
    let s = slot_of(va, 21) as int;
    lemma_slot_bound(va, 21);
    let d = m.middle[i as int][s];
    let (m1, j) = ensure_bottom_spec(m, i, va).unwrap();
    if is_table_at::<Middle>(d) {
        let w = choose|w: nat| w < m.bottom.len() && desc_addr(d) as int == bottom_addr(m, w);
        lemma_bottom_index(m, w);
    } else {
        let n = m.bottom.len();
        lemma_frame_in_pool(m, m.middle_slots + n);
        lemma_table_encoding(bottom_addr(m, n) as u64, 0);
        lemma_bottom_index(m1, n);
        lemma_same_pool_pointers(m, m1);
        assert(desc_addr(m1.middle[i as int][s]) as int == bottom_addr(m1, n));
        assert forall|t: int|
            0 <= t < 512 && is_table_at::<Global>(#[trigger] m1.global[t]) implies points_to_middle(
            m1,
            desc_addr(m1.global[t]) as int,
        ) by {
        }
        assert forall|k: int, t: int|
            0 <= k < m1.middle.len() && 0 <= t < 512 && is_table_at::<Middle>(
                #[trigger] m1.middle[k][t],
            ) implies points_to_bottom(m1, desc_addr(m1.middle[k][t]) as int) by {
            if k != i || t != s {
                assert(m1.middle[k][t] == m.middle[k][t]);
            }
        }
        assert forall|k: int| 0 <= k < m1.middle.len() implies (#[trigger] m1.middle[k]).len() == 512 by {
            assert(m.middle[k].len() == 512);
        }
    }
}

/// Writing an entry that is no table pointer into a middle table keeps the
/// arena well formed.
pub proof fn lemma_write_middle_entry(m: TablesModel, i: nat, t: int, e: u64)
    requires
        tables_wf(m),
        i < m.middle.len(),
        0 <= t < 512,
        !is_table_at::<Middle>(e),
    ensures
        tables_wf(
            TablesModel { middle: m.middle.update(i as int, m.middle[i as int].update(t, e)), ..m },
        ),
{
    let m1 = TablesModel { middle: m.middle.update(i as int, m.middle[i as int].update(t, e)), ..m };
    lemma_same_pool_pointers(m, m1);
    assert forall|k: int, u: int|
        0 <= k < m1.middle.len() && 0 <= u < 512 && is_table_at::<Middle>(
            #[trigger] m1.middle[k][u],
        ) implies points_to_bottom(m1, desc_addr(m1.middle[k][u]) as int) by {
        assert(m1.middle[k][u] == m.middle[k][u]);
    }
    assert forall|k: int| 0 <= k < m1.middle.len() implies (#[trigger] m1.middle[k]).len() == 512 by {
        assert(m.middle[k].len() == 512);
    }
}

/// Writing any entry into a bottom table keeps the arena well formed.
pub proof fn lemma_write_bottom_entry(m: TablesModel, j: nat, t: int, e: u64)
    requires
        tables_wf(m),
        j < m.bottom.len(),
        0 <= t < 512,
    ensures
        tables_wf(
            TablesModel { bottom: m.bottom.update(j as int, m.bottom[j as int].update(t, e)), ..m },
        ),
{
    let m1 = TablesModel { bottom: m.bottom.update(j as int, m.bottom[j as int].update(t, e)), ..m };
    lemma_same_pool_pointers(m, m1);
    assert forall|k: int| 0 <= k < m1.bottom.len() implies (#[trigger] m1.bottom[k]).len() == 512 by {
        assert(m.bottom[k].len() == 512);
    }
}

/// Frames handed out by the pool never overlap: any two distinct tables, of
/// either level or the root, lie a whole table apart, however many tables
/// were asked for before.
pub proof fn lemma_frames_disjoint(m: TablesModel, i1: nat, i2: nat, j1: nat, j2: nat)
    requires
        tables_wf(m),
        i1 < m.middle_slots,
        i2 < m.middle_slots,
        j1 < m.bottom_slots,
        j2 < m.bottom_slots,
    ensures
        i1 != i2 ==> middle_addr(m, i1) + TABLE_BYTES <= middle_addr(m, i2) || middle_addr(m, i2)
            + TABLE_BYTES <= middle_addr(m, i1),
        j1 != j2 ==> bottom_addr(m, j1) + TABLE_BYTES <= bottom_addr(m, j2) || bottom_addr(m, j2)
            + TABLE_BYTES <= bottom_addr(m, j1),
        middle_addr(m, i1) + TABLE_BYTES <= bottom_addr(m, j1),
        m.base + TABLE_BYTES <= middle_addr(m, i1),
        bottom_addr(m, j1) + TABLE_BYTES <= PHYS_LIMIT,
        middle_addr(m, i1) % (TABLE_BYTES as int) == 0,
        bottom_addr(m, j1) % (TABLE_BYTES as int) == 0,
{
    assert(middle_addr(m, i1) % 4096 == 0) by (nonlinear_arith)
        requires
            middle_addr(m, i1) == m.base + 4096 * (1 + i1),
            m.base % 4096 == 0,
    ;
    assert(bottom_addr(m, j1) % 4096 == 0) by (nonlinear_arith)
        requires
            bottom_addr(m, j1) == m.base + 4096 * (1 + m.middle_slots + j1),
            m.base % 4096 == 0,
    ;
}

/// The frame of middle table `i` gives back `i`.
pub proof fn lemma_middle_index(m: TablesModel, i: nat)
    ensures
        middle_index(m, middle_addr(m, i)) == i,
{
    assert((TABLE_BYTES * (1 + i)) / (TABLE_BYTES as int) == 1 + i) by (nonlinear_arith);
}

/// The frame of bottom table `j` gives back `j`.
pub proof fn lemma_bottom_index(m: TablesModel, j: nat)
    ensures
        bottom_index(m, bottom_addr(m, j)) == j,
{
    assert((TABLE_BYTES * (1 + m.middle_slots + j)) / (TABLE_BYTES as int) == 1 + m.middle_slots
        + j) by (nonlinear_arith);
}

/// Frames of the pool are aligned and fit the address field of an entry.
pub proof fn lemma_frame_in_pool(m: TablesModel, k: nat)
    requires
        tables_wf(m),
        k < m.middle_slots + m.bottom_slots,
    ensures
        (m.base + TABLE_BYTES * (1 + k)) as u64 & !crate::descriptors::ADDR_MASK == 0,
        m.base + TABLE_BYTES * (1 + k) < PHYS_LIMIT,
{
    let a = m.base + TABLE_BYTES * (1 + k);
    assert(a % 4096 == 0) by (nonlinear_arith)
        requires
            a == m.base + 4096 * (1 + k),
            m.base % 4096 == 0,
    ;
    assert(a < PHYS_LIMIT) by (nonlinear_arith)
        requires
            a == m.base + 4096 * (1 + k),
            k < m.middle_slots + m.bottom_slots,
            m.base + 4096 * (1 + m.middle_slots + m.bottom_slots) <= PHYS_LIMIT,
    ;
    lemma_frame_fits(a as u64);
}

/// A child table was needed and the pool had no room for it.
#[derive(Clone, Copy, Debug, PartialEq, Eq)]
pub enum MapError {
    OutOfTables,
}

/// The root table and the child tables, with the pool they live in.
pub struct PageTables {
    global: PageTable<Global>,
    middle: Vec<PageTable<Middle>>,
    bottom: Vec<PageTable<Bottom>>,
    base: usize,
    middle_slots: usize,
    bottom_slots: usize,
}

impl View for PageTables {
    type V = TablesModel;

    closed spec fn view(&self) -> TablesModel {
        TablesModel {
            global: self.global@,
            middle: self.middle@.map_values(|t: PageTable<Middle>| t@),
            bottom: self.bottom@.map_values(|t: PageTable<Bottom>| t@),
            base: self.base as nat,
            middle_slots: self.middle_slots as nat,
            bottom_slots: self.bottom_slots as nat,
        }
    }
}

impl PageTables {
    pub open spec fn wf(&self) -> bool {
        tables_wf(self@)
    }

    /// An arena with an empty root table at `base` and room for
    /// `middle_slots` middle and `bottom_slots` bottom tables after it.
    /// `None` when `base` is not frame aligned or the pool would reach past
    /// the 48-bit limit.
    pub fn new(base: usize, middle_slots: usize, bottom_slots: usize) -> (r: Option<PageTables>)
        ensures
            r.is_some() == (base % TABLE_BYTES == 0 && base + TABLE_BYTES * (1 + middle_slots
                + bottom_slots) <= PHYS_LIMIT && base + TABLE_BYTES * (1 + middle_slots
                + bottom_slots) <= usize::MAX),
            r.is_some() ==> {
                let t = r.unwrap();
                &&& t.wf()
                &&& tables_unshared(t@)
                &&& t@.global == empty_table()
                &&& t@.middle.len() == 0
                &&& t@.bottom.len() == 0
                &&& t@.base == base
                &&& t@.middle_slots == middle_slots
                &&& t@.bottom_slots == bottom_slots
            },
    {
        let frames = match middle_slots.checked_add(bottom_slots) {
            Some(f) => f,
            None => return None,
        };
        let frames = match frames.checked_add(1) {
            Some(f) => f,
            None => return None,
        };
        let bytes = match frames.checked_mul(TABLE_BYTES) {
            Some(b) => b,
            None => return None,
        };
        let end = match base.checked_add(bytes) {
            Some(e) => e,
            None => return None,
        };
        if base % TABLE_BYTES != 0 || end as u64 > PHYS_LIMIT {
            return None;
        }
        let t = PageTables {
            global: PageTable::new(),
            middle: Vec::with_capacity(4),
            bottom: Vec::with_capacity(16),
            base,
            middle_slots,
            bottom_slots,
        };
        proof {
            lemma_zero_is_empty::<Global>();
        }
        assert(t@.middle =~= Seq::<Seq<u64>>::empty());
        assert(t@.bottom =~= Seq::<Seq<u64>>::empty());
        Some(t)
    }

    pub fn global(&self) -> (r: &PageTable<Global>)
        ensures
            r@ == self@.global,
    {
        &self.global
    }

    /// The physical address of the root table.
    pub fn global_addr(&self) -> (r: usize)
        ensures
            r == self@.base,
    {
        self.base
    }

    pub fn middle_count(&self) -> (r: usize)
        ensures
            r == self@.middle.len(),
    {
        self.middle.len()
    }

    pub fn bottom_count(&self) -> (r: usize)
        ensures
            r == self@.bottom.len(),
    {
        self.bottom.len()
    }

    pub fn middle(&self, i: usize) -> (r: &PageTable<Middle>)
        requires
            i < self@.middle.len(),
        ensures
            r@ == self@.middle[i as int],
    {
        &self.middle[i]
    }

    pub fn bottom(&self, j: usize) -> (r: &PageTable<Bottom>)
        requires
            j < self@.bottom.len(),
        ensures
            r@ == self@.bottom[j as int],
    {
        &self.bottom[j]
    }

    /// The frame of middle table `i`.
    pub fn middle_table_addr(&self, i: usize) -> (r: usize)
        requires
            self.wf(),
            i < self@.middle_slots,
        ensures
            r == middle_addr(self@, i as nat),
    {
        self.base + TABLE_BYTES * (1 + i)
    }

    /// The frame of bottom table `j`.
    pub fn bottom_table_addr(&self, j: usize) -> (r: usize)
        requires
            self.wf(),
            j < self@.bottom_slots,
        ensures
            r == bottom_addr(self@, j as nat),
    {
        self.base + TABLE_BYTES * (1 + self.middle_slots + j)
    }

    /// Empties every table the arena holds; the tables stay.
    pub fn zero_all(&mut self)
        requires
            old(self).wf(),
        ensures
            final(self).wf(),
            final(self)@ == zeroed(old(self)@),
            tables_unshared(final(self)@),
    {
        proof {
            lemma_zero_is_empty::<Global>();
            lemma_zero_is_empty::<Middle>();
            assert forall|k: int| 0 <= k < self.middle@.len() implies #[trigger] self.middle@[k]@.len() == 512 by {
                assert(self@.middle[k] == self.middle@[k]@);
            }
            assert forall|k: int| 0 <= k < self.bottom@.len() implies #[trigger] self.bottom@[k]@.len() == 512 by {
                assert(self@.bottom[k] == self.bottom@[k]@);
            }
        }
        self.global.zero();
        let mut i: usize = 0;
        while i < self.middle.len()
            invariant
                i <= self.middle@.len(),
                self.middle@.len() == old(self).middle@.len(),
                self.bottom == old(self).bottom,
                self.global@ == empty_table(),
                self.base == old(self).base,
                self.middle_slots == old(self).middle_slots,
                self.bottom_slots == old(self).bottom_slots,
                forall|k: int| 0 <= k < self.bottom@.len() ==> #[trigger] self.bottom@[k]@.len() == 512,
                forall|k: int| 0 <= k < i ==> #[trigger] self.middle@[k]@ == empty_table(),
                forall|k: int| i <= k < self.middle@.len() ==> #[trigger] self.middle@[k]@.len() == 512,
            decreases self.middle@.len() - i,
        {
            self.middle[i].zero();
            i = i + 1;
        }
        let mut j: usize = 0;
        while j < self.bottom.len()
            invariant
                j <= self.bottom@.len(),
                self.bottom@.len() == old(self).bottom@.len(),
                self.middle@.len() == old(self).middle@.len(),
                self.global@ == empty_table(),
                self.base == old(self).base,
                self.middle_slots == old(self).middle_slots,
                self.bottom_slots == old(self).bottom_slots,
                forall|k: int| 0 <= k < self.middle@.len() ==> #[trigger] self.middle@[k]@ == empty_table(),
                forall|k: int| 0 <= k < j ==> #[trigger] self.bottom@[k]@ == empty_table(),
                forall|k: int| j <= k < self.bottom@.len() ==> #[trigger] self.bottom@[k]@.len() == 512,
            decreases self.bottom@.len() - j,
        {
            self.bottom[j].zero();
            j = j + 1;
        }
        assert(self@.middle.len() == old(self)@.middle.len());
        assert forall|i: int| 0 <= i < self@.middle.len() implies #[trigger] self@.middle[i] == empty_table() by {
            assert(self@.middle[i] == self.middle@[i]@);
        }
        assert forall|k: int| 0 <= k < self@.bottom.len() implies #[trigger] self@.bottom[k] == empty_table() by {
            assert(self@.bottom[k] == self.bottom@[k]@);
        }
        assert(self@.middle =~= zeroed(old(self)@).middle);
        assert(self@.bottom =~= zeroed(old(self)@).bottom);
    }

    /// Adds an empty middle table in the next free frame of the pool and
    /// gives its address; `None`, with nothing changed, when the pool has no
    /// room for another.
    pub fn alloc_middle_table(&mut self) -> (r: Option<usize>)
        requires
            old(self).wf(),
        ensures
            final(self).wf(),
            r.is_some() == (old(self)@.middle.len() < old(self)@.middle_slots),
            r.is_some() ==> final(self)@ == with_new_middle(old(self)@) && r.unwrap() == middle_addr(
                old(self)@,
                old(self)@.middle.len(),
            ),
            r.is_none() ==> final(self)@ == old(self)@,
    {
        if self.middle.len() >= self.middle_slots {
            return None;
        }
        let addr = self.base + TABLE_BYTES * (1 + self.middle.len());
        let ghost m = self@;
        self.middle.push(PageTable::new());
        proof {
            let m2 = self@;
            assert(m2.middle =~= m.middle.push(empty_table()));
            assert(m2 == with_new_middle(m));
            lemma_same_pool_pointers(m, m2);
            lemma_zero_is_empty::<Middle>();
            assert forall|i: int, s: int|
                0 <= i < m2.middle.len() && 0 <= s < 512 && is_table_at::<Middle>(
                    #[trigger] m2.middle[i][s],
                ) implies points_to_bottom(m2, desc_addr(m2.middle[i][s]) as int) by {
                if i < m.middle.len() {
                    assert(m2.middle[i] == m.middle[i]);
                }
            }
        }
        Some(addr)
    }

    /// Adds an empty bottom table in the next free frame of the pool and
    /// gives its address; `None`, with nothing changed, when the pool has no
    /// room for another.
    pub fn alloc_bottom_table(&mut self) -> (r: Option<usize>)
        requires
            old(self).wf(),
        ensures
            final(self).wf(),
            r.is_some() == (old(self)@.bottom.len() < old(self)@.bottom_slots),
            r.is_some() ==> final(self)@ == with_new_bottom(old(self)@) && r.unwrap() == bottom_addr(
                old(self)@,
                old(self)@.bottom.len(),
            ),
            r.is_none() ==> final(self)@ == old(self)@,
    {
        if self.bottom.len() >= self.bottom_slots {
            return None;
        }
        let addr = self.base + TABLE_BYTES * (1 + self.middle_slots + self.bottom.len());
        let ghost m = self@;
        self.bottom.push(PageTable::new());
        proof {
            let m2 = self@;
            assert(m2.bottom =~= m.bottom.push(empty_table()));
            assert(m2 == with_new_bottom(m));
            lemma_same_pool_pointers(m, m2);
            assert forall|i: int, s: int|
                0 <= i < m2.middle.len() && 0 <= s < 512 && is_table_at::<Middle>(
                    #[trigger] m2.middle[i][s],
                ) implies points_to_bottom(m2, desc_addr(m2.middle[i][s]) as int) by {
                if i < m.middle.len() {
                    assert(m2.middle[i] == m.middle[i]);
                }
            }
        }
        Some(addr)
    }
    /// The middle table for `va`: the one the root entry of `va` points to,
    /// or else a new one that the root entry is made to point to. `None`
    /// when a new one is needed and the pool has no room.
    pub fn ensure_middle(&mut self, va: usize) -> (r: Option<usize>)
        requires
            old(self).wf(),
        ensures
            final(self).wf(),
            r.is_some() == ensure_middle_spec(old(self)@, va).is_some(),
            r.is_some() ==> (final(self)@, r.unwrap() as nat) == ensure_middle_spec(
                old(self)@,
                va,
            ).unwrap(),
            r.is_some() ==> r.unwrap() < final(self)@.middle.len(),
            r.is_none() ==> final(self)@ == old(self)@,
    {
        let ghost m = self@;
        let index = Global::table_index(va);
        let d = self.global.entry_at(index);
        assert(d@ == m.global[index@ as int]);
        match d.get_table() {
            Some(addr) => {
                let ghost i = choose|i: nat| i < m.middle.len() && desc_addr(d@) as int == middle_addr(m, i);
                proof {
                    lemma_middle_index(m, i);
                }
                let off = addr as usize - self.base;
                assert(off as int / 4096 == 1 + i) by (nonlinear_arith)
                    requires
                        off == 4096 * (1 + i),
                ;
                Some(off / TABLE_BYTES - 1)
            },
            None => {
                match self.alloc_middle_table() {
                    None => None,
                    Some(addr) => {
                        self.global.create_table_entry(addr, va);
                        proof {
                            lemma_ensure_middle(m, va);
                            assert(self@.global =~= ensure_middle_spec(m, va).unwrap().0.global);
                        }
                        Some(self.middle.len() - 1)
                    },
                }
            },
        }
    }

    /// The bottom table for `va` under middle table `i`: the one its entry
    /// for `va` points to, or else a new one that entry is made to point to.
    /// `None` when a new one is needed and the pool has no room.
    pub fn ensure_bottom(&mut self, i: usize, va: usize) -> (r: Option<usize>)
        requires
            old(self).wf(),
            i < old(self)@.middle.len(),
        ensures
            final(self).wf(),
            r.is_some() == ensure_bottom_spec(old(self)@, i as nat, va).is_some(),
            r.is_some() ==> (final(self)@, r.unwrap() as nat) == ensure_bottom_spec(
                old(self)@,
                i as nat,
                va,
            ).unwrap(),
            r.is_some() ==> r.unwrap() < final(self)@.bottom.len(),
            r.is_none() ==> final(self)@ == old(self)@,
            final(self)@.middle.len() == old(self)@.middle.len(),
    {
        let ghost m = self@;
        let index = Middle::table_index(va);
        assert(self.middle@[i as int]@ == m.middle[i as int]);
        let d = self.middle[i].entry_at(index);
        assert(d@ == m.middle[i as int][index@ as int]);
        match d.get_table() {
            Some(addr) => {
                let ghost j = choose|j: nat| j < m.bottom.len() && desc_addr(d@) as int == bottom_addr(m, j);
                proof {
                    lemma_bottom_index(m, j);
                }
                let off = addr as usize - self.base;
                assert(off as int / 4096 == 1 + self.middle_slots + j) by (nonlinear_arith)
                    requires
                        off == 4096 * (1 + self.middle_slots + j),
                ;
                Some(off / TABLE_BYTES - 1 - self.middle_slots)
            },
            None => {
                match self.alloc_bottom_table() {
                    None => None,
                    Some(addr) => {
                        self.middle[i].create_table_entry(addr, va);
                        proof {
                            lemma_ensure_bottom(m, i as nat, va);
                            assert(self@.middle =~= ensure_bottom_spec(m, i as nat, va).unwrap().0.middle);
                        }
                        Some(self.bottom.len() - 1)
                    },
                }
            },
        }
    }
    /// Writes a block entry mapping the 2 MiB block of `pa` into the slot of
    /// `va` in middle table `i`.
    pub fn write_middle_block(&mut self, i: usize, pa: usize, va: usize, flags: DescriptorFlags)
        requires
            old(self).wf(),
            i < old(self)@.middle.len(),
        ensures
            final(self).wf(),
            final(self)@ == (TablesModel {
                middle: old(self)@.middle.update(
                    i as int,
                    old(self)@.middle[i as int].update(
                        slot_of(va, 21) as int,
                        block_encoding(block_base(pa, 21) as u64, flags@),
                    ),
                ),
                ..old(self)@
            }),
    {
        let ghost m = self@;
        proof {
            lemma_slot_bound(va, 21);
        }
        assert(self.middle@[i as int]@ == m.middle[i as int]);
        self.middle[i].map_memory_block(pa, va, flags);
        proof {
            let e = block_encoding(block_base(pa, 21) as u64, flags@);
            lemma_block_is_not_table(block_base(pa, 21) as u64, flags@);
            lemma_write_middle_entry(m, i as nat, slot_of(va, 21) as int, e);
            assert(self@.middle =~= m.middle.update(
                i as int,
                m.middle[i as int].update(slot_of(va, 21) as int, e),
            ));
        }
    }

    /// Writes a page entry mapping the 4 KiB page of `pa` into the slot of
    /// `va` in bottom table `j`.
    pub fn write_bottom_page(&mut self, j: usize, pa: usize, va: usize, flags: DescriptorFlags)
        requires
            old(self).wf(),
            j < old(self)@.bottom.len(),
        ensures
            final(self).wf(),
            final(self)@ == (TablesModel {
                bottom: old(self)@.bottom.update(
                    j as int,
                    old(self)@.bottom[j as int].update(
                        slot_of(va, 12) as int,
                        page_encoding(block_base(pa, 12) as u64, flags@),
                    ),
                ),
                ..old(self)@
            }),
    {
        let ghost m = self@;
        proof {
            lemma_slot_bound(va, 12);
        }
        assert(self.bottom@[j as int]@ == m.bottom[j as int]);
        self.bottom[j].map_memory_block(pa, va, flags);
        proof {
            let e = page_encoding(block_base(pa, 12) as u64, flags@);
            lemma_write_bottom_entry(m, j as nat, slot_of(va, 12) as int, e);
            assert(self@.bottom =~= m.bottom.update(
                j as int,
                m.bottom[j as int].update(slot_of(va, 12) as int, e),
            ));
        }
    }
    /// The physical address that `va` translates to, walking from the root
    /// table down as the hardware does.
    pub fn translate(&self, va: usize) -> (r: Option<u64>)
        requires
            self.wf(),
        ensures
            r == translate_spec(self@, va),
    {
        let ghost m = self@;
        let gi = Global::table_index(va);
        let g = self.global.entry_at(gi);
        let a = match g.get_table() {
            None => return None,
            Some(a) => a,
        };
        let ghost w = choose|w: nat| w < m.middle.len() && desc_addr(g@) as int == middle_addr(m, w);
        proof {
            lemma_middle_index(m, w);
        }
        let off = a as usize - self.base;
        assert(off as int / 4096 == 1 + w) by (nonlinear_arith)
            requires
                off == 4096 * (1 + w),
        ;
        let i = off / TABLE_BYTES - 1;
        assert(self.middle@[i as int]@ == m.middle[i as int]);
        let d = self.middle[i].entry_at(Middle::table_index(va));
        if d.is_block_mem() {
            return Some((d.address() & !0x1f_ffffu64) | (va as u64 & 0x1f_ffff));
        }
        let b = match d.get_table() {
            None => return None,
            Some(b) => b,
        };
        let ghost v = choose|v: nat| v < m.bottom.len() && desc_addr(d@) as int == bottom_addr(m, v);
        proof {
            lemma_bottom_index(m, v);
        }
        let off = b as usize - self.base;
        assert(off as int / 4096 == 1 + self.middle_slots + v) by (nonlinear_arith)
            requires
                off == 4096 * (1 + self.middle_slots + v),
        ;
        let j = off / TABLE_BYTES - 1 - self.middle_slots;
        assert(self.bottom@[j as int]@ == m.bottom[j as int]);
        let e = self.bottom[j].entry_at(Bottom::table_index(va));
        if e.is_block_mem() {
            Some(e.address() | (va as u64 & 0xfff))
        } else {
            None
        }
    }
}

} // verus!

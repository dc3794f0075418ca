//! What a mapping establishes: every page of the range translates to its
//! physical page, and no table comes to be shared by two entries.
use vstd::prelude::*;

use crate::arena::{
    bottom_addr, bottom_entry, bottom_index, bottom_of, ensure_bottom_spec, ensure_middle_spec,
    lemma_bottom_index, lemma_ensure_bottom, lemma_ensure_middle, lemma_middle_index, middle_addr,
    middle_entry, middle_of, reaches_bottom, reaches_middle, tables_wf,
    translate_spec, TablesModel,
};
use crate::descriptors::{
    block_encoding, desc_addr, is_table_at, lemma_block_is_not_table, lemma_frame_fits,
    lemma_terminal_address, page_encoding,
};
use crate::table::block_base;
use crate::levels::{lemma_slot_bound, lemma_slots_in_span, slot_of, Global, Middle};
use crate::mapper::{
    is_block_step, lemma_block_base_aligned, map_fits, map_spec, page_ceil, page_floor, step_len,
    step_spec,
};

verus! {

/// No table is pointed to by two entries: distinct root entries point to
/// distinct middle tables, and distinct middle entries to distinct bottom
/// tables.
pub open spec fn tables_unshared(m: TablesModel) -> bool {
    &&& forall|s1: int, s2: int|
        0 <= s1 < 512 && 0 <= s2 < 512 && s1 != s2 && is_table_at::<Global>(#[trigger] m.global[s1])
            && is_table_at::<Global>(#[trigger] m.global[s2]) ==> desc_addr(m.global[s1])
            != desc_addr(m.global[s2])
    &&& forall|k1: int, t1: int, k2: int, t2: int|
        0 <= k1 < m.middle.len() && 0 <= k2 < m.middle.len() && 0 <= t1 < 512 && 0 <= t2 < 512 && (
        k1 != k2 || t1 != t2) && is_table_at::<Middle>(#[trigger] m.middle[k1][t1])
            && is_table_at::<Middle>(#[trigger] m.middle[k2][t2]) ==> desc_addr(m.middle[k1][t1])
            != desc_addr(m.middle[k2][t2])
}

/// Two root entries that point to tables point to the same one only when
/// they are the same entry.
proof fn lemma_middle_of_distinct(m: TablesModel, x: usize, c: usize)
    requires
        tables_wf(m),
        tables_unshared(m),
        reaches_middle(m, x),
        is_table_at::<Global>(m.global[slot_of(c, 30) as int]),
        slot_of(x, 30) != slot_of(c, 30),
    ensures
        middle_of(m, x) != middle_of(m, c),
{
    lemma_slot_bound(x, 30);
    lemma_slot_bound(c, 30);
    let gx = m.global[slot_of(x, 30) as int];
    let gc = m.global[slot_of(c, 30) as int];
    let wx = choose|w: nat| w < m.middle.len() && desc_addr(gx) as int == middle_addr(m, w);
    let wc = choose|w: nat| w < m.middle.len() && desc_addr(gc) as int == middle_addr(m, w);
    lemma_middle_index(m, wx);
    lemma_middle_index(m, wc);
}

/// Two middle entries that point to tables point to the same one only when
/// they are the same entry.
proof fn lemma_bottom_index_distinct(m: TablesModel, k1: int, t1: int, k2: int, t2: int)
    requires
        tables_wf(m),
        tables_unshared(m),
        0 <= k1 < m.middle.len(),
        0 <= k2 < m.middle.len(),
        0 <= t1 < 512,
        0 <= t2 < 512,
        k1 != k2 || t1 != t2,
        is_table_at::<Middle>(m.middle[k1][t1]),
        is_table_at::<Middle>(m.middle[k2][t2]),
    ensures
        bottom_index(m, desc_addr(m.middle[k1][t1]) as int) != bottom_index(
            m,
            desc_addr(m.middle[k2][t2]) as int,
        ),
        0 <= bottom_index(m, desc_addr(m.middle[k1][t1]) as int) < m.bottom.len(),
{
    let w1 = choose|w: nat| w < m.bottom.len() && desc_addr(m.middle[k1][t1]) as int == bottom_addr(m, w);
    let w2 = choose|w: nat| w < m.bottom.len() && desc_addr(m.middle[k2][t2]) as int == bottom_addr(m, w);
    lemma_bottom_index(m, w1);
    lemma_bottom_index(m, w2);
}

/// The entries that the walk for `x` reads are the same in `m2` as in `m`.
pub open spec fn same_walk(m: TablesModel, m2: TablesModel, x: usize) -> bool {
    &&& reaches_middle(m2, x)
    &&& middle_of(m2, x) == middle_of(m, x)
    &&& middle_entry(m2, x) == middle_entry(m, x)
    &&& (is_table_at::<Middle>(middle_entry(m, x)) ==> bottom_of(m2, x) == bottom_of(m, x)
        && bottom_entry(m2, x) == bottom_entry(m, x))
    &&& m.middle.len() <= m2.middle.len()
    &&& m.bottom.len() <= m2.bottom.len()
}

proof fn lemma_same_walk_translates(m: TablesModel, m2: TablesModel, x: usize)
    requires
        tables_wf(m),
        reaches_middle(m, x),
        same_walk(m, m2, x),
    ensures
        translate_spec(m2, x) == translate_spec(m, x),
        reaches_bottom(m, x) ==> reaches_bottom(m2, x),
{
    lemma_slot_bound(x, 21);
    if is_table_at::<Middle>(middle_entry(m, x)) {
        let ix = middle_of(m, x);
        let w = choose|w: nat| w < m.bottom.len() && desc_addr(m.middle[ix][slot_of(x, 21) as int]) as int == bottom_addr(m, w);
        lemma_bottom_index(m, w);
    }
}

/// A step at `c` leaves alone the walk of every address outside the 2 MiB
/// block of `c`, and, for a page step, of every other page of that block
/// whose walk already went through a bottom table.
proof fn lemma_step_frame(m: TablesModel, c: usize, p: usize, size: int, f: u64, x: usize)
    requires
        tables_wf(m),
        tables_unshared(m),
        step_spec(m, c as int, p as int, size, f).is_some(),
        reaches_middle(m, x),
        !(slot_of(x, 30) == slot_of(c, 30) && slot_of(x, 21) == slot_of(c, 21)) || (
        !is_block_step(c as int, p as int, size) && reaches_bottom(m, x) && slot_of(x, 12)
            != slot_of(c, 12)),
    ensures
        same_walk(m, step_spec(m, c as int, p as int, size, f).unwrap(), x),
{
    let sg = slot_of(c, 30) as int;
    let ss = slot_of(c, 21) as int;
    let sb = slot_of(c, 12) as int;
    let xg = slot_of(x, 30) as int;
    let xs = slot_of(x, 21) as int;
    let xb = slot_of(x, 12) as int;
    lemma_slot_bound(c, 30);
    lemma_slot_bound(c, 21);
    lemma_slot_bound(c, 12);
    lemma_slot_bound(x, 30);
    lemma_slot_bound(x, 21);
    lemma_slot_bound(x, 12);
    lemma_ensure_middle(m, c);
    let (m1, i) = ensure_middle_spec(m, c).unwrap();
    let ix = middle_of(m, x);
    if xg == sg {
        assert(m1 == m);
    } else {
        assert(m1.global[xg] == m.global[xg]);
        if is_table_at::<Global>(m.global[sg]) {
            lemma_middle_of_distinct(m, x, c);
            assert(m1 == m);
        }
        assert(i != ix);
    }
    assert(middle_of(m1, x) == ix);
    assert(m1.middle[ix] == m.middle[ix]);
    let m2 = step_spec(m, c as int, p as int, size, f).unwrap();
    if is_block_step(c as int, p as int, size) {
        assert(ix != i || xs != ss);
        assert(m2.middle[ix][xs] == m1.middle[ix][xs]);
        assert(m2.global == m1.global);
        assert(m2.bottom == m.bottom);
    } else {
        lemma_ensure_bottom(m1, i, c);
        let (m2a, j) = ensure_bottom_spec(m1, i, c).unwrap();
        if ix == i && xs == ss {
            assert(m2a == m1);
        } else {
            assert(m2a.middle[ix][xs] == m1.middle[ix][xs]);
        }
        assert(m2.middle[ix][xs] == m.middle[ix][xs]);
        assert(m2.global == m1.global);
        assert(middle_of(m2, x) == ix);
        if is_table_at::<Middle>(middle_entry(m, x)) {
            let jx = bottom_of(m, x);
            let w = choose|w: nat| w < m.bottom.len() && desc_addr(m.middle[ix][xs]) as int == bottom_addr(m, w);
            lemma_bottom_index(m, w);
            assert(m2a.bottom[jx] == m.bottom[jx]);
            if ix == i && xs == ss {
                assert(j == jx);
                assert(xb != sb);
            } else if is_table_at::<Middle>(m1.middle[i as int][ss]) {
                assert(i < m.middle.len()) by {
                    if i >= m.middle.len() {
                        assert(m1.middle[i as int] == crate::table::empty_table());
                        crate::descriptors::lemma_zero_is_empty::<Middle>();
                    }
                }
                assert(m1.middle[i as int][ss] == m.middle[i as int][ss]);
                lemma_bottom_index_distinct(m, ix, xs, i as int, ss);
                assert(j != jx);
            } else {
                assert(j == m.bottom.len());
            }
            assert(m2.bottom[jx][xb] == m.bottom[jx][xb]);
        }
    }
}

/// One step shares no table: the tables it adds are new, and each is
/// pointed to by the one entry it writes.
proof fn lemma_step_unshared(m: TablesModel, c: usize, p: usize, size: int, f: u64)
    requires
        tables_wf(m),
        tables_unshared(m),
        step_spec(m, c as int, p as int, size, f).is_some(),
    ensures
        tables_unshared(step_spec(m, c as int, p as int, size, f).unwrap()),
{
    let sg = slot_of(c, 30) as int;
    let ss = slot_of(c, 21) as int;
    lemma_slot_bound(c, 30);
    lemma_slot_bound(c, 21);
    crate::descriptors::lemma_zero_is_empty::<Middle>();
    lemma_ensure_middle(m, c);
    let (m1, i) = ensure_middle_spec(m, c).unwrap();
    if !is_table_at::<Global>(m.global[sg]) {
        let n = m.middle.len();
        lemma_middle_index(m1, n);
        assert forall|s1: int, s2: int|
            0 <= s1 < 512 && 0 <= s2 < 512 && s1 != s2 && is_table_at::<Global>(
                #[trigger] m1.global[s1],
            ) && is_table_at::<Global>(#[trigger] m1.global[s2]) implies desc_addr(m1.global[s1])
            != desc_addr(m1.global[s2]) by {
            if s1 == sg || s2 == sg {
                let t = if s1 == sg { s2 } else { s1 };
                assert(m1.global[t] == m.global[t]);
                let w = choose|w: nat| w < m.middle.len() && desc_addr(m.global[t]) as int == middle_addr(m, w);
                assert(middle_addr(m, w) != middle_addr(m, n));
            } else {
                assert(m1.global[s1] == m.global[s1]);
                assert(m1.global[s2] == m.global[s2]);
            }
        }
        assert forall|k1: int, t1: int, k2: int, t2: int|
            0 <= k1 < m1.middle.len() && 0 <= k2 < m1.middle.len() && 0 <= t1 < 512 && 0 <= t2 < 512
                && (k1 != k2 || t1 != t2) && is_table_at::<Middle>(#[trigger] m1.middle[k1][t1])
                && is_table_at::<Middle>(#[trigger] m1.middle[k2][t2]) implies desc_addr(
            m1.middle[k1][t1],
        ) != desc_addr(m1.middle[k2][t2]) by {
            if k1 < n {
                assert(m1.middle[k1] == m.middle[k1]);
            }
            if k2 < n {
                assert(m1.middle[k2] == m.middle[k2]);
            }
        }
    } else {
        assert(m1 == m);
    }
    assert(tables_unshared(m1));
    let m2 = step_spec(m, c as int, p as int, size, f).unwrap();
    if is_block_step(c as int, p as int, size) {
        let e = crate::descriptors::block_encoding(
            crate::table::block_base(p, 21) as u64,
            f,
        );
        crate::descriptors::lemma_block_is_not_table(crate::table::block_base(p, 21) as u64, f);
        assert forall|k1: int, t1: int, k2: int, t2: int|
            0 <= k1 < m2.middle.len() && 0 <= k2 < m2.middle.len() && 0 <= t1 < 512 && 0 <= t2 < 512
                && (k1 != k2 || t1 != t2) && is_table_at::<Middle>(#[trigger] m2.middle[k1][t1])
                && is_table_at::<Middle>(#[trigger] m2.middle[k2][t2]) implies desc_addr(
            m2.middle[k1][t1],
        ) != desc_addr(m2.middle[k2][t2]) by {
            assert(m2.middle[k1][t1] == m1.middle[k1][t1]);
            assert(m2.middle[k2][t2] == m1.middle[k2][t2]);
        }
        assert(m2.global == m1.global);
    } else {
        lemma_ensure_bottom(m1, i, c);
        let (m2a, j) = ensure_bottom_spec(m1, i, c).unwrap();
        if !is_table_at::<Middle>(m1.middle[i as int][ss]) {
            let nb = m1.bottom.len();
            lemma_bottom_index(m2a, nb);
            assert forall|k1: int, t1: int, k2: int, t2: int|
                0 <= k1 < m2a.middle.len() && 0 <= k2 < m2a.middle.len() && 0 <= t1 < 512 && 0 <= t2
                    < 512 && (k1 != k2 || t1 != t2) && is_table_at::<Middle>(
                    #[trigger] m2a.middle[k1][t1],
                ) && is_table_at::<Middle>(#[trigger] m2a.middle[k2][t2]) implies desc_addr(
                m2a.middle[k1][t1],
            ) != desc_addr(m2a.middle[k2][t2]) by {
                if (k1 == i && t1 == ss) || (k2 == i && t2 == ss) {
                    let (k, t) = if k1 == i && t1 == ss { (k2, t2) } else { (k1, t1) };
                    assert(m2a.middle[k][t] == m1.middle[k][t]);
                    let w = choose|w: nat| w < m1.bottom.len() && desc_addr(m1.middle[k][t]) as int == bottom_addr(m1, w);
                    assert(bottom_addr(m1, w) != bottom_addr(m1, nb));
                } else {
                    assert(m2a.middle[k1][t1] == m1.middle[k1][t1]);
                    assert(m2a.middle[k2][t2] == m1.middle[k2][t2]);
                }
            }
        } else {
            assert(m2a == m1);
        }
        assert(tables_unshared(m2a));
        assert(m2.middle == m2a.middle);
        assert(m2.global == m2a.global);
    }
}

proof fn lemma_offset_in_block(p: u64, c: u64, x: u64)
    requires
        p % 0x20_0000 == 0,
        c % 0x20_0000 == 0,
        c <= x,
        x - c < 0x20_0000,
        p + 0x20_0000 <= 0x1_0000_0000_0000,
    ensures
        (p & !0x1f_ffffu64) | (x & 0x1f_ffff) == p + (x - c),
        x >> 21u64 == c >> 21u64,
{
    assert((p & !0x1f_ffffu64) | (x & 0x1f_ffff) == p + (x - c) && x >> 21u64 == c >> 21u64)
        by (bit_vector)
        requires
            p % 0x20_0000 == 0,
            c % 0x20_0000 == 0,
            c <= x,
            x - c < 0x20_0000,
            p + 0x20_0000 <= 0x1_0000_0000_0000,
    ;
}

/// What one step maps: a block step makes every address of its 2 MiB block
/// translate to the matching address of the physical block; a page step
/// makes its page translate, through a bottom table, to the physical page.
proof fn lemma_step_maps(m: TablesModel, c: usize, p: usize, size: int, f: u64)
    requires
        tables_wf(m),
        step_spec(m, c as int, p as int, size, f).is_some(),
        c % 4096 == 0,
        p % 4096 == 0,
        p + step_len(c as int, p as int, size) <= 0x1_0000_0000_0000,
    ensures
        is_block_step(c as int, p as int, size) ==> forall|x: usize|
            c <= x < c + 0x20_0000 ==> #[trigger] translate_spec(
                step_spec(m, c as int, p as int, size, f).unwrap(),
                x,
            ) == Some((p + (x - c)) as u64) && reaches_middle(
                step_spec(m, c as int, p as int, size, f).unwrap(),
                x,
            ) && block_start(x) == c,
        !is_block_step(c as int, p as int, size) ==> reaches_bottom(
            step_spec(m, c as int, p as int, size, f).unwrap(),
            c,
        ) && translate_spec(step_spec(m, c as int, p as int, size, f).unwrap(), c) == Some(
            p as u64,
        ),
{
    let sg = slot_of(c, 30) as int;
    let ss = slot_of(c, 21) as int;
    let sb = slot_of(c, 12) as int;
    lemma_slot_bound(c, 30);
    lemma_slot_bound(c, 21);
    lemma_slot_bound(c, 12);
    lemma_ensure_middle(m, c);
    let (m1, i) = ensure_middle_spec(m, c).unwrap();
    let m2 = step_spec(m, c as int, p as int, size, f).unwrap();
    lemma_frame_fits(p as u64);
    if is_block_step(c as int, p as int, size) {
        lemma_block_base_aligned(p, 21);
        let e = block_encoding(p as u64, f);
        lemma_block_is_not_table(p as u64, f);
        lemma_terminal_address(p as u64, f);
        assert forall|x: usize| c <= x < c + 0x20_0000 implies #[trigger] translate_spec(m2, x)
            == Some((p + (x - c)) as u64) && reaches_middle(m2, x) && block_start(x) == c by {
            lemma_offset_in_block(p as u64, c as u64, x as u64);
            assert(x >> 21usize == c >> 21usize);
            assert((x >> 21usize) << 21usize == c) by (bit_vector)
                requires
                    c % 0x20_0000 == 0,
                    c <= x,
                    x - c < 0x20_0000,
            ;
            lemma_slots_in_span(c, x);
            assert(m2.global == m1.global);
            assert(middle_of(m2, x) == i);
            assert(middle_entry(m2, x) == e);
        }
    } else {
        lemma_block_base_aligned(p, 12);
        lemma_terminal_address(p as u64, f);
        lemma_ensure_bottom(m1, i, c);
        let (m2a, j) = ensure_bottom_spec(m1, i, c).unwrap();
        assert(m2.global == m1.global);
        assert(middle_of(m2, c) == i);
        assert(middle_entry(m2, c) == m2a.middle[i as int][ss]);
        assert(bottom_of(m2, c) == j);
        assert(bottom_entry(m2, c) == page_encoding(p as u64, f));
        assert((p as u64) | (c as u64 & 0xfff) == p as u64) by (bit_vector)
            requires
                c % 4096 == 0,
        ;
    }
}

proof fn lemma_block_order(x: usize, c: usize, y: usize)
    requires
        x <= c <= y,
        x >> 21usize == y >> 21usize,
    ensures
        c >> 21usize == x >> 21usize,
{
    assert(c >> 21usize == x >> 21usize) by (bit_vector)
        requires
            x <= c <= y,
            x >> 21usize == y >> 21usize,
    ;
}

proof fn lemma_below_block_start(x: usize, c: usize)
    requires
        x < c,
        c % 0x20_0000 == 0,
    ensures
        x >> 21usize != c >> 21usize,
{
    assert(x >> 21usize != c >> 21usize) by (bit_vector)
        requires
            x < c,
            c % 0x20_0000 == 0,
    ;
}

proof fn lemma_distinct_pages(x: usize, c: usize)
    requires
        x < c,
        x % 4096 == 0,
        c % 4096 == 0,
    ensures
        x >> 12usize != c >> 12usize,
{
    assert(x >> 12usize != c >> 12usize) by (bit_vector)
        requires
            x < c,
            x % 4096 == 0,
            c % 4096 == 0,
    ;
}

/// A step at `c` keeps the walk of a page below `c`, when that page, if it
/// lies in the block of `c`, already goes through a bottom table.
proof fn lemma_earlier_page(m: TablesModel, c: usize, p: usize, size: int, f: u64, x: usize)
    requires
        tables_wf(m),
        tables_unshared(m),
        step_spec(m, c as int, p as int, size, f).is_some(),
        x < c,
        x % 4096 == 0,
        c % 4096 == 0,
        c - x < 0x7f_ffe0_0000,
        is_block_step(c as int, p as int, size) ==> c % 0x20_0000 == 0,
        reaches_middle(m, x),
        x >> 21usize == c >> 21usize ==> reaches_bottom(m, x),
    ensures
        same_walk(m, step_spec(m, c as int, p as int, size, f).unwrap(), x),
        translate_spec(step_spec(m, c as int, p as int, size, f).unwrap(), x) == translate_spec(m, x),
        reaches_bottom(m, x) ==> reaches_bottom(step_spec(m, c as int, p as int, size, f).unwrap(), x),
{
    lemma_slots_in_span(x, c);
    if x >> 21usize == c >> 21usize {
        if is_block_step(c as int, p as int, size) {
            lemma_below_block_start(x, c);
        }
        lemma_distinct_pages(x, c);
    }
    lemma_step_frame(m, c, p, size, f, x);
    lemma_same_walk_translates(m, step_spec(m, c as int, p as int, size, f).unwrap(), x);
}

/// The first address of the 2 MiB block of `x`.
pub open spec fn block_start(x: usize) -> usize {
    (x >> 21usize) << 21usize
}

/// Every page of `[va0, va)` translates to the page at the same offset
/// from `pa0`, through a bottom table or through a block that lies wholly
/// in `[va0, va)`.
pub open spec fn covered(m: TablesModel, va0: int, pa0: int, va: int) -> bool {
    forall|x: usize|
        va0 <= x < va && x % 4096 == 0 ==> #[trigger] translate_spec(m, x) == Some(
            (pa0 + (x - va0)) as u64,
        ) && reaches_middle(m, x) && (reaches_bottom(m, x) || (va0 <= block_start(x)
            && block_start(x) + 0x20_0000 <= va))
}

/// The pages of `[va0, va)` in the 2 MiB block of `va` go through a bottom
/// table.
pub open spec fn paged_below(m: TablesModel, va0: int, va: int) -> bool {
    forall|x: usize|
        va0 <= x < va && x % 4096 == 0 && x >> 21usize == (va as usize) >> 21usize
            ==> #[trigger] reaches_bottom(m, x)
}

proof fn lemma_map_covers(
    m: TablesModel,
    va: int,
    pa: int,
    end: int,
    f: u64,
    va0: int,
    pa0: int,
)
    requires
        tables_wf(m),
        tables_unshared(m),
        0 <= va0 <= va <= end <= usize::MAX,
        0 <= pa0,
        pa0 + (end - va0) <= usize::MAX,
        pa - pa0 == va - va0,
        va % 4096 == 0,
        pa % 4096 == 0,
        end % 4096 == 0,
        end - va0 < 0x7f_ffe0_0000,
        pa0 + (end - va0) <= 0x1_0000_0000_0000,
        covered(m, va0, pa0, va),
        paged_below(m, va0, va),
        map_spec(m, va, pa, end, f).is_some(),
    ensures
        tables_wf(map_spec(m, va, pa, end, f).unwrap()),
        tables_unshared(map_spec(m, va, pa, end, f).unwrap()),
        covered(map_spec(m, va, pa, end, f).unwrap(), va0, pa0, end),
    decreases end - va,
{
    if va < end {
        let size = end - va;
        let n = step_len(va, pa, size);
        let m2 = step_spec(m, va, pa, size, f).unwrap();
        let c = va as usize;
        let p = pa as usize;
        crate::mapper::lemma_step_wf(m, va, pa, size, f);
        lemma_step_unshared(m, c, p, size, f);
        lemma_step_maps(m, c, p, size, f);
        let c2 = (va + n) as usize;
        assert forall|x: usize| va0 <= x < va + n && x % 4096 == 0 implies #[trigger] translate_spec(
            m2,
            x,
        ) == Some((pa0 + (x - va0)) as u64) && reaches_middle(m2, x) && (reaches_bottom(m2, x) || (
        va0 <= block_start(x) && block_start(x) + 0x20_0000 <= va + n)) by {
            if x < va {
                assert(translate_spec(m, x) == Some((pa0 + (x - va0)) as u64));
                lemma_earlier_page(m, c, p, size, f, x);
            }
        }
        assert forall|x: usize|
            va0 <= x < va + n && x % 4096 == 0 && x >> 21usize == c2 >> 21usize
                implies #[trigger] reaches_bottom(m2, x) by {
            if is_block_step(va, pa, size) {
                lemma_below_block_start(x, c2);
            } else if x < va {
                lemma_block_order(x, c, c2);
                assert(translate_spec(m, x) == Some((pa0 + (x - va0)) as u64));
                assert(reaches_bottom(m, x));
                lemma_earlier_page(m, c, p, size, f, x);
            }
        }
        lemma_map_covers(m2, va + n, pa + n, end, f, va0, pa0);
    }
}

/// The range fits one walk: it spans less than the 512 GiB that the root
/// table covers, less one block, and its physical pages lie below 2^48.
pub open spec fn translatable_range(phys_start: usize, virt_start: usize, virt_end: usize) -> bool {
    &&& page_ceil(virt_end as int) - page_floor(virt_start as int) < 0x7f_ffe0_0000
    &&& page_floor(phys_start as int) + (page_ceil(virt_end as int) - page_floor(
        virt_start as int,
    )) <= 0x1_0000_0000_0000
}

/// Every page of the rounded range translates in `m` to the physical page at
/// the same offset from the rounded physical start.
pub open spec fn maps_range(m: TablesModel, phys_start: usize, virt_start: usize, virt_end: usize) -> bool {
    forall|x: usize|
        page_floor(virt_start as int) <= x < page_ceil(virt_end as int) && x % 4096 == 0
            ==> #[trigger] translate_spec(m, x) == Some(
            (page_floor(phys_start as int) + (x - page_floor(virt_start as int))) as u64,
        )
}

/// Every page of a mapped range translates to the physical page at the
/// same offset from the rounded physical start, and mapping shares no
/// table. The range must span less than the 512 GiB that the root table
/// covers, less one block, and its physical pages lie below 2^48.
pub proof fn lemma_map_translates(
    m: TablesModel,
    phys_start: usize,
    virt_start: usize,
    virt_end: usize,
    flags: u64,
)
    requires
        tables_wf(m),
        tables_unshared(m),
        map_fits(phys_start, virt_start, virt_end),
        translatable_range(phys_start, virt_start, virt_end),
        map_spec(
            m,
            page_floor(virt_start as int),
            page_floor(phys_start as int),
            page_ceil(virt_end as int),
            flags,
        ).is_some(),
    ensures
        ({
            let r = map_spec(
                m,
                page_floor(virt_start as int),
                page_floor(phys_start as int),
                page_ceil(virt_end as int),
                flags,
            ).unwrap();
            &&& tables_wf(r)
            &&& tables_unshared(r)
            &&& maps_range(r, phys_start, virt_start, virt_end)
            &&& covered(
                r,
                page_floor(virt_start as int),
                page_floor(phys_start as int),
                page_ceil(virt_end as int),
            )
        }),
{
    let va0 = page_floor(virt_start as int);
    let pa0 = page_floor(phys_start as int);
    let end = page_ceil(virt_end as int);
    if va0 < end {
        lemma_map_covers(m, va0, pa0, end, flags, va0, pa0);
    }
}

proof fn lemma_in_block(x: usize, c: usize)
    requires
        x >> 21usize == c >> 21usize,
    ensures
        block_start(x) <= c < block_start(x) + 0x20_0000,
        c % 0x20_0000 == 0 ==> c <= x < c + 0x20_0000,
{
    assert(((x >> 21usize) << 21usize) <= c && c - ((x >> 21usize) << 21usize) < 0x20_0000 && (c
        % 0x20_0000 == 0 ==> c <= x && x - c < 0x20_0000)) by (bit_vector)
        requires
            x >> 21usize == c >> 21usize,
    ;
}

/// A mapping of `[va, end)` keeps what a mapping of `[lo, hi)` established,
/// when the two share no page and lie within one walk's reach.
proof fn lemma_map_keeps(
    m: TablesModel,
    va: int,
    pa: int,
    end: int,
    f: u64,
    lo: int,
    hi: int,
    pa_lo: int,
)
    requires
        tables_wf(m),
        tables_unshared(m),
        covered(m, lo, pa_lo, hi),
        0 <= va <= end <= usize::MAX,
        0 <= lo <= hi,
        0 <= pa,
        pa + (end - va) <= usize::MAX,
        va % 4096 == 0,
        pa % 4096 == 0,
        end % 4096 == 0,
        end <= lo || hi <= va,
        (if end > hi { end } else { hi }) - (if va < lo { va } else { lo }) < 0x7f_ffe0_0000,
        map_spec(m, va, pa, end, f).is_some(),
    ensures
        tables_wf(map_spec(m, va, pa, end, f).unwrap()),
        tables_unshared(map_spec(m, va, pa, end, f).unwrap()),
        covered(map_spec(m, va, pa, end, f).unwrap(), lo, pa_lo, hi),
    decreases end - va,
{
    if va < end {
        let size = end - va;
        let n = step_len(va, pa, size);
        let m2 = step_spec(m, va, pa, size, f).unwrap();
        let c = va as usize;
        let p = pa as usize;
        crate::mapper::lemma_step_wf(m, va, pa, size, f);
        lemma_step_unshared(m, c, p, size, f);
        assert forall|x: usize| lo <= x < hi && x % 4096 == 0 implies #[trigger] translate_spec(
            m2,
            x,
        ) == Some((pa_lo + (x - lo)) as u64) && reaches_middle(m2, x) && (reaches_bottom(m2, x) || (
        lo <= block_start(x) && block_start(x) + 0x20_0000 <= hi)) by {
            assert(translate_spec(m, x) == Some((pa_lo + (x - lo)) as u64));
            if x <= c {
                lemma_slots_in_span(x, c);
            } else {
                lemma_slots_in_span(c, x);
            }
            if x >> 21usize == c >> 21usize {
                lemma_in_block(x, c);
                assert(reaches_bottom(m, x));
                if x < c {
                    lemma_distinct_pages(x, c);
                } else {
                    lemma_distinct_pages(c, x);
                }
            }
            lemma_step_frame(m, c, p, size, f, x);
            lemma_same_walk_translates(m, m2, x);
        }
        lemma_map_keeps(m2, va + n, pa + n, end, f, lo, hi, pa_lo);
    }
}

/// Two mappings of ranges that share no page, one after the other, leave
/// every page of both translating to its own physical page: the second
/// clobbers no root or middle entry that the first relies on. Both ranges
/// lie within one walk's reach.
pub proof fn lemma_disjoint_maps_keep_both(
    m: TablesModel,
    phys1: usize,
    start1: usize,
    end1: usize,
    flags1: u64,
    phys2: usize,
    start2: usize,
    end2: usize,
    flags2: u64,
)
    requires
        tables_wf(m),
        tables_unshared(m),
        map_fits(phys1, start1, end1),
        map_fits(phys2, start2, end2),
        translatable_range(phys1, start1, end1),
        translatable_range(phys2, start2, end2),
        page_ceil(end1 as int) <= page_floor(start2 as int) || page_ceil(end2 as int) <= page_floor(
            start1 as int,
        ),
        page_ceil(end1 as int) - page_floor(start2 as int) < 0x7f_ffe0_0000,
        page_ceil(end2 as int) - page_floor(start1 as int) < 0x7f_ffe0_0000,
        map_spec(
            m,
            page_floor(start1 as int),
            page_floor(phys1 as int),
            page_ceil(end1 as int),
            flags1,
        ).is_some(),
        map_spec(
            map_spec(
                m,
                page_floor(start1 as int),
                page_floor(phys1 as int),
                page_ceil(end1 as int),
                flags1,
            ).unwrap(),
            page_floor(start2 as int),
            page_floor(phys2 as int),
            page_ceil(end2 as int),
            flags2,
        ).is_some(),
    ensures
        ({
            let r1 = map_spec(
                m,
                page_floor(start1 as int),
                page_floor(phys1 as int),
                page_ceil(end1 as int),
                flags1,
            ).unwrap();
            let r2 = map_spec(
                r1,
                page_floor(start2 as int),
                page_floor(phys2 as int),
                page_ceil(end2 as int),
                flags2,
            ).unwrap();
            maps_range(r2, phys1, start1, end1) && maps_range(r2, phys2, start2, end2)
        }),
{
    let lo = page_floor(start1 as int);
    let hi = page_ceil(end1 as int);
    let va = page_floor(start2 as int);
    let end = page_ceil(end2 as int);
    let pa_lo = page_floor(phys1 as int);
    lemma_map_translates(m, phys1, start1, end1, flags1);
    let r1 = map_spec(m, lo, pa_lo, hi, flags1).unwrap();
    lemma_map_translates(r1, phys2, start2, end2, flags2);
    if va < end {
        if lo < hi {
            lemma_map_keeps(r1, va, page_floor(phys2 as int), end, flags2, lo, hi, pa_lo);
        }
    }
}

} // verus!

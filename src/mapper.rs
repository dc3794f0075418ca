//! Covering a virtual range with entries: 2 MiB blocks where the range
//! allows, 4 KiB pages for the rest, left to right.
use vstd::prelude::*;

use crate::arena::{
    bottom_entry, ensure_bottom_spec, ensure_middle_spec, lemma_ensure_bottom, lemma_ensure_middle,
    lemma_write_bottom_entry, lemma_write_middle_entry, middle_entry, middle_of, reaches_bottom,
    reaches_middle, tables_wf, MapError, PageTables, TablesModel,
};
use crate::coverage::{lemma_map_translates, maps_range, tables_unshared, translatable_range};
use crate::descriptors::{block_encoding, lemma_block_is_not_table, page_encoding, DescriptorFlags};
use crate::levels::{lemma_slot_bound, slot_of, PAGE_SIZE, SECTION_SIZE};
use crate::table::{align_down_bits, align_up_bits, block_base, is_aligned};

verus! {

/// A step at `va` writes one 2 MiB block: at least a block is left and
/// both cursors sit on a block boundary.
pub open spec fn is_block_step(va: int, pa: int, size: int) -> bool {
    size >= SECTION_SIZE && va % (SECTION_SIZE as int) == 0 && pa % (SECTION_SIZE as int) == 0
}

/// The bytes one step at `va` covers.
pub open spec fn step_len(va: int, pa: int, size: int) -> int {
    if is_block_step(va, pa, size) {
        0x20_0000
    } else {
        0x1000
    }
}

/// The tables after one step at `va`, with `size` bytes left: the middle
/// table is found or made; then either a block entry is written there, or
/// the bottom table is found or made and a page entry written in it.
/// `None` when a table was needed and the pool had no room.
pub open spec fn step_spec(m: TablesModel, va: int, pa: int, size: int, flags: u64) -> Option<TablesModel> {
    match ensure_middle_spec(m, va as usize) {
        None => None,
        Some((m1, i)) => if is_block_step(va, pa, size) {
            Some(
                TablesModel {
                    middle: m1.middle.update(
                        i as int,
                        m1.middle[i as int].update(
                            slot_of(va as usize, 21) as int,
                            block_encoding(block_base(pa as usize, 21) as u64, flags),
                        ),
                    ),
                    ..m1
                },
            )
        } else {
            match ensure_bottom_spec(m1, i, va as usize) {
                None => None,
                Some((m2, j)) => Some(
                    TablesModel {
                        bottom: m2.bottom.update(
                            j as int,
                            m2.bottom[j as int].update(
                                slot_of(va as usize, 12) as int,
                                page_encoding(block_base(pa as usize, 12) as u64, flags),
                            ),
                        ),
                        ..m2
                    },
                ),
            }
        },
    }
}

/// The tables after covering `[va, end)` from physical `pa` on, step by
/// step; `None` when some step found the pool full.
pub open spec fn map_spec(m: TablesModel, va: int, pa: int, end: int, flags: u64) -> Option<TablesModel>
    decreases (if va < end { end - va } else { 0 }),
{
    if va >= end {
        Some(m)
    } else {
        match step_spec(m, va, pa, end - va, flags) {
            None => None,
            Some(m2) => map_spec(
                m2,
                va + step_len(va, pa, end - va),
                pa + step_len(va, pa, end - va),
                end,
                flags,
            ),
        }
    }
}

/// `x` rounded down to a page boundary.
pub open spec fn page_floor(x: int) -> int {
    x - x % (PAGE_SIZE as int)
}

/// `x` rounded up to a page boundary.
pub open spec fn page_ceil(x: int) -> int {
    page_floor(x + PAGE_SIZE - 1)
}

proof fn lemma_page_aligned(r: usize, x: usize)
    requires
        is_aligned(r, 4096),
        r <= x,
        x - r < 4096,
    ensures
        r == page_floor(x as int),
{
    assert(r % 4096 == 0) by (bit_vector)
        requires
            r & 4095 == 0,
    ;
}

proof fn lemma_page_ceil(r: int, x: int)
    requires
        r % 4096 == 0,
        x <= r,
        r - x < 4096,
    ensures
        r == page_ceil(x),
{
}

impl PageTables {
    /// One step of the mapper at `*virt_addr`, with `size` bytes left: both
    /// cursors move past what the step covered.
    pub fn map_memory_inner(
        &mut self,
        size: usize,
        virt_addr: &mut usize,
        phys_addr: &mut usize,
        flags: DescriptorFlags,
    ) -> (r: Result<(), MapError>)
        requires
            old(self).wf(),
            size >= PAGE_SIZE,
            *old(virt_addr) + size <= usize::MAX,
            *old(phys_addr) + size <= usize::MAX,
        ensures
            final(self).wf(),
            r.is_ok() == step_spec(old(self)@, *old(virt_addr) as int, *old(phys_addr) as int, size as int, flags@).is_some(),
            r.is_ok() ==> {
                &&& final(self)@ == step_spec(old(self)@, *old(virt_addr) as int, *old(phys_addr) as int, size as int, flags@).unwrap()
                &&& *final(virt_addr) == *old(virt_addr) + step_len(*old(virt_addr) as int, *old(phys_addr) as int, size as int)
                &&& *final(phys_addr) == *old(phys_addr) + step_len(*old(virt_addr) as int, *old(phys_addr) as int, size as int)
            },
    {
        let ghost m = self@;
        let va = *virt_addr;
        let pa = *phys_addr;
        let i = match self.ensure_middle(va) {
            None => return Err(MapError::OutOfTables),
            Some(i) => i,
        };
        if size >= SECTION_SIZE && va % SECTION_SIZE == 0 && pa % SECTION_SIZE == 0 {
            self.write_middle_block(i, pa, va, flags);
            *virt_addr = va + SECTION_SIZE;
            *phys_addr = pa + SECTION_SIZE;
            return Ok(());
        }
        let j = match self.ensure_bottom(i, va) {
            None => return Err(MapError::OutOfTables),
            Some(j) => j,
        };
        self.write_bottom_page(j, pa, va, flags);
        *virt_addr = va + PAGE_SIZE;
        *phys_addr = pa + PAGE_SIZE;
        Ok(())
    }
}

/// One step keeps the arena well formed.
pub proof fn lemma_step_wf(m: TablesModel, va: int, pa: int, size: int, flags: u64)
    requires
        tables_wf(m),
        step_spec(m, va, pa, size, flags).is_some(),
    ensures
        tables_wf(step_spec(m, va, pa, size, flags).unwrap()),
{
    lemma_ensure_middle(m, va as usize);
    let (m1, i) = ensure_middle_spec(m, va as usize).unwrap();
    lemma_slot_bound(va as usize, 21);
    lemma_slot_bound(va as usize, 12);
    if is_block_step(va, pa, size) {
        lemma_block_is_not_table(block_base(pa as usize, 21) as u64, flags);
        lemma_write_middle_entry(
            m1,
            i,
            slot_of(va as usize, 21) as int,
            block_encoding(block_base(pa as usize, 21) as u64, flags),
        );
    } else {
        lemma_ensure_bottom(m1, i, va as usize);
        let (m2, j) = ensure_bottom_spec(m1, i, va as usize).unwrap();
        lemma_write_bottom_entry(
            m2,
            j,
            slot_of(va as usize, 12) as int,
            page_encoding(block_base(pa as usize, 12) as u64, flags),
        );
    }
}

pub proof fn lemma_next_block_slot(va: usize, va2: usize)
    requires
        va % 0x20_0000 == 0,
        va2 == va + 0x20_0000,
    ensures
        slot_of(va2, 21) != slot_of(va, 21),
{
    assert(((va2 >> 21) & 0x1ff) != ((va >> 21) & 0x1ff)) by (bit_vector)
        requires
            va % 0x20_0000 == 0,
            va2 == va + 0x20_0000,
    ;
}

pub proof fn lemma_block_base_aligned(pa: usize, shift: usize)
    requires
        shift == 21 ==> pa % 0x20_0000 == 0,
        shift == 12 ==> pa % 0x1000 == 0,
        shift == 21 || shift == 12,
    ensures
        block_base(pa, shift) == pa,
{
    if shift == 21 {
        assert((pa >> 21usize) << 21usize == pa) by (bit_vector)
            requires
                pa % 0x20_0000 == 0,
        ;
    } else {
        assert((pa >> 12usize) << 12usize == pa) by (bit_vector)
            requires
                pa % 0x1000 == 0,
        ;
    }
}

/// Largest first: a 4 MiB range whose virtual and physical starts lie on
/// 2 MiB boundaries is covered by exactly two block entries at the middle
/// level, and no bottom table is added or changed. It succeeds whenever the
/// pool has room for two more middle tables.
pub proof fn lemma_two_blocks_no_bottom(m: TablesModel, va: usize, pa: usize, flags: u64)
    requires
        tables_wf(m),
        va % 0x20_0000 == 0,
        pa % 0x20_0000 == 0,
        va + 0x40_0000 <= usize::MAX,
        pa + 0x40_0000 <= usize::MAX,
        m.middle.len() + 2 <= m.middle_slots,
    ensures
        map_spec(m, va as int, pa as int, va + 0x40_0000, flags).is_some(),
        ({
            let r = map_spec(m, va as int, pa as int, va + 0x40_0000, flags).unwrap();
            &&& tables_wf(r)
            &&& r.bottom == m.bottom
            &&& reaches_middle(r, va)
            &&& reaches_middle(r, (va + 0x20_0000) as usize)
            &&& middle_entry(r, va) == block_encoding(pa as u64, flags)
            &&& middle_entry(r, (va + 0x20_0000) as usize) == block_encoding(
                (pa + 0x20_0000) as u64,
                flags,
            )
        }),
{
    let va2 = (va + 0x20_0000) as usize;
    let pa2 = (pa + 0x20_0000) as usize;
    let end = va + 0x40_0000;
    lemma_slot_bound(va, 30);
    lemma_slot_bound(va, 21);
    lemma_slot_bound(va2, 30);
    lemma_slot_bound(va2, 21);
    lemma_block_base_aligned(pa, 21);
    lemma_block_base_aligned(pa2, 21);
    lemma_next_block_slot(va, va2);
    // First step: a block at va.
    lemma_ensure_middle(m, va);
    let (_, i1) = ensure_middle_spec(m, va).unwrap();
    assert(is_block_step(va as int, pa as int, end - va));
    let m1 = step_spec(m, va as int, pa as int, end - va, flags).unwrap();
    lemma_step_wf(m, va as int, pa as int, end - va, flags);
    assert(middle_entry(m1, va) == block_encoding(pa as u64, flags));
    // Second step: a block at va2.
    lemma_ensure_middle(m1, va2);
    let (m2a, _) = ensure_middle_spec(m1, va2).unwrap();
    assert(is_block_step(va2 as int, pa2 as int, end - va2));
    let m2 = step_spec(m1, va2 as int, pa2 as int, end - va2, flags).unwrap();
    lemma_step_wf(m1, va2 as int, pa2 as int, end - va2, flags);
    assert(m2a.global[slot_of(va, 30) as int] == m1.global[slot_of(va, 30) as int]);
    assert(middle_of(m2, va) == i1);
    assert(m2a.middle[i1 as int] == m1.middle[i1 as int]);
    assert(m2.middle[i1 as int][slot_of(va, 21) as int] == m1.middle[i1 as int][slot_of(va, 21) as int]);
    assert(map_spec(m2, va2 + 0x20_0000, pa2 + 0x20_0000, end as int, flags) == Some(m2));
    assert(map_spec(m1, va2 as int, pa2 as int, end as int, flags) == Some(m2));
}

/// A single page is covered by one page entry at the bottom level, reached
/// through the root and middle entries for it; at most one middle table and
/// one bottom table are added. It succeeds whenever the pool has room for
/// one more table of each level.
pub proof fn lemma_single_page(m: TablesModel, va: usize, pa: usize, flags: u64)
    requires
        tables_wf(m),
        va % 0x1000 == 0,
        pa % 0x1000 == 0,
        va + 0x1000 <= usize::MAX,
        pa + 0x1000 <= usize::MAX,
        m.middle.len() < m.middle_slots,
        m.bottom.len() < m.bottom_slots,
    ensures
        map_spec(m, va as int, pa as int, va + 0x1000, flags).is_some(),
        ({
            let r = map_spec(m, va as int, pa as int, va + 0x1000, flags).unwrap();
            &&& tables_wf(r)
            &&& r.middle.len() <= m.middle.len() + 1
            &&& r.bottom.len() <= m.bottom.len() + 1
            &&& reaches_bottom(r, va)
            &&& bottom_entry(r, va) == page_encoding(pa as u64, flags)
        }),
{
    let end = va + 0x1000;
    lemma_slot_bound(va, 30);
    lemma_slot_bound(va, 21);
    lemma_slot_bound(va, 12);
    lemma_block_base_aligned(pa, 12);
    assert(!is_block_step(va as int, pa as int, end - va));
    lemma_ensure_middle(m, va);
    let (m1, i) = ensure_middle_spec(m, va).unwrap();
    lemma_ensure_bottom(m1, i, va);
    let (m2, j) = ensure_bottom_spec(m1, i, va).unwrap();
    let r = step_spec(m, va as int, pa as int, end - va, flags).unwrap();
    lemma_step_wf(m, va as int, pa as int, end - va, flags);
    assert(m2.global == m1.global);
    assert(middle_of(m2, va) == i);
    assert(middle_entry(r, va) == m2.middle[i as int][slot_of(va, 21) as int]);
    assert(map_spec(r, va + 0x1000, pa + 0x1000, end as int, flags) == Some(r));
}

/// A mapping of `[virt_start, virt_end)` from `phys_start` stays within the
/// machine word: the rounded end fits, and so does the physical end.
pub open spec fn map_fits(phys_start: usize, virt_start: usize, virt_end: usize) -> bool {
    &&& virt_end <= usize::MAX - (PAGE_SIZE - 1)
    &&& page_floor(virt_start as int) < page_ceil(virt_end as int) ==> page_floor(phys_start as int)
        + (page_ceil(virt_end as int) - page_floor(virt_start as int)) <= usize::MAX
}

/// Maps the virtual range `[virt_addr_start, virt_addr_end)` to physical
/// memory from `phys_addr_start` on, stamping `flags` on every entry that
/// ends a translation. The starts are rounded down and the end up to a page
/// boundary. Largest first: a 2 MiB block wherever at least a block is left
/// and both cursors sit on a block boundary, else a 4 KiB page. Missing
/// tables are taken from the pool; what an entry held before is replaced.
/// Fails when the pool runs out of tables.
pub fn map_memory(
    tables: &mut PageTables,
    phys_addr_start: usize,
    virt_addr_start: usize,
    virt_addr_end: usize,
    flags: DescriptorFlags,
) -> (r: Result<(), MapError>)
    requires
        old(tables).wf(),
        map_fits(phys_addr_start, virt_addr_start, virt_addr_end),
    ensures
        final(tables).wf(),
        r.is_ok() == map_spec(
            old(tables)@,
            page_floor(virt_addr_start as int),
            page_floor(phys_addr_start as int),
            page_ceil(virt_addr_end as int),
            flags@,
        ).is_some(),
        r.is_ok() ==> final(tables)@ == map_spec(
            old(tables)@,
            page_floor(virt_addr_start as int),
            page_floor(phys_addr_start as int),
            page_ceil(virt_addr_end as int),
            flags@,
        ).unwrap(),
        r.is_ok() && tables_unshared(old(tables)@) && translatable_range(
            phys_addr_start,
            virt_addr_start,
            virt_addr_end,
        ) ==> tables_unshared(final(tables)@) && maps_range(
            final(tables)@,
            phys_addr_start,
            virt_addr_start,
            virt_addr_end,
        ),
{
    assert(1usize << 12usize == 4096) by (bit_vector);
    let phys_start = align_down_bits(phys_addr_start, 12);
    let virt_start = align_down_bits(virt_addr_start, 12);
    let virt_end = align_up_bits(virt_addr_end, 12);
    proof {
        lemma_page_aligned(phys_start, phys_addr_start);
        lemma_page_aligned(virt_start, virt_addr_start);
        assert(virt_end % 4096 == 0) by (bit_vector)
            requires
                virt_end & 4095 == 0,
        ;
        lemma_page_ceil(virt_end as int, virt_addr_end as int);
    }
    let ghost m0 = tables@;
    let mut virt_addr = virt_start;
    let mut phys_addr = phys_start;
    while virt_addr < virt_end
        invariant
            tables.wf(),
            virt_start == page_floor(virt_addr_start as int),
            phys_start == page_floor(phys_addr_start as int),
            virt_end == page_ceil(virt_addr_end as int),
            m0 == old(tables)@,
            virt_addr % 4096 == 0,
            virt_end % 4096 == 0,
            virt_start <= virt_end ==> virt_addr <= virt_end,
            virt_start > virt_end ==> virt_addr == virt_start,
            virt_addr < virt_end ==> phys_addr + (virt_end - virt_addr) <= usize::MAX,
            map_spec(tables@, virt_addr as int, phys_addr as int, virt_end as int, flags@)
                == map_spec(m0, virt_start as int, phys_start as int, virt_end as int, flags@),
        decreases virt_end - virt_addr,
    {
        let size = virt_end - virt_addr;
        let ghost m = tables@;
        let ghost va = virt_addr;
        let ghost pa = phys_addr;
        match tables.map_memory_inner(size, &mut virt_addr, &mut phys_addr, flags) {
            Ok(()) => {},
            Err(e) => {
                assert(map_spec(m, va as int, pa as int, virt_end as int, flags@).is_none());
                return Err(e);
            },
        }
        assert(map_spec(m, va as int, pa as int, virt_end as int, flags@) == map_spec(
            tables@,
            virt_addr as int,
            phys_addr as int,
            virt_end as int,
            flags@,
        ));
    }
    proof {
        if tables_unshared(m0) && translatable_range(phys_addr_start, virt_addr_start, virt_addr_end) {
            lemma_map_translates(m0, phys_addr_start, virt_addr_start, virt_addr_end, flags@);
        }
    }
    Ok(())
}

} // verus!

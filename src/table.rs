//! A table of 512 entries of one level, and address alignment.
use vstd::prelude::*;

use crate::descriptors::{
    block_encoding, desc_valid, page_encoding, table_encoding, CanMapBlocks, DescriptorFlags,
    PageTableDescriptor,
};
use crate::levels::{
    slot_of, Bottom, Middle, PageTableIndex, PageTableLevel, PageTableLevelHasNext, ENTRY_COUNT,
};

verus! {

/// `bytes` is a power of two.
pub open spec fn is_pow2(bytes: usize) -> bool {
    bytes != 0 && bytes & ((bytes - 1) as usize) == 0
}

/// `addr` is a multiple of the power of two `bytes`.
pub open spec fn is_aligned(addr: usize, bytes: usize) -> bool {
    addr & ((bytes - 1) as usize) == 0
}

/// `addr` rounded down to a multiple of the power of two `bytes`.
pub fn align_down(addr: usize, bytes: usize) -> (r: usize)
    requires
        is_pow2(bytes),
    ensures
        is_aligned(r, bytes),
        r <= addr,
        addr - r < bytes,
{
    let r = addr & !(bytes - 1);
    assert(r & ((bytes - 1) as usize) == 0 && r <= addr && addr - r < bytes) by (bit_vector)
        requires
            r == addr & !((bytes - 1) as usize),
            bytes != 0,
            bytes & ((bytes - 1) as usize) == 0,
    ;
    r
}

/// `addr` rounded up to a multiple of the power of two `bytes`.
pub fn align_up(addr: usize, bytes: usize) -> (r: usize)
    requires
        is_pow2(bytes),
        addr <= usize::MAX - (bytes - 1),
    ensures
        is_aligned(r, bytes),
        addr <= r,
        r - addr < bytes,
{
    let s = addr + (bytes - 1);
    let r = s & !(bytes - 1);
    assert(r & ((bytes - 1) as usize) == 0 && addr <= r && r - addr < bytes) by (bit_vector)
        requires
            s >= addr,
            s - addr == bytes - 1,
            r == s & !((bytes - 1) as usize),
            bytes != 0,
            bytes & ((bytes - 1) as usize) == 0,
    ;
    r
}

/// `addr` with its low `bits` bits cleared.
pub fn align_down_bits(addr: usize, bits: usize) -> (r: usize)
    requires
        bits < usize::BITS,
    ensures
        is_aligned(r, 1usize << bits),
        r <= addr,
        addr - r < (1usize << bits),
{
    let bytes = 1usize << bits;
    assert(bytes != 0 && bytes & ((bytes - 1) as usize) == 0) by (bit_vector)
        requires
            bits < usize::BITS,
            bytes == 1usize << bits,
    ;
    align_down(addr, bytes)
}

/// `addr` rounded up to a multiple of `2^bits`.
pub fn align_up_bits(addr: usize, bits: usize) -> (r: usize)
    requires
        bits < usize::BITS,
        addr <= usize::MAX - ((1usize << bits) - 1),
    ensures
        is_aligned(r, 1usize << bits),
        addr <= r,
        r - addr < (1usize << bits),
{
    let bytes = 1usize << bits;
    assert(bytes != 0 && bytes & ((bytes - 1) as usize) == 0) by (bit_vector)
        requires
            bits < usize::BITS,
            bytes == 1usize << bits,
    ;
    align_up(addr, bytes)
}

/// A table of level `L`: 512 entries.
pub struct PageTable<L> {
    entries: Vec<PageTableDescriptor<L>>,
}

impl<L> View for PageTable<L> {
    type V = Seq<u64>;

    closed spec fn view(&self) -> Seq<u64> {
        self.entries@.map_values(|d: PageTableDescriptor<L>| d@)
    }
}

/// 512 empty entries.
pub open spec fn empty_table() -> Seq<u64> {
    Seq::new(512, |i: int| 0u64)
}

impl<L: PageTableLevel> PageTable<L> {
    pub open spec fn wf(&self) -> bool {
        self@.len() == 512
    }

    /// A table whose entries are all empty.
    pub fn new() -> (r: PageTable<L>)
        ensures
            r@ == empty_table(),
    {
        let mut entries: Vec<PageTableDescriptor<L>> = Vec::with_capacity(ENTRY_COUNT);
        let mut i: usize = 0;
        while i < ENTRY_COUNT
            invariant
                i <= 512,
                entries@.len() == i,
                forall|j: int| 0 <= j < i ==> #[trigger] entries@[j]@ == 0,
            decreases 512 - i,
        {
            entries.push(PageTableDescriptor::zero());
            i = i + 1;
        }
        let r = PageTable { entries };
        assert(r@ =~= empty_table());
        r
    }

    /// Empties every entry.
    pub fn zero(&mut self)
        requires
            old(self).wf(),
        ensures
            final(self)@ == empty_table(),
    {
        let mut i: usize = 0;
        while i < ENTRY_COUNT
            invariant
                i <= 512,
                self.entries@.len() == 512,
                forall|j: int| 0 <= j < i ==> #[trigger] self.entries@[j]@ == 0,
            decreases 512 - i,
        {
            self.entries[i].set_unused();
            i = i + 1;
        }
        assert(self@ =~= empty_table());
    }

    /// No entry is valid.
    pub fn is_unused(&self) -> (r: bool)
        requires
            self.wf(),
        ensures
            r == forall|j: int| 0 <= j < 512 ==> !desc_valid(#[trigger] self@[j]),
    {
        let mut i: usize = 0;
        while i < ENTRY_COUNT
            invariant
                i <= 512,
                self.wf(),
                forall|j: int| 0 <= j < i ==> !desc_valid(#[trigger] self@[j]),
            decreases 512 - i,
        {
            if !self.entries[i].is_unused() {
                assert(desc_valid(self@[i as int]));
                return false;
            }
            i = i + 1;
        }
        true
    }

    /// The entries in slot order.
    pub fn iter(&self) -> (r: &[PageTableDescriptor<L>])
        ensures
            r@.map_values(|d: PageTableDescriptor<L>| d@) == self@,
    {
        self.entries.as_slice()
    }

    /// The entry in slot `index`.
    pub fn entry(&self, index: usize) -> (r: PageTableDescriptor<L>)
        requires
            self.wf(),
            index < 512,
        ensures
            r@ == self@[index as int],
    {
        self.entries[index].clone()
    }

    /// Writes `d` into slot `index`.
    pub fn set_entry(&mut self, index: usize, d: PageTableDescriptor<L>)
        requires
            old(self).wf(),
            index < 512,
        ensures
            final(self)@ == old(self)@.update(index as int, d@),
    {
        self.entries.set(index, d);
        assert(self@ =~= old(self)@.update(index as int, d@));
    }

    pub fn entry_at(&self, index: PageTableIndex) -> (r: PageTableDescriptor<L>)
        requires
            self.wf(),
        ensures
            r@ == self@[index@ as int],
    {
        self.entry(index.value())
    }

    pub fn set_entry_at(&mut self, index: PageTableIndex, d: PageTableDescriptor<L>)
        requires
            old(self).wf(),
        ensures
            final(self)@ == old(self)@.update(index@ as int, d@),
    {
        self.set_entry(index.value(), d)
    }
}

impl<L: PageTableLevelHasNext> PageTable<L> {
    /// Points the slot of `virt_addr` at the table whose address is `next`.
    pub fn create_table_entry(&mut self, next: usize, virt_addr: usize)
        requires
            old(self).wf(),
        ensures
            final(self)@ == old(self)@.update(
                slot_of(virt_addr, L::spec_shift()) as int,
                table_encoding(next as u64, 0),
            ),
    {
        let index = L::table_index(virt_addr);
        self.set_entry_at(index, PageTableDescriptor::new_page_table(next));
    }
}

/// `phys` with the bits below a block of `2^shift` bytes cleared.
pub open spec fn block_base(phys: usize, shift: usize) -> usize {
    (phys >> shift) << shift
}

impl PageTable<Middle> {
    /// Maps the 2 MiB block of `virt_addr` to the block of `phys_addr`.
    pub fn map_memory_block(&mut self, phys_addr: usize, virt_addr: usize, flags: DescriptorFlags)
        requires
            old(self).wf(),
        ensures
            final(self)@ == old(self)@.update(
                slot_of(virt_addr, 21) as int,
                block_encoding(block_base(phys_addr, 21) as u64, flags@),
            ),
    {
        let index = Middle::table_index(virt_addr);
        let phys = (phys_addr >> 21usize) << 21usize;
        let d = <PageTableDescriptor<Middle> as CanMapBlocks>::new_block_mem_with_flags(phys, flags);
        self.set_entry_at(index, d);
    }
}

impl PageTable<Bottom> {
    /// Maps the 4 KiB page of `virt_addr` to the page of `phys_addr`.
    pub fn map_memory_block(&mut self, phys_addr: usize, virt_addr: usize, flags: DescriptorFlags)
        requires
            old(self).wf(),
        ensures
            final(self)@ == old(self)@.update(
                slot_of(virt_addr, 12) as int,
                page_encoding(block_base(phys_addr, 12) as u64, flags@),
            ),
    {
        let index = Bottom::table_index(virt_addr);
        let phys = (phys_addr >> 12usize) << 12usize;
        let d = <PageTableDescriptor<Bottom> as CanMapBlocks>::new_block_mem_with_flags(phys, flags);
        self.set_entry_at(index, d);
    }
}

} // verus!

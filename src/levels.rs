//! The three positions of a table in the hierarchy, as marker types.
use vstd::prelude::*;

verus! {

pub const PAGE_SHIFT: usize = 12;
pub const PAGE_SIZE: usize = 4096;
pub const TABLE_SHIFT: usize = 9;
pub const ENTRY_COUNT: usize = 512;
pub const SECTION_SHIFT: usize = 21;
pub const SECTION_SIZE: usize = 0x20_0000;

/// The slot that a table whose entries each cover `2^shift` bytes uses for
/// `va`: nine address bits starting at `shift`.
pub open spec fn slot_of(va: usize, shift: usize) -> usize {
    (va >> shift) & 0x1ff
}

/// A slot number is below 512.
pub proof fn lemma_slot_bound(va: usize, shift: usize)
    ensures
        slot_of(va, shift) < 512,
{
    assert((va >> shift) & 0x1ff < 512) by (bit_vector);
}

/// Within a span of less than 2^39 - 2^21 bytes, the root and middle slots of two addresses
/// agree exactly when the addresses lie in one 2 MiB block, and then their
/// bottom slots agree exactly when they lie in one page.
pub proof fn lemma_slots_in_span(x: usize, c: usize)
    requires
        x <= c,
        c - x < 0x7f_ffe0_0000,
    ensures
        (slot_of(x, 30) == slot_of(c, 30) && slot_of(x, 21) == slot_of(c, 21)) == (x >> 21usize
            == c >> 21usize),
        x >> 21usize == c >> 21usize ==> (slot_of(x, 12) == slot_of(c, 12)) == (x >> 12usize == c
            >> 12usize),
{
    assert(((((x >> 30usize) & 0x1ff) == ((c >> 30usize) & 0x1ff) && ((x >> 21usize) & 0x1ff) == ((c
        >> 21usize) & 0x1ff)) == (x >> 21usize == c >> 21usize)) && (x >> 21usize == c >> 21usize
        ==> ((((x >> 12usize) & 0x1ff) == ((c >> 12usize) & 0x1ff)) == (x >> 12usize == c
        >> 12usize)))) by (bit_vector)
        requires
            x <= c,
            c - x < 0x7f_ffe0_0000,
    ;
}

/// A slot number of a table: always below 512.
#[derive(Clone, Copy, Debug, PartialEq, Eq)]
pub struct PageTableIndex(u16);

impl View for PageTableIndex {
    type V = nat;

    closed spec fn view(&self) -> nat {
        self.0 as nat
    }
}

impl PageTableIndex {
    #[verifier::type_invariant]
    spec fn inv(self) -> bool {
        self.0 < 512
    }

    pub fn new(index: u16) -> (r: PageTableIndex)
        requires
            index < 512,
        ensures
            r@ == index as nat,
    {
        PageTableIndex(index)
    }

    pub fn value(&self) -> (r: usize)
        ensures
            r == self@,
            r < 512,
    {
        proof {
            use_type_invariant(self);
        }
        self.0 as usize
    }
}

/// What a level fixes: the number of address bits below it (`shift`), so
/// the size that one entry covers, and which kinds of entry it may hold.
pub trait PageTableLevel: Copy {
    spec fn spec_shift() -> usize;

    /// Entries may point to a table of the next level.
    spec fn spec_has_next() -> bool;

    /// Entries may end a translation (a block, or a page).
    spec fn spec_can_terminate() -> bool;

    fn shift() -> (r: usize)
        ensures
            r == Self::spec_shift(),
            r == 12 || r == 21 || r == 30,
    ;

    fn has_next() -> (r: bool)
        ensures
            r == Self::spec_has_next(),
    ;

    fn can_terminate() -> (r: bool)
        ensures
            r == Self::spec_can_terminate(),
    ;

    fn block_size() -> (r: usize)
        ensures
            r == 1usize << Self::spec_shift(),
    {
        1usize << Self::shift()
    }

    fn table_index(virt_addr: usize) -> (r: PageTableIndex)
        ensures
            r@ == slot_of(virt_addr, Self::spec_shift()),
            r@ < 512,
    {
        let shift = Self::shift();
        let index = (virt_addr >> shift) & 0x1ff;
        assert(index < 512) by (bit_vector)
            requires
                index == (virt_addr >> shift) & 0x1ff,
        ;
        let r = PageTableIndex::new(index as u16);
        r
    }
}

/// A level whose entries may point to a table of level `Next`.
pub trait PageTableLevelHasNext: PageTableLevel {
    type Next: PageTableLevel;
}

/// A level whose entries may end a translation.
pub trait PageTableLevel1Through3: PageTableLevel {}

/// A level whose entries may point to another table.
pub trait PageTableLevel0Through2: PageTableLevel {}

/// The root level: one entry covers 1 GiB and always points to a table.
#[derive(Clone, Copy, Debug)]
pub struct Global;

/// The middle level: one entry covers 2 MiB, as a block or through a table.
#[derive(Clone, Copy, Debug)]
pub struct Middle;

/// The last level: one entry maps one 4 KiB page.
#[derive(Clone, Copy, Debug)]
pub struct Bottom;

impl PageTableLevel for Global {
    open spec fn spec_shift() -> usize {
        30
    }

    open spec fn spec_has_next() -> bool {
        true
    }

    open spec fn spec_can_terminate() -> bool {
        false
    }

    fn shift() -> (r: usize) {
        30
    }

    fn has_next() -> (r: bool) {
        true
    }

    fn can_terminate() -> (r: bool) {
        false
    }
}

impl PageTableLevel for Middle {
    open spec fn spec_shift() -> usize {
        21
    }

    open spec fn spec_has_next() -> bool {
        true
    }

    open spec fn spec_can_terminate() -> bool {
        true
    }

    fn shift() -> (r: usize) {
        21
    }

    fn has_next() -> (r: bool) {
        true
    }

    fn can_terminate() -> (r: bool) {
        true
    }
}

impl PageTableLevel for Bottom {
    open spec fn spec_shift() -> usize {
        12
    }

    open spec fn spec_has_next() -> bool {
        false
    }

    open spec fn spec_can_terminate() -> bool {
        true
    }

    fn shift() -> (r: usize) {
        12
    }

    fn has_next() -> (r: bool) {
        false
    }

    fn can_terminate() -> (r: bool) {
        true
    }
}

impl PageTableLevelHasNext for Global {
    type Next = Middle;
}

impl PageTableLevelHasNext for Middle {
    type Next = Bottom;
}

impl PageTableLevel0Through2 for Global {}

impl PageTableLevel0Through2 for Middle {}

impl PageTableLevel1Through3 for Middle {}

impl PageTableLevel1Through3 for Bottom {}

} // verus!

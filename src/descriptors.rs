//! One 64-bit table entry, typed by the level of the table that holds it.
//!
//! Bit 0 marks the entry valid. Bit 1 means "points to a table" at a level
//! that has a next level, and must be set on a page at the last level: the
//! same bit reads differently by level, so construction and queries are
//! given per level. Bits 2..=11 and 53..=54 hold the attributes, and bits
//! 12..=47 the address of a frame or of the next table.
use core::marker::PhantomData;
use vstd::prelude::*;

use crate::bits::{bits_spec, get_bit, get_bits};
use crate::levels::{Bottom, Middle, PageTableLevel, PageTableLevelHasNext};

verus! {

pub const VALID: u64 = 1;
pub const PAGE_TABLE_FLAG: u64 = 2;
pub const ATTR_INDEX_DEVICE_NGNRNE: u64 = 0;
pub const ATTR_INDEX_NORMAL_NC: u64 = 0x4;
pub const NON_SECURE: u64 = 0x20;
pub const EL1_RW_EL0_NONE: u64 = 0;
pub const EL1_RW_EL0_RW: u64 = 0x40;
pub const EL1_R0_EL0_NONE: u64 = 0x80;
pub const EL1_R0_EL0_RO: u64 = 0xc0;
pub const OUTER_SHAREABLE: u64 = 0x200;
pub const INNER_SHAREABLE: u64 = 0x300;
pub const ACCESS: u64 = 0x400;
pub const NOT_GLOBAL: u64 = 0x800;
pub const PRIVILEGED_EXECUTE_NEVER: u64 = 0x20_0000_0000_0000;
pub const EXECUTE_NEVER: u64 = 0x40_0000_0000_0000;

/// Every bit that a flag set may hold: all but the address field.
pub const FLAG_MASK: u64 = 0x0060_0000_0000_0fff;

/// The attribute bits: the flag bits but valid and kind.
pub const ATTR_MASK: u64 = 0x0060_0000_0000_0ffc;

/// The address field, bits 12..=47.
pub const ADDR_MASK: u64 = 0x0000_ffff_ffff_f000;

pub open spec fn desc_valid(v: u64) -> bool {
    v & 1 == 1
}

pub open spec fn desc_kind(v: u64) -> bool {
    v & 2 == 2
}

pub open spec fn desc_addr(v: u64) -> u64 {
    v & ADDR_MASK
}

pub open spec fn desc_attrs(v: u64) -> u64 {
    v & ATTR_MASK
}

/// Read at level `L`, `v` points to a table of the next level.
pub open spec fn is_table_at<L: PageTableLevel>(v: u64) -> bool {
    L::spec_has_next() && desc_valid(v) && desc_kind(v)
}

/// Read at level `L`, `v` ends a translation: a block at a level with a
/// next level (kind bit clear), a page at the last (kind bit set).
pub open spec fn is_block_at<L: PageTableLevel>(v: u64) -> bool {
    L::spec_can_terminate() && desc_valid(v) && (desc_kind(v) != L::spec_has_next())
}

/// The empty entry is neither a table pointer nor a mapping, at any level.
pub proof fn lemma_zero_is_empty<L: PageTableLevel>()
    ensures
        !desc_valid(0),
        !is_table_at::<L>(0),
        !is_block_at::<L>(0),
{
    assert(0u64 & 1 != 1) by (bit_vector);
}

/// An entry built to point to a frame-aligned table below the 48-bit limit
/// points to it, at every level that has a next level.
pub proof fn lemma_table_encoding(phys: u64, flags: u64)
    requires
        phys & !ADDR_MASK == 0,
    ensures
        desc_valid(table_encoding(phys, flags)),
        desc_kind(table_encoding(phys, flags)),
        desc_addr(table_encoding(phys, flags)) == phys,
{
    assert(desc_valid(table_encoding(phys, flags)) && desc_kind(table_encoding(phys, flags))
        && desc_addr(table_encoding(phys, flags)) == phys) by (bit_vector)
        requires
            phys & !ADDR_MASK == 0,
    ;
}

/// An entry that maps a frame-aligned address below the 48-bit limit holds
/// that address, whatever its flags.
pub proof fn lemma_terminal_address(phys: u64, flags: u64)
    requires
        phys & !ADDR_MASK == 0,
    ensures
        desc_addr(block_encoding(phys, flags)) == phys,
        desc_addr(page_encoding(phys, flags)) == phys,
        desc_valid(page_encoding(phys, flags)),
        desc_kind(page_encoding(phys, flags)),
{
    assert(desc_addr(block_encoding(phys, flags)) == phys && desc_addr(page_encoding(phys, flags))
        == phys && desc_valid(page_encoding(phys, flags)) && desc_kind(page_encoding(phys, flags)))
        by (bit_vector)
        requires
            phys & !ADDR_MASK == 0,
    ;
}

/// A block entry of the middle level is valid and never reads as a table
/// pointer there.
pub proof fn lemma_block_is_not_table(phys: u64, flags: u64)
    ensures
        desc_valid(block_encoding(phys, flags)),
        !desc_kind(block_encoding(phys, flags)),
{
    assert(desc_valid(block_encoding(phys, flags)) && !desc_kind(block_encoding(phys, flags)))
        by (bit_vector);
}

/// A frame address fits the address field: aligned to 4 KiB and below 2^48.
pub proof fn lemma_frame_fits(phys: u64)
    requires
        phys % 4096 == 0,
        phys < 0x1_0000_0000_0000,
    ensures
        phys & !ADDR_MASK == 0,
{
    assert(phys & !ADDR_MASK == 0) by (bit_vector)
        requires
            phys % 4096 == 0,
            phys < 0x1_0000_0000_0000,
    ;
}

/// An entry that points to the table at `phys`.
pub open spec fn table_encoding(phys: u64, flags: u64) -> u64 {
    (phys & ADDR_MASK) | (flags & ATTR_MASK) | PAGE_TABLE_FLAG | VALID
}

/// A block entry of a level with a next level: the kind bit stays clear.
pub open spec fn block_encoding(phys: u64, flags: u64) -> u64 {
    (phys & ADDR_MASK) | (flags & ATTR_MASK) | VALID
}

/// A page entry of the last level: the kind bit is set.
pub open spec fn page_encoding(phys: u64, flags: u64) -> u64 {
    (phys & ADDR_MASK) | (flags & ATTR_MASK) | PAGE_TABLE_FLAG | VALID
}

/// What an entry is, read by the rule of its level.
#[derive(Clone, Copy, Debug, PartialEq, Eq)]
pub enum EntryKind {
    Unused,
    Table { addr: u64 },
    Mapping { addr: u64 },
    /// Valid, but neither a table pointer nor a mapping at this level.
    Reserved,
}

/// The fields of an entry, for diagnostics.
#[derive(Clone, Copy, Debug, PartialEq, Eq)]
pub struct DescriptorFields {
    pub kind: EntryKind,
    pub attr_index: u64,
    pub non_secure: bool,
    pub access_permission: u64,
    pub sharability: u64,
    pub access: bool,
    pub not_global: bool,
}

/// The fields of the raw entry `v` at level `L`: the kind and address, the
/// attribute index (bits 4:2), non-secure (bit 5), access permissions (bits
/// 7:6), shareability (bits 9:8), access flag (bit 10), not-global (bit 11).
pub open spec fn fields_spec<L: PageTableLevel>(v: u64) -> DescriptorFields {
    DescriptorFields {
        kind: if !desc_valid(v) {
            EntryKind::Unused
        } else if is_table_at::<L>(v) {
            EntryKind::Table { addr: desc_addr(v) }
        } else if is_block_at::<L>(v) {
            EntryKind::Mapping { addr: desc_addr(v) }
        } else {
            EntryKind::Reserved
        },
        attr_index: bits_spec(v, 2, 5),
        non_secure: v & 0x20 != 0,
        access_permission: bits_spec(v, 6, 8),
        sharability: bits_spec(v, 8, 10),
        access: v & 0x400 != 0,
        not_global: v & 0x800 != 0,
    }
}

/// A set of descriptor flags; it never holds address bits.
#[derive(Clone, Copy, Debug, PartialEq, Eq)]
pub struct DescriptorFlags {
    bits: u64,
}

impl View for DescriptorFlags {
    type V = u64;

    closed spec fn view(&self) -> u64 {
        self.bits
    }
}

impl DescriptorFlags {
    #[verifier::type_invariant]
    spec fn inv(self) -> bool {
        self.bits & !FLAG_MASK == 0
    }

    pub fn empty() -> (r: DescriptorFlags)
        ensures
            r@ == 0,
    {
        assert(0u64 & !FLAG_MASK == 0) by (bit_vector);
        DescriptorFlags { bits: 0 }
    }

    /// The flags of `bits`, with the address bits dropped.
    pub fn from_bits_truncate(bits: u64) -> (r: DescriptorFlags)
        ensures
            r@ == bits & FLAG_MASK,
    {
        let b = bits & FLAG_MASK;
        assert(b & !FLAG_MASK == 0) by (bit_vector)
            requires
                b == bits & FLAG_MASK,
        ;
        DescriptorFlags { bits: b }
    }

    pub fn bits(&self) -> (r: u64)
        ensures
            r == self@,
            r & !FLAG_MASK == 0,
    {
        proof {
            use_type_invariant(self);
        }
        self.bits
    }

    pub fn union(self, other: DescriptorFlags) -> (r: DescriptorFlags)
        ensures
            r@ == self@ | other@,
    {
        let a = self.bits();
        let b = other.bits();
        let u = a | b;
        assert(u & !FLAG_MASK == 0) by (bit_vector)
            requires
                u == a | b,
                a & !FLAG_MASK == 0,
                b & !FLAG_MASK == 0,
        ;
        DescriptorFlags { bits: u }
    }

    pub fn contains(self, other: DescriptorFlags) -> (r: bool)
        ensures
            r == (self@ & other@ == other@),
    {
        self.bits() & other.bits() == other.bits()
    }
}

/// One entry of a table of level `L`.
#[derive(Debug)]
pub struct PageTableDescriptor<L> {
    value: u64,
    level: PhantomData<L>,
}

impl<L> Clone for PageTableDescriptor<L> {
    fn clone(&self) -> (r: Self)
        ensures
            r@ == self@,
    {
        PageTableDescriptor { value: self.value, level: PhantomData }
    }
}

impl<L: Copy> Copy for PageTableDescriptor<L> {}

impl<L> View for PageTableDescriptor<L> {
    type V = u64;

    closed spec fn view(&self) -> u64 {
        self.value
    }
}

impl<L: PageTableLevel> PageTableDescriptor<L> {
    /// The empty entry.
    pub fn zero() -> (r: Self)
        ensures
            r@ == 0,
    {
        PageTableDescriptor { value: 0, level: PhantomData }
    }

    /// The entry with the raw bits `value`.
    pub fn new_unchecked(value: u64) -> (r: Self)
        ensures
            r@ == value,
    {
        PageTableDescriptor { value, level: PhantomData }
    }

    pub fn value(self) -> (r: u64)
        ensures
            r == self@,
    {
        self.value
    }

    pub fn is_unused(self) -> (r: bool)
        ensures
            r == !desc_valid(self@),
    {
        let v = self.value;
        assert((v & 1 == 0) == !(v & 1 == 1)) by (bit_vector);
        (v & 1) == 0
    }

    pub fn set_unused(&mut self)
        ensures
            final(self)@ == 0,
    {
        self.value = 0;
    }

    /// The entry ends a translation, read by the rule of level `L`.
    pub fn is_block_mem(self) -> (r: bool)
        ensures
            r == is_block_at::<L>(self@),
    {
        L::can_terminate() && (self.value & 1) == 1 && (((self.value & 2) == 2) != L::has_next())
    }

    /// The entry points to a table of the next level.
    pub fn is_table_ptr(self) -> (r: bool)
        ensures
            r == is_table_at::<L>(self@),
    {
        L::has_next() && (self.value & 1) == 1 && (self.value & 2) == 2
    }

    /// The attributes of an entry that ends a translation.
    pub fn block_attrs(self) -> (r: Option<BlockAttributes>)
        ensures
            r.is_some() == is_block_at::<L>(self@),
            r.is_some() ==> r.unwrap()@ == desc_attrs(self@),
    {
        if self.is_block_mem() {
            Some(BlockAttributes { attrs: self.flags() })
        } else {
            None
        }
    }

    /// The address field: a frame, or the next table.
    pub fn address(self) -> (r: u64)
        ensures
            r == desc_addr(self@),
    {
        self.value & ADDR_MASK
    }

    /// The fields of the entry, read by the rule of level `L`.
    pub fn decode(self) -> (r: DescriptorFields)
        ensures
            r == fields_spec::<L>(self@),
    {
        assert(1u64 << 5u64 == 0x20 && 1u64 << 10u64 == 0x400 && 1u64 << 11u64 == 0x800)
            by (bit_vector);
        let kind = if self.is_unused() {
            EntryKind::Unused
        } else if self.is_table_ptr() {
            EntryKind::Table { addr: self.address() }
        } else if self.is_block_mem() {
            EntryKind::Mapping { addr: self.address() }
        } else {
            EntryKind::Reserved
        };
        let v = self.value;
        DescriptorFields {
            kind,
            attr_index: get_bits(v, 2, 5),
            non_secure: get_bit(v, 5),
            access_permission: get_bits(v, 6, 8),
            sharability: get_bits(v, 8, 10),
            access: get_bit(v, 10),
            not_global: get_bit(v, 11),
        }
    }

    /// The attribute bits, without valid, kind and address.
    pub fn flags(self) -> (r: DescriptorFlags)
        ensures
            r@ == desc_attrs(self@),
    {
        let v = self.value;
        proof {
            assert((v & ATTR_MASK) & FLAG_MASK == v & ATTR_MASK) by (bit_vector);
        }
        DescriptorFlags::from_bits_truncate(v & ATTR_MASK)
    }
}

impl<L: PageTableLevelHasNext> PageTableDescriptor<L> {
    /// An entry that points to the table at `phys`, with the attributes of
    /// `flags`.
    pub fn new_page_table_with_flags(phys: usize, flags: DescriptorFlags) -> (r: Self)
        ensures
            r@ == table_encoding(phys as u64, flags@),
    {
        let value = ((phys as u64) & ADDR_MASK) | (flags.bits() & ATTR_MASK) | PAGE_TABLE_FLAG
            | VALID;
        PageTableDescriptor { value, level: PhantomData }
    }

    pub fn new_page_table(phys: usize) -> (r: Self)
        ensures
            r@ == table_encoding(phys as u64, 0),
    {
        PageTableDescriptor::new_page_table_with_flags(phys, DescriptorFlags::empty())
    }

    /// The address of the next table, if the entry points to one.
    pub fn get_table(self) -> (r: Option<u64>)
        ensures
            r.is_some() == is_table_at::<L>(self@),
            r.is_some() ==> r.unwrap() == desc_addr(self@),
    {
        if self.is_table_ptr() {
            Some(self.address())
        } else {
            None
        }
    }
}

/// Construction of entries that end a translation, given per level.
pub trait CanMapBlocks: Sized {
    /// The raw bits of an entry.
    spec fn raw(&self) -> u64;

    /// The raw bits of the entry that maps `phys` with `flags`.
    spec fn terminal_encoding(phys: u64, flags: u64) -> u64;

    fn new_block_mem_with_flags(phys: usize, flags: DescriptorFlags) -> (r: Self)
        ensures
            r.raw() == Self::terminal_encoding(phys as u64, flags@),
    ;

    fn new_block_mem(phys: usize) -> (r: Self)
        ensures
            r.raw() == Self::terminal_encoding(phys as u64, 0),
    {
        Self::new_block_mem_with_flags(phys, DescriptorFlags::empty())
    }
}

impl CanMapBlocks for PageTableDescriptor<Middle> {
    open spec fn raw(&self) -> u64 {
        self@
    }

    open spec fn terminal_encoding(phys: u64, flags: u64) -> u64 {
        block_encoding(phys, flags)
    }

    fn new_block_mem_with_flags(phys: usize, flags: DescriptorFlags) -> (r: Self) {
        let value = ((phys as u64) & ADDR_MASK) | (flags.bits() & ATTR_MASK) | VALID;
        PageTableDescriptor { value, level: PhantomData }
    }
}

impl CanMapBlocks for PageTableDescriptor<Bottom> {
    open spec fn raw(&self) -> u64 {
        self@
    }

    open spec fn terminal_encoding(phys: u64, flags: u64) -> u64 {
        page_encoding(phys, flags)
    }

    fn new_block_mem_with_flags(phys: usize, flags: DescriptorFlags) -> (r: Self) {
        let value = ((phys as u64) & ADDR_MASK) | (flags.bits() & ATTR_MASK) | PAGE_TABLE_FLAG
            | VALID;
        PageTableDescriptor { value, level: PhantomData }
    }
}

/// The attributes of an entry that ends a translation.
#[derive(Clone, Copy, Debug)]
pub struct BlockAttributes {
    attrs: DescriptorFlags,
}

impl View for BlockAttributes {
    type V = u64;

    closed spec fn view(&self) -> u64 {
        self.attrs@
    }
}

impl BlockAttributes {
    pub fn flags(&self) -> (r: DescriptorFlags)
        ensures
            r@ == self@,
    {
        self.attrs
    }
}

/// Building an entry that ends a translation and reading it back gives the
/// frame address and the attributes it was built from, at both levels that
/// can end one, and the entry reads there as a mapping.
pub proof fn lemma_terminal_round_trip(phys: u64, flags: u64)
    requires
        phys & !ADDR_MASK == 0,
        flags & !ATTR_MASK == 0,
    ensures
        desc_addr(<PageTableDescriptor<Middle> as CanMapBlocks>::terminal_encoding(phys, flags))
            == phys,
        desc_attrs(<PageTableDescriptor<Middle> as CanMapBlocks>::terminal_encoding(phys, flags))
            == flags,
        is_block_at::<Middle>(
            <PageTableDescriptor<Middle> as CanMapBlocks>::terminal_encoding(phys, flags),
        ),
        desc_addr(<PageTableDescriptor<Bottom> as CanMapBlocks>::terminal_encoding(phys, flags))
            == phys,
        desc_attrs(<PageTableDescriptor<Bottom> as CanMapBlocks>::terminal_encoding(phys, flags))
            == flags,
        is_block_at::<Bottom>(
            <PageTableDescriptor<Bottom> as CanMapBlocks>::terminal_encoding(phys, flags),
        ),
{
    assert(desc_addr(block_encoding(phys, flags)) == phys && desc_attrs(block_encoding(phys, flags))
        == flags && desc_valid(block_encoding(phys, flags)) && !desc_kind(
        block_encoding(phys, flags),
    )) by (bit_vector)
        requires
            phys & !ADDR_MASK == 0,
            flags & !ATTR_MASK == 0,
    ;
    assert(desc_addr(page_encoding(phys, flags)) == phys && desc_attrs(page_encoding(phys, flags))
        == flags && desc_valid(page_encoding(phys, flags)) && desc_kind(page_encoding(phys, flags)))
        by (bit_vector)
        requires
            phys & !ADDR_MASK == 0,
            flags & !ATTR_MASK == 0,
    ;
}

/// The kind bit reads by level: a page entry built at the bottom level has
/// it set, reads as a mapping and never as a table pointer there; a block
/// entry built at the middle level has it clear.
pub proof fn lemma_kind_bit_by_level(phys: u64, flags: u64)
    ensures
        desc_kind(<PageTableDescriptor<Bottom> as CanMapBlocks>::terminal_encoding(phys, flags)),
        is_block_at::<Bottom>(
            <PageTableDescriptor<Bottom> as CanMapBlocks>::terminal_encoding(phys, flags),
        ),
        !is_table_at::<Bottom>(
            <PageTableDescriptor<Bottom> as CanMapBlocks>::terminal_encoding(phys, flags),
        ),
        !desc_kind(<PageTableDescriptor<Middle> as CanMapBlocks>::terminal_encoding(phys, flags)),
        is_block_at::<Middle>(
            <PageTableDescriptor<Middle> as CanMapBlocks>::terminal_encoding(phys, flags),
        ),
        !is_table_at::<Middle>(
            <PageTableDescriptor<Middle> as CanMapBlocks>::terminal_encoding(phys, flags),
        ),
{
    assert(desc_valid(page_encoding(phys, flags)) && desc_kind(page_encoding(phys, flags)))
        by (bit_vector);
    lemma_block_is_not_table(phys, flags);
}

} // verus!

use rpi_mmu::descriptors::{
    CanMapBlocks, DescriptorFields, DescriptorFlags, EntryKind, PageTableDescriptor, ACCESS, ATTR_INDEX_NORMAL_NC,
    EL1_RW_EL0_NONE, NON_SECURE, NOT_GLOBAL, PAGE_TABLE_FLAG, VALID,
};
use rpi_mmu::levels::{Bottom, Global, Middle, PageTableIndex, PageTableLevel};

fn normal_flags() -> DescriptorFlags {
    DescriptorFlags::from_bits_truncate(ATTR_INDEX_NORMAL_NC | EL1_RW_EL0_NONE | NON_SECURE | ACCESS)
}

#[test]
fn terminal_round_trip_at_both_levels() {
    let flags = normal_flags();
    let phys: usize = 0x4020_0000;
    let block = <PageTableDescriptor<Middle> as CanMapBlocks>::new_block_mem_with_flags(phys, flags);
    assert_eq!(block.address(), phys as u64);
    assert_eq!(block.flags().bits(), flags.bits());
    assert!(block.is_block_mem());
    assert!(!block.is_table_ptr());
    let page = <PageTableDescriptor<Bottom> as CanMapBlocks>::new_block_mem_with_flags(0x1234_5000, flags);
    assert_eq!(page.address(), 0x1234_5000);
    assert_eq!(page.flags().bits(), flags.bits());
    assert_eq!(page.block_attrs().unwrap().flags().bits(), flags.bits());
}

#[test]
fn bottom_pages_set_the_kind_bit_that_middle_blocks_omit() {
    let flags = normal_flags();
    let page = <PageTableDescriptor<Bottom> as CanMapBlocks>::new_block_mem_with_flags(0x2000, flags);
    assert_eq!(page.value() & PAGE_TABLE_FLAG, PAGE_TABLE_FLAG);
    assert!(!page.is_table_ptr());
    assert!(page.is_block_mem());
    let block = <PageTableDescriptor<Middle> as CanMapBlocks>::new_block_mem_with_flags(0x20_0000, flags);
    assert_eq!(block.value() & PAGE_TABLE_FLAG, 0);
    assert_eq!(block.value(), 0x20_0000 | 0x4 | 0x20 | 0x400 | VALID);
    assert_eq!(page.value(), 0x2000 | 0x4 | 0x20 | 0x400 | PAGE_TABLE_FLAG | VALID);
}

#[test]
fn construction_masks_address_and_kind_bits() {
    // Address bits in the flags are dropped; valid and kind come from the level.
    let flags = DescriptorFlags::from_bits_truncate(0xffff_ffff_ffff_ffff);
    assert_eq!(flags.bits(), 0x0060_0000_0000_0fff);
    let block = <PageTableDescriptor<Middle> as CanMapBlocks>::new_block_mem_with_flags(0x123, flags);
    assert_eq!(block.address(), 0);
    assert_eq!(block.value() & PAGE_TABLE_FLAG, 0);
    assert_eq!(block.flags().bits(), 0x0060_0000_0000_0ffc);
    let page = <PageTableDescriptor<Bottom> as CanMapBlocks>::new_block_mem(0x5000);
    assert_eq!(page.value(), 0x5003);
}

#[test]
fn table_pointers_by_level() {
    let d = PageTableDescriptor::<Global>::new_page_table(0x8_1000);
    assert!(d.is_table_ptr());
    assert!(!d.is_block_mem());
    assert_eq!(d.get_table(), Some(0x8_1000));
    assert_eq!(d.value(), 0x8_1003);
    let m = PageTableDescriptor::<Middle>::new_page_table_with_flags(0x9000, DescriptorFlags::from_bits_truncate(NOT_GLOBAL));
    assert_eq!(m.value(), 0x9000 | 0x800 | 3);
    assert_eq!(m.get_table(), Some(0x9000));
    // The same bits at the bottom level are a page, never a pointer.
    let b = PageTableDescriptor::<Bottom>::new_unchecked(0x9003);
    assert!(!b.is_table_ptr());
    assert!(b.is_block_mem());
    // A valid root entry with the kind bit clear neither maps nor points.
    let g = PageTableDescriptor::<Global>::new_unchecked(0x4000_0001);
    assert!(!g.is_table_ptr());
    assert!(!g.is_block_mem());
    assert_eq!(g.block_attrs().is_none(), true);
}

#[test]
fn empty_entries() {
    let mut d = PageTableDescriptor::<Middle>::new_unchecked(0x20_0401);
    assert!(!d.is_unused());
    d.set_unused();
    assert!(d.is_unused());
    assert_eq!(d.value(), 0);
    let z = PageTableDescriptor::<Bottom>::zero();
    assert!(z.is_unused());
    assert!(!z.is_block_mem());
}

#[test]
fn flag_sets() {
    let a = DescriptorFlags::from_bits_truncate(ACCESS);
    let b = DescriptorFlags::from_bits_truncate(NON_SECURE);
    let u = a.union(b);
    assert_eq!(u.bits(), ACCESS | NON_SECURE);
    assert!(u.contains(a));
    assert!(!a.contains(u));
    assert_eq!(DescriptorFlags::empty().bits(), 0);
}

#[test]
fn level_shifts_and_indices() {
    assert_eq!(Global::shift(), 30);
    assert_eq!(Middle::shift(), 21);
    assert_eq!(Bottom::shift(), 12);
    assert_eq!(Middle::block_size(), 0x20_0000);
    assert_eq!(Bottom::block_size(), 0x1000);
    let va: usize = 0x8040_3000;
    assert_eq!(Global::table_index(va).value(), 2);
    assert_eq!(Middle::table_index(va).value(), 2);
    assert_eq!(Bottom::table_index(va).value(), 3);
    assert_eq!(PageTableIndex::new(511).value(), 511);
    assert!(Global::has_next() && !Global::can_terminate());
    assert!(Middle::has_next() && Middle::can_terminate());
    assert!(!Bottom::has_next() && Bottom::can_terminate());
}

#[test]
fn decoding_entry_fields() {
    let d = PageTableDescriptor::<Bottom>::new_unchecked(0x0000_0012_3456_7f27);
    assert_eq!(
        d.decode(),
        DescriptorFields {
            kind: EntryKind::Mapping { addr: 0x12_3456_7000 },
            attr_index: 0b001,
            non_secure: true,
            access_permission: 0b00,
            sharability: 0b11,
            access: true,
            not_global: true,
        }
    );
    let t = PageTableDescriptor::<Middle>::new_unchecked(0x9000 | 0xc3);
    assert_eq!(t.decode().kind, EntryKind::Table { addr: 0x9000 });
    assert_eq!(t.decode().access_permission, 0b11);
    let r = PageTableDescriptor::<Global>::new_unchecked(0x4000_0001);
    assert_eq!(r.decode().kind, EntryKind::Reserved);
    assert_eq!(PageTableDescriptor::<Global>::zero().decode().kind, EntryKind::Unused);
}

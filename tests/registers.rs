use rpi_mmu::addrs::{PhysAddr, VirtAddr};
use rpi_mmu::arena::PageTables;
use rpi_mmu::boot::{
    create_page_tables, decode_probe, root_registers, BootLayout, TranslationProbe, MAIR_VALUE,
    TCR_VALUE,
};
use rpi_mmu::levels::{Bottom, Global, Middle, PageTableLevel};
use rpi_mmu::table::{align_down, align_down_bits, align_up, align_up_bits, PageTable};
use rpi_mmu::ttbr::{MisalignedTable, TTBR};

#[test]
fn ttbr_rejects_misaligned_root() {
    let r = TTBR::<0, 1>::from_table_addr(0x8_0040);
    assert_eq!(r, Err(MisalignedTable { addr: 0x8_0040 }));
    let r = TTBR::<1, 1>::from_table_addr(0x1_0000_0000);
    assert_eq!(r, Err(MisalignedTable { addr: 0x1_0000_0000 }));
    let ok = TTBR::<0, 1>::from_table_addr(0x8_0080).unwrap();
    assert_eq!(ok.value(), 0x8_0080);
}

#[test]
fn ttbr_attribute_setters() {
    let t = TTBR::<0, 1>::from_table_addr(0x8_0000).unwrap();
    assert_eq!(t.set_inner_region(0b01).value(), 0x8_0040);
    assert_eq!(t.set_inner_region(0b10).value(), 0x8_0001);
    assert_eq!(t.set_inner_region(0b11).set_inner_region(0).value(), 0x8_0000);
    assert_eq!(t.set_outer_region(0b111).value(), 0x8_0018);
    assert_eq!(t.set_inner_shareable().value(), 0x8_0022);
    assert_eq!(t.set_inner_shareable().set_outer_sharable().value(), 0x8_0002);
    assert_eq!(t.set_inner_shareable().set_not_sharable().value(), 0x8_0000);
}

#[test]
fn root_registers_for_the_boot_map() {
    let (low, high) = root_registers(0x9_0000).unwrap();
    assert_eq!(low.value(), 0x9_0002);
    assert_eq!(high.value(), 0x9_0002);
    assert_eq!(root_registers(0x9_0010), Err(MisalignedTable { addr: 0x9_0010 }));
}

#[test]
fn register_constants() {
    assert_eq!(MAIR_VALUE, 0x4400);
    assert_eq!(TCR_VALUE, 0x2_b0a0_0320);
}

#[test]
fn boot_map_covers_image_and_devices() {
    let mut t = PageTables::new(0x100_0000, 8, 8).unwrap();
    let layout = BootLayout {
        image_start: 0,
        memory_end: 0x4000_0000,
        device_phys: 0x3f00_0000,
        device_start: 0x3f00_0000,
        device_end: 0x4000_0000 - 0x20_0000,
    };
    assert_eq!(create_page_tables(&mut t, layout), Ok(()));
    assert_eq!(t.translate(0x8_0000), Some(0x8_0000));
    assert_eq!(t.translate(0x3eff_fff0), Some(0x3eff_fff0));
    assert_eq!(t.translate(0x3f20_1000), Some(0x3f20_1000));
    assert_eq!(t.translate(0x4000_0000), None);
    // The device window carries the device attribute index, the rest normal.
    let m = t.middle(0);
    let dev = m.entry(Middle::table_index(0x3f00_0000).value());
    assert_eq!(dev.flags().bits() & 0x1c, 0);
    let img = m.entry(Middle::table_index(0x20_0000).value());
    assert_eq!(img.flags().bits() & 0x1c, 0x4);
    assert_eq!(t.global_addr(), 0x100_0000);
}

#[test]
fn probe_decoding() {
    assert_eq!(
        decode_probe(0x0000_0000_3f20_1380),
        TranslationProbe::Translated { output_address: 0x3f20_1000, shareability: 0b11, non_secure: true }
    );
    assert_eq!(
        decode_probe(0x0000_0000_0000_0313),
        TranslationProbe::Failed { stage: 2, page_table_walk: true, fault_status: 0b001001 }
    );
}

#[test]
fn alignment_helpers() {
    assert_eq!(align_down(0x1234, 0x1000), 0x1000);
    assert_eq!(align_up(0x1234, 0x1000), 0x2000);
    assert_eq!(align_up(0x1000, 0x1000), 0x1000);
    assert_eq!(align_down_bits(0x20_1fff, 21), 0x20_0000);
    assert_eq!(align_up_bits(0x20_0001, 21), 0x40_0000);
    assert_eq!(align_up_bits(0, 12), 0);
}

#[test]
fn tables_start_empty_and_zero() {
    let mut t = PageTable::<Global>::new();
    assert!(t.is_unused());
    t.create_table_entry(0x5000, 0x4000_0000);
    assert!(!t.is_unused());
    assert_eq!(t.entry(1).get_table(), Some(0x5000));
    t.zero();
    assert!(t.is_unused());
    assert_eq!(t.iter().len(), 512);
    let mut b = PageTable::<Bottom>::new();
    b.set_entry(7, rpi_mmu::descriptors::PageTableDescriptor::new_unchecked(0x7003));
    assert_eq!(b.entry_at(rpi_mmu::levels::PageTableIndex::new(7)).value(), 0x7003);
}

#[test]
fn virtual_address_forms() {
    assert_eq!(VirtAddr::try_new(0x0000_1234_5678_9abc).unwrap().as_u64(), 0x0000_1234_5678_9abc);
    assert_eq!(VirtAddr::try_new(0xffff_8000_0000_0000).unwrap().as_u64(), 0xffff_8000_0000_0000);
    assert_eq!(VirtAddr::try_new(0x0001_8000_0000_0000).unwrap().as_u64(), 0xffff_8000_0000_0000);
    assert_eq!(VirtAddr::new(0x0001_0000_0000_1000).as_u64(), 0x0000_0000_0000_1000);
    let e = VirtAddr::try_new(0x1234_0000_0000_0000).unwrap_err();
    assert_eq!(e.high_bits(), 0x1234);
    assert_eq!(VirtAddr::new_unchecked(0x0000_8000_0000_0000).as_u64(), 0xffff_8000_0000_0000);
    assert_eq!(PhysAddr::new_unchecked(0x3f00_0000).as_u64(), 0x3f00_0000);
    assert_eq!(PhysAddr::new_unchecked(0x3f00_0000).as_usize(), 0x3f00_0000);
}

#[test]
fn ttbr_from_raw_value() {
    let t = TTBR::<1, 1>::from_value(0xdead_beef);
    assert_eq!(t.value(), 0xdead_beef);
    assert_eq!(t.set_outer_region(0).value(), 0xdead_bee7);
}

#[test]
fn pool_frame_addresses() {
    let t = PageTables::new(0x20_0000, 3, 5).unwrap();
    assert_eq!(t.global_addr(), 0x20_0000);
    assert_eq!(t.middle_table_addr(0), 0x20_1000);
    assert_eq!(t.middle_table_addr(2), 0x20_3000);
    assert_eq!(t.bottom_table_addr(0), 0x20_4000);
    assert_eq!(t.bottom_table_addr(4), 0x20_8000);
}

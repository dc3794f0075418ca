use rpi_mmu::arena::{MapError, PageTables};
use rpi_mmu::descriptors::{
    DescriptorFlags, PageTableDescriptor, ACCESS, ATTR_INDEX_DEVICE_NGNRNE, ATTR_INDEX_NORMAL_NC,
    EL1_RW_EL0_NONE, NON_SECURE, PAGE_TABLE_FLAG,
};
use rpi_mmu::levels::{Bottom, Global, Middle, PageTableLevel};
use rpi_mmu::mapper::map_memory;

const BASE: usize = 0x10_0000;

fn normal_flags() -> DescriptorFlags {
    DescriptorFlags::from_bits_truncate(ATTR_INDEX_NORMAL_NC | EL1_RW_EL0_NONE | NON_SECURE | ACCESS)
}

fn device_flags() -> DescriptorFlags {
    DescriptorFlags::from_bits_truncate(ATTR_INDEX_DEVICE_NGNRNE | EL1_RW_EL0_NONE | NON_SECURE | ACCESS)
}

fn count_blocks(t: &PageTables) -> usize {
    let mut n = 0;
    for i in 0..t.middle_count() {
        for d in t.middle(i).iter() {
            if d.is_block_mem() {
                n += 1;
            }
        }
    }
    n
}

#[test]
fn four_mib_aligned_range_uses_two_blocks() {
    let mut t = PageTables::new(BASE, 8, 8).unwrap();
    assert_eq!(map_memory(&mut t, 0x4000_0000, 0x8000_0000, 0x8040_0000, normal_flags()), Ok(()));
    assert_eq!(t.bottom_count(), 0);
    assert_eq!(t.middle_count(), 1);
    assert_eq!(count_blocks(&t), 2);
    let m = t.middle(0);
    let first = m.entry(Middle::table_index(0x8000_0000).value());
    let second = m.entry(Middle::table_index(0x8020_0000).value());
    assert_eq!(first.address(), 0x4000_0000);
    assert_eq!(second.address(), 0x4020_0000);
    assert!(first.is_block_mem() && second.is_block_mem());
    assert_eq!(t.translate(0x8012_3456), Some(0x4012_3456));
    assert_eq!(t.translate(0x803f_ffff), Some(0x403f_ffff));
    assert_eq!(t.translate(0x8040_0000), None);
}

#[test]
fn single_page_uses_one_table_per_level() {
    let mut t = PageTables::new(BASE, 8, 8).unwrap();
    assert_eq!(map_memory(&mut t, 0x7000, 0x8000_0000, 0x8000_1000, normal_flags()), Ok(()));
    assert_eq!(t.middle_count(), 1);
    assert_eq!(t.bottom_count(), 1);
    assert_eq!(count_blocks(&t), 0);
    let mut used = 0;
    for d in t.bottom(0).iter() {
        if !d.is_unused() {
            used += 1;
        }
    }
    assert_eq!(used, 1);
    let g = t.global().entry(Global::table_index(0x8000_0000).value());
    assert_eq!(g.get_table(), Some((BASE + 0x1000) as u64));
    let m = t.middle(0).entry(Middle::table_index(0x8000_0000).value());
    assert_eq!(m.get_table(), Some((BASE + 0x1000 * 9) as u64));
}

#[test]
fn end_to_end_single_page_walk() {
    let mut t = PageTables::new(BASE, 4, 4).unwrap();
    assert_eq!(map_memory(&mut t, 0, 0x8000_0000, 0x8000_1000, normal_flags()), Ok(()));
    let va: usize = 0x8000_0000;
    let g = t.global().entry(Global::table_index(va).value());
    assert!(g.is_table_ptr());
    let middle_addr = g.get_table().unwrap() as usize;
    let mi = (middle_addr - BASE) / 0x1000 - 1;
    let m = t.middle(mi).entry(Middle::table_index(va).value());
    assert!(m.is_table_ptr());
    let bottom_addr = m.get_table().unwrap() as usize;
    let bi = (bottom_addr - BASE) / 0x1000 - 1 - 4;
    let leaf: PageTableDescriptor<Bottom> = t.bottom(bi).entry(Bottom::table_index(va).value());
    assert!(leaf.is_block_mem());
    assert_eq!(leaf.address(), 0x0);
    assert_eq!(leaf.flags().bits(), normal_flags().bits());
    assert_eq!(leaf.value() & PAGE_TABLE_FLAG, PAGE_TABLE_FLAG);
    assert_eq!(t.translate(va), Some(0));
    assert_eq!(t.translate(va + 0xabc), Some(0xabc));
    // The range is one page: the next page stays unmapped.
    assert_eq!(t.translate(va + 0x1000), None);
}

#[test]
fn two_regions_stay_independently_translatable() {
    let mut t = PageTables::new(BASE, 8, 8).unwrap();
    // Device window first, then the kernel image in another gigabyte.
    assert_eq!(map_memory(&mut t, 0x3f00_0000, 0x3f00_0000, 0x3f20_0000, device_flags()), Ok(()));
    assert_eq!(map_memory(&mut t, 0x8_0000, 0x4008_0000, 0x4010_0000, normal_flags()), Ok(()));
    assert_eq!(t.translate(0x3f00_0000), Some(0x3f00_0000));
    assert_eq!(t.translate(0x3f1f_fffc), Some(0x3f1f_fffc));
    assert_eq!(t.translate(0x4008_0000), Some(0x8_0000));
    assert_eq!(t.translate(0x400f_f010), Some(0xf_f010));
    let g0 = t.global().entry(0);
    let g1 = t.global().entry(1);
    assert!(g0.is_table_ptr() && g1.is_table_ptr());
    assert_ne!(g0.get_table(), g1.get_table());
    assert_eq!(t.middle_count(), 2);
}

#[test]
fn unaligned_bounds_are_widened_to_pages() {
    let mut t = PageTables::new(BASE, 4, 4).unwrap();
    assert_eq!(map_memory(&mut t, 0x5123, 0x1000_0010, 0x1000_1001, normal_flags()), Ok(()));
    assert_eq!(t.translate(0x1000_0000), Some(0x5000));
    assert_eq!(t.translate(0x1000_1fff), Some(0x6fff));
    assert_eq!(t.translate(0x1000_2000), None);
    assert_eq!(t.translate(0x0fff_f000), None);
}

#[test]
fn block_only_where_both_cursors_are_aligned() {
    let mut t = PageTables::new(BASE, 4, 4).unwrap();
    // Physical start off a block boundary: pages only.
    assert_eq!(map_memory(&mut t, 0x1000, 0x20_0000, 0x40_0000, normal_flags()), Ok(()));
    assert_eq!(count_blocks(&t), 0);
    assert_eq!(t.bottom_count(), 1);
    assert_eq!(t.translate(0x3f_f000), Some(0x20_0000));
    // Three and a half blocks from an aligned start: three blocks, then pages.
    let mut u = PageTables::new(BASE, 4, 4).unwrap();
    assert_eq!(map_memory(&mut u, 0, 0, 0x70_0000, normal_flags()), Ok(()));
    assert_eq!(count_blocks(&u), 3);
    assert_eq!(u.bottom_count(), 1);
    assert_eq!(u.translate(0x6f_f123), Some(0x6f_f123));
}

#[test]
fn remapping_replaces_the_old_entry() {
    let mut t = PageTables::new(BASE, 4, 4).unwrap();
    assert_eq!(map_memory(&mut t, 0x1000, 0x2000, 0x3000, normal_flags()), Ok(()));
    assert_eq!(map_memory(&mut t, 0x9000, 0x2000, 0x3000, normal_flags()), Ok(()));
    assert_eq!(t.translate(0x2000), Some(0x9000));
    assert_eq!(t.bottom_count(), 1);
}

#[test]
fn pool_exhaustion_is_reported() {
    let mut t = PageTables::new(BASE, 1, 0).unwrap();
    assert_eq!(
        map_memory(&mut t, 0, 0x8000_0000, 0x8000_1000, normal_flags()),
        Err(MapError::OutOfTables)
    );
    let mut u = PageTables::new(BASE, 1, 4).unwrap();
    // Two gigabytes apart need two middle tables.
    assert_eq!(
        map_memory(&mut u, 0, 0, 0x8000_0000, normal_flags()),
        Err(MapError::OutOfTables)
    );
}

#[test]
fn empty_range_maps_nothing() {
    let mut t = PageTables::new(BASE, 1, 1).unwrap();
    assert_eq!(map_memory(&mut t, 0, 0x5000, 0x5000, normal_flags()), Ok(()));
    assert_eq!(t.middle_count(), 0);
    assert!(t.global().is_unused());
}

#[test]
fn arena_growth_beyond_reserved_capacity() {
    let mut t = PageTables::new(BASE, 40, 40).unwrap();
    let mut seen: Vec<usize> = Vec::new();
    for _ in 0..40 {
        let a = t.alloc_middle_table().unwrap();
        seen.push(a);
    }
    for _ in 0..40 {
        let a = t.alloc_bottom_table().unwrap();
        seen.push(a);
    }
    assert_eq!(t.alloc_middle_table(), None);
    assert_eq!(t.alloc_bottom_table(), None);
    assert_eq!(t.middle_count(), 40);
    assert_eq!(t.bottom_count(), 40);
    for (k, a) in seen.iter().enumerate() {
        assert_eq!(a % 0x1000, 0);
        assert_ne!(*a, t.global_addr());
        for b in seen.iter().skip(k + 1) {
            assert!(a + 0x1000 <= *b || b + 0x1000 <= *a);
        }
    }
    assert_eq!(seen[0], BASE + 0x1000);
    assert_eq!(seen[40], BASE + 0x1000 * 41);
}

#[test]
fn arena_layout_is_checked() {
    assert!(PageTables::new(0x10_0800, 1, 1).is_none());
    assert!(PageTables::new(0xffff_ffff_f000, 1, 1).is_none());
    assert!(PageTables::new(0xffff_ffff_d000, 1, 1).is_some());
    assert!(PageTables::new(0, usize::MAX, 1).is_none());
}

#[test]
fn zero_all_empties_every_table() {
    let mut t = PageTables::new(BASE, 4, 4).unwrap();
    assert_eq!(map_memory(&mut t, 0, 0, 0x20_1000, normal_flags()), Ok(()));
    t.zero_all();
    assert!(t.global().is_unused());
    assert!(t.middle(0).is_unused());
    assert!(t.bottom(0).is_unused());
    assert_eq!(t.translate(0), None);
}

//! What the boot sequence computes: the identity map of the kernel image and
//! of the device window, the register images that publish the root table,
//! the translation control and memory attribute values, and the decoding of
//! an address translation probe.
use vstd::prelude::*;

use crate::arena::{zeroed, MapError, PageTables, TablesModel};
use crate::bits::{bits_spec, get_bit, get_bits};
use crate::descriptors::{
    DescriptorFlags, ACCESS, ATTR_INDEX_DEVICE_NGNRNE, ATTR_INDEX_NORMAL_NC, EL1_RW_EL0_NONE,
    FLAG_MASK, NON_SECURE,
};
use crate::coverage::{maps_range, translatable_range};
use crate::mapper::{map_fits, map_memory, map_spec, page_ceil, page_floor};
use crate::ttbr::{
    with_inner_region, with_outer_region, with_shareability, MisalignedTable, TTBR,
};

verus! {

/// Memory attribute encodings: device nGnRnE, and normal non-cacheable.
pub const MT_DEVICE_NGNRNE_FLAGS: u64 = 0x00;
pub const MT_NORMAL_NC_FLAGS: u64 = 0x44;

/// Attribute index 0 is device memory, index 1 normal non-cacheable memory.
pub const MAIR_VALUE: u64 = MT_DEVICE_NGNRNE_FLAGS | (MT_NORMAL_NC_FLAGS << 8);

pub const T0SZ_2_32: u64 = 32;
pub const T1SZ_2_32: u64 = 0x20_0000;
pub const SH0_INNER_SHARABLE: u64 = 0x300;
pub const SH1_INNER_SHARABLE: u64 = 0x3000_0000;
pub const TG0_4K: u64 = 0;
pub const TG1_4K: u64 = 0x8000_0000;
pub const DISABLE_TTBR1_EL1: u64 = 0x80_0000;
pub const IPS_1TB: u64 = 0x2_0000_0000;

/// 32-bit address spaces in both halves, 4 KiB granules, a 1 TB physical
/// address size, inner shareable walks, and walks through TTBR1 disabled.
pub const TCR_VALUE: u64 = T0SZ_2_32 | T1SZ_2_32 | TG0_4K | TG1_4K | IPS_1TB | SH0_INNER_SHARABLE
    | SH1_INNER_SHARABLE | DISABLE_TTBR1_EL1;

/// Normal non-cacheable memory, kernel read-write, no user access.
pub const KERNEL_FLAGS: u64 = ATTR_INDEX_NORMAL_NC | EL1_RW_EL0_NONE | NON_SECURE | ACCESS;

/// Device memory, kernel read-write, no user access.
pub const DEVICE_FLAGS: u64 = ATTR_INDEX_DEVICE_NGNRNE | EL1_RW_EL0_NONE | NON_SECURE | ACCESS;

/// Where the boot map puts things: the kernel image from `image_start` up
/// to `memory_end`, mapped from physical 0, and the device window
/// `[device_start, device_end)`, mapped from `device_phys`.
#[derive(Clone, Copy, Debug, PartialEq, Eq)]
pub struct BootLayout {
    pub image_start: usize,
    pub memory_end: usize,
    pub device_phys: usize,
    pub device_start: usize,
    pub device_end: usize,
}

/// The tables after the boot map: every table emptied, then the kernel
/// image mapped, then the device window.
pub open spec fn boot_map_spec(m: TablesModel, l: BootLayout) -> Option<TablesModel> {
    match map_spec(
        zeroed(m),
        page_floor(l.image_start as int),
        0,
        page_ceil(l.memory_end as int),
        KERNEL_FLAGS & FLAG_MASK,
    ) {
        None => None,
        Some(m1) => map_spec(
            m1,
            page_floor(l.device_start as int),
            page_floor(l.device_phys as int),
            page_ceil(l.device_end as int),
            DEVICE_FLAGS & FLAG_MASK,
        ),
    }
}

/// Empties every table, then maps the kernel image and the device window.
pub fn create_page_tables(tables: &mut PageTables, layout: BootLayout) -> (r: Result<(), MapError>)
    requires
        old(tables).wf(),
        map_fits(0, layout.image_start, layout.memory_end),
        map_fits(layout.device_phys, layout.device_start, layout.device_end),
    ensures
        final(tables).wf(),
        r.is_ok() == boot_map_spec(old(tables)@, layout).is_some(),
        r.is_ok() ==> final(tables)@ == boot_map_spec(old(tables)@, layout).unwrap(),
        r.is_ok() && translatable_range(0, layout.image_start, layout.memory_end)
            && translatable_range(layout.device_phys, layout.device_start, layout.device_end)
            ==> maps_range(final(tables)@, layout.device_phys, layout.device_start, layout.device_end),
{
    tables.zero_all();
    let kernel = DescriptorFlags::from_bits_truncate(KERNEL_FLAGS);
    match map_memory(tables, 0, layout.image_start, layout.memory_end, kernel) {
        Ok(()) => {},
        Err(e) => {
            return Err(e);
        },
    }
    let device = DescriptorFlags::from_bits_truncate(DEVICE_FLAGS);
    map_memory(tables, layout.device_phys, layout.device_start, layout.device_end, device)
}

/// The image of one root register: the table base, outer shareable walks,
/// non-cacheable inner and outer regions.
pub open spec fn root_register_value(table_addr: u64) -> u64 {
    with_outer_region(with_inner_region(with_shareability(table_addr, 0x2), 0), 0)
}

/// The images of both root registers for the root table at `table_addr`;
/// fails when the register cannot hold the address.
pub fn root_registers(table_addr: u64) -> (r: Result<(TTBR<0, 1>, TTBR<1, 1>), MisalignedTable>)
    ensures
        r.is_ok() == (table_addr & !crate::ttbr::TABLE_BASE_MASK == 0),
        r.is_ok() ==> r.unwrap().0@ == root_register_value(table_addr) && r.unwrap().1@
            == root_register_value(table_addr),
        r.is_err() ==> r->Err_0 == (MisalignedTable { addr: table_addr }),
{
    let low = match TTBR::<0, 1>::from_table_addr(table_addr) {
        Ok(t) => t,
        Err(e) => {
            return Err(e);
        },
    };
    let high = match TTBR::<1, 1>::from_table_addr(table_addr) {
        Ok(t) => t,
        Err(e) => {
            return Err(e);
        },
    };
    let low = low.set_outer_sharable().set_inner_region(0).set_outer_region(0);
    let high = high.set_outer_sharable().set_inner_region(0).set_outer_region(0);
    Ok((low, high))
}

/// What an address translation probe reported in PAR_EL1.
#[derive(Clone, Copy, Debug, PartialEq, Eq)]
pub enum TranslationProbe {
    Failed { stage: u64, page_table_walk: bool, fault_status: u64 },
    Translated { output_address: u64, shareability: u64, non_secure: bool },
}

/// The decoding of PAR_EL1: bit 0 tells failure. On failure bits 6:1 hold
/// the fault status, bit 8 whether the walk faulted, bit 9 the stage less
/// one. On success bits 47:12 hold the output frame, bits 8:7 the
/// shareability and bit 9 the non-secure flag.
pub open spec fn probe_spec(par: u64) -> TranslationProbe {
    if par & 1 != 0 {
        TranslationProbe::Failed {
            stage: (bits_spec(par, 9, 10) + 1) as u64,
            page_table_walk: par & 0x100 != 0,
            fault_status: bits_spec(par, 1, 7),
        }
    } else {
        TranslationProbe::Translated {
            output_address: (bits_spec(par, 12, 48) << 12u64),
            shareability: bits_spec(par, 7, 9),
            non_secure: par & 0x200 != 0,
        }
    }
}

pub fn decode_probe(par: u64) -> (r: TranslationProbe)
    ensures
        r == probe_spec(par),
{
    assert(1u64 << 0u64 == 1 && 1u64 << 8u64 == 0x100 && 1u64 << 9u64 == 0x200) by (bit_vector);
    if get_bit(par, 0) {
        let stage = get_bits(par, 9, 10);
        assert(stage < 2) by (bit_vector)
            requires
                stage == bits_spec(par, 9, 10),
        ;
        TranslationProbe::Failed {
            stage: stage + 1,
            page_table_walk: get_bit(par, 8),
            fault_status: get_bits(par, 1, 7),
        }
    } else {
        let frame = get_bits(par, 12, 48);
        TranslationProbe::Translated {
            output_address: frame << 12,
            shareability: get_bits(par, 7, 9),
            non_secure: get_bit(par, 9),
        }
    }
}

} // verus!

//! Images of the translation table base registers. `N` names the register
//! (0 for the low half of the address space, 1 for the high half) and `L`
//! the exception level; the value does not depend on them.
use vstd::prelude::*;

verus! {

/// The root table address bits that a register image can hold: below 4 GiB
/// and aligned to 128 bytes.
pub const TABLE_BASE_MASK: u64 = 0xffff_ff80;

/// IRGN is split: its bit 0 sits at bit 6 and its bit 1 at bit 0.
pub const INNER_REGION_MASK: u64 = 0x41;

/// RGN, the outer region attributes, are bits 4:3.
pub const OUTER_REGION_MASK: u64 = 0x18;

/// Bit 1 makes the walk shareable; bit 5 chooses inner (1) or outer (0).
pub const SHAREABLE_MASK: u64 = 0x22;

/// The value with the inner region bits set from `irgn`.
pub open spec fn with_inner_region(value: u64, irgn: u64) -> u64 {
    (value & !INNER_REGION_MASK) | ((irgn >> 1) & 1) | ((irgn & 1) << 6)
}

/// The value with the outer region bits set from the low two bits of
/// `region`.
pub open spec fn with_outer_region(value: u64, region: u64) -> u64 {
    (value & !OUTER_REGION_MASK) | ((region & 3) << 3)
}

/// The value with the shareability bits replaced by `bits`.
pub open spec fn with_shareability(value: u64, bits: u64) -> u64 {
    (value & !SHAREABLE_MASK) | bits
}

/// A root table address that a register image cannot hold.
#[derive(Clone, Copy, Debug, PartialEq, Eq)]
pub struct MisalignedTable {
    pub addr: u64,
}

/// The image of register TTBR`N`_EL`L`.
#[derive(Clone, Copy, Debug, PartialEq, Eq)]
pub struct TTBR<const N: usize, const L: usize> {
    value: u64,
}

impl<const N: usize, const L: usize> View for TTBR<N, L> {
    type V = u64;

    closed spec fn view(&self) -> u64 {
        self.value
    }
}

impl<const N: usize, const L: usize> TTBR<N, L> {
    /// The image whose base is the root table at `table_addr`. Fails, rather
    /// than dropping address bits, when the address is not 128-byte aligned
    /// or lies above 4 GiB.
    pub fn from_table_addr(table_addr: u64) -> (r: Result<Self, MisalignedTable>)
        ensures
            r.is_ok() == (table_addr & !TABLE_BASE_MASK == 0),
            r.is_ok() ==> r.unwrap()@ == table_addr,
            r.is_err() ==> r->Err_0 == (MisalignedTable { addr: table_addr }),
    {
        let value = table_addr & TABLE_BASE_MASK;
        if value != table_addr {
            assert(table_addr & !TABLE_BASE_MASK != 0) by (bit_vector)
                requires
                    value == table_addr & TABLE_BASE_MASK,
                    value != table_addr,
            ;
            return Err(MisalignedTable { addr: table_addr });
        }
        assert(table_addr & !TABLE_BASE_MASK == 0) by (bit_vector)
            requires
                value == table_addr & TABLE_BASE_MASK,
                value == table_addr,
        ;
        Ok(TTBR { value })
    }

    /// The image holding the raw register value `value`, as read back from
    /// the register.
    pub fn from_value(value: u64) -> (r: Self)
        ensures
            r@ == value,
    {
        TTBR { value }
    }

    /// The raw register value.
    pub fn value(self) -> (r: u64)
        ensures
            r == self@,
    {
        self.value
    }

    pub fn set_inner_region(self, irgn: u8) -> (r: Self)
        ensures
            r@ == with_inner_region(self@, irgn as u64),
    {
        let irgn = irgn as u64;
        let value = (self.value & !INNER_REGION_MASK) | ((irgn >> 1) & 1) | ((irgn & 1) << 6);
        TTBR { value }
    }

    pub fn set_outer_region(self, region: u8) -> (r: Self)
        ensures
            r@ == with_outer_region(self@, region as u64),
    {
        let region = region as u64;
        let value = (self.value & !OUTER_REGION_MASK) | ((region & 3) << 3);
        TTBR { value }
    }

    pub fn set_not_sharable(self) -> (r: Self)
        ensures
            r@ == with_shareability(self@, 0),
    {
        TTBR { value: (self.value & !SHAREABLE_MASK) | 0 }
    }

    pub fn set_inner_shareable(self) -> (r: Self)
        ensures
            r@ == with_shareability(self@, 0x22),
    {
        TTBR { value: (self.value & !SHAREABLE_MASK) | 0x22 }
    }

    pub fn set_outer_sharable(self) -> (r: Self)
        ensures
            r@ == with_shareability(self@, 0x2),
    {
        TTBR { value: (self.value & !SHAREABLE_MASK) | 0x2 }
    }
}

} // verus!

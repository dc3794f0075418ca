//! Virtual and physical addresses as plain 64-bit values.
use vstd::prelude::*;

use crate::bits::{bits_spec, get_bits};

verus! {

/// `addr` with bits 48..=63 copied from bit 47.
pub open spec fn sign_extend_47(addr: u64) -> u64 {
    if addr & 0x8000_0000_0000 != 0 {
        (addr & 0x0000_ffff_ffff_ffff) | 0xffff_0000_0000_0000
    } else {
        addr & 0x0000_ffff_ffff_ffff
    }
}

/// The bits 48..=63 of `addr` allow a virtual address: all clear, all
/// set, or only bit 48 set (then the address is sign-extended).
pub open spec fn valid_high_bits(addr: u64) -> bool {
    let high = bits_spec(addr, 48, 64);
    high == 0 || high == 0xffff || high == 1
}

/// The virtual address that `addr` stands for, when it is valid.
pub open spec fn virt_of(addr: u64) -> u64 {
    if bits_spec(addr, 48, 64) == 1 {
        sign_extend_47(addr)
    } else {
        addr
    }
}

/// A virtual address.
#[derive(Clone, Copy, Debug, PartialEq, Eq, PartialOrd, Ord, Hash)]
pub struct VirtAddr(u64);

/// High bits that no virtual address may have; holds those bits.
#[derive(Clone, Copy, Debug, PartialEq, Eq, PartialOrd, Ord, Hash)]
pub struct InvalidVirtAddr(u64);

impl View for VirtAddr {
    type V = u64;

    closed spec fn view(&self) -> u64 {
        self.0
    }
}

impl View for InvalidVirtAddr {
    type V = u64;

    closed spec fn view(&self) -> u64 {
        self.0
    }
}

impl InvalidVirtAddr {
    /// The bits 48..=63 that were refused.
    pub fn high_bits(self) -> (r: u64)
        ensures
            r == self@,
    {
        self.0
    }
}

impl VirtAddr {
    /// The virtual address `addr`; bits 48..=63 must be valid.
    pub fn new(addr: u64) -> (r: VirtAddr)
        requires
            valid_high_bits(addr),
        ensures
            r@ == virt_of(addr),
    {
        match Self::try_new(addr) {
            Ok(v) => v,
            Err(_) => {
                assert(false);
                VirtAddr(0)
            },
        }
    }

    /// The virtual address `addr`, or the bits 48..=63 that make it invalid.
    pub fn try_new(addr: u64) -> (r: Result<VirtAddr, InvalidVirtAddr>)
        ensures
            r.is_ok() == valid_high_bits(addr),
            r.is_ok() ==> r.unwrap()@ == virt_of(addr),
            r.is_err() ==> r->Err_0@ == bits_spec(addr, 48, 64),
    {
        let high = get_bits(addr, 48, 64);
        if high == 0 || high == 0xffff {
            Ok(VirtAddr(addr))
        } else if high == 1 {
            Ok(VirtAddr::new_unchecked(addr))
        } else {
            Err(InvalidVirtAddr(high))
        }
    }

    /// `addr` with bits 48..=63 copied from bit 47.
    pub fn new_unchecked(addr: u64) -> (r: VirtAddr)
        ensures
            r@ == sign_extend_47(addr),
    {
        let low = addr & 0x0000_ffff_ffff_ffff;
        if addr & 0x8000_0000_0000 != 0 {
            VirtAddr(low | 0xffff_0000_0000_0000)
        } else {
            VirtAddr(low)
        }
    }

    pub fn as_usize(self) -> (r: usize)
        ensures
            r == self@ as usize,
    {
        self.0 as usize
    }

    pub fn as_u64(self) -> (r: u64)
        ensures
            r == self@,
    {
        self.0
    }
}

/// A physical address.
#[derive(Clone, Copy, Debug, PartialEq, Eq, PartialOrd, Ord, Hash)]
pub struct PhysAddr(u64);

impl View for PhysAddr {
    type V = u64;

    closed spec fn view(&self) -> u64 {
        self.0
    }
}

impl PhysAddr {
    pub fn new_unchecked(addr: u64) -> (r: PhysAddr)
        ensures
            r@ == addr,
    {
        PhysAddr(addr)
    }

    pub fn as_usize(self) -> (r: usize)
        ensures
            r == self@ as usize,
    {
        self.0 as usize
    }

    pub fn as_u64(self) -> (r: u64)
        ensures
            r == self@,
    {
        self.0
    }
}

} // verus!

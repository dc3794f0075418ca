//! Bit-field extraction on machine words, through the `bit_field` crate.
use bit_field::BitField;
use vstd::prelude::*;

verus! {

/// The bits `[start, end)` of `x`, moved down to bit 0.
pub open spec fn bits_spec(x: u64, start: u64, end: u64) -> u64 {
    (x >> start) & (u64::MAX >> (64u64 - (end - start)) as u64)
}

/// Relies on `BitField::get_bits` for `u64`: it shifts away the bits at and
/// above `end`, then those below `start`. It asserts `start < 64`,
/// `end <= 64` and `start <= end`; the empty range is excluded here too.
#[verifier::external_body]
pub(crate) fn get_bits(x: u64, start: u64, end: u64) -> (r: u64)
    requires
        start < end <= 64,
    ensures
        r == bits_spec(x, start, end),
{
    x.get_bits((start as usize)..(end as usize))
}

/// Relies on `BitField::get_bit` for `u64`: `x & (1 << bit) != 0`, asserting
/// `bit < 64`.
#[verifier::external_body]
pub(crate) fn get_bit(x: u64, bit: u64) -> (r: bool)
    requires
        bit < 64,
    ensures
        r == (x & (1u64 << bit) != 0),
{
    x.get_bit(bit as usize)
}

} // verus!

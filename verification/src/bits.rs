use bitfield::{BitRange, BitRangeMut};
use vstd::prelude::*;

verus! {

/// The bits `lsb..=msb` of a `u32`, set, all others clear.
pub open spec fn field_mask(msb: u32, lsb: u32) -> u32 {
    ((!0u32) << ((31 - msb) as u32)) >> ((31 - msb + lsb) as u32) << lsb
}

/// The bits `lsb..=msb` of `word`, shifted down to bit 0.
pub open spec fn field_value(word: u32, msb: u32, lsb: u32) -> u32 {
    (word & field_mask(msb, lsb)) >> lsb
}

/// `word` with bits `lsb..=msb` replaced by the low bits of `value`.
pub open spec fn with_field(word: u32, msb: u32, lsb: u32, value: u32) -> u32 {
    (word & !field_mask(msb, lsb)) | ((value << lsb) & field_mask(msb, lsb))
}

/// Reads bits `lsb..=msb` of `word` as a `u8` through `bitfield`'s `BitRange<u8>` for `u32`.
/// The contract claims that the call returns exactly those bits, shifted down to bit 0.
/// `bitfield` panics in debug builds when `msb < lsb`, and on a subtraction below zero
/// when `msb` is past the word or the range is wider than a `u8`; `requires` leaves
/// those inputs out.
#[verifier::external_body]
pub(crate) fn read_u8_field(word: u32, msb: usize, lsb: usize) -> (res: u8)
    requires
        lsb <= msb < 32,
        msb - lsb < 8,
    ensures
        res as u32 == field_value(word, msb as u32, lsb as u32),
{
    word.bit_range(msb, lsb)
}

/// Writes the low bits of `value` into bits `lsb..=msb` of `word` through `bitfield`'s
/// `BitRangeMut<u8>` for `u32`. The contract claims that the other bits are kept and the
/// bits of `value` above the range's width are dropped, as the crate's mask shows.
#[verifier::external_body]
pub(crate) fn write_u8_field(word: &mut u32, msb: usize, lsb: usize, value: u8)
    requires
        lsb <= msb < 32,
    ensures
        *final(word) == with_field(*old(word), msb as u32, lsb as u32, value as u32),
{
    word.set_bit_range(msb, lsb, value)
}

/// Writes the low bits of `value` into bits `lsb..=msb` of `word` through `bitfield`'s
/// `BitRangeMut<u32>` for `u32`, with the same claim as for a `u8` value.
#[verifier::external_body]
pub(crate) fn write_u32_field(word: &mut u32, msb: usize, lsb: usize, value: u32)
    requires
        lsb <= msb < 32,
    ensures
        *final(word) == with_field(*old(word), msb as u32, lsb as u32, value),
{
    word.set_bit_range(msb, lsb, value)
}

} // verus!

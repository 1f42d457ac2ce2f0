use vstd::prelude::*;

use crate::error::Error;

verus! {

/// Both nibbles of `b` are decimal digits.
pub open spec fn is_bcd(b: u8) -> bool {
    b / 16 < 10 && b % 16 < 10
}

/// The value of a valid binary-coded-decimal byte.
pub open spec fn bcd_value(b: u8) -> int {
    (b / 16) * 10 + b % 16
}

/// The byte that packs `v` (at most 99) as two decimal digits.
pub open spec fn bcd_byte(v: u8) -> int {
    (v / 10) * 16 + v % 10
}

/// Unpacks a byte holding two decimal digits.
pub fn bcd_to_decimal(value: u8) -> (r: Result<u8, Error>)
    ensures
        is_bcd(value) ==> r == Ok::<u8, Error>(bcd_value(value) as u8),
        !is_bcd(value) ==> r == Err::<u8, Error>(Error::BcdOutOfRange(value)),
{
    let tens = value >> 4;
    let units = value & 0xF;
    assert(value >> 4u8 == value / 16 && value & 0xFu8 == value % 16) by (bit_vector);
    if tens >= 10 || units >= 10 {
        Err(Error::BcdOutOfRange(value))
    } else {
        Ok(tens * 10 + units)
    }
}

/// Packs a value below 100 as two decimal digits.
pub fn decimal_to_bcd(value: u8) -> (r: Result<u8, Error>)
    ensures
        value <= 99 ==> r == Ok::<u8, Error>(bcd_byte(value) as u8),
        value > 99 ==> r == Err::<u8, Error>(Error::BcdValueTooLarge(value)),
{
    if value > 99 {
        Err(Error::BcdValueTooLarge(value))
    } else {
        let tens = value / 10;
        let units = value % 10;
        assert(tens < 10 && units < 10);
        assert((tens << 4u8) | units == tens * 16 + units) by (bit_vector)
            requires tens < 10u8, units < 10u8;
        Ok(tens << 4 | units)
    }
}

/// Packing then unpacking gives back every value up to 99, and unpacking then
/// packing gives back every byte whose nibbles are decimal digits.
pub proof fn lemma_bcd_round_trip(v: u8, b: u8)
    ensures
        v <= 99 ==> is_bcd(bcd_byte(v) as u8) && bcd_value(bcd_byte(v) as u8) == v,
        is_bcd(b) ==> bcd_value(b) <= 99 && bcd_byte(bcd_value(b) as u8) == b,
{
}

/// What the packed byte of a value up to 99 looks like.
pub proof fn lemma_bcd_byte(v: u8)
    requires
        v <= 99,
    ensures
        0 <= bcd_byte(v) <= 0x99,
        is_bcd(bcd_byte(v) as u8),
        bcd_value(bcd_byte(v) as u8) == v,
        v < 60 ==> bcd_byte(v) < 0x60,
        (bcd_byte(v) == 0) == (v == 0),
{
}

} // verus!

use dtstools::bcd::{bcd_to_decimal, decimal_to_bcd};
use dtstools::error::Error;

#[test]
fn test_bcd_to_decimal() {
    assert_eq!(bcd_to_decimal(0).unwrap(), 0);
    assert_eq!(bcd_to_decimal(0x15).unwrap(), 15);
    assert_eq!(bcd_to_decimal(0x99).unwrap(), 99);
}

#[test]
fn test_decimal_to_bcd() {
    assert_eq!(decimal_to_bcd(0).unwrap(), 0);
    assert_eq!(decimal_to_bcd(15).unwrap(), 0x15);
    assert_eq!(decimal_to_bcd(99).unwrap(), 0x99);
}

#[test]
fn bcd_boundaries() {
    assert_eq!(decimal_to_bcd(0), Ok(0x00));
    assert_eq!(decimal_to_bcd(99), Ok(0x99));
    assert_eq!(bcd_to_decimal(0x15), Ok(15));
    assert_eq!(bcd_to_decimal(0xA0), Err(Error::BcdOutOfRange(0xA0)));
    assert_eq!(bcd_to_decimal(0x0A), Err(Error::BcdOutOfRange(0x0A)));
    assert_eq!(decimal_to_bcd(100), Err(Error::BcdValueTooLarge(100)));
}

#[test]
fn bcd_round_trip_on_every_value() {
    for v in 0u8..=99 {
        let b = decimal_to_bcd(v).unwrap();
        assert_eq!(bcd_to_decimal(b).unwrap(), v);
        assert_eq!(decimal_to_bcd(bcd_to_decimal(b).unwrap()).unwrap(), b);
    }
}

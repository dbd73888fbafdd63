use dmi::number::{parse_decimal, parse_u32, Decimal};
use dmi::text::copy_range;

#[test]
fn reads_unsigned_integers() {
    assert_eq!(parse_u32(b"0"), Some(0));
    assert_eq!(parse_u32(b"32"), Some(32));
    assert_eq!(parse_u32(b"007"), Some(7));
    assert_eq!(parse_u32(b"4294967295"), Some(u32::MAX));
}

#[test]
fn rejects_what_is_no_unsigned_integer() {
    assert_eq!(parse_u32(b""), None);
    assert_eq!(parse_u32(b"4294967296"), None);
    assert_eq!(parse_u32(b"99999999999999999999999999"), None);
    assert_eq!(parse_u32(b"12a"), None);
    assert_eq!(parse_u32(b"+1"), None);
    assert_eq!(parse_u32(b"-1"), None);
    assert_eq!(parse_u32(b" 1"), None);
    assert_eq!(parse_u32(b"1.0"), None);
}

#[test]
fn reads_decimals() {
    assert_eq!(parse_decimal(b"4.0"), Some(Decimal { units: 4, fraction: 0, fraction_digits: 1 }));
    assert_eq!(parse_decimal(b"2"), Some(Decimal { units: 2, fraction: 0, fraction_digits: 0 }));
    assert_eq!(parse_decimal(b"1.25"), Some(Decimal { units: 1, fraction: 25, fraction_digits: 2 }));
    assert_eq!(parse_decimal(b"1.05"), Some(Decimal { units: 1, fraction: 5, fraction_digits: 2 }));
    assert_eq!(parse_decimal(b"0.5"), Some(Decimal { units: 0, fraction: 5, fraction_digits: 1 }));
}

#[test]
fn rejects_what_is_no_decimal() {
    assert_eq!(parse_decimal(b""), None);
    assert_eq!(parse_decimal(b"."), None);
    assert_eq!(parse_decimal(b".5"), None);
    assert_eq!(parse_decimal(b"4."), None);
    assert_eq!(parse_decimal(b"1.2.3"), None);
    assert_eq!(parse_decimal(b"1e3"), None);
    assert_eq!(parse_decimal(b"-1.0"), None);
    assert_eq!(parse_decimal(b"4294967296.0"), None);
    assert_eq!(parse_decimal(b"1.4294967296"), None);
}

#[test]
fn whole_has_no_fraction() {
    assert_eq!(Decimal::whole(9), Decimal { units: 9, fraction: 0, fraction_digits: 0 });
}

#[test]
fn copies_a_range() {
    assert_eq!(copy_range(b"abcdef", 1, 4), b"bcd".to_vec());
    assert_eq!(copy_range(b"abcdef", 3, 3), Vec::<u8>::new());
    assert_eq!(copy_range(b"abcdef", 0, 6), b"abcdef".to_vec());
}

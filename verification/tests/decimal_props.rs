use apca::decimal::{parse_decimal, Decimal};

fn dec(s: &str) -> Decimal {
    parse_decimal(s).unwrap()
}

#[test]
fn round_trip_textual_values() {
    for s in ["1000.00", "-3000.00", "0", "0.0", "2", "123456789012345678901234567890.5"] {
        let d = dec(s);
        let text = d.encode();
        assert_eq!(text, s);
        let again = parse_decimal(&text).unwrap();
        assert!(again.eq_value(&d));
    }
}

#[test]
fn round_trip_normalizes_but_keeps_value() {
    // A leading zero and a negative zero are normalized on decode; the
    // value compares equal through the round trip.
    let d = dec("007.50");
    assert_eq!(d.encode(), "7.50");
    let z = dec("-0.0");
    assert_eq!(z.encode(), "0.0");
    assert!(z.eq_value(&Decimal::from_u64(0)));
}

#[test]
fn equality_is_numeric_across_scales() {
    assert!(dec("1000.00").eq_value(&Decimal::from_u64(1000)));
    assert!(dec("0.0").eq_value(&Decimal::from_u64(0)));
    assert!(dec("-3000.00").eq_value(&Decimal::from_i64(-3000)));
    assert!(!dec("1000.01").eq_value(&Decimal::from_u64(1000)));
}

#[test]
fn ordering_is_numeric() {
    assert!(dec("-3000.00").lt_value(&dec("0")));
    assert!(dec("2").lt_value(&dec("1000.00")));
    assert!(!dec("1000.00").lt_value(&dec("2")));
    assert_eq!(dec("1.50").cmp_value(&dec("1.5")), 0);
    assert_eq!(dec("-2").cmp_value(&dec("-1")), -1);
    assert_eq!(dec("10").cmp_value(&dec("9.99")), 1);
}

#[test]
fn addition_and_subtraction_are_exact() {
    assert_eq!(dec("1.50").add(&dec("2.25")).encode(), "3.75");
    assert_eq!(dec("0.1").add(&dec("0.2")).encode(), "0.3");
    assert_eq!(dec("5").sub(&dec("7.50")).encode(), "-2.50");
    assert_eq!(dec("-1.5").add(&dec("1.5")).encode(), "0.0");
    assert_eq!(dec("99999999999999999999").add(&dec("1")).encode(), "100000000000000000000");
    assert_eq!(dec("-2.5").sub(&dec("-4")).encode(), "1.5");
}

#[test]
fn integer_part_conversion() {
    assert_eq!(dec("2").to_u64(), Some(2));
    assert_eq!(dec("2.75").to_u64(), Some(2));
    assert_eq!(dec("-1").to_u64(), None);
    assert_eq!(dec("18446744073709551615").to_u64(), Some(u64::MAX));
    assert_eq!(dec("18446744073709551616").to_u64(), None);
    assert_eq!(dec("0.9").to_u64(), Some(0));
}

#[test]
fn parse_rejects_malformed_numbers() {
    for s in ["", "-", ".", "1.", ".5", "1..2", "abc", "1a", "--1", "1.2.3", " 1"] {
        assert!(parse_decimal(s).is_none(), "{s} should not parse");
    }
}

use vm_library::integer::Integer;

fn num(text: &str) -> Integer {
    Integer::from_decimal(text).unwrap()
}

#[test]
fn integer_zero_is_zero() {
    assert!(Integer::zero().is_zero());
    assert!(!Integer::zero().is_negative());
    assert_eq!(Integer::zero().to_decimal(), "0");
    assert_eq!(Integer::zero(), Integer::from_i64(0));
}

#[test]
fn integer_from_machine_integers() {
    assert_eq!(Integer::from_i64(42).to_decimal(), "42");
    assert_eq!(Integer::from_i64(-7).to_decimal(), "-7");
    assert_eq!(Integer::from_i64(i64::MAX).to_decimal(), "9223372036854775807");
    assert_eq!(Integer::from_i64(i64::MIN).to_decimal(), "-9223372036854775808");
    assert_eq!(Integer::from_u64(u64::MAX).to_decimal(), "18446744073709551615");
    assert_eq!(Integer::from_u64(10).to_decimal(), "10");
}

#[test]
fn integer_add_carries_beyond_machine_width() {
    let a = Integer::from_u64(u64::MAX);
    let b = Integer::from_u64(1);
    assert_eq!(a.add(&b).to_decimal(), "18446744073709551616");
    let big = num("99999999999999999999999999999999999999");
    assert_eq!(big.add(&b).to_decimal(), "100000000000000000000000000000000000000");
    assert_eq!(num("5").add(&num("5")).to_decimal(), "10");
}

#[test]
fn integer_add_with_mixed_signs() {
    assert_eq!(num("-5").add(&num("3")).to_decimal(), "-2");
    assert_eq!(num("5").add(&num("-3")).to_decimal(), "2");
    assert_eq!(num("-5").add(&num("5")).to_decimal(), "0");
    assert!(!num("-5").add(&num("5")).is_negative());
    assert_eq!(num("-5").add(&num("-6")).to_decimal(), "-11");
    assert_eq!(num("3").add(&num("-1000")).to_decimal(), "-997");
}

#[test]
fn integer_sub_borrows() {
    assert_eq!(num("1000").sub(&num("1")).to_decimal(), "999");
    assert_eq!(num("1").sub(&num("1000")).to_decimal(), "-999");
    assert_eq!(num("0").sub(&num("0")).to_decimal(), "0");
    assert_eq!(num("-3").sub(&num("-3")).to_decimal(), "0");
    assert_eq!(num("-3").sub(&num("4")).to_decimal(), "-7");
    assert_eq!(
        num("100000000000000000000").sub(&num("1")).to_decimal(),
        "99999999999999999999"
    );
}

#[test]
fn integer_abs() {
    assert_eq!(num("-12").abs().to_decimal(), "12");
    assert_eq!(num("12").abs().to_decimal(), "12");
    assert_eq!(num("0").abs().to_decimal(), "0");
}

#[test]
fn integer_compare_orders_by_value() {
    assert_eq!(num("1").compare(&num("2")), -1);
    assert_eq!(num("2").compare(&num("1")), 1);
    assert_eq!(num("2").compare(&num("2")), 0);
    assert_eq!(num("-2").compare(&num("1")), -1);
    assert_eq!(num("-2").compare(&num("-3")), 1);
    assert_eq!(num("-30").compare(&num("-4")), -1);
    assert_eq!(num("100").compare(&num("99")), 1);
    assert_eq!(num("123").compare(&num("124")), -1);
    assert!(num("7").equals(&num("007")));
    assert!(!num("7").equals(&num("-7")));
}

#[test]
fn integer_decimal_text_round_trip() {
    for text in ["0", "1", "-1", "10", "-10", "12345678901234567890123456789", "-9000"] {
        assert_eq!(num(text).to_decimal(), text);
    }
}

#[test]
fn integer_from_decimal_is_lenient_about_signs_blanks_and_underscores() {
    assert_eq!(num("+5").to_decimal(), "5");
    assert_eq!(num("-0").to_decimal(), "0");
    assert_eq!(num("0005").to_decimal(), "5");
    assert_eq!(num(" 1 2\t3\n").to_decimal(), "123");
    assert_eq!(num("1_000").to_decimal(), "1000");
    assert_eq!(num("- 7").to_decimal(), "-7");
}

#[test]
fn integer_from_decimal_refuses_what_is_no_number() {
    assert!(Integer::from_decimal("").is_none());
    assert!(Integer::from_decimal("-").is_none());
    assert!(Integer::from_decimal("_1").is_none());
    assert!(Integer::from_decimal("1-").is_none());
    assert!(Integer::from_decimal("--1").is_none());
    assert!(Integer::from_decimal("+-1").is_none());
    assert!(Integer::from_decimal("12a").is_none());
    assert!(Integer::from_decimal("1.5").is_none());
    assert!(Integer::from_decimal("١٢").is_none());
    assert!(Integer::from_decimal("  ").is_none());
}

#[test]
fn integer_clone_is_equal() {
    let a = num("-123456789012345678901234567890");
    assert_eq!(a.clone(), a);
}

use balance::amount::{Amount, MAX_MANTISSA, MAX_SCALE};

#[test]
fn an_amount_keeps_mantissa_and_scale() {
    let a = Amount::new(1050, 2);
    assert_eq!(a.mantissa(), 1050);
    assert_eq!(a.scale(), 2);
    let b = Amount::new(-7, 0);
    assert_eq!(b.mantissa(), -7);
    assert_eq!(b.scale(), 0);
    assert_eq!(Amount::new(i64::MIN, 28).mantissa(), i64::MIN as i128);
}

#[test]
fn zero_is_written_without_places() {
    assert_eq!(Amount::zero().mantissa(), 0);
    assert_eq!(Amount::zero().scale(), 0);
    assert_eq!(Amount::zero(), Amount::new(0, 0));
}

#[test]
fn limits_are_those_of_a_decimal() {
    assert_eq!(MAX_SCALE, rust_decimal::Decimal::MAX_SCALE);
    assert_eq!(MAX_MANTISSA, rust_decimal::Decimal::MAX.mantissa());
    assert_eq!(-MAX_MANTISSA, rust_decimal::Decimal::MIN.mantissa());
    assert_eq!(MAX_MANTISSA, (1i128 << 96) - 1);
}

#[test]
fn try_new_accepts_what_a_decimal_holds() {
    assert_eq!(Amount::try_new(1050, 2), Some(Amount::new(1050, 2)));
    assert!(Amount::try_new(MAX_MANTISSA, 0).is_some());
    assert!(Amount::try_new(-MAX_MANTISSA, 28).is_some());
    assert!(Amount::try_new(0, 28).is_some());
}

#[test]
fn try_new_refuses_what_a_decimal_cannot_hold() {
    assert!(Amount::try_new(MAX_MANTISSA + 1, 0).is_none());
    assert!(Amount::try_new(-MAX_MANTISSA - 1, 0).is_none());
    assert!(Amount::try_new(1, 29).is_none());
    assert!(Amount::try_new(i128::MAX, 0).is_none());
    assert!(Amount::try_new(i128::MIN, 0).is_none());
    assert!(Amount::try_new(0, u32::MAX).is_none());
}

#[test]
fn try_new_agrees_with_the_decimal_crate() {
    for (m, s) in [(0i128, 0u32), (1, 28), (1, 29), (MAX_MANTISSA, 5), (MAX_MANTISSA + 1, 5), (-MAX_MANTISSA, 0), (-MAX_MANTISSA - 1, 0)] {
        let ours = Amount::try_new(m, s).is_some();
        let theirs = rust_decimal::Decimal::try_from_i128_with_scale(m, s).is_ok();
        assert_eq!(ours, theirs, "{m} e-{s}");
    }
}

#[test]
fn equality_is_of_the_writing() {
    assert_eq!(Amount::new(7000, 2), Amount::new(7000, 2));
    assert_ne!(Amount::new(7000, 2), Amount::new(700, 1));
    assert_ne!(Amount::new(7000, 2), Amount::new(7001, 2));
}

#[test]
fn at_least_compares_the_numbers() {
    let one = Amount::new(10, 1);
    let also_one = Amount::new(100, 2);
    let two = Amount::new(2, 0);
    let minus = Amount::new(-5, 3);
    assert!(one.at_least(&also_one));
    assert!(also_one.at_least(&one));
    assert!(two.at_least(&one));
    assert!(!one.at_least(&two));
    assert!(one.at_least(&minus));
    assert!(!minus.at_least(&one));
    assert!(!minus.at_least(&Amount::zero()));
    assert!(Amount::zero().at_least(&Amount::new(0, 28)));
    assert!(Amount::new(0, 28).at_least(&Amount::zero()));
}

#[test]
fn at_least_across_far_scales() {
    let big = Amount::try_new(MAX_MANTISSA, 0).unwrap();
    let small = Amount::try_new(MAX_MANTISSA, 28).unwrap();
    assert!(big.at_least(&small));
    assert!(!small.at_least(&big));
    let neg_big = Amount::try_new(-MAX_MANTISSA, 0).unwrap();
    let neg_small = Amount::try_new(-MAX_MANTISSA, 28).unwrap();
    assert!(neg_small.at_least(&neg_big));
    assert!(!neg_big.at_least(&neg_small));
}

#[test]
fn sign_of_an_amount() {
    assert!(Amount::new(0, 0).is_non_negative());
    assert!(Amount::new(0, 5).is_non_negative());
    assert!(Amount::new(1, 28).is_non_negative());
    assert!(Amount::new(1050, 2).is_non_negative());
    assert!(!Amount::new(-1, 28).is_non_negative());
    assert!(!Amount::new(-1050, 2).is_non_negative());
}

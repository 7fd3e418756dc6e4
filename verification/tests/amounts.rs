use plain_ledger::amount::Amount;
use plain_ledger::decimal::{create_rational, DecimalError};

#[test]
fn literal_with_fraction_is_reduced() {
    let a = create_rational("12.345").unwrap();
    assert_eq!(a.numer(), 2469);
    assert_eq!(a.denom(), 200);
}

#[test]
fn literal_without_fraction() {
    let a = create_rational("-20").unwrap();
    assert_eq!(a.numer(), -20);
    assert_eq!(a.denom(), 1);
}

#[test]
fn malformed_literals_are_refused() {
    assert_eq!(create_rational(""), Err(DecimalError::Malformed));
    assert_eq!(create_rational("-"), Err(DecimalError::Malformed));
    assert_eq!(create_rational("1."), Err(DecimalError::Malformed));
    assert_eq!(create_rational(".5"), Err(DecimalError::Malformed));
    assert_eq!(create_rational("1.2.3"), Err(DecimalError::Malformed));
    assert_eq!(create_rational("+1"), Err(DecimalError::Malformed));
    assert_eq!(create_rational("1e3"), Err(DecimalError::Malformed));
}

#[test]
fn literals_out_of_range_are_refused() {
    assert_eq!(create_rational("9223372036854775808"), Err(DecimalError::Overflow));
    assert_eq!(create_rational("0.0000000000000000001"), Err(DecimalError::Overflow));
    assert_eq!(
        create_rational("-9223372036854775808").map(|a| (a.numer(), a.denom())),
        Ok((i64::MIN, 1))
    );
    assert_eq!(
        create_rational("9223372036854775807").map(|a| (a.numer(), a.denom())),
        Ok((i64::MAX, 1))
    );
}

#[test]
fn sums_are_exact_and_reduced() {
    let a = Amount::new(1, 6).unwrap();
    let b = Amount::new(1, 3).unwrap();
    let s = a.checked_add(b).unwrap();
    assert_eq!((s.numer(), s.denom()), (1, 2));
    assert_eq!(Amount::new(i64::MAX, 1).unwrap().checked_add(Amount::from_integer(1)), None);
}

#[test]
fn negation_changes_the_sign() {
    let a = Amount::new(3, -6).unwrap();
    assert_eq!((a.numer(), a.denom()), (-1, 2));
    let n = a.checked_neg().unwrap();
    assert_eq!((n.numer(), n.denom()), (1, 2));
    assert_eq!(Amount::from_integer(i64::MIN).checked_neg(), None);
    assert_eq!(Amount::new(1, 0), None);
}

#[test]
fn literal_parts_are_unreduced() {
    assert_eq!(plain_ledger::decimal::literal_parts("12.345"), Ok((12345, 1000)));
    assert_eq!(plain_ledger::decimal::literal_parts("-0.50"), Ok((-50, 100)));
    assert_eq!(plain_ledger::decimal::literal_parts("7"), Ok((7, 1)));
    assert_eq!(plain_ledger::decimal::literal_parts("7."), Err(DecimalError::Malformed));
    assert_eq!(
        plain_ledger::decimal::literal_parts("1.0000000000000000000"),
        Err(DecimalError::Overflow)
    );
    assert_eq!(plain_ledger::decimal::power_of_ten(18), 1_000_000_000_000_000_000);
    assert_eq!(plain_ledger::decimal::power_of_ten(0), 1);
}

#[test]
fn lowest_terms_divide_by_the_greatest_common_divisor() {
    let parts = |n: i64, d: i64| Amount::new(n, d).map(|a| (a.numer(), a.denom()));
    assert_eq!(parts(6, 4), Some((3, 2)));
    assert_eq!(parts(-6, 4), Some((-3, 2)));
    assert_eq!(parts(6, -4), Some((-3, 2)));
    assert_eq!(parts(0, 9), Some((0, 1)));
    assert_eq!(parts(7, 7), Some((1, 1)));
    assert_eq!(parts(i64::MIN, 2), Some((i64::MIN / 2, 1)));
    assert_eq!(parts(i64::MIN, -1), None);
    assert_eq!(parts(1, i64::MIN), None);
}

#[test]
fn zeros_at_the_end_keep_the_amount() {
    assert_eq!(create_rational("20.00"), create_rational("20"));
    assert_eq!(create_rational("20.0"), create_rational("20.00"));
    assert_eq!(create_rational("-1.50"), create_rational("-1.5"));
    assert_eq!(create_rational("007.250"), create_rational("7.25"));
    assert_eq!(create_rational("0.000"), create_rational("-0"));
    assert_ne!(create_rational("1.5"), create_rational("1.05"));
}

#[test]
fn sums_overflow_where_a_step_leaves_the_machine() {
    let parts = |a: Option<Amount>| a.map(|a| (a.numer(), a.denom()));
    let small = Amount::new(1, 1 << 40).unwrap();
    assert_eq!(parts(small.checked_add(small)), Some((1, 1 << 39)));
    let a = Amount::new(1, 1 << 62).unwrap();
    let b = Amount::new(1, 4052555153018976267).unwrap();
    assert_eq!(a.checked_add(b), None);
    let c = Amount::new(i64::MAX, 2).unwrap();
    assert_eq!(c.checked_add(Amount::new(1, 3).unwrap()), None);
    assert_eq!(parts(c.checked_add(Amount::new(-1, 2).unwrap())), Some((i64::MAX / 2, 1)));
    let low = Amount::from_integer(i64::MIN);
    assert_eq!(parts(low.checked_add(Amount::from_integer(1))), Some((i64::MIN + 1, 1)));
    assert_eq!(low.checked_add(Amount::from_integer(-1)), None);
}

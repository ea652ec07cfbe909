use mg_market::fraction::Fraction;
use mg_market::fraction::FractionError;

#[test]
fn multiply_by_0() {
    assert_eq!(Fraction::new(0, 1).mult(1_000_000), 0);
    assert_eq!(Fraction::new(0, 5).mult(1_000_000), 0);
}

#[test]
fn multiply_by_1() {
    assert_eq!(Fraction::new(1, 1).mult(1_000_000), 1_000_000);
    assert_eq!(Fraction::new(5, 5).mult(1_000_000), 1_000_000);
}

#[test]
fn multiply_by_half() {
    assert_eq!(Fraction::new(1, 2).mult(1_000_000), 500_000);
    assert_eq!(Fraction::new(5, 10).mult(1_000_000), 500_000);
}

#[test]
fn zero_denominator_is_rejected() {
    let r = Fraction::checked_new(1, 0);
    match r {
        Err(e) => {
            assert!(matches!(e, FractionError::ZeroDenominator));
            assert_eq!(e.message(), "Denominator must be a positive number, but was 0");
        }
        Ok(_) => panic!("a zero denominator must be rejected"),
    }
}

#[test]
fn fraction_greater_than_one_is_rejected() {
    let r = Fraction::checked_new(2, 1);
    match r {
        Err(e) => {
            assert!(matches!(e, FractionError::GreaterThanOne));
            assert_eq!(e.message(), "The fraction must be less or equal to 1");
        }
        Ok(_) => panic!("a fraction above one must be rejected"),
    }
}

#[test]
fn checked_new_accepts_valid_fractions() {
    let f = Fraction::checked_new(3, 10).unwrap();
    assert_eq!(f.num, 3);
    assert_eq!(f.den, 10);
    assert_eq!(f.mult(1_000), 300);
}

#[test]
fn mult_rounds_toward_zero() {
    assert_eq!(Fraction::new(1, 3).mult(10), 3);
    assert_eq!(Fraction::new(2, 3).mult(10), 6);
    assert_eq!(Fraction::new(1, 2).mult(7), 3);
}

#[test]
fn mult_handles_large_balances() {
    let max = u128::MAX;
    assert_eq!(Fraction::new(1, 1).mult(max), max);
    assert_eq!(Fraction::new(7, 7).mult(max), max);
    assert_eq!(Fraction::new(1, 2).mult(max), max / 2);
    assert_eq!(Fraction::new(0, 4).mult(max), 0);
    // 3/10 of 10^38, exact in 160-bit intermediate arithmetic.
    let v: u128 = 100_000_000_000_000_000_000_000_000_000_000_000_000;
    assert_eq!(Fraction::new(3, 10).mult(v), 30_000_000_000_000_000_000_000_000_000_000_000_000);
}

#[test]
fn scaled_fractions_agree() {
    let v: u128 = 123_456_789_123_456_789;
    assert_eq!(Fraction::new(1, 2).mult(v), Fraction::new(5, 10).mult(v));
    assert_eq!(Fraction::new(3, 7).mult(v), Fraction::new(30, 70).mult(v));
}

#[test]
fn equality_is_by_value() {
    assert!(Fraction::new(1, 2).eq(&Fraction::new(5, 10)));
    assert!(!Fraction::new(1, 2).eq(&Fraction::new(1, 3)));
    assert!(Fraction::new(1, 3).lt(&Fraction::new(1, 2)));
    assert!(!Fraction::new(1, 2).lt(&Fraction::new(1, 2)));
}

use poly::Rational;

fn fraction(numerator: i32, denominator: i32) -> Rational {
    Rational::from_i32(numerator).div(&Rational::from_i32(denominator))
}

#[test]
fn rational_arithmetic_is_exact() {
    let half = fraction(1, 2);
    let third = fraction(1, 3);
    assert_eq!(half.add(&third), fraction(5, 6));
    assert_eq!(half.sub(&third), fraction(1, 6));
    assert_eq!(half.mul(&third), fraction(1, 6));
    assert_eq!(half.div(&third), fraction(3, 2));
    assert_eq!(half.neg(), fraction(-1, 2));
    assert_eq!(half.clone(), half);
}

#[test]
fn rational_operations_in_place() {
    let mut x = fraction(3, 4);
    x.add_assign(&fraction(1, 4));
    assert_eq!(x, Rational::one());
    x.sub_assign(&fraction(1, 3));
    assert_eq!(x, fraction(2, 3));
    x.mul_assign(&fraction(9, 4));
    assert_eq!(x, fraction(3, 2));
    x.mul_add_assign(Rational::from_i32(4), Rational::from_i32(-5));
    assert_eq!(x, Rational::one());
}

#[test]
fn rational_identities() {
    assert!(Rational::zero().is_zero());
    assert!(!Rational::zero().is_one());
    assert!(Rational::one().is_one());
    assert!(!Rational::one().is_zero());
    assert_eq!(Rational::zero(), Rational::from_i32(0));
    assert_eq!(Rational::one(), Rational::from_i32(1));
    assert!(fraction(6, 6).is_one());
    assert!(fraction(0, 9).is_zero());
    assert!(!fraction(1, 9).is_zero());
}

#[test]
fn rational_powers() {
    assert_eq!(fraction(2, 3).pow(0), Rational::one());
    assert_eq!(fraction(2, 3).pow(1), fraction(2, 3));
    assert_eq!(fraction(-2, 3).pow(3), fraction(-8, 27));
    assert_eq!(Rational::zero().pow(0), Rational::one());
    assert_eq!(Rational::zero().pow(4), Rational::zero());
}

#[test]
fn rational_text() {
    assert_eq!(Rational::from_i32(-17).to_string(), "-17");
    assert_eq!(fraction(10, 4).to_string(), "5/2");
    assert_eq!(fraction(3, -6).to_string(), "-1/2");
    assert_eq!(Rational::from_i32(i32::MIN).to_string(), "-2147483648");
    assert_eq!(Rational::from_i32(i32::MAX).to_string(), "2147483647");
}

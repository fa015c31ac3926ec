use poly::Coefficients;
use poly::Polynomial;
use poly::Rational;

fn coefficients(values: &[i32]) -> Coefficients {
    Coefficients::from_vec(values.iter().map(|v| Rational::from_i32(*v)).collect())
}

#[test]
fn test_mul() {
    let a = Polynomial::new(coefficients(&[1, 3, 3, 0]));
    let b = Polynomial::new(coefficients(&[1, 0, 1]));

    let expected = coefficients(&[1, 3, 4, 3, 3, 0]);

    // Polynomial * Polynomial
    let c = a.clone().mul(&b.clone());
    assert_eq!(c.order(), 5);
    assert_eq!(c.coeffs(), expected);

    // Polynomial * Polynomial (swapped)
    let c = b.clone().mul(&a.clone());
    assert_eq!(c.order(), 5);
    assert_eq!(c.coeffs(), expected);

    // Polynomial * &Polynomial
    let c = a.clone().mul(&b);
    assert_eq!(c.order(), 5);
    assert_eq!(c.coeffs(), expected);

    // &Polynomial * Polynomial
    let c = a.mul(&b.clone());
    assert_eq!(c.order(), 5);
    assert_eq!(c.coeffs(), expected);

    // &Polynomial * &Polynomial
    let c = a.mul(&b);
    assert_eq!(c.order(), 5);
    assert_eq!(c.coeffs(), expected);

    // Removal of leading zeros
    let c = a.clone().mul(&Polynomial::zero());
    assert_eq!(c.order(), 0);
    assert_eq!(c.coeffs(), coefficients(&[0]));
}

#[test]
fn test_mul_assign() {
    let a = Polynomial::new(coefficients(&[1, 3, 3, 0]));
    let b = Polynomial::new(coefficients(&[1, 0, 1]));

    let expected = coefficients(&[1, 3, 4, 3, 3, 0]);

    // Polynomial *= Polynomial
    let mut c = a.clone();
    c.mul_assign(&b.clone());
    assert_eq!(c.order(), 5);
    assert_eq!(c.coeffs(), expected);

    // Polynomial *= &Polynomial
    let mut c = a.clone();
    c.mul_assign(&b);
    assert_eq!(c.order(), 5);
    assert_eq!(c.coeffs(), expected);

    // Polynomial *= Polynomial (swapped)
    let mut c = b.clone();
    c.mul_assign(&a.clone());
    assert_eq!(c.order(), 5);
    assert_eq!(c.coeffs(), expected);

    // Polynomial *= &Polynomial (swapped)
    let mut c = b.clone();
    c.mul_assign(&a);
    assert_eq!(c.order(), 5);
    assert_eq!(c.coeffs(), expected);

    // Removal of leading zeros
    let mut c = a.clone();
    c.mul_assign(&Polynomial::zero());
    assert_eq!(c.order(), 0);
    assert_eq!(c.coeffs(), coefficients(&[0]));
}

#[test]
fn test_mul_scalar() {
    let a = Polynomial::new(coefficients(&[1, 3, 3, 0]));
    let two = Rational::from_i32(2);

    let expected = coefficients(&[2, 6, 6, 0]);

    // Polynomial * Scalar
    let b = a.clone().mul_scalar(&two.clone());
    assert_eq!(b.order(), 3);
    assert_eq!(b.coeffs(), expected);

    // &Polynomial * Scalar
    let b = a.mul_scalar(&two.clone());
    assert_eq!(b.order(), 3);
    assert_eq!(b.coeffs(), expected);

    // Polynomial * &Scalar
    let b = a.clone().mul_scalar(&two);
    assert_eq!(b.order(), 3);
    assert_eq!(b.coeffs(), expected);

    // &Polynomial * &Scalar
    let b = a.mul_scalar(&two);
    assert_eq!(b.order(), 3);
    assert_eq!(b.coeffs(), expected);

    // Scalar * Polynomial
    let mut b = a.clone();
    b.mul_scalar_assign(&two.clone());
    assert_eq!(b.order(), 3);
    assert_eq!(b.coeffs(), expected);

    // Scalar * &Polynomial
    let b = a.mul_scalar(&two.clone());
    assert_eq!(b.order(), 3);
    assert_eq!(b.coeffs(), expected);

    // &Scalar * Polynomial
    let mut b = a.clone();
    b.mul_scalar_assign(&two);
    assert_eq!(b.order(), 3);
    assert_eq!(b.coeffs(), expected);

    // &Scalar * &Polynomial
    let b = a.mul_scalar(&two);
    assert_eq!(b.order(), 3);
    assert_eq!(b.coeffs(), expected);

    // Removal of leading zeros
    let c = a.clone().mul_scalar(&Rational::zero());
    assert_eq!(c.order(), 0);
    assert_eq!(c.coeffs(), coefficients(&[0]));
}

#[test]
fn multiplication_is_commutative() {
    let a = Polynomial::new(coefficients(&[2, -1, 0, 7]));
    let b = Polynomial::new(coefficients(&[-3, 5]));
    assert_eq!(a.mul(&b), b.mul(&a));
    assert_eq!(a.mul(&b).coeffs(), coefficients(&[-6, 13, -5, -21, 35]));
}

#[test]
fn one_is_the_multiplicative_identity() {
    let a = Polynomial::new(coefficients(&[2, -1, 0, 7]));
    let one = Polynomial::one();
    assert_eq!(one.order(), 0);
    assert_eq!(one.coeffs(), coefficients(&[1]));
    assert_eq!(a.mul(&one), a);
    assert_eq!(one.mul(&a), a);
}

#[test]
fn scaling_in_place_by_zero_collapses_to_zero() {
    let mut a = Polynomial::new(coefficients(&[1, 3, 3, 0]));
    a.mul_scalar_assign(&Rational::zero());
    assert!(a.is_zero());
    assert_eq!(a.order(), 0);
}

#[test]
fn scaling_by_a_fraction_is_exact() {
    let a = Polynomial::new(coefficients(&[1, 3]));
    let third = Rational::from_i32(1).div(&Rational::from_i32(3));
    let b = a.mul_scalar(&third);
    let expected = Coefficients::from_vec(vec![third.clone(), Rational::from_i32(1)]);
    assert_eq!(b.coeffs(), expected);
}

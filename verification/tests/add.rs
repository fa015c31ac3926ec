use poly::Coefficients;
use poly::Polynomial;
use poly::Rational;

fn coefficients(values: &[i32]) -> Coefficients {
    Coefficients::from_vec(values.iter().map(|v| Rational::from_i32(*v)).collect())
}

#[test]
fn test_add() {
    let a = Polynomial::new(coefficients(&[1, 3, 3, 0]));
    let b = Polynomial::new(coefficients(&[1, 0, 1]));

    let expected = coefficients(&[1, 4, 3, 1]);

    // Polynomial + Polynomial
    let c = a.clone().add(&b.clone());
    assert_eq!(c.order(), 3);
    assert_eq!(c.coeffs(), expected);

    // Polynomial + Polynomial (swapped)
    let c = b.clone().add(&a.clone());
    assert_eq!(c.order(), 3);
    assert_eq!(c.coeffs(), expected);

    // Polynomial + &Polynomial
    let c = a.clone().add(&b);
    assert_eq!(c.order(), 3);
    assert_eq!(c.coeffs(), expected);

    // &Polynomial + Polynomial
    let c = a.add(&b.clone());
    assert_eq!(c.order(), 3);
    assert_eq!(c.coeffs(), expected);

    // &Polynomial + &Polynomial
    let c = a.add(&b);
    assert_eq!(c.order(), 3);
    assert_eq!(c.coeffs(), expected);

    // Removal of leading zeros
    let b = Polynomial::new(coefficients(&[-1, -3, -3, 1]));
    let c = a.add(&b);
    assert_eq!(c.order(), 0);
    assert_eq!(c.coeffs(), coefficients(&[1]));
}

#[test]
fn test_add_assign() {
    let a = Polynomial::new(coefficients(&[1, 3, 3, 0]));
    let b = Polynomial::new(coefficients(&[1, 0, 1]));

    let expected = coefficients(&[1, 4, 3, 1]);

    // Polynomial += Polynomial
    let mut c = a.clone();
    c.add_assign(&b.clone());
    assert_eq!(c.order(), 3);
    assert_eq!(c.coeffs(), expected);

    // Polynomial += &Polynomial
    let mut c = a.clone();
    c.add_assign(&b);
    assert_eq!(c.order(), 3);
    assert_eq!(c.coeffs(), expected);

    // Polynomial += Polynomial (swapped)
    let mut c = b.clone();
    c.add_assign(&a.clone());
    assert_eq!(c.order(), 3);
    assert_eq!(c.coeffs(), expected);

    // Polynomial += &Polynomial (swapped)
    let mut c = b.clone();
    c.add_assign(&a);
    assert_eq!(c.order(), 3);
    assert_eq!(c.coeffs(), expected);

    // Removal of leading zeros
    let b = Polynomial::new(coefficients(&[-1, -3, -3, 1]));
    let mut c = a.clone();
    c.add_assign(&b);
    assert_eq!(c.order(), 0);
    assert_eq!(c.coeffs(), coefficients(&[1]));
}

#[test]
fn zero_is_the_additive_identity() {
    let p = Polynomial::new(coefficients(&[2, 0, -7]));
    let zero = Polynomial::zero();
    assert!(zero.is_zero());
    assert!(!p.is_zero());
    assert_eq!(zero.order(), 0);
    assert_eq!(zero.coeffs(), coefficients(&[0]));
    assert_eq!(p.add(&zero), p);
    assert_eq!(zero.add(&p), p);
}

#[test]
fn a_polynomial_plus_its_opposite_is_zero() {
    let p = Polynomial::new(coefficients(&[2, 0, -7, 5]));
    let sum = p.add(&p.neg());
    assert!(sum.is_zero());
    assert_eq!(sum.coeffs(), coefficients(&[0]));
}

#[test]
fn addition_is_commutative() {
    let a = Polynomial::new(coefficients(&[4, -1]));
    let b = Polynomial::new(coefficients(&[-4, 2, 9]));
    assert_eq!(a.add(&b), b.add(&a));
    assert_eq!(a.add(&b).coeffs(), coefficients(&[-4, 6, 8]));
}

#[test]
fn adding_a_longer_polynomial_pads_with_zeros() {
    let mut a = Polynomial::new(coefficients(&[5]));
    let b = Polynomial::new(coefficients(&[1, 2, 3, 4]));
    a.add_assign(&b);
    assert_eq!(a.order(), 3);
    assert_eq!(a.coeffs(), coefficients(&[1, 2, 3, 9]));
}

use poly::Coefficients;
use poly::ComplexRational;
use poly::Polynomial;
use poly::Rational;

fn coefficients(values: &[i32]) -> Coefficients {
    Coefficients::from_vec(values.iter().map(|v| Rational::from_i32(*v)).collect())
}

fn fraction(numerator: i32, denominator: i32) -> Rational {
    Rational::from_i32(numerator).div(&Rational::from_i32(denominator))
}

#[test]
fn test_new() {
    let poly = Polynomial::new(coefficients(&[0, 0, 1, 2, 3, 0]));
    assert_eq!(poly.order(), 3);
    let mut coeffs = coefficients(&[1, 2, 3, 0]);
    assert_eq!(poly.coeffs(), coeffs);
    coeffs.reverse();
    assert_eq!(*poly.reverse_coeffs(), coeffs);
}

#[test]
fn test_eval() {
    let poly = Polynomial::new(coefficients(&[1, 2, 3, 0]));
    assert_eq!(poly.eval(Rational::from_i32(2)), Rational::from_i32(22));
    assert_eq!(
        poly.eval_complex(ComplexRational::new(Rational::from_i32(0), Rational::from_i32(1))),
        ComplexRational::new(Rational::from_i32(-2), Rational::from_i32(2))
    );
    assert_eq!(poly.eval_precise(Rational::from_i32(2)), Rational::from_i32(22));
}

#[test]
fn test_eval_substitution() {
    let mut poly = Polynomial::new(coefficients(&[1, 2, 3, 0]));
    poly = poly.substitute(&Polynomial::new(coefficients(&[1, 0, 0]))); // x → x²
    assert_eq!(poly.order(), 6);
    assert_eq!(poly.into_coeffs(), coefficients(&[1, 0, 2, 0, 3, 0, 0]));
    poly = Polynomial::new(coefficients(&[1, 2, 3, 0]));
    poly = poly.substitute(&Polynomial::new(coefficients(&[1, 0, 1]))); // x → x² + 1
    assert_eq!(poly.into_coeffs(), coefficients(&[1, 0, 5, 0, 10, 0, 6]));
}

#[test]
fn test_eval_der() {
    // x³ + 2x² + 3x + 0
    let poly = Polynomial::new(coefficients(&[1, 2, 3, 0]));
    // 3x² + 4x + 3
    assert_eq!(poly.eval_der(Rational::from_i32(0), 1), Rational::from_i32(3));
    assert_eq!(poly.eval_der(Rational::from_i32(1), 1), Rational::from_i32(10));
    assert_eq!(poly.eval_der(Rational::from_i32(2), 1), Rational::from_i32(23));
    assert_eq!(poly.eval_der_precise(Rational::from_i32(0), 1), Rational::from_i32(3));
    assert_eq!(poly.eval_der_precise(Rational::from_i32(1), 1), Rational::from_i32(10));
    assert_eq!(poly.eval_der_precise(Rational::from_i32(2), 1), Rational::from_i32(23));
    // 6x + 4
    assert_eq!(poly.eval_der(Rational::from_i32(0), 2), Rational::from_i32(4));
    assert_eq!(poly.eval_der(Rational::from_i32(1), 2), Rational::from_i32(10));
    assert_eq!(poly.eval_der_precise(Rational::from_i32(0), 2), Rational::from_i32(4));
    assert_eq!(poly.eval_der_precise(Rational::from_i32(1), 2), Rational::from_i32(10));
}

#[test]
fn test_div_rem() {
    let poly_a = Polynomial::new(coefficients(&[1, 2, 3, 0]));

    // (x³ + 2x² + 3x) / x = x² + 2x + 3 | 0
    let poly_b = Polynomial::new(coefficients(&[1, 0]));
    let (q, r) = poly_a.div_rem(&poly_b);
    assert_eq!(q.coeffs(), coefficients(&[1, 2, 3]));
    assert!(r.is_zero());

    // (x³ + 2x² + 3x) / 2x = 0.5x² + x + 1.5 | 0
    let poly_b = Polynomial::new(coefficients(&[2, 0]));
    let (q, r) = poly_a.div_rem(&poly_b);
    assert_eq!(
        q.coeffs(),
        Coefficients::from_vec(vec![fraction(1, 2), Rational::from_i32(1), fraction(3, 2)])
    );
    assert!(r.is_zero());

    // (x³ + 2x² + 3x) / x² = x + 2 | 3x
    let poly_b = Polynomial::new(coefficients(&[1, 0, 0]));
    let (q, r) = poly_a.div_rem(&poly_b);
    assert_eq!(q.coeffs(), coefficients(&[1, 2]));
    assert_eq!(r.coeffs(), coefficients(&[3, 0]));

    // (x³ + 2x² + 3x) / (x² + 1) = x + 2 | 2x - 2
    let poly_b = Polynomial::new(coefficients(&[1, 0, 1]));
    let (q, r) = poly_a.div_rem(&poly_b);
    assert_eq!(q.coeffs(), coefficients(&[1, 2]));
    assert_eq!(r.coeffs(), coefficients(&[2, -2]));

    // (x² + 1) / (x³ + 2x² + 3x) = 0 | x² + 1
    let (q, r) = poly_b.div_rem(&poly_a);
    assert!(q.is_zero());
    assert_eq!(r, poly_b);
}

#[test]
fn new_keeps_the_input_without_its_zeros_in_front() {
    let poly = Polynomial::new(coefficients(&[0, 0, 0, 5, 0, -2]));
    assert_eq!(poly.coeffs(), coefficients(&[5, 0, -2]));
    assert_eq!(poly.order(), 2);
    let poly = Polynomial::new(coefficients(&[7, 0]));
    assert_eq!(poly.coeffs(), coefficients(&[7, 0]));
}

#[test]
fn new_of_zeros_is_the_zero_polynomial() {
    let poly = Polynomial::new(coefficients(&[0, 0, 0]));
    assert_eq!(poly.coeffs(), coefficients(&[0]));
    assert_eq!(poly.order(), 0);
    assert!(poly.is_zero());
}

#[test]
fn new_of_nothing_is_the_zero_polynomial() {
    let poly = Polynomial::new(Coefficients::new());
    assert_eq!(poly.coeffs(), coefficients(&[0]));
    assert_eq!(poly.order(), 0);
    let poly = Polynomial::new_reversed(Coefficients::new());
    assert!(poly.is_zero());
}

#[test]
fn new_reversed_takes_the_constant_term_first() {
    let poly = Polynomial::new_reversed(coefficients(&[0, 3, 2, 1, 0, 0]));
    assert_eq!(poly.order(), 3);
    assert_eq!(poly.coeffs(), coefficients(&[1, 2, 3, 0]));
    assert_eq!(*poly.reverse_coeffs(), coefficients(&[0, 3, 2, 1]));
}

#[test]
fn the_coefficients_come_out_in_both_orders() {
    let poly = Polynomial::new(coefficients(&[1, 2, 3, 0]));
    assert_eq!(poly.clone().into_coeffs(), coefficients(&[1, 2, 3, 0]));
    assert_eq!(poly.clone().into_reverse_coeffs(), coefficients(&[0, 3, 2, 1]));
    let items = poly.into_coeffs().into_vec();
    assert_eq!(items.len(), 4);
    assert_eq!(items[1], Rational::from_i32(2));
}

#[test]
fn eval_of_the_cubic_at_two() {
    let poly = Polynomial::new(coefficients(&[1, 2, 3, 0]));
    assert_eq!(poly.eval(Rational::from_i32(2)), Rational::from_i32(22));
    assert_eq!(poly.eval_precise(Rational::from_i32(2)), Rational::from_i32(22));
}

#[test]
fn eval_and_eval_precise_agree() {
    let poly = Polynomial::new(coefficients(&[3, -1, 0, 4, 7]));
    let x = fraction(-5, 3);
    let plain = poly.eval(x.clone());
    let precise = poly.eval_precise(x);
    assert_eq!(plain, precise);
    assert_eq!(plain, fraction(253, 9));
}

#[test]
fn eval_at_zero_is_the_constant_term() {
    let poly = Polynomial::new(coefficients(&[1, 2, 3, 9]));
    assert_eq!(poly.eval(Rational::zero()), Rational::from_i32(9));
    assert_eq!(poly.eval_precise(Rational::zero()), Rational::from_i32(9));
    assert_eq!(Polynomial::zero().eval(Rational::from_i32(5)), Rational::zero());
}

#[test]
fn a_derivative_beyond_the_degree_is_zero() {
    let poly = Polynomial::new(coefficients(&[1, 2, 3, 0]));
    // x³ differentiated three times is 6
    assert_eq!(poly.eval_der(Rational::from_i32(5), 3), Rational::from_i32(6));
    assert_eq!(poly.eval_der_precise(Rational::from_i32(5), 3), Rational::from_i32(6));
    assert_eq!(poly.eval_der(Rational::from_i32(5), 4), Rational::zero());
    assert_eq!(poly.eval_der_precise(Rational::from_i32(5), 4), Rational::zero());
    assert_eq!(poly.eval_der(Rational::from_i32(5), 40), Rational::zero());
}

#[test]
fn the_falling_factorial_scales_each_term() {
    // x⁵ differentiated twice is 20x³
    let poly = Polynomial::new(coefficients(&[1, 0, 0, 0, 0, 0]));
    assert_eq!(poly.eval_der(Rational::from_i32(2), 2), Rational::from_i32(160));
    assert_eq!(poly.eval_der_precise(Rational::from_i32(2), 2), Rational::from_i32(160));
    assert_eq!(poly::eval::falling_factor(3, 5), Rational::from_i32(20));
    assert_eq!(poly::eval::falling_factor(4, 4), Rational::from_i32(1));
    assert_eq!(poly::eval::falling_factor(0, 4), Rational::from_i32(24));
}

#[test]
fn division_gives_back_the_dividend() {
    let a = Polynomial::new(coefficients(&[3, -2, 0, 7, 1]));
    let b = Polynomial::new(coefficients(&[2, 5, -3]));
    let (q, r) = a.div_rem(&b);
    assert!(r.is_zero() || r.order() < b.order());
    assert_eq!(b.mul(&q).add(&r), a);
    assert_eq!(
        q.coeffs(),
        Coefficients::from_vec(vec![fraction(3, 2), fraction(-19, 4), fraction(113, 8)])
    );
    assert_eq!(
        r.coeffs(),
        Coefficients::from_vec(vec![fraction(-623, 8), fraction(347, 8)])
    );
}

#[test]
fn division_by_a_constant_leaves_no_remainder() {
    let a = Polynomial::new(coefficients(&[1, 2, 3]));
    let b = Polynomial::new(coefficients(&[4]));
    let (q, r) = a.div_rem(&b);
    assert!(r.is_zero());
    assert_eq!(
        q.coeffs(),
        Coefficients::from_vec(vec![fraction(1, 4), fraction(1, 2), fraction(3, 4)])
    );
}

#[test]
fn division_of_zero_is_zero() {
    let a = Polynomial::zero();
    let b = Polynomial::new(coefficients(&[1, 1]));
    let (q, r) = a.div_rem(&b);
    assert!(q.is_zero());
    assert!(r.is_zero());
}

#[test]
fn substituting_a_constant_evaluates() {
    let poly = Polynomial::new(coefficients(&[1, 2, 3, 0]));
    let two = Polynomial::new(coefficients(&[2]));
    assert_eq!(poly.substitute(&two).coeffs(), coefficients(&[22]));
    let x = Polynomial::new(coefficients(&[1, 0]));
    assert_eq!(poly.substitute(&x), poly);
    assert!(Polynomial::zero().substitute(&x).is_zero());
}

#[test]
fn eval_at_a_complex_point_with_fractions() {
    // x² + 1 at (1/2)i is 3/4
    let poly = Polynomial::new(coefficients(&[1, 0, 1]));
    let x = ComplexRational::new(Rational::zero(), fraction(1, 2));
    let y = poly.eval_complex(x);
    assert_eq!(y.re(), fraction(3, 4));
    assert_eq!(y.im(), Rational::zero());
    // x at 3 - 2i
    let poly = Polynomial::new(coefficients(&[1, 0]));
    let x = ComplexRational::new(Rational::from_i32(3), Rational::from_i32(-2));
    assert_eq!(poly.eval_complex(x.clone()), x);
}

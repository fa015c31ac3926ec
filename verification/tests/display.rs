use poly::to_superscript;
use poly::Coefficients;
use poly::NotADigit;
use poly::Polynomial;
use poly::Rational;

fn coefficients(values: &[i32]) -> Coefficients {
    Coefficients::from_vec(values.iter().map(|v| Rational::from_i32(*v)).collect())
}

#[test]
fn test_display() {
    let poly = Polynomial::new(coefficients(&[1, 3, 2, 0, 1, 0]));
    let poly_string = poly.to_display("x").to_string();
    assert_eq!(poly_string, "x⁵ + 3x⁴ + 2x³ + x");

    let mut coeffs = vec![0; 11];
    *coeffs.first_mut().unwrap() = 1;
    *coeffs.last_mut().unwrap() = 1;
    let poly = Polynomial::new(coefficients(&coeffs));
    let poly_string = poly.to_display("ω").to_string();
    assert_eq!(poly_string, "ω¹⁰ + 1");
}

#[test]
fn superscript_of_digits() {
    assert_eq!(to_superscript("0123456789"), Ok("⁰¹²³⁴⁵⁶⁷⁸⁹".to_string()));
    assert_eq!(to_superscript(""), Ok(String::new()));
}

#[test]
fn superscript_rejects_other_characters() {
    assert_eq!(to_superscript("1x"), Err(NotADigit));
    assert_eq!(to_superscript("-1"), Err(NotADigit));
    assert_eq!(to_superscript("12 "), Err(NotADigit));
}

#[test]
fn decimal_digits_of_a_number() {
    assert_eq!(poly::display::decimal_string(0), "0");
    assert_eq!(poly::display::decimal_string(7), "7");
    assert_eq!(poly::display::decimal_string(10), "10");
    assert_eq!(poly::display::decimal_string(120_034), "120034");
}

#[test]
fn display_of_constants_and_fractions() {
    assert_eq!(Polynomial::zero().to_display("x").to_string(), "");
    assert_eq!(Polynomial::one().to_display("x").to_string(), "1");
    let half = Rational::from_i32(1).div(&Rational::from_i32(2));
    let poly = Polynomial::new(Coefficients::from_vec(vec![
        half,
        Rational::from_i32(-3),
        Rational::from_i32(1),
    ]));
    assert_eq!(poly.to_display("t").to_string(), "1/2t² + -3t + 1");
}

#[test]
fn display_leaves_out_a_coefficient_of_one_except_for_the_constant() {
    let poly = Polynomial::new(coefficients(&[1, 1, 1]));
    assert_eq!(poly.to_display("y").to_string(), "y² + y + 1");
    let poly = Polynomial::new(coefficients(&[-1, 0, 2]));
    assert_eq!(poly.to_display("y").to_string(), "-1y² + 2");
}

use poly::ComplexRational;
use poly::Rational;

fn complex(re: i32, im: i32) -> ComplexRational {
    ComplexRational::new(Rational::from_i32(re), Rational::from_i32(im))
}

#[test]
fn complex_parts_and_identities() {
    let c = complex(3, -4);
    assert_eq!(c.re(), Rational::from_i32(3));
    assert_eq!(c.im(), Rational::from_i32(-4));
    assert_eq!(ComplexRational::zero(), complex(0, 0));
    assert_eq!(ComplexRational::one(), complex(1, 0));
    assert_eq!(c.clone(), c);
}

#[test]
fn complex_arithmetic_in_place() {
    let mut c = complex(1, 2);
    c.add_assign(&complex(10, 20));
    assert_eq!(c, complex(11, 22));
    let mut c = complex(1, 2);
    c.mul_assign(&complex(3, 4));
    assert_eq!(c, complex(-5, 10));
    let mut i = complex(0, 1);
    i.mul_assign(&complex(0, 1));
    assert_eq!(i, complex(-1, 0));
    assert_eq!(complex(1, 2).scaled(&Rational::from_i32(-3)), complex(-3, -6));
}

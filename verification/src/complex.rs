//! Complex numbers with exact rational parts, as points at which a
//! polynomial can be evaluated.
//!
//! A [`ComplexRational`] holds a complex number of the `num` crate over its
//! arbitrary-precision ratios, and is seen by the verifier as the pair of
//! its real and imaginary part. What is stated of `num`'s arithmetic is
//! believed, not proved; each such statement is marked as trusted.

use crate::rational::Rational;
use num::rational::Ratio;
use num::BigInt;
use num::One;
use num::Zero;
use vstd::prelude::*;

verus! {

/// `num`'s complex numbers. The verifier does not look inside.
#[verifier::external_type_specification]
#[verifier::external_body]
#[verifier::reject_recursive_types(T)]
pub struct ExComplex<T>(num::Complex<T>);

/// The real part of a complex number.
pub uninterp spec fn complex_re(c: num::Complex<Ratio<BigInt>>) -> real;

/// The imaginary part of a complex number.
pub uninterp spec fn complex_im(c: num::Complex<Ratio<BigInt>>) -> real;

/// The product of two complex numbers, each given as the pair of its real
/// and imaginary part.
pub open spec fn complex_product(a: (real, real), b: (real, real)) -> (real, real) {
    (a.0 * b.0 - a.1 * b.1, a.0 * b.1 + a.1 * b.0)
}

/// A complex number with exact rational parts.
#[derive(Debug, PartialEq, Eq)]
pub struct ComplexRational {
    inner: num::Complex<Ratio<BigInt>>,
}

impl View for ComplexRational {
    type V = (real, real);

    closed spec fn view(&self) -> (real, real) {
        (complex_re(self.inner), complex_im(self.inner))
    }
}

impl ComplexRational {
    /// Trusted: `num::Complex::new` keeps the two parts as they are given.
    #[verifier::external_body]
    fn complex_new(re: Rational, im: Rational) -> (c: ComplexRational)
        ensures
            complex_re(c.inner) == re@,
            complex_im(c.inner) == im@,
    {
        ComplexRational { inner: num::Complex::new(re.inner, im.inner) }
    }

    /// Trusted: the field `re` of a `num::Complex` is its real part.
    #[verifier::external_body]
    fn complex_re_part(&self) -> (re: Rational)
        ensures
            re@ == complex_re(self.inner),
    {
        Rational { inner: self.inner.re.clone() }
    }

    /// Trusted: the field `im` of a `num::Complex` is its imaginary part.
    #[verifier::external_body]
    fn complex_im_part(&self) -> (im: Rational)
        ensures
            im@ == complex_im(self.inner),
    {
        Rational { inner: self.inner.im.clone() }
    }

    /// Trusted: `num::Zero::zero` for a complex number has both parts
    /// zero.
    #[verifier::external_body]
    fn complex_zero() -> (c: ComplexRational)
        ensures
            complex_re(c.inner) == 0real,
            complex_im(c.inner) == 0real,
    {
        ComplexRational { inner: num::Complex::zero() }
    }

    /// Trusted: `num::One::one` for a complex number has the real part one
    /// and the imaginary part zero.
    #[verifier::external_body]
    fn complex_one() -> (c: ComplexRational)
        ensures
            complex_re(c.inner) == 1real,
            complex_im(c.inner) == 0real,
    {
        ComplexRational { inner: num::Complex::one() }
    }

    /// Trusted: `Clone::clone` of a complex number is the same number.
    #[verifier::external_body]
    fn complex_clone(&self) -> (c: ComplexRational)
        ensures
            complex_re(c.inner) == complex_re(self.inner),
            complex_im(c.inner) == complex_im(self.inner),
    {
        ComplexRational { inner: self.inner.clone() }
    }

    /// Trusted: `AddAssign::add_assign` by reference adds part by part.
    #[verifier::external_body]
    fn complex_add_assign(&mut self, rhs: &ComplexRational)
        ensures
            complex_re(final(self).inner) == complex_re(old(self).inner) + complex_re(rhs.inner),
            complex_im(final(self).inner) == complex_im(old(self).inner) + complex_im(rhs.inner),
    {
        self.inner += &rhs.inner;
    }

    /// Trusted: `MulAssign::mul_assign` by reference leaves the complex
    /// product.
    #[verifier::external_body]
    fn complex_mul_assign(&mut self, rhs: &ComplexRational)
        ensures
            complex_re(final(self).inner) == complex_re(old(self).inner) * complex_re(rhs.inner)
                - complex_im(old(self).inner) * complex_im(rhs.inner),
            complex_im(final(self).inner) == complex_re(old(self).inner) * complex_im(rhs.inner)
                + complex_im(old(self).inner) * complex_re(rhs.inner),
    {
        self.inner *= &rhs.inner;
    }

    /// Trusted: `Mul::mul` of a reference to a complex number with a
    /// reference to a number of its field multiplies both parts by it.
    #[verifier::external_body]
    fn complex_scaled(&self, factor: &Rational) -> (c: ComplexRational)
        ensures
            complex_re(c.inner) == complex_re(self.inner) * factor@,
            complex_im(c.inner) == complex_im(self.inner) * factor@,
    {
        ComplexRational { inner: &self.inner * &factor.inner }
    }

    /// The complex number with the given real and imaginary part.
    pub fn new(re: Rational, im: Rational) -> (c: ComplexRational)
        ensures
            c@ == (re@, im@),
    {
        ComplexRational::complex_new(re, im)
    }

    /// The real part.
    pub fn re(&self) -> (re: Rational)
        ensures
            re@ == self@.0,
    {
        self.complex_re_part()
    }

    /// The imaginary part.
    pub fn im(&self) -> (im: Rational)
        ensures
            im@ == self@.1,
    {
        self.complex_im_part()
    }

    /// The number zero.
    pub fn zero() -> (c: ComplexRational)
        ensures
            c@ == (0real, 0real),
    {
        ComplexRational::complex_zero()
    }

    /// The number one.
    pub fn one() -> (c: ComplexRational)
        ensures
            c@ == (1real, 0real),
    {
        ComplexRational::complex_one()
    }

    /// Adds `rhs` to this number in place.
    pub fn add_assign(&mut self, rhs: &ComplexRational)
        ensures
            final(self)@ == (old(self)@.0 + rhs@.0, old(self)@.1 + rhs@.1),
    {
        self.complex_add_assign(rhs)
    }

    /// Multiplies this number by `rhs` in place.
    pub fn mul_assign(&mut self, rhs: &ComplexRational)
        ensures
            final(self)@ == complex_product(old(self)@, rhs@),
    {
        self.complex_mul_assign(rhs)
    }

    /// This number multiplied by the rational `factor`.
    pub fn scaled(&self, factor: &Rational) -> (c: ComplexRational)
        ensures
            c@ == (self@.0 * factor@, self@.1 * factor@),
    {
        self.complex_scaled(factor)
    }
}

impl Clone for ComplexRational {
    fn clone(&self) -> (c: ComplexRational)
        ensures
            c@ == self@,
    {
        self.complex_clone()
    }
}

} // verus!

//! Exact rational numbers: the coefficient field of the polynomials.
//!
//! A [`Rational`] holds an arbitrary-precision ratio of the `num` crate and is
//! seen by the verifier as the real number that the ratio stands for. The
//! arithmetic itself is `num`'s; what is stated of it here is believed, not
//! proved, and each such statement is marked as trusted in its documentation.

use num::rational::Ratio;
use num::traits::Pow;
use num::BigInt;
use num::FromPrimitive;
use num::One;
use num::Zero;
use vstd::prelude::*;

verus! {

/// `num`'s integers of arbitrary size. The verifier does not look inside.
#[verifier::external_type_specification]
#[verifier::external_body]
pub struct ExBigInt(BigInt);

/// `num`'s ratio of two integers. The verifier does not look inside.
#[verifier::external_type_specification]
#[verifier::external_body]
#[verifier::reject_recursive_types(T)]
pub struct ExRatio<T>(Ratio<T>);

/// The number that a ratio stands for: its numerator divided by its
/// denominator. Nothing is known of it but what the trusted functions
/// below say.
pub uninterp spec fn ratio_value(r: Ratio<BigInt>) -> real;

/// The text that `num` prints for the ratio in lowest terms whose value is
/// `value`: the numerator alone for an integer, else numerator, a slash and
/// the denominator. Nothing more is stated of it.
pub uninterp spec fn ratio_text(value: real) -> Seq<char>;

/// `x` raised to the power `n`, with `power(x, 0) == 1` for every `x`.
pub open spec fn power(x: real, n: nat) -> real
    decreases n,
{
    if n == 0 {
        1real
    } else {
        x * power(x, (n - 1) as nat)
    }
}

/// An exact rational number.
///
/// The ratio inside is always in lowest terms with a positive denominator:
/// every value is made by one of the functions below, and each of them hands
/// out such a ratio when it is given such ratios.
#[derive(Debug, PartialEq, Eq, PartialOrd, Ord)]
pub struct Rational {
    pub(crate) inner: Ratio<BigInt>,
}

impl View for Rational {
    type V = real;

    closed spec fn view(&self) -> real {
        ratio_value(self.inner)
    }
}

impl Rational {
    /// Trusted: `num::Zero::zero` for a ratio is `0/1`.
    #[verifier::external_body]
    fn ratio_zero() -> (r: Rational)
        ensures
            ratio_value(r.inner) == 0real,
    {
        Rational { inner: Ratio::<BigInt>::zero() }
    }

    /// Trusted: `num::Zero::is_zero` tells whether the numerator is zero,
    /// which is whether the value is.
    #[verifier::external_body]
    fn ratio_is_zero(&self) -> (b: bool)
        ensures
            b == (ratio_value(self.inner) == 0real),
    {
        self.inner.is_zero()
    }

    /// Trusted: `num::One::one` for a ratio is `1/1`.
    #[verifier::external_body]
    fn ratio_one() -> (r: Rational)
        ensures
            ratio_value(r.inner) == 1real,
    {
        Rational { inner: Ratio::<BigInt>::one() }
    }

    /// Trusted: `num::One::is_one` tells whether numerator and denominator
    /// are equal, which is whether the value is one.
    #[verifier::external_body]
    fn ratio_is_one(&self) -> (b: bool)
        ensures
            b == (ratio_value(self.inner) == 1real),
    {
        self.inner.is_one()
    }

    /// Trusted: `num::FromPrimitive::from_i32` for a ratio of big integers
    /// always succeeds, with the ratio `n/1`.
    #[verifier::external_body]
    fn ratio_from_i32(n: i32) -> (r: Option<Rational>)
        ensures
            r is Some,
            ratio_value(r->Some_0.inner) == n as real,
    {
        match Ratio::<BigInt>::from_i32(n) {
            Some(inner) => Some(Rational { inner }),
            None => None,
        }
    }

    /// Trusted: `Clone::clone` of a ratio is the same ratio.
    #[verifier::external_body]
    fn ratio_clone(&self) -> (r: Rational)
        ensures
            ratio_value(r.inner) == ratio_value(self.inner),
    {
        Rational { inner: self.inner.clone() }
    }

    /// Trusted: `AddAssign::add_assign` by reference leaves the exact sum,
    /// reduced.
    #[verifier::external_body]
    fn ratio_add_assign(&mut self, rhs: &Rational)
        ensures
            ratio_value(final(self).inner) == ratio_value(old(self).inner) + ratio_value(
                rhs.inner,
            ),
    {
        self.inner += &rhs.inner;
    }

    /// Trusted: `SubAssign::sub_assign` by reference leaves the exact
    /// difference, reduced.
    #[verifier::external_body]
    fn ratio_sub_assign(&mut self, rhs: &Rational)
        ensures
            ratio_value(final(self).inner) == ratio_value(old(self).inner) - ratio_value(
                rhs.inner,
            ),
    {
        self.inner -= &rhs.inner;
    }

    /// Trusted: `Mul::mul` of two references gives the exact product,
    /// reduced.
    #[verifier::external_body]
    fn ratio_mul(&self, rhs: &Rational) -> (r: Rational)
        ensures
            ratio_value(r.inner) == ratio_value(self.inner) * ratio_value(rhs.inner),
    {
        Rational { inner: &self.inner * &rhs.inner }
    }

    /// Trusted: `Div::div` of two references gives the exact quotient,
    /// reduced. It panics on a zero divisor, which `requires` leaves out.
    #[verifier::external_body]
    fn ratio_div(&self, rhs: &Rational) -> (r: Rational)
        requires
            ratio_value(rhs.inner) != 0real,
        ensures
            ratio_value(r.inner) == ratio_value(self.inner) / ratio_value(rhs.inner),
    {
        Rational { inner: &self.inner / &rhs.inner }
    }

    /// Trusted: `Neg::neg` of a reference negates the numerator.
    #[verifier::external_body]
    fn ratio_neg(&self) -> (r: Rational)
        ensures
            ratio_value(r.inner) == -ratio_value(self.inner),
    {
        Rational { inner: -&self.inner }
    }

    /// Trusted: `num::traits::Pow::pow` of a reference with an `i32`
    /// exponent that is not negative raises numerator and denominator to
    /// that power, and gives one for the exponent zero.
    #[verifier::external_body]
    fn ratio_pow(&self, exponent: i32) -> (r: Rational)
        requires
            exponent >= 0,
        ensures
            ratio_value(r.inner) == power(ratio_value(self.inner), exponent as nat),
    {
        Rational { inner: Pow::pow(&self.inner, exponent) }
    }

    /// Trusted: `ToString::to_string` prints a ratio through its `Display`,
    /// which for a ratio in lowest terms depends on its value alone.
    #[verifier::external_body]
    fn ratio_to_string(&self) -> (s: String)
        ensures
            s@ == ratio_text(ratio_value(self.inner)),
    {
        self.inner.to_string()
    }

    /// The number zero.
    pub fn zero() -> (r: Rational)
        ensures
            r@ == 0real,
    {
        Rational::ratio_zero()
    }

    /// Whether this is the number zero.
    pub fn is_zero(&self) -> (b: bool)
        ensures
            b == (self@ == 0real),
    {
        self.ratio_is_zero()
    }

    /// The number one.
    pub fn one() -> (r: Rational)
        ensures
            r@ == 1real,
    {
        Rational::ratio_one()
    }

    /// Whether this is the number one.
    pub fn is_one(&self) -> (b: bool)
        ensures
            b == (self@ == 1real),
    {
        self.ratio_is_one()
    }

    /// The integer `n` as a rational.
    pub fn from_i32(n: i32) -> (r: Rational)
        ensures
            r@ == n as real,
    {
        Rational::ratio_from_i32(n).unwrap()
    }

    /// Adds `rhs` to this number in place.
    pub fn add_assign(&mut self, rhs: &Rational)
        ensures
            final(self)@ == old(self)@ + rhs@,
    {
        self.ratio_add_assign(rhs)
    }

    /// Subtracts `rhs` from this number in place.
    pub fn sub_assign(&mut self, rhs: &Rational)
        ensures
            final(self)@ == old(self)@ - rhs@,
    {
        self.ratio_sub_assign(rhs)
    }

    /// Multiplies this number by `rhs` in place.
    pub fn mul_assign(&mut self, rhs: &Rational)
        ensures
            final(self)@ == old(self)@ * rhs@,
    {
        *self = self.ratio_mul(rhs);
    }

    /// The sum of the two numbers.
    pub fn add(&self, rhs: &Rational) -> (r: Rational)
        ensures
            r@ == self@ + rhs@,
    {
        let mut r = self.ratio_clone();
        r.ratio_add_assign(rhs);
        r
    }

    /// The difference of the two numbers.
    pub fn sub(&self, rhs: &Rational) -> (r: Rational)
        ensures
            r@ == self@ - rhs@,
    {
        let mut r = self.ratio_clone();
        r.ratio_sub_assign(rhs);
        r
    }

    /// The product of the two numbers.
    pub fn mul(&self, rhs: &Rational) -> (r: Rational)
        ensures
            r@ == self@ * rhs@,
    {
        self.ratio_mul(rhs)
    }

    /// The quotient of the two numbers, for a divisor that is not zero.
    pub fn div(&self, rhs: &Rational) -> (r: Rational)
        requires
            rhs@ != 0real,
        ensures
            r@ == self@ / rhs@,
    {
        self.ratio_div(rhs)
    }

    /// The number with the opposite sign.
    pub fn neg(&self) -> (r: Rational)
        ensures
            r@ == -self@,
    {
        self.ratio_neg()
    }

    /// This number raised to a power that is not negative.
    pub fn pow(&self, exponent: i32) -> (r: Rational)
        requires
            exponent >= 0,
        ensures
            r@ == power(self@, exponent as nat),
    {
        self.ratio_pow(exponent)
    }

    /// Multiplies this number by `factor` and adds `addend`, in place and
    /// without rounding between the two steps.
    pub fn mul_add_assign(&mut self, factor: Rational, addend: Rational)
        ensures
            final(self)@ == old(self)@ * factor@ + addend@,
    {
        *self = self.ratio_mul(&factor);
        self.ratio_add_assign(&addend);
    }

    /// The number as text: an integer as its digits, any other number as
    /// numerator, slash, denominator, in lowest terms.
    pub fn to_string(&self) -> (s: String)
        ensures
            s@ == ratio_text(self@),
    {
        self.ratio_to_string()
    }
}

impl Clone for Rational {
    fn clone(&self) -> (r: Rational)
        ensures
            r@ == self@,
    {
        self.ratio_clone()
    }
}

} // verus!

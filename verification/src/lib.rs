//! Dense univariate polynomials over the rational numbers.
//!
//! A [`Polynomial`] keeps its coefficients as exact rationals in a small
//! vector, always in normal form. This file holds the type, its normal form
//! and access to its coefficients; the operations are in the modules below.

pub mod add;
pub mod algebra;
pub mod coefficients;
pub mod complex;
pub mod display;
pub mod division;
pub mod eval;
pub mod laws;
pub mod mul;
pub mod rational;
pub mod sub;

pub use crate::coefficients::Coefficients;
pub use crate::complex::ComplexRational;
pub use crate::display::to_superscript;
pub use crate::display::DisplayPolynomial;
pub use crate::display::NotADigit;
pub use crate::rational::Rational;

use crate::algebra::is_normal;
use crate::algebra::lemma_normalize;
use crate::algebra::max_len;
use crate::algebra::normalize;
use crate::laws::law_round_trip;
use crate::laws::without_leading_zeros;
use vstd::prelude::*;

verus! {

/// A polynomial in one variable with rational coefficients.
///
/// The coefficients are kept in ascending order, the constant term first.
/// The view of a polynomial is that sequence, as real numbers.
#[derive(Debug, PartialEq, Eq, PartialOrd, Ord)]
pub struct Polynomial {
    rev_coeffs: Coefficients,
}

impl View for Polynomial {
    type V = Seq<real>;

    closed spec fn view(&self) -> Seq<real> {
        self.rev_coeffs@
    }
}

impl Polynomial {
    /// The invariant of every polynomial: the coefficients are in normal
    /// form, and the degree fits in an `i32`.
    pub open spec fn wf(&self) -> bool {
        is_normal(self@) && self@.len() <= max_len()
    }

    /// The degree as a mathematical integer: zero for the zero polynomial.
    pub open spec fn degree(&self) -> int {
        self@.len() - 1
    }

    /// The degree: the highest power with a coefficient that is not zero,
    /// and zero for the zero polynomial.
    pub fn order(&self) -> (n: i32)
        requires
            self.wf(),
        ensures
            n == self.degree(),
    {
        let len = self.rev_coeffs.len();
        (len - 1) as i32
    }

    /// The coefficients in ascending order, the constant term first.
    pub fn reverse_coeffs(&self) -> (c: &Coefficients)
        ensures
            c@ == self@,
    {
        &self.rev_coeffs
    }

    /// The coefficients in descending order, the constant term last.
    pub fn into_coeffs(self) -> (c: Coefficients)
        ensures
            c@ == self@.reverse(),
    {
        let mut coeffs = self.rev_coeffs;
        coeffs.reverse();
        coeffs
    }

    /// The coefficients in ascending order, the constant term first.
    pub fn into_reverse_coeffs(self) -> (c: Coefficients)
        ensures
            c@ == self@,
    {
        self.rev_coeffs
    }

    /// A copy of the coefficients in descending order, the constant term
    /// last.
    pub fn coeffs(&self) -> (c: Coefficients)
        ensures
            c@ == self@.reverse(),
    {
        let mut coeffs = self.rev_coeffs.clone();
        coeffs.reverse();
        coeffs
    }

    /// Brings the coefficients into normal form: drops the zeros at the
    /// end, and keeps a single zero if nothing else is left.
    fn fixup_coefficients(&mut self)
        requires
            normalize(old(self)@).len() <= max_len(),
        ensures
            final(self)@ == normalize(old(self)@),
            final(self).wf(),
    {
        proof {
            lemma_normalize(self@);
        }
        loop
            invariant
                normalize(self@) == normalize(old(self)@),
            ensures
                normalize(self@) == normalize(old(self)@),
                self@.len() == 0 || self@.last() != 0real,
            decreases self@.len(),
        {
            let len = self.rev_coeffs.len();
            if len == 0 {
                break ;
            }
            if !self.rev_coeffs.get(len - 1).is_zero() {
                break ;
            }
            self.rev_coeffs.pop();
        }
        if self.rev_coeffs.is_empty() {
            self.rev_coeffs.push(Rational::zero());
            assert(self@ =~= seq![0real]);
        }
    }

    /// The polynomial with the given coefficients in descending order, the
    /// constant term last. Zeros in front are dropped.
    pub fn new(coefficients: Coefficients) -> (p: Polynomial)
        requires
            normalize(coefficients@.reverse()).len() <= max_len(),
        ensures
            p.wf(),
            p@ == normalize(coefficients@.reverse()),
            p@.reverse() == without_leading_zeros(coefficients@),
    {
        proof {
            law_round_trip(coefficients@);
        }
        let mut rev_coeffs = coefficients;
        rev_coeffs.reverse();
        Polynomial::new_reversed(rev_coeffs)
    }

    /// The polynomial with the given coefficients in ascending order, the
    /// constant term first. Zeros at the end are dropped.
    pub fn new_reversed(rev_coeffs: Coefficients) -> (p: Polynomial)
        requires
            normalize(rev_coeffs@).len() <= max_len(),
        ensures
            p.wf(),
            p@ == normalize(rev_coeffs@),
    {
        let mut ret = Polynomial { rev_coeffs };
        ret.fixup_coefficients();
        ret
    }
}

impl Clone for Polynomial {
    fn clone(&self) -> (p: Polynomial)
        ensures
            p@ == self@,
    {
        Polynomial { rev_coeffs: self.rev_coeffs.clone() }
    }
}

} // verus!

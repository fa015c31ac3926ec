//! Evaluation of a polynomial and of its derivatives at a point.
//!
//! Each kind of evaluation comes twice. The plain one keeps a running power
//! of the point and multiplies it up from term to term. The precise one
//! raises the point to each power afresh and folds the term in with one
//! multiply-and-add. Over the rationals both are exact, so they agree.

use crate::algebra::coeff;
use crate::algebra::complex_power;
use crate::algebra::complex_value_at;
use crate::algebra::complex_value_partial;
use crate::algebra::composition;
use crate::algebra::composition_partial;
use crate::algebra::falling;
use crate::algebra::lemma_nth_derivative_coeff;
use crate::algebra::lemma_polynomial_power_len;
use crate::algebra::lemma_value_partial_stable;
use crate::algebra::nth_derivative;
use crate::algebra::polynomial_power;
use crate::algebra::value_at;
use crate::algebra::value_partial;
use crate::complex::ComplexRational;
use crate::rational::power;
use crate::rational::Rational;
use crate::Polynomial;
use vstd::prelude::*;

verus! {

/// The product of the integers from `e_new + 1` through `e_old`, as a
/// rational: the factor that differentiating `e_old - e_new` times puts
/// before the power `e_old`.
pub fn falling_factor(e_new: i32, e_old: i32) -> (factor: Rational)
    requires
        0 <= e_new <= e_old,
    ensures
        factor@ == falling(e_old as int, (e_old - e_new) as nat),
{
    let mut factor = Rational::one();
    let mut k: i32 = e_new;
    while k < e_old
        invariant
            e_new <= k <= e_old,
            factor@ == falling(k as int, (k - e_new) as nat),
        decreases e_old - k,
    {
        k += 1;
        factor.mul_assign(&Rational::from_i32(k));
    }
    factor
}

/// The value of the `n`-th derivative of `s` at `x` is the sum of its
/// first `m` terms, as soon as `m` reaches the number of coefficients that
/// differentiating leaves.
proof fn lemma_derivative_value(s: Seq<real>, n: nat, x: real, m: nat)
    requires
        m + n >= s.len(),
    ensures
        value_partial(nth_derivative(s, n), x, m) == value_at(nth_derivative(s, n), x),
{
    let d = nth_derivative(s, n);
    lemma_nth_derivative_coeff(s, n);
    assert forall|k: int| k >= m implies coeff(d, k) == 0real by {
        assert(coeff(d, k) == falling(k + n, n) * coeff(s, k + n));
        assert(coeff(s, k + n) == 0real);
        assert(falling(k + n, n) * coeff(s, k + n) == 0real) by (nonlinear_arith)
            requires
                coeff(s, k + n) == 0real,
        ;
    }
    if m <= d.len() {
        lemma_value_partial_stable(d, x, m, d.len());
    } else {
        lemma_value_partial_stable(d, x, d.len(), m);
    }
}

impl Polynomial {
    /// The value of the polynomial at `x`, with a running power of `x`.
    pub fn eval(&self, x: Rational) -> (y: Rational)
        ensures
            y@ == value_at(self@, x@),
    {
        let len = self.rev_coeffs.len();
        let mut xn = Rational::one();
        let mut y = Rational::zero();
        let mut i: usize = 0;
        while i < len
            invariant
                len == self@.len(),
                i <= len,
                xn@ == power(x@, i as nat),
                y@ == value_partial(self@, x@, i as nat),
            decreases len - i,
        {
            let term = self.rev_coeffs.get(i).mul(&xn);
            y.add_assign(&term);
            xn.mul_assign(&x);
            assert(power(x@, i as nat) * x@ == x@ * power(x@, i as nat)) by (nonlinear_arith);
            i += 1;
        }
        y
    }

    /// The value of the polynomial at `x`, with each power of `x` taken
    /// afresh.
    pub fn eval_precise(&self, x: Rational) -> (y: Rational)
        requires
            self.wf(),
        ensures
            y@ == value_at(self@, x@),
    {
        let len = self.rev_coeffs.len();
        let mut y = Rational::zero();
        let mut i: usize = 0;
        while i < len
            invariant
                len == self@.len(),
                len <= 0x8000_0000,
                i <= len,
                y@ == value_partial(self@, x@, i as nat),
            decreases len - i,
        {
            let e = i as i32;
            let mut ay = self.rev_coeffs.get(i).clone();
            ay.mul_add_assign(x.pow(e), y);
            y = ay;
            i += 1;
        }
        y
    }

    /// The value at `x` of the `n`-th derivative, for `n` of at least one,
    /// with a running power of `x`.
    pub fn eval_der(&self, x: Rational, n: i32) -> (y: Rational)
        requires
            self.wf(),
            n > 0,
        ensures
            y@ == value_at(nth_derivative(self@, n as nat), x@),
    {
        let len = self.rev_coeffs.len();
        let skip = n as usize;
        let ghost d = nth_derivative(self@, n as nat);
        let mut xn = Rational::one();
        let mut y = Rational::zero();
        let mut i: usize = skip;
        while i < len
            invariant
                len == self@.len(),
                len <= 0x8000_0000,
                skip == n,
                n > 0,
                skip <= i,
                d == nth_derivative(self@, n as nat),
                xn@ == power(x@, (i - skip) as nat),
                y@ == value_partial(d, x@, (i - skip) as nat),
            decreases len - i,
        {
            let e_old = i as i32;
            let e_new = (i - skip) as i32;
            let factor = falling_factor(e_new, e_old);
            let scaled = self.rev_coeffs.get(i).mul(&factor);
            let term = scaled.mul(&xn);
            y.add_assign(&term);
            xn.mul_assign(&x);
            proof {
                let j = i - skip;
                lemma_nth_derivative_coeff(self@, n as nat);
                assert(coeff(d, j) == falling(j + n, n as nat) * coeff(self@, j + n));
                assert(self@[i as int] * factor@ == factor@ * self@[i as int])
                    by (nonlinear_arith);
                assert(power(x@, j as nat) * x@ == x@ * power(x@, j as nat)) by (nonlinear_arith);
            }
            i += 1;
        }
        proof {
            lemma_derivative_value(self@, n as nat, x@, (i - skip) as nat);
        }
        y
    }

    /// The value at `x` of the `n`-th derivative, for `n` of at least one,
    /// with each power of `x` taken afresh.
    pub fn eval_der_precise(&self, x: Rational, n: i32) -> (y: Rational)
        requires
            self.wf(),
            n > 0,
        ensures
            y@ == value_at(nth_derivative(self@, n as nat), x@),
    {
        let len = self.rev_coeffs.len();
        let skip = n as usize;
        let ghost d = nth_derivative(self@, n as nat);
        let mut y = Rational::zero();
        let mut i: usize = skip;
        while i < len
            invariant
                len == self@.len(),
                len <= 0x8000_0000,
                skip == n,
                n > 0,
                skip <= i,
                d == nth_derivative(self@, n as nat),
                y@ == value_partial(d, x@, (i - skip) as nat),
            decreases len - i,
        {
            let e_old = i as i32;
            let e_new = (i - skip) as i32;
            let factor = falling_factor(e_new, e_old);
            let mut ay = self.rev_coeffs.get(i).mul(&factor);
            ay.mul_add_assign(x.pow(e_new), y);
            y = ay;
            proof {
                let j = i - skip;
                lemma_nth_derivative_coeff(self@, n as nat);
                assert(coeff(d, j) == falling(j + n, n as nat) * coeff(self@, j + n));
                assert(self@[i as int] * factor@ == factor@ * self@[i as int])
                    by (nonlinear_arith);
            }
            i += 1;
        }
        proof {
            lemma_derivative_value(self@, n as nat, x@, (i - skip) as nat);
        }
        y
    }
}

impl Polynomial {
    /// The value of the polynomial at the complex point `x`, with a
    /// running power of `x`.
    pub fn eval_complex(&self, x: ComplexRational) -> (y: ComplexRational)
        ensures
            y@ == complex_value_at(self@, x@),
    {
        let len = self.rev_coeffs.len();
        let mut xn = ComplexRational::one();
        let mut y = ComplexRational::zero();
        let mut i: usize = 0;
        while i < len
            invariant
                len == self@.len(),
                i <= len,
                xn@ == complex_power(x@, i as nat),
                y@ == complex_value_partial(self@, x@, i as nat),
            decreases len - i,
        {
            let term = xn.scaled(self.rev_coeffs.get(i));
            y.add_assign(&term);
            xn.mul_assign(&x);
            i += 1;
        }
        y
    }

    /// The polynomial with the polynomial `x` put in place of the variable,
    /// with a running power of `x`. The degree of `x` times the number of
    /// coefficients of this polynomial has to fit in an `i32`.
    pub fn substitute(&self, x: &Polynomial) -> (y: Polynomial)
        requires
            self.wf(),
            x.wf(),
            self@.len() * x.degree() <= i32::MAX,
        ensures
            y.wf(),
            y@ == composition(self@, x@),
    {
        let len = self.rev_coeffs.len();
        let mut xn = Polynomial::one();
        let mut y = Polynomial::zero();
        let mut i: usize = 0;
        while i < len
            invariant
                len == self@.len(),
                self@.len() * x.degree() <= i32::MAX,
                i <= len,
                x.wf(),
                xn.wf(),
                y.wf(),
                xn@ == polynomial_power(x@, i as nat),
                y@ == composition_partial(self@, x@, i as nat),
            decreases len - i,
        {
            let term = xn.mul_scalar(self.rev_coeffs.get(i));
            y.add_assign(&term);
            proof {
                lemma_polynomial_power_len(x@, i as nat);
                assert(i * x.degree() + x.degree() <= self@.len() * x.degree())
                    by (nonlinear_arith)
                    requires
                        i + 1 <= self@.len(),
                        x.degree() >= 0,
                ;
            }
            xn.mul_assign(x);
            i += 1;
        }
        y
    }
}

} // verus!

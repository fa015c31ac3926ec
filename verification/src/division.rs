//! Long division of polynomials.

use crate::algebra::coeff;
use crate::algebra::convolution;
use crate::algebra::lemma_convolution_partial_zero;
use crate::algebra::lemma_convolution_update;
use crate::algebra::lemma_division_identity;
use crate::algebra::lemma_normalize;
use crate::algebra::lemma_normalize_len_bound;
use crate::algebra::lemma_normalize_same;
use crate::algebra::product;
use crate::algebra::sum;
use crate::algebra::zero;
use crate::rational::Rational;
use crate::Polynomial;
use vstd::prelude::*;

verus! {

/// What long division keeps true between its steps, for the dividend `a`,
/// the divisor `b`, and the quotient `q` and remainder `rem` built so far,
/// when the powers from `top` on have been divided out: the remainder has
/// no term at or above `top`, the quotient has none yet below
/// `top - degree(b)`, and `a` is `b * q + rem`, coefficient by coefficient.
pub open spec fn division_state(
    a: Seq<real>,
    b: Seq<real>,
    q: Seq<real>,
    rem: Seq<real>,
    top: int,
) -> bool {
    &&& rem.len() == a.len()
    &&& q.len() == a.len() - b.len() + 1
    &&& forall|k: int| top <= k ==> #[trigger] coeff(rem, k) == 0real
    &&& forall|j: int| j < top - (b.len() - 1) ==> #[trigger] coeff(q, j) == 0real
    &&& forall|k: int| 0 <= k ==> #[trigger] coeff(a, k) == convolution(b, q, k) + coeff(rem, k)
}

impl Polynomial {
    /// Divides this polynomial by `rhs`, which must not be the zero
    /// polynomial, and returns quotient and remainder: this polynomial is
    /// `rhs` times the quotient plus the remainder, and the remainder is
    /// zero or of lower degree than `rhs`.
    pub fn div_rem(&self, rhs: &Polynomial) -> (qr: (Polynomial, Polynomial))
        requires
            self.wf(),
            rhs.wf(),
            rhs@ != zero(),
        ensures
            qr.0.wf(),
            qr.1.wf(),
            self@ == sum(product(rhs@, qr.0@), qr.1@),
            qr.1@ == zero() || qr.1@.len() < rhs@.len(),
            self@.len() < rhs@.len() ==> qr.0@ == zero() && qr.1@ == self@,
    {
        let order_l = self.order() as usize;
        let order_r = rhs.order() as usize;
        if order_l < order_r {
            let q = Polynomial::zero();
            let r = self.clone();
            proof {
                assert forall|k: int| 0 <= k implies coeff(self@, k) == convolution(rhs@, q@, k)
                    + coeff(self@, k) by {
                    lemma_convolution_partial_zero(rhs@, q@, k, (k + 1) as nat);
                }
                lemma_division_identity(self@, rhs@, q@, self@);
                lemma_normalize(q@);
                lemma_normalize(self@);
            }
            return (q, r);
        }
        let order_o = order_l - order_r;
        let mut remainder = self.rev_coeffs.clone();
        let mut quotient = Polynomial::zeros(order_o + 1);
        proof {
            assert(rhs@[order_r as int] != 0real) by {
                if rhs@[order_r as int] == 0real {
                    assert(rhs@ =~= zero());
                }
            }
            assert forall|k: int| 0 <= k implies #[trigger] coeff(self@, k) == convolution(
                rhs@,
                quotient@,
                k,
            ) + coeff(remainder@, k) by {
                lemma_convolution_partial_zero(rhs@, quotient@, k, (k + 1) as nat);
            }
        }
        let mut top = order_l + 1;
        while top > order_r
            invariant
                order_r == rhs@.len() - 1,
                order_r <= i32::MAX,
                order_l == self@.len() - 1,
                order_o == order_l - order_r,
                order_r <= top <= order_l + 1,
                rhs@[order_r as int] != 0real,
                division_state(self@, rhs@, quotient@, remainder@, top as int),
            decreases top,
        {
            let el = top - 1;
            let ghost q0 = quotient@;
            let ghost rem0 = remainder@;
            let v = remainder.get(el).div(rhs.rev_coeffs.get(order_r));
            remainder.set(el, Rational::zero());
            let mut k: usize = 1;
            while k <= order_r
                invariant
                    order_r == rhs@.len() - 1,
                    order_r <= i32::MAX,
                    order_r <= el,
                    el < rem0.len(),
                    1 <= k <= order_r + 1,
                    remainder@.len() == rem0.len(),
                    remainder@[el as int] == 0real,
                    forall|i: int|
                        el - k < i < el ==> #[trigger] remainder@[i] == rem0[i] - v@ * rhs@[order_r
                            - (el - i)],
                    forall|i: int|
                        0 <= i < rem0.len() && !(el - k < i <= el) ==> #[trigger] remainder@[i]
                            == rem0[i],
                decreases order_r + 1 - k,
            {
                let t = v.mul(rhs.rev_coeffs.get(order_r - k));
                let slot = remainder.get_mut(el - k);
                slot.sub_assign(&t);
                k += 1;
            }
            let ghost vv = v@;
            quotient.set(el - order_r, v);
            proof {
                let a = self@;
                let b = rhs@;
                let j = el - order_r;
                let lead = b[order_r as int];
                assert(coeff(q0, j) == 0real);
                assert(lead * vv == rem0[el as int]) by (nonlinear_arith)
                    requires
                        vv == rem0[el as int] / lead,
                        lead != 0real,
                ;
                assert forall|kk: int| 0 <= kk implies #[trigger] coeff(a, kk) == convolution(
                    b,
                    quotient@,
                    kk,
                ) + coeff(remainder@, kk) by {
                    lemma_convolution_update(b, q0, j, vv, kk);
                    assert(coeff(a, kk) == convolution(b, q0, kk) + coeff(rem0, kk));
                    if kk == el {
                    } else if el - order_r <= kk < el {
                        assert(remainder@[kk] == rem0[kk] - vv * b[order_r - (el - kk)]);
                        assert(coeff(b, kk - j) * vv == vv * b[order_r - (el - kk)])
                            by (nonlinear_arith)
                            requires
                                coeff(b, kk - j) == b[order_r - (el - kk)],
                        ;
                    } else {
                        if kk < rem0.len() {
                            assert(remainder@[kk] == rem0[kk]);
                        }
                        assert(coeff(b, kk - j) == 0real);
                        assert(coeff(b, kk - j) * (vv - q0[j]) == 0real) by (nonlinear_arith)
                            requires
                                coeff(b, kk - j) == 0real,
                        ;
                    }
                }
                assert forall|kk: int| el <= kk implies #[trigger] coeff(remainder@, kk)
                    == 0real by {
                    if el < kk < rem0.len() {
                        assert(coeff(rem0, kk) == 0real);
                        assert(remainder@[kk] == rem0[kk]);
                    }
                }
                assert forall|jj: int| jj < el - order_r implies #[trigger] coeff(quotient@, jj)
                    == 0real by {
                    assert(coeff(q0, jj) == 0real);
                }
            }
            top = el;
        }
        proof {
            lemma_division_identity(self@, rhs@, quotient@, remainder@);
            lemma_normalize(quotient@);
            lemma_normalize(remainder@);
            lemma_normalize_len_bound(remainder@, order_r as nat);
            if order_r == 0 {
                assert forall|i: int| coeff(remainder@, i) == coeff(zero(), i) by {
                    assert(coeff(remainder@, i) == 0real);
                }
                lemma_normalize_same(remainder@, zero());
                lemma_normalize(zero());
            }
        }
        (Polynomial::new_reversed(quotient), Polynomial::new_reversed(remainder))
    }
}

} // verus!

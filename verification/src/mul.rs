//! Multiplication of polynomials, by one another and by a number, and the
//! constant polynomial one.

use crate::algebra::coeff;
use crate::algebra::convolution;
use crate::algebra::convolution_partial;
use crate::algebra::lemma_convolution_partial_stable;
use crate::algebra::lemma_normalize;
use crate::algebra::one;
use crate::algebra::product;
use crate::algebra::product_raw;
use crate::algebra::scaled;
use crate::algebra::scaled_raw;
use crate::coefficients::Coefficients;
use crate::rational::Rational;
use crate::Polynomial;
use vstd::prelude::*;

verus! {

/// What the accumulator holds for the power `k` while the product is being
/// built: every term of the rows below `row`, and of row `row` the terms of
/// the columns below `col`.
pub open spec fn accumulated(a: Seq<real>, b: Seq<real>, k: int, row: int, col: int) -> real {
    convolution_partial(a, b, k, row as nat) + if 0 <= k - row < col {
        coeff(a, row) * coeff(b, k - row)
    } else {
        0real
    }
}

impl Polynomial {
    /// The constant polynomial one.
    pub fn one() -> (p: Polynomial)
        ensures
            p.wf(),
            p@ == one(),
    {
        let mut rev_coeffs = Coefficients::new();
        rev_coeffs.push(Rational::one());
        let p = Polynomial { rev_coeffs };
        assert(p@ =~= one());
        p
    }

    /// `len` coefficients, all zero.
    pub(crate) fn zeros(len: usize) -> (c: Coefficients)
        ensures
            c@.len() == len,
            forall|i: int| 0 <= i < len ==> c@[i] == 0real,
    {
        let mut c = Coefficients::new();
        let mut n: usize = 0;
        while n < len
            invariant
                n <= len,
                c@.len() == n,
                forall|i: int| 0 <= i < n ==> c@[i] == 0real,
            decreases len - n,
        {
            c.push(Rational::zero());
            n += 1;
        }
        c
    }

    /// The product of the two polynomials, by convolution. The sum of the
    /// two degrees has to fit in an `i32`.
    pub fn mul(&self, rhs: &Polynomial) -> (p: Polynomial)
        requires
            self.wf(),
            rhs.wf(),
            self.degree() + rhs.degree() <= i32::MAX,
        ensures
            p.wf(),
            p@ == product(self@, rhs@),
    {
        let order_l = self.order();
        let order_r = rhs.order();
        let order_o = order_l + order_r;
        let num_add = order_o as usize + 1;
        let len_l = self.rev_coeffs.len();
        let len_r = rhs.rev_coeffs.len();
        let mut rev_coeffs = Polynomial::zeros(num_add);
        let mut el: usize = 0;
        while el < len_l
            invariant
                len_l == self@.len(),
                len_r == rhs@.len(),
                len_r >= 1,
                el <= len_l,
                num_add == len_l + len_r - 1,
                rev_coeffs@.len() == num_add,
                forall|k: int|
                    0 <= k < rev_coeffs@.len() ==> #[trigger] rev_coeffs@[k] == convolution_partial(
                        self@,
                        rhs@,
                        k,
                        el as nat,
                    ),
            decreases len_l - el,
        {
            let mut er: usize = 0;
            while er < len_r
                invariant
                    len_l == self@.len(),
                    len_r == rhs@.len(),
                    el < len_l,
                    er <= len_r,
                    num_add == len_l + len_r - 1,
                    rev_coeffs@.len() == num_add,
                    forall|k: int|
                        0 <= k < rev_coeffs@.len() ==> #[trigger] rev_coeffs@[k] == accumulated(
                            self@,
                            rhs@,
                            k,
                            el as int,
                            er as int,
                        ),
                decreases len_r - er,
            {
                let ghost before = rev_coeffs@;
                let term = self.rev_coeffs.get(el).mul(rhs.rev_coeffs.get(er));
                let slot = rev_coeffs.get_mut(el + er);
                slot.add_assign(&term);
                proof {
                    assert forall|k: int| 0 <= k < rev_coeffs@.len() implies #[trigger] rev_coeffs@[k]
                        == accumulated(self@, rhs@, k, el as int, er + 1) by {
                        assert(before[k] == accumulated(self@, rhs@, k, el as int, er as int));
                    }
                }
                er += 1;
            }
            proof {
                assert forall|k: int| 0 <= k < rev_coeffs@.len() implies #[trigger] rev_coeffs@[k]
                    == convolution_partial(self@, rhs@, k, (el + 1) as nat) by {
                    assert(rev_coeffs@[k] == accumulated(self@, rhs@, k, el as int, len_r as int));
                }
            }
            el += 1;
        }
        proof {
            assert forall|k: int| 0 <= k < rev_coeffs@.len() implies rev_coeffs@[k] == convolution(
                self@,
                rhs@,
                k,
            ) by {
                if k + 1 <= len_l {
                    lemma_convolution_partial_stable(self@, rhs@, k, (k + 1) as nat, len_l as nat);
                } else {
                    lemma_convolution_partial_stable(self@, rhs@, k, len_l as nat, (k + 1) as nat);
                }
            }
            assert(rev_coeffs@ =~= product_raw(self@, rhs@));
            lemma_normalize(rev_coeffs@);
        }
        Polynomial::new_reversed(rev_coeffs)
    }

    /// Multiplies this polynomial by `rhs` in place. The sum of the two
    /// degrees has to fit in an `i32`.
    pub fn mul_assign(&mut self, rhs: &Polynomial)
        requires
            old(self).wf(),
            rhs.wf(),
            old(self).degree() + rhs.degree() <= i32::MAX,
        ensures
            final(self).wf(),
            final(self)@ == product(old(self)@, rhs@),
    {
        let val = self.mul(rhs);
        *self = val;
    }

    /// The polynomial multiplied by the number `rhs`.
    pub fn mul_scalar(&self, rhs: &Rational) -> (p: Polynomial)
        requires
            self.wf(),
        ensures
            p.wf(),
            p@ == scaled(self@, rhs@),
    {
        let len = self.rev_coeffs.len();
        let mut rev_coeffs = Coefficients::new();
        let mut i: usize = 0;
        while i < len
            invariant
                len == self@.len(),
                i <= len,
                rev_coeffs@.len() == i,
                forall|j: int| 0 <= j < i ==> rev_coeffs@[j] == self@[j] * rhs@,
            decreases len - i,
        {
            rev_coeffs.push(self.rev_coeffs.get(i).mul(rhs));
            i += 1;
        }
        proof {
            assert(rev_coeffs@ =~= scaled_raw(self@, rhs@));
            lemma_normalize(rev_coeffs@);
        }
        Polynomial::new_reversed(rev_coeffs)
    }

    /// Multiplies this polynomial by the number `rhs` in place.
    pub fn mul_scalar_assign(&mut self, rhs: &Rational)
        requires
            old(self).wf(),
        ensures
            final(self).wf(),
            final(self)@ == scaled(old(self)@, rhs@),
    {
        let len = self.rev_coeffs.len();
        let mut i: usize = 0;
        while i < len
            invariant
                len == self@.len(),
                self@.len() == old(self)@.len(),
                i <= len,
                forall|j: int| 0 <= j < i ==> self@[j] == old(self)@[j] * rhs@,
                forall|j: int| i <= j < len ==> self@[j] == old(self)@[j],
            decreases len - i,
        {
            let v = self.rev_coeffs.get_mut(i);
            v.mul_assign(rhs);
            i += 1;
        }
        proof {
            assert(self@ =~= scaled_raw(old(self)@, rhs@));
            lemma_normalize(self@);
        }
        self.fixup_coefficients();
    }
}

} // verus!

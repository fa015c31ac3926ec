//! Addition of polynomials, and the zero polynomial.

use crate::algebra::coeff;
use crate::algebra::lemma_normalize;
use crate::algebra::longer;
use crate::algebra::sum;
use crate::algebra::sum_raw;
use crate::algebra::zero;
use crate::coefficients::Coefficients;
use crate::rational::Rational;
use crate::Polynomial;
use vstd::prelude::*;

verus! {

impl Polynomial {
    /// The zero polynomial: the single coefficient zero.
    pub fn zero() -> (p: Polynomial)
        ensures
            p.wf(),
            p@ == zero(),
    {
        let mut rev_coeffs = Coefficients::new();
        rev_coeffs.push(Rational::zero());
        let p = Polynomial { rev_coeffs };
        assert(p@ =~= zero());
        p
    }

    /// Whether this is the zero polynomial.
    pub fn is_zero(&self) -> (b: bool)
        requires
            self.wf(),
        ensures
            b == (self@ == zero()),
    {
        let b = self.order() == 0 && self.rev_coeffs.get(0).is_zero();
        proof {
            if b {
                assert(self@ =~= zero());
            }
        }
        b
    }

    /// Appends zeros until there are at least `len` coefficients.
    pub(crate) fn pad_to(&mut self, len: usize)
        ensures
            final(self)@.len() == longer(old(self)@.len(), len as nat),
            forall|i: int| #[trigger] coeff(final(self)@, i) == coeff(old(self)@, i),
    {
        let mut n = self.rev_coeffs.len();
        while n < len
            invariant
                n == self@.len(),
                old(self)@.len() <= n,
                n <= longer(old(self)@.len(), len as nat),
                forall|i: int| #[trigger] coeff(self@, i) == coeff(old(self)@, i),
            decreases len - n,
        {
            let ghost before = self@;
            self.rev_coeffs.push(Rational::zero());
            assert forall|i: int| #[trigger] coeff(self@, i) == coeff(old(self)@, i) by {
                assert(coeff(before, i) == coeff(old(self)@, i));
            }
            n += 1;
        }
    }

    /// Adds `rhs` to this polynomial in place.
    pub fn add_assign(&mut self, rhs: &Polynomial)
        requires
            old(self).wf(),
            rhs.wf(),
        ensures
            final(self).wf(),
            final(self)@ == sum(old(self)@, rhs@),
    {
        let rhs_len = rhs.rev_coeffs.len();
        self.pad_to(rhs_len);
        let mut i: usize = 0;
        while i < rhs_len
            invariant
                rhs_len == rhs@.len(),
                i <= rhs_len,
                self@.len() == longer(old(self)@.len(), rhs@.len()),
                forall|j: int|
                    0 <= j < i ==> #[trigger] coeff(self@, j) == coeff(old(self)@, j) + coeff(
                        rhs@,
                        j,
                    ),
                forall|j: int| i <= j ==> #[trigger] coeff(self@, j) == coeff(old(self)@, j),
            decreases rhs_len - i,
        {
            let ghost before = self@;
            let r = rhs.rev_coeffs.get(i);
            let l = self.rev_coeffs.get_mut(i);
            l.add_assign(r);
            proof {
                assert(coeff(before, i as int) == coeff(old(self)@, i as int));
                assert forall|j: int| 0 <= j < i + 1 implies #[trigger] coeff(self@, j) == coeff(
                    old(self)@,
                    j,
                ) + coeff(rhs@, j) by {
                    assert(coeff(before, j) == coeff(self@, j) || j == i);
                }
                assert forall|j: int| i + 1 <= j implies #[trigger] coeff(self@, j) == coeff(
                    old(self)@,
                    j,
                ) by {
                    assert(coeff(before, j) == coeff(self@, j));
                }
            }
            i += 1;
        }
        proof {
            assert forall|j: int| 0 <= j < self@.len() implies self@[j] == sum_raw(
                old(self)@,
                rhs@,
            )[j] by {
                assert(coeff(self@, j) == self@[j]);
            }
            assert(self@ =~= sum_raw(old(self)@, rhs@));
            lemma_normalize(self@);
        }
        self.fixup_coefficients();
    }

    /// The sum of the two polynomials.
    pub fn add(&self, rhs: &Polynomial) -> (p: Polynomial)
        requires
            self.wf(),
            rhs.wf(),
        ensures
            p.wf(),
            p@ == sum(self@, rhs@),
    {
        let mut ret = self.clone();
        ret.add_assign(rhs);
        ret
    }
}

} // verus!

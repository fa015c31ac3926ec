//! Subtraction and negation of polynomials.

use crate::algebra::coeff;
use crate::algebra::difference;
use crate::algebra::difference_raw;
use crate::algebra::lemma_normalize;
use crate::algebra::longer;
use crate::algebra::opposite;
use crate::algebra::opposite_raw;
use crate::coefficients::Coefficients;
use crate::Polynomial;
use vstd::prelude::*;

verus! {

impl Polynomial {
    /// Subtracts `rhs` from this polynomial in place.
    pub fn sub_assign(&mut self, rhs: &Polynomial)
        requires
            old(self).wf(),
            rhs.wf(),
        ensures
            final(self).wf(),
            final(self)@ == difference(old(self)@, rhs@),
    {
        let rhs_len = rhs.rev_coeffs.len();
        self.pad_to(rhs_len);
        let mut i: usize = 0;
        while i < rhs_len
            invariant
                rhs_len == rhs@.len(),
                i <= rhs_len,
                self@.len() == longer(old(self)@.len(), rhs@.len()),
                forall|j: int|
                    0 <= j < i ==> #[trigger] coeff(self@, j) == coeff(old(self)@, j) - coeff(
                        rhs@,
                        j,
                    ),
                forall|j: int| i <= j ==> #[trigger] coeff(self@, j) == coeff(old(self)@, j),
            decreases rhs_len - i,
        {
            let ghost before = self@;
            let r = rhs.rev_coeffs.get(i);
            let l = self.rev_coeffs.get_mut(i);
            l.sub_assign(r);
            proof {
                assert(coeff(before, i as int) == coeff(old(self)@, i as int));
                assert forall|j: int| 0 <= j < i + 1 implies #[trigger] coeff(self@, j) == coeff(
                    old(self)@,
                    j,
                ) - coeff(rhs@, j) by {
                    assert(coeff(before, j) == coeff(self@, j) || j == i);
                }
                assert forall|j: int| i + 1 <= j implies #[trigger] coeff(self@, j) == coeff(
                    old(self)@,
                    j,
                ) by {
                    assert(coeff(before, j) == coeff(self@, j));
                }
            }
            i += 1;
        }
        proof {
            assert forall|j: int| 0 <= j < self@.len() implies self@[j] == difference_raw(
                old(self)@,
                rhs@,
            )[j] by {
                assert(coeff(self@, j) == self@[j]);
            }
            assert(self@ =~= difference_raw(old(self)@, rhs@));
            lemma_normalize(self@);
        }
        self.fixup_coefficients();
    }

    /// The difference of the two polynomials.
    pub fn sub(&self, rhs: &Polynomial) -> (p: Polynomial)
        requires
            self.wf(),
            rhs.wf(),
        ensures
            p.wf(),
            p@ == difference(self@, rhs@),
    {
        let mut ret = self.clone();
        ret.sub_assign(rhs);
        ret
    }

    /// The polynomial with the opposite sign.
    pub fn neg(&self) -> (p: Polynomial)
        requires
            self.wf(),
        ensures
            p.wf(),
            p@ == opposite(self@),
    {
        let len = self.rev_coeffs.len();
        let mut rev_coeffs = Coefficients::new();
        let mut i: usize = 0;
        while i < len
            invariant
                len == self@.len(),
                i <= len,
                rev_coeffs@.len() == i,
                forall|j: int| 0 <= j < i ==> rev_coeffs@[j] == -self@[j],
            decreases len - i,
        {
            rev_coeffs.push(self.rev_coeffs.get(i).neg());
            i += 1;
        }
        proof {
            assert(rev_coeffs@ =~= opposite_raw(self@));
            lemma_normalize(rev_coeffs@);
        }
        Polynomial::new_reversed(rev_coeffs)
    }

    /// Turns this polynomial into the one with the opposite sign, reusing
    /// its storage.
    pub fn into_neg(self) -> (p: Polynomial)
        requires
            self.wf(),
        ensures
            p.wf(),
            p@ == opposite(self@),
    {
        let mut rev_coeffs = self.rev_coeffs;
        let len = rev_coeffs.len();
        let mut i: usize = 0;
        while i < len
            invariant
                len == self@.len(),
                rev_coeffs@.len() == len,
                i <= len,
                forall|j: int| 0 <= j < i ==> rev_coeffs@[j] == -self@[j],
                forall|j: int| i <= j < len ==> rev_coeffs@[j] == self@[j],
            decreases len - i,
        {
            let c = rev_coeffs.get(i).neg();
            rev_coeffs.set(i, c);
            i += 1;
        }
        proof {
            assert(rev_coeffs@ =~= opposite_raw(self@));
            lemma_normalize(rev_coeffs@);
        }
        Polynomial::new_reversed(rev_coeffs)
    }
}

} // verus!

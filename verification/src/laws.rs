//! Laws of polynomial arithmetic, each proved for all polynomials.
//!
//! The operations state their results with the functions of
//! [`crate::algebra`]; the laws here are stated with the same functions, so
//! each of them speaks of what the operations return.

use crate::algebra::coeff;
use crate::algebra::composition;
use crate::algebra::composition_partial;
use crate::algebra::convolution;
use crate::algebra::convolution_partial;
use crate::algebra::is_normal;
use crate::algebra::lemma_convolution_partial_stable;
use crate::algebra::lemma_normal_unique;
use crate::algebra::lemma_product_coeff;
use crate::algebra::lemma_sum_coeff;
use crate::algebra::lemma_normalize;
use crate::algebra::lemma_normalize_same;
use crate::algebra::lemma_polynomial_power_len;
use crate::algebra::lemma_value_normalize;
use crate::algebra::lemma_value_partial_stable;
use crate::algebra::longer;
use crate::algebra::one;
use crate::algebra::polynomial_power;
use crate::algebra::scaled;
use crate::algebra::scaled_raw;
use crate::algebra::value_partial;
use crate::algebra::normalize;
use crate::algebra::opposite;
use crate::algebra::opposite_raw;
use crate::algebra::product;
use crate::algebra::product_raw;
use crate::algebra::sum;
use crate::algebra::sum_raw;
use crate::algebra::value_at;
use crate::algebra::zero;
use crate::rational::power;
use crate::rational::Rational;
use crate::Polynomial;
use vstd::prelude::*;

verus! {

/// A sequence of coefficients in descending order without its zeros in
/// front, or the single item zero if nothing else is left.
pub open spec fn without_leading_zeros(s: Seq<real>) -> Seq<real>
    decreases s.len(),
{
    if s.len() == 0 {
        seq![0real]
    } else if s[0] == 0real {
        without_leading_zeros(s.skip(1))
    } else {
        s
    }
}

/// Round trip: the descending coefficients of the polynomial made from the
/// descending coefficients `s` are `s` without its zeros in front, and the
/// single coefficient zero if `s` holds nothing else.
pub proof fn law_round_trip(s: Seq<real>)
    ensures
        normalize(s.reverse()).reverse() == without_leading_zeros(s),
    decreases s.len(),
{
    if s.len() == 0 {
        assert(normalize(s.reverse()) =~= seq![0real]);
        assert(seq![0real].reverse() =~= seq![0real]);
    } else if s[0] == 0real {
        assert(s.reverse().last() == s[0]);
        assert(s.reverse().drop_last() =~= s.skip(1).reverse());
        law_round_trip(s.skip(1));
    } else {
        assert(s.reverse().last() == s[0]);
        assert(s.reverse().reverse() =~= s);
    }
}

/// Additive identity: a polynomial plus the zero polynomial is the
/// polynomial itself.
pub proof fn law_add_zero(p: Seq<real>)
    requires
        is_normal(p),
    ensures
        sum(p, zero()) == p,
        sum(zero(), p) == p,
{
    assert(sum_raw(p, zero()) =~= p);
    assert(sum_raw(zero(), p) =~= p);
    lemma_normalize(p);
}

/// Additive inverse: a polynomial plus its opposite is the zero
/// polynomial.
pub proof fn law_add_opposite(p: Seq<real>)
    ensures
        sum(p, opposite(p)) == zero(),
{
    let n = opposite(p);
    lemma_normalize(opposite_raw(p));
    assert forall|i: int| coeff(sum_raw(p, n), i) == coeff(zero(), i) by {
        assert(coeff(normalize(opposite_raw(p)), i) == coeff(opposite_raw(p), i));
    }
    lemma_normalize_same(sum_raw(p, n), zero());
    lemma_normalize(zero());
}

/// Addition is commutative.
pub proof fn law_add_commutative(a: Seq<real>, b: Seq<real>)
    ensures
        sum(a, b) == sum(b, a),
{
    assert(sum_raw(a, b) =~= sum_raw(b, a));
}

/// The first `n` terms of the convolution of `a` with `b` at `k` are the
/// last `n` terms of the convolution of `b` with `a`.
proof fn lemma_convolution_mirror(a: Seq<real>, b: Seq<real>, k: int, n: nat)
    requires
        n <= k + 1,
    ensures
        convolution_partial(a, b, k, n) == convolution_partial(b, a, k, (k + 1) as nat)
            - convolution_partial(b, a, k, (k + 1 - n) as nat),
    decreases n,
{
    if n > 0 {
        lemma_convolution_mirror(a, b, k, (n - 1) as nat);
        let i = n - 1;
        assert(convolution_partial(b, a, k, (k + 1 - i) as nat) == convolution_partial(
            b,
            a,
            k,
            (k - i) as nat,
        ) + coeff(b, k - i) * coeff(a, k - (k - i)));
        assert(coeff(a, i) * coeff(b, k - i) == coeff(b, k - i) * coeff(a, i))
            by (nonlinear_arith);
    }
}

/// Multiplication is commutative.
pub proof fn law_mul_commutative(a: Seq<real>, b: Seq<real>)
    ensures
        product(a, b) == product(b, a),
{
    assert forall|k: int| 0 <= k implies convolution(a, b, k) == convolution(b, a, k) by {
        lemma_convolution_mirror(a, b, k, (k + 1) as nat);
    }
    assert(product_raw(a, b) =~= product_raw(b, a));
}

/// Plain and precise evaluation agree: whatever `eval` and `eval_precise`
/// return for the same polynomial and point is the same number.
pub proof fn law_eval_agrees(p: Polynomial, x: Rational, plain: Rational, precise: Rational)
    requires
        plain@ == value_at(p@, x@),
        precise@ == value_at(p@, x@),
    ensures
        plain@ == precise@,
{
}

/// Two second operands that agree above the power `j` give the same first
/// `m` terms of the convolution at `k`, as long as those terms only reach
/// powers above `j`.
proof fn lemma_convolution_partial_agree(
    b: Seq<real>,
    q1: Seq<real>,
    q2: Seq<real>,
    k: int,
    m: nat,
    j: int,
)
    requires
        forall|i: int| i > j ==> coeff(q1, i) == coeff(q2, i),
        m <= k - j,
    ensures
        convolution_partial(b, q1, k, m) == convolution_partial(b, q2, k, m),
    decreases m,
{
    if m > 0 {
        lemma_convolution_partial_agree(b, q1, q2, k, (m - 1) as nat, j);
        assert(coeff(q1, k - (m - 1)) == coeff(q2, k - (m - 1)));
    }
}

/// If `b * q1 + r1` and `b * q2 + r2` have the same coefficients, and both
/// remainders have none from the degree of `b` on, then `q1` and `q2`
/// agree from the power `j` on.
proof fn lemma_quotients_agree_from(
    b: Seq<real>,
    q1: Seq<real>,
    r1: Seq<real>,
    q2: Seq<real>,
    r2: Seq<real>,
    j: int,
)
    requires
        b.len() >= 1,
        b.last() != 0real,
        0 <= j,
        forall|k: int| k >= b.len() - 1 ==> coeff(r1, k) == 0real && coeff(r2, k) == 0real,
        forall|k: int|
            0 <= k ==> convolution(b, q1, k) + coeff(r1, k) == convolution(b, q2, k) + coeff(
                r2,
                k,
            ),
    ensures
        forall|i: int| i >= j ==> coeff(q1, i) == coeff(q2, i),
    decreases q1.len() + q2.len() - j,
{
    if j >= q1.len() + q2.len() {
    } else {
        lemma_quotients_agree_from(b, q1, r1, q2, r2, j + 1);
        let n = b.len() - 1;
        let k = n + j;
        lemma_convolution_partial_agree(b, q1, q2, k, n as nat, j);
        lemma_convolution_partial_stable(b, q1, k, (n + 1) as nat, (k + 1) as nat);
        lemma_convolution_partial_stable(b, q2, k, (n + 1) as nat, (k + 1) as nat);
        assert(convolution(b, q1, k) == convolution_partial(b, q1, k, n as nat) + coeff(b, n)
            * coeff(q1, j));
        assert(convolution(b, q2, k) == convolution_partial(b, q2, k, n as nat) + coeff(b, n)
            * coeff(q2, j));
        assert(coeff(r1, k) == 0real && coeff(r2, k) == 0real);
        assert(convolution(b, q1, k) + coeff(r1, k) == convolution(b, q2, k) + coeff(r2, k));
        let lead = coeff(b, n);
        let c1 = coeff(q1, j);
        let c2 = coeff(q2, j);
        assert(c1 == c2) by (nonlinear_arith)
            requires
                lead * c1 == lead * c2,
                lead != 0real,
        ;
    }
}

/// Division is determined: for a divisor `b` that is not zero there is
/// only one pair of a quotient and a remainder that is zero or of lower
/// degree than `b` with `b * q + r` equal to a given polynomial. So what
/// `div_rem` states of its result holds of nothing else.
pub proof fn law_division_unique(
    b: Seq<real>,
    q1: Seq<real>,
    r1: Seq<real>,
    q2: Seq<real>,
    r2: Seq<real>,
)
    requires
        is_normal(b),
        b != zero(),
        is_normal(q1),
        is_normal(q2),
        is_normal(r1),
        is_normal(r2),
        r1 == zero() || r1.len() < b.len(),
        r2 == zero() || r2.len() < b.len(),
        sum(product(b, q1), r1) == sum(product(b, q2), r2),
    ensures
        q1 == q2,
        r1 == r2,
{
    lemma_product_coeff(b, q1);
    lemma_product_coeff(b, q2);
    lemma_sum_coeff(product(b, q1), r1);
    lemma_sum_coeff(product(b, q2), r2);
    assert(b.last() != 0real) by {
        if b.last() == 0real {
            assert(b =~= zero());
        }
    }
    assert forall|k: int| 0 <= k implies convolution(b, q1, k) + coeff(r1, k) == convolution(
        b,
        q2,
        k,
    ) + coeff(r2, k) by {
        assert(coeff(sum(product(b, q1), r1), k) == coeff(product(b, q1), k) + coeff(r1, k));
        assert(coeff(sum(product(b, q2), r2), k) == coeff(product(b, q2), k) + coeff(r2, k));
        assert(coeff(product(b, q1), k) == convolution(b, q1, k));
        assert(coeff(product(b, q2), k) == convolution(b, q2, k));
    }
    lemma_quotients_agree_from(b, q1, r1, q2, r2, 0);
    assert forall|i: int| coeff(q1, i) == coeff(q2, i) by {
        if i < 0 {
        }
    }
    lemma_normal_unique(q1, q2);
    assert forall|k: int| coeff(r1, k) == coeff(r2, k) by {
        if k >= 0 {
            assert(convolution(b, q1, k) + coeff(r1, k) == convolution(b, q2, k) + coeff(r2, k));
        }
    }
    lemma_normal_unique(r1, r2);
}

/// Powers add up: `x^(n + m)` is `x^n * x^m`.
pub proof fn lemma_power_add(x: real, n: nat, m: nat)
    ensures
        power(x, n + m) == power(x, n) * power(x, m),
    decreases n,
{
    if n == 0 {
        assert(power(x, 0) == 1real);
    } else {
        lemma_power_add(x, (n - 1) as nat, m);
        let a = power(x, (n - 1) as nat);
        let b = power(x, m);
        assert(power(x, n + m) == x * power(x, (n - 1 + m) as nat));
        assert(x * (a * b) == (x * a) * b) by (nonlinear_arith);
    }
}

/// The first `n` terms of the value of a coefficient-wise sum are the sums
/// of the first `n` terms of the two values.
proof fn lemma_value_partial_sum(a: Seq<real>, b: Seq<real>, x: real, n: nat)
    requires
        n <= longer(a.len(), b.len()),
    ensures
        value_partial(sum_raw(a, b), x, n) == value_partial(a, x, n) + value_partial(b, x, n),
    decreases n,
{
    if n > 0 {
        lemma_value_partial_sum(a, b, x, (n - 1) as nat);
        let p = power(x, (n - 1) as nat);
        let ca = coeff(a, n - 1);
        let cb = coeff(b, n - 1);
        assert(coeff(sum_raw(a, b), n - 1) == ca + cb);
        assert((ca + cb) * p == ca * p + cb * p) by (nonlinear_arith);
    }
}

/// Evaluation respects addition: the value of a sum is the sum of the
/// values.
pub proof fn law_value_sum(a: Seq<real>, b: Seq<real>, x: real)
    ensures
        value_at(sum(a, b), x) == value_at(a, x) + value_at(b, x),
{
    let m = longer(a.len(), b.len());
    lemma_value_normalize(sum_raw(a, b), x);
    lemma_value_partial_sum(a, b, x, m);
    lemma_value_partial_stable(a, x, a.len(), m);
    lemma_value_partial_stable(b, x, b.len(), m);
}

/// The first `n` terms of the value of a polynomial scaled by `c` are `c`
/// times the first `n` terms of its value.
proof fn lemma_value_partial_scaled(a: Seq<real>, c: real, x: real, n: nat)
    requires
        n <= a.len(),
    ensures
        value_partial(scaled_raw(a, c), x, n) == value_partial(a, x, n) * c,
    decreases n,
{
    if n > 0 {
        lemma_value_partial_scaled(a, c, x, (n - 1) as nat);
        let p = power(x, (n - 1) as nat);
        let ca = coeff(a, n - 1);
        let before = value_partial(a, x, (n - 1) as nat);
        assert(coeff(scaled_raw(a, c), n - 1) == ca * c);
        assert(before * c + (ca * c) * p == (before + ca * p) * c) by (nonlinear_arith);
    }
}

/// Evaluation respects scaling: the value of a polynomial times a number
/// is the value of the polynomial times that number.
pub proof fn law_value_scaled(a: Seq<real>, c: real, x: real)
    ensures
        value_at(scaled(a, c), x) == value_at(a, x) * c,
{
    lemma_value_normalize(scaled_raw(a, c), x);
    lemma_value_partial_scaled(a, c, x, a.len());
}

/// The sum over `k < count` of `coeff(b, k - n) * x^k`: the value of `b`
/// moved up by `n` powers.
pub open spec fn shifted_partial(b: Seq<real>, x: real, n: int, count: nat) -> real
    decreases count,
{
    if count == 0 {
        0real
    } else {
        shifted_partial(b, x, n, (count - 1) as nat) + coeff(b, count - 1 - n) * power(
            x,
            (count - 1) as nat,
        )
    }
}

/// The sum over `k < count` of the first `n` terms of the convolution at
/// `k`, times `x^k`: the value of the product of the first `n` terms of
/// `a` with `b`.
pub open spec fn weighted_partial(a: Seq<real>, b: Seq<real>, x: real, n: nat, count: nat) -> real
    decreases count,
{
    if count == 0 {
        0real
    } else {
        weighted_partial(a, b, x, n, (count - 1) as nat) + convolution_partial(
            a,
            b,
            count - 1,
            n,
        ) * power(x, (count - 1) as nat)
    }
}

/// Moving a polynomial up by `n` powers multiplies its value by `x^n`.
proof fn lemma_shifted(b: Seq<real>, x: real, n: nat, count: nat)
    ensures
        count <= n ==> shifted_partial(b, x, n as int, count) == 0real,
        count >= n ==> shifted_partial(b, x, n as int, count) == power(x, n) * value_partial(
            b,
            x,
            (count - n) as nat,
        ),
    decreases count,
{
    if count == 0 {
        assert(power(x, n) * 0real == 0real) by (nonlinear_arith);
    } else {
        lemma_shifted(b, x, n, (count - 1) as nat);
        let k = count - 1;
        let pk = power(x, k as nat);
        if k < n {
            assert(coeff(b, k - n) == 0real);
            assert(coeff(b, k - n) * pk == 0real) by (nonlinear_arith)
                requires
                    coeff(b, k - n) == 0real,
            ;
            if count == n {
                assert(power(x, n) * 0real == 0real) by (nonlinear_arith);
            }
        } else {
            lemma_power_add(x, n, (k - n) as nat);
            let pn = power(x, n);
            let pm = power(x, (k - n) as nat);
            let c = coeff(b, k - n);
            let before = value_partial(b, x, (k - n) as nat);
            assert(pk == pn * pm);
            assert(pn * before + c * (pn * pm) == pn * (before + c * pm)) by (nonlinear_arith);
        }
    }
}

/// Taking one more term of `a` into the product adds that term's
/// coefficient times the value of `b` moved up to the term's power.
proof fn lemma_weighted_step(a: Seq<real>, b: Seq<real>, x: real, n: nat, count: nat)
    ensures
        weighted_partial(a, b, x, n + 1, count) == weighted_partial(a, b, x, n, count) + coeff(
            a,
            n as int,
        ) * shifted_partial(b, x, n as int, count),
    decreases count,
{
    if count == 0 {
        assert(coeff(a, n as int) * 0real == 0real) by (nonlinear_arith);
    } else {
        lemma_weighted_step(a, b, x, n, (count - 1) as nat);
        let k = count - 1;
        let pk = power(x, k as nat);
        let ca = coeff(a, n as int);
        let cb = coeff(b, k - n);
        let conv = convolution_partial(a, b, k, n);
        let sh = shifted_partial(b, x, n as int, k as nat);
        assert(convolution_partial(a, b, k, n + 1) == conv + ca * cb);
        assert((conv + ca * cb) * pk + ca * sh == conv * pk + ca * (sh + cb * pk))
            by (nonlinear_arith);
    }
}

/// With no term of `a` taken the product has the value zero.
proof fn lemma_weighted_zero(a: Seq<real>, b: Seq<real>, x: real, count: nat)
    ensures
        weighted_partial(a, b, x, 0, count) == 0real,
    decreases count,
{
    if count > 0 {
        lemma_weighted_zero(a, b, x, (count - 1) as nat);
        assert(0real * power(x, (count - 1) as nat) == 0real) by (nonlinear_arith);
    }
}

/// The value of the product of the first `n` terms of `a` with `b` is the
/// value of those terms times the value of `b`.
proof fn lemma_weighted_total(a: Seq<real>, b: Seq<real>, x: real, n: nat, count: nat)
    requires
        n <= a.len(),
        count >= a.len() + b.len() - 1,
        count >= n,
    ensures
        weighted_partial(a, b, x, n, count) == value_partial(a, x, n) * value_at(b, x),
    decreases n,
{
    let v = value_at(b, x);
    if n == 0 {
        lemma_weighted_zero(a, b, x, count);
        assert(0real * v == 0real) by (nonlinear_arith);
    } else {
        let m = (n - 1) as nat;
        lemma_weighted_total(a, b, x, m, count);
        lemma_weighted_step(a, b, x, m, count);
        lemma_shifted(b, x, m, count);
        lemma_value_partial_stable(b, x, b.len(), (count - m) as nat);
        let ca = coeff(a, m as int);
        let pm = power(x, m);
        let before = value_partial(a, x, m);
        assert(shifted_partial(b, x, m as int, count) == pm * v);
        assert(before * v + ca * (pm * v) == (before + ca * pm) * v) by (nonlinear_arith);
    }
}

/// The first `count` terms of the value of a product are the weighted sum
/// of its convolutions.
proof fn lemma_product_value_partial(a: Seq<real>, b: Seq<real>, x: real, count: nat)
    requires
        a.len() >= 1,
        b.len() >= 1,
        count <= a.len() + b.len() - 1,
    ensures
        value_partial(product_raw(a, b), x, count) == weighted_partial(a, b, x, a.len(), count),
    decreases count,
{
    if count > 0 {
        lemma_product_value_partial(a, b, x, (count - 1) as nat);
        let k = count - 1;
        assert(coeff(product_raw(a, b), k) == convolution(a, b, k));
        if k + 1 <= a.len() {
            lemma_convolution_partial_stable(a, b, k, (k + 1) as nat, a.len());
        } else {
            lemma_convolution_partial_stable(a, b, k, a.len(), (k + 1) as nat);
        }
    }
}

/// Evaluation respects multiplication: the value of a product is the
/// product of the values.
pub proof fn law_value_product(a: Seq<real>, b: Seq<real>, x: real)
    requires
        a.len() >= 1,
        b.len() >= 1,
    ensures
        value_at(product(a, b), x) == value_at(a, x) * value_at(b, x),
{
    let count = (a.len() + b.len() - 1) as nat;
    lemma_value_normalize(product_raw(a, b), x);
    lemma_product_value_partial(a, b, x, count);
    lemma_weighted_total(a, b, x, a.len(), count);
}

/// The value of a power of a polynomial is the power of its value.
proof fn lemma_value_power(q: Seq<real>, x: real, n: nat)
    requires
        q.len() >= 1,
    ensures
        value_at(polynomial_power(q, n), x) == power(value_at(q, x), n),
    decreases n,
{
    if n == 0 {
        assert(value_partial(one(), x, 0) == 0real);
        assert(power(x, 0) == 1real);
        assert(value_at(one(), x) == 0real + coeff(one(), 0) * power(x, 0));
    } else {
        let prev = polynomial_power(q, (n - 1) as nat);
        lemma_value_power(q, x, (n - 1) as nat);
        lemma_polynomial_power_len(q, (n - 1) as nat);
        law_value_product(prev, q, x);
        let v = value_at(q, x);
        let pv = power(v, (n - 1) as nat);
        assert(pv * v == v * pv) by (nonlinear_arith);
    }
}

/// The value of the first `n` terms of a composition is the value of the
/// first `n` terms of the outer polynomial at the value of the inner one.
proof fn lemma_value_composition_partial(p: Seq<real>, q: Seq<real>, x: real, n: nat)
    requires
        q.len() >= 1,
    ensures
        value_at(composition_partial(p, q, n), x) == value_partial(p, value_at(q, x), n),
    decreases n,
{
    if n == 0 {
        assert(value_partial(zero(), x, 0) == 0real);
        assert(value_at(zero(), x) == 0real + coeff(zero(), 0) * power(x, 0));
        assert(0real * power(x, 0) == 0real) by (nonlinear_arith);
    } else {
        let m = (n - 1) as nat;
        lemma_value_composition_partial(p, q, x, m);
        lemma_value_power(q, x, m);
        law_value_scaled(polynomial_power(q, m), coeff(p, m as int), x);
        law_value_sum(
            composition_partial(p, q, m),
            scaled(polynomial_power(q, m), coeff(p, m as int)),
            x,
        );
        let c = coeff(p, m as int);
        let pw = power(value_at(q, x), m);
        assert(pw * c == c * pw) by (nonlinear_arith);
    }
}

/// Substitution is composition of functions: the value of `p` with `q` in
/// place of its variable, at `x`, is the value of `p` at the value of `q`
/// at `x`.
pub proof fn law_value_composition(p: Seq<real>, q: Seq<real>, x: real)
    requires
        q.len() >= 1,
    ensures
        value_at(composition(p, q), x) == value_at(p, value_at(q, x)),
{
    lemma_value_composition_partial(p, q, x, p.len());
}

} // verus!

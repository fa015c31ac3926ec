//! The mathematics of dense polynomials, on sequences of real numbers.
//!
//! A sequence stands for the polynomial whose coefficient of `x^i` is its
//! item at position `i`. Everything here is specification and proof; the
//! executable operations state their results in these terms.

use crate::complex::complex_product;
use crate::rational::power;
use vstd::prelude::*;

verus! {

/// The largest number of coefficients that a polynomial may hold: its
/// degree has to fit in an `i32`.
pub open spec fn max_len() -> nat {
    0x8000_0000
}

/// The coefficient of `x^i`: the item at position `i`, and zero where the
/// sequence has none.
pub open spec fn coeff(s: Seq<real>, i: int) -> real {
    if 0 <= i < s.len() {
        s[i]
    } else {
        0real
    }
}

/// Whether `s` is in normal form: not empty, and its last item is not zero
/// unless it is the only one.
pub open spec fn is_normal(s: Seq<real>) -> bool {
    s.len() >= 1 && (s.len() == 1 || s.last() != 0real)
}

/// The normal form of `s`: `s` without its zeros at the end, or the single
/// item zero if nothing else is left.
pub open spec fn normalize(s: Seq<real>) -> Seq<real>
    decreases s.len(),
{
    if s.len() == 0 {
        seq![0real]
    } else if s.last() == 0real {
        normalize(s.drop_last())
    } else {
        s
    }
}

/// The zero polynomial.
pub open spec fn zero() -> Seq<real> {
    seq![0real]
}

/// The constant polynomial one.
pub open spec fn one() -> Seq<real> {
    seq![1real]
}

/// The longer of two lengths.
pub open spec fn longer(a: nat, b: nat) -> nat {
    if a >= b {
        a
    } else {
        b
    }
}

/// The coefficient-wise sum, before it is normalized.
pub open spec fn sum_raw(a: Seq<real>, b: Seq<real>) -> Seq<real> {
    Seq::new(longer(a.len(), b.len()), |i: int| coeff(a, i) + coeff(b, i))
}

/// The sum of two polynomials.
pub open spec fn sum(a: Seq<real>, b: Seq<real>) -> Seq<real> {
    normalize(sum_raw(a, b))
}

/// The coefficient-wise difference, before it is normalized.
pub open spec fn difference_raw(a: Seq<real>, b: Seq<real>) -> Seq<real> {
    Seq::new(longer(a.len(), b.len()), |i: int| coeff(a, i) - coeff(b, i))
}

/// The difference of two polynomials.
pub open spec fn difference(a: Seq<real>, b: Seq<real>) -> Seq<real> {
    normalize(difference_raw(a, b))
}

/// Each coefficient with the opposite sign, before normalizing.
pub open spec fn opposite_raw(a: Seq<real>) -> Seq<real> {
    Seq::new(a.len(), |i: int| -a[i])
}

/// The polynomial with the opposite sign.
pub open spec fn opposite(a: Seq<real>) -> Seq<real> {
    normalize(opposite_raw(a))
}

/// Each coefficient multiplied by `c`, before normalizing.
pub open spec fn scaled_raw(a: Seq<real>, c: real) -> Seq<real> {
    Seq::new(a.len(), |i: int| a[i] * c)
}

/// The polynomial multiplied by the number `c`.
pub open spec fn scaled(a: Seq<real>, c: real) -> Seq<real> {
    normalize(scaled_raw(a, c))
}

/// The first `n` terms of the coefficient of `x^k` in a product:
/// the sum of `coeff(a, i) * coeff(b, k - i)` over `i < n`.
pub open spec fn convolution_partial(a: Seq<real>, b: Seq<real>, k: int, n: nat) -> real
    decreases n,
{
    if n == 0 {
        0real
    } else {
        convolution_partial(a, b, k, (n - 1) as nat) + coeff(a, n - 1) * coeff(b, k - (n - 1))
    }
}

/// The coefficient of `x^k` in the product of `a` and `b`: the sum of
/// `coeff(a, i) * coeff(b, k - i)` over `0 <= i <= k`.
pub open spec fn convolution(a: Seq<real>, b: Seq<real>, k: int) -> real {
    convolution_partial(a, b, k, (k + 1) as nat)
}

/// The product by convolution, before it is normalized: one coefficient
/// for each power up to the sum of the two degrees.
pub open spec fn product_raw(a: Seq<real>, b: Seq<real>) -> Seq<real> {
    Seq::new((a.len() + b.len() - 1) as nat, |k: int| convolution(a, b, k))
}

/// The product of two polynomials.
pub open spec fn product(a: Seq<real>, b: Seq<real>) -> Seq<real> {
    normalize(product_raw(a, b))
}

/// The sum of the first `n` terms `s[i] * x^i`.
pub open spec fn value_partial(s: Seq<real>, x: real, n: nat) -> real
    decreases n,
{
    if n == 0 {
        0real
    } else {
        value_partial(s, x, (n - 1) as nat) + coeff(s, n - 1) * power(x, (n - 1) as nat)
    }
}

/// The value of the polynomial at the point `x`.
pub open spec fn value_at(s: Seq<real>, x: real) -> real {
    value_partial(s, x, s.len())
}

/// The formal derivative, before it is normalized: the coefficient of
/// `x^i` is `i + 1` times the coefficient of `x^(i + 1)`.
pub open spec fn derivative_raw(s: Seq<real>) -> Seq<real> {
    Seq::new(
        if s.len() == 0 {
            0
        } else {
            (s.len() - 1) as nat
        },
        |i: int| (i + 1) as real * coeff(s, i + 1),
    )
}

/// The formal derivative.
pub open spec fn derivative(s: Seq<real>) -> Seq<real> {
    normalize(derivative_raw(s))
}

/// The `n`-th formal derivative.
pub open spec fn nth_derivative(s: Seq<real>, n: nat) -> Seq<real>
    decreases n,
{
    if n == 0 {
        s
    } else {
        derivative(nth_derivative(s, (n - 1) as nat))
    }
}

/// The falling factorial `e * (e - 1) * ... * (e - n + 1)`: the product of
/// the `n` integers from `e - n + 1` through `e`.
pub open spec fn falling(e: int, n: nat) -> real
    decreases n,
{
    if n == 0 {
        1real
    } else {
        falling(e - 1, (n - 1) as nat) * (e as real)
    }
}

/// Normalizing gives a normal form that is no longer than the input (or
/// has one item), with the same coefficient at every power; and it leaves
/// a normal form as it is.
pub proof fn lemma_normalize(s: Seq<real>)
    ensures
        is_normal(normalize(s)),
        normalize(s).len() <= longer(s.len(), 1),
        forall|i: int| #[trigger] coeff(normalize(s), i) == coeff(s, i),
        is_normal(s) ==> normalize(s) == s,
    decreases s.len(),
{
    if s.len() == 0 {
    } else if s.last() == 0real {
        lemma_normalize(s.drop_last());
        assert forall|i: int| #[trigger] coeff(normalize(s), i) == coeff(s, i) by {
            assert(coeff(normalize(s.drop_last()), i) == coeff(s.drop_last(), i));
        }
        if is_normal(s) {
            assert(s.drop_last() =~= Seq::<real>::empty());
            assert(s =~= seq![0real]);
        }
    } else {
    }
}

/// Two normal forms with the same coefficient at every power are the same
/// sequence.
pub proof fn lemma_normal_unique(a: Seq<real>, b: Seq<real>)
    requires
        is_normal(a),
        is_normal(b),
        forall|i: int| coeff(a, i) == coeff(b, i),
    ensures
        a == b,
{
    if a.len() > b.len() {
        assert(coeff(a, a.len() - 1) == coeff(b, a.len() - 1));
    } else if b.len() > a.len() {
        assert(coeff(a, b.len() - 1) == coeff(b, b.len() - 1));
    } else {
        assert forall|i: int| 0 <= i < a.len() implies a[i] == b[i] by {
            assert(coeff(a, i) == coeff(b, i));
        }
        assert(a =~= b);
    }
}

/// Two sequences with the same coefficient at every power have the same
/// normal form.
pub proof fn lemma_normalize_same(a: Seq<real>, b: Seq<real>)
    requires
        forall|i: int| coeff(a, i) == coeff(b, i),
    ensures
        normalize(a) == normalize(b),
{
    lemma_normalize(a);
    lemma_normalize(b);
    assert forall|i: int| coeff(normalize(a), i) == coeff(normalize(b), i) by {
        assert(coeff(normalize(a), i) == coeff(a, i));
        assert(coeff(normalize(b), i) == coeff(b, i));
    }
    lemma_normal_unique(normalize(a), normalize(b));
}

/// The partial sums of a convolution stop changing once every term that
/// can be different from zero has been added: beyond the length of `a`, and
/// beyond the power `k`, all further terms are zero.
pub proof fn lemma_convolution_partial_stable(a: Seq<real>, b: Seq<real>, k: int, n: nat, m: nat)
    requires
        n <= m,
        n >= a.len() || n >= k + 1,
    ensures
        convolution_partial(a, b, k, n) == convolution_partial(a, b, k, m),
    decreases m,
{
    if m > n {
        lemma_convolution_partial_stable(a, b, k, n, (m - 1) as nat);
        assert(coeff(a, m - 1) == 0real || coeff(b, k - (m - 1)) == 0real);
        assert(coeff(a, m - 1) * coeff(b, k - (m - 1)) == 0real) by (nonlinear_arith)
            requires
                coeff(a, m - 1) == 0real || coeff(b, k - (m - 1)) == 0real,
        ;
    }
}

/// The coefficients of a sum are the sums of the coefficients.
pub proof fn lemma_sum_coeff(a: Seq<real>, b: Seq<real>)
    ensures
        forall|k: int| #[trigger] coeff(sum(a, b), k) == coeff(a, k) + coeff(b, k),
{
    lemma_normalize(sum_raw(a, b));
    assert forall|k: int| #[trigger] coeff(sum(a, b), k) == coeff(a, k) + coeff(b, k) by {
        assert(coeff(normalize(sum_raw(a, b)), k) == coeff(sum_raw(a, b), k));
    }
}

/// A convolution depends on its operands only through their coefficients.
pub proof fn lemma_convolution_partial_same(
    a: Seq<real>,
    a2: Seq<real>,
    b: Seq<real>,
    b2: Seq<real>,
    k: int,
    n: nat,
)
    requires
        forall|i: int| coeff(a, i) == coeff(a2, i),
        forall|i: int| coeff(b, i) == coeff(b2, i),
    ensures
        convolution_partial(a, b, k, n) == convolution_partial(a2, b2, k, n),
    decreases n,
{
    if n > 0 {
        lemma_convolution_partial_same(a, a2, b, b2, k, (n - 1) as nat);
        assert(coeff(a, n - 1) == coeff(a2, n - 1));
        assert(coeff(b, k - (n - 1)) == coeff(b2, k - (n - 1)));
    }
}

/// Beyond the sum of the two degrees every term of a convolution is zero.
pub proof fn lemma_convolution_partial_beyond(a: Seq<real>, b: Seq<real>, k: int, n: nat)
    requires
        k >= a.len() + b.len() - 1,
    ensures
        convolution_partial(a, b, k, n) == 0real,
    decreases n,
{
    if n > 0 {
        lemma_convolution_partial_beyond(a, b, k, (n - 1) as nat);
        assert(coeff(a, n - 1) == 0real || coeff(b, k - (n - 1)) == 0real);
        assert(coeff(a, n - 1) * coeff(b, k - (n - 1)) == 0real) by (nonlinear_arith)
            requires
                coeff(a, n - 1) == 0real || coeff(b, k - (n - 1)) == 0real,
        ;
    }
}

/// The coefficients of a product are the convolutions of the operands.
pub proof fn lemma_product_coeff(a: Seq<real>, b: Seq<real>)
    requires
        a.len() >= 1,
        b.len() >= 1,
    ensures
        forall|k: int| 0 <= k ==> #[trigger] coeff(product(a, b), k) == convolution(a, b, k),
{
    lemma_normalize(product_raw(a, b));
    assert forall|k: int| 0 <= k implies #[trigger] coeff(product(a, b), k) == convolution(
        a,
        b,
        k,
    ) by {
        assert(coeff(normalize(product_raw(a, b)), k) == coeff(product_raw(a, b), k));
        if k >= a.len() + b.len() - 1 {
            lemma_convolution_partial_beyond(a, b, k, (k + 1) as nat);
        }
    }
}

/// Replacing one coefficient of the second operand changes the terms of a
/// convolution in one place only.
pub proof fn lemma_convolution_partial_update(
    b: Seq<real>,
    q: Seq<real>,
    j: int,
    v: real,
    k: int,
    n: nat,
)
    requires
        0 <= j < q.len(),
    ensures
        convolution_partial(b, q.update(j, v), k, n) == convolution_partial(b, q, k, n) + if 0 <= k
            - j < n {
            coeff(b, k - j) * (v - q[j])
        } else {
            0real
        },
    decreases n,
{
    if n > 0 {
        lemma_convolution_partial_update(b, q, j, v, k, (n - 1) as nat);
        let i = n - 1;
        if k - i == j {
            assert(coeff(q.update(j, v), k - i) == v);
            assert(coeff(q, k - i) == q[j]);
            assert(coeff(b, i) * v == coeff(b, i) * q[j] + coeff(b, i) * (v - q[j]))
                by (nonlinear_arith);
        } else {
            assert(coeff(q.update(j, v), k - i) == coeff(q, k - i));
        }
    }
}

/// Replacing the coefficient at `j` of the second operand by `v` adds
/// `coeff(b, k - j) * (v - q[j])` to the convolution at `k`.
pub proof fn lemma_convolution_update(b: Seq<real>, q: Seq<real>, j: int, v: real, k: int)
    requires
        0 <= j < q.len(),
        0 <= k,
    ensures
        convolution(b, q.update(j, v), k) == convolution(b, q, k) + coeff(b, k - j) * (v - q[j]),
{
    lemma_convolution_partial_update(b, q, j, v, k, (k + 1) as nat);
    if k - j < 0 {
        assert(coeff(b, k - j) * (v - q[j]) == 0real) by (nonlinear_arith)
            requires
                coeff(b, k - j) == 0real,
        ;
    }
}

/// A convolution with an operand whose coefficients are all zero is zero.
pub proof fn lemma_convolution_partial_zero(b: Seq<real>, q: Seq<real>, k: int, n: nat)
    requires
        forall|i: int| coeff(q, i) == 0real,
    ensures
        convolution_partial(b, q, k, n) == 0real,
    decreases n,
{
    if n > 0 {
        lemma_convolution_partial_zero(b, q, k, (n - 1) as nat);
        assert(coeff(q, k - (n - 1)) == 0real);
        assert(coeff(b, n - 1) * coeff(q, k - (n - 1)) == 0real) by (nonlinear_arith)
            requires
                coeff(q, k - (n - 1)) == 0real,
        ;
    }
}

/// A sequence whose coefficients are zero from the power `n` on has a
/// normal form of at most `n` items, or of one item.
pub proof fn lemma_normalize_len_bound(s: Seq<real>, n: nat)
    requires
        forall|k: int| k >= n ==> coeff(s, k) == 0real,
    ensures
        normalize(s).len() <= longer(n, 1),
    decreases s.len(),
{
    if s.len() == 0 {
    } else if s.last() == 0real {
        assert forall|k: int| k >= n implies coeff(s.drop_last(), k) == 0real by {
            assert(coeff(s, k) == 0real);
        }
        lemma_normalize_len_bound(s.drop_last(), n);
    } else {
        assert(coeff(s, s.len() - 1) != 0real);
    }
}

/// What long division rests on: if every coefficient of `a` is the
/// convolution of `b` and `q` plus the coefficient of `rem`, then `a` is
/// the product of `b` and the normal form of `q`, plus the normal form of
/// `rem`.
pub proof fn lemma_division_identity(a: Seq<real>, b: Seq<real>, q: Seq<real>, rem: Seq<real>)
    requires
        is_normal(a),
        b.len() >= 1,
        forall|k: int| 0 <= k ==> coeff(a, k) == convolution(b, q, k) + coeff(rem, k),
    ensures
        a == sum(product(b, normalize(q)), normalize(rem)),
{
    let qn = normalize(q);
    let rn = normalize(rem);
    lemma_normalize(q);
    lemma_normalize(rem);
    lemma_product_coeff(b, qn);
    lemma_sum_coeff(product(b, qn), rn);
    lemma_normalize(sum_raw(product(b, qn), rn));
    assert forall|k: int| coeff(a, k) == coeff(sum(product(b, qn), rn), k) by {
        assert(coeff(sum(product(b, qn), rn), k) == coeff(product(b, qn), k) + coeff(rn, k));
        assert(coeff(rn, k) == coeff(rem, k));
        if k >= 0 {
            assert(coeff(product(b, qn), k) == convolution(b, qn, k));
            assert forall|i: int| coeff(qn, i) == coeff(q, i) by {
                assert(coeff(normalize(q), i) == coeff(q, i));
            }
            lemma_convolution_partial_same(b, b, qn, q, k, (k + 1) as nat);
        }
    }
    lemma_normal_unique(a, sum(product(b, qn), rn));
}

/// The value of a polynomial depends on the sequence only through its
/// coefficients.
pub proof fn lemma_value_partial_same(s: Seq<real>, t: Seq<real>, x: real, n: nat)
    requires
        forall|i: int| coeff(s, i) == coeff(t, i),
    ensures
        value_partial(s, x, n) == value_partial(t, x, n),
    decreases n,
{
    if n > 0 {
        lemma_value_partial_same(s, t, x, (n - 1) as nat);
        assert(coeff(s, n - 1) == coeff(t, n - 1));
    }
}

/// Terms with a zero coefficient add nothing to the value.
pub proof fn lemma_value_partial_stable(s: Seq<real>, x: real, n: nat, m: nat)
    requires
        n <= m,
        forall|k: int| k >= n ==> coeff(s, k) == 0real,
    ensures
        value_partial(s, x, n) == value_partial(s, x, m),
    decreases m,
{
    if m > n {
        lemma_value_partial_stable(s, x, n, (m - 1) as nat);
        assert(coeff(s, m - 1) == 0real);
        assert(coeff(s, m - 1) * power(x, (m - 1) as nat) == 0real) by (nonlinear_arith)
            requires
                coeff(s, m - 1) == 0real,
        ;
    }
}

/// Normalizing does not change the value.
pub proof fn lemma_value_normalize(s: Seq<real>, x: real)
    ensures
        value_at(normalize(s), x) == value_at(s, x),
{
    let t = normalize(s);
    lemma_normalize(s);
    assert forall|i: int| coeff(t, i) == coeff(s, i) by {
        assert(coeff(normalize(s), i) == coeff(s, i));
    }
    if t.len() <= s.len() {
        lemma_value_partial_stable(t, x, t.len(), s.len());
        lemma_value_partial_same(t, s, x, s.len());
    } else {
        lemma_value_partial_stable(s, x, s.len(), t.len());
        lemma_value_partial_same(t, s, x, t.len());
    }
}

/// The coefficient of `x^j` in the derivative is `j + 1` times the
/// coefficient of `x^(j + 1)`.
pub proof fn lemma_derivative_coeff(s: Seq<real>)
    ensures
        forall|j: int|
            0 <= j ==> #[trigger] coeff(derivative(s), j) == (j + 1) as real * coeff(s, j + 1),
{
    lemma_normalize(derivative_raw(s));
    assert forall|j: int| 0 <= j implies #[trigger] coeff(derivative(s), j) == (j + 1) as real
        * coeff(s, j + 1) by {
        assert(coeff(normalize(derivative_raw(s)), j) == coeff(derivative_raw(s), j));
        if j + 1 >= s.len() {
            assert((j + 1) as real * coeff(s, j + 1) == 0real) by (nonlinear_arith)
                requires
                    coeff(s, j + 1) == 0real,
            ;
        }
    }
}

/// The falling factorial, taken from its smallest factor: the product of
/// `n` integers ending at `e` is the product of the `n - 1` ending at
/// `e`, times `e - n + 1`.
pub proof fn lemma_falling_low(e: int, n: nat)
    requires
        n >= 1,
    ensures
        falling(e, n) == falling(e, (n - 1) as nat) * ((e - n + 1) as real),
    decreases n,
{
    if n == 1 {
        assert(falling(e, 1) == falling(e - 1, 0) * (e as real));
        assert(falling(e - 1, 0) == 1real);
        assert(falling(e, 0) == 1real);
    } else {
        lemma_falling_low(e - 1, (n - 1) as nat);
        let f = falling(e - 1, (n - 2) as nat);
        let low = (e - n + 1) as real;
        let top = e as real;
        assert(falling(e - 1, (n - 1) as nat) == f * low);
        assert(falling(e, (n - 1) as nat) == f * top);
        assert(falling(e, n) == falling(e - 1, (n - 1) as nat) * top);
        assert((f * low) * top == (f * top) * low) by (nonlinear_arith);
    }
}

/// The coefficient of `x^j` in the `n`-th derivative is the coefficient of
/// `x^(j + n)`, times the falling factorial of `j + n` with `n` factors.
pub proof fn lemma_nth_derivative_coeff(s: Seq<real>, n: nat)
    ensures
        forall|j: int|
            0 <= j ==> #[trigger] coeff(nth_derivative(s, n), j) == falling(j + n, n) * coeff(
                s,
                j + n,
            ),
    decreases n,
{
    if n == 0 {
        assert forall|j: int| 0 <= j implies #[trigger] coeff(nth_derivative(s, n), j) == falling(
            j + n,
            n,
        ) * coeff(s, j + n) by {
            assert(falling(j, 0) == 1real);
        }
    } else {
        let prev = nth_derivative(s, (n - 1) as nat);
        lemma_nth_derivative_coeff(s, (n - 1) as nat);
        lemma_derivative_coeff(prev);
        assert forall|j: int| 0 <= j implies #[trigger] coeff(nth_derivative(s, n), j) == falling(
            j + n,
            n,
        ) * coeff(s, j + n) by {
            assert(coeff(derivative(prev), j) == (j + 1) as real * coeff(prev, j + 1));
            assert(coeff(prev, j + 1) == falling(j + 1 + (n - 1), (n - 1) as nat) * coeff(
                s,
                j + 1 + (n - 1),
            ));
            lemma_falling_low(j + n, n);
            let f = falling(j + n, (n - 1) as nat);
            let c = coeff(s, j + n);
            let m = (j + 1) as real;
            assert(m * (f * c) == (f * m) * c) by (nonlinear_arith);
        }
    }
}

/// The complex number `x` raised to the power `n`, as the pair of its real
/// and imaginary part.
pub open spec fn complex_power(x: (real, real), n: nat) -> (real, real)
    decreases n,
{
    if n == 0 {
        (1real, 0real)
    } else {
        complex_product(complex_power(x, (n - 1) as nat), x)
    }
}

/// The sum of the first `n` terms `s[i] * x^i` at the complex point `x`.
pub open spec fn complex_value_partial(s: Seq<real>, x: (real, real), n: nat) -> (real, real)
    decreases n,
{
    if n == 0 {
        (0real, 0real)
    } else {
        let before = complex_value_partial(s, x, (n - 1) as nat);
        let p = complex_power(x, (n - 1) as nat);
        (before.0 + p.0 * coeff(s, n - 1), before.1 + p.1 * coeff(s, n - 1))
    }
}

/// The value of the polynomial at the complex point `x`.
pub open spec fn complex_value_at(s: Seq<real>, x: (real, real)) -> (real, real) {
    complex_value_partial(s, x, s.len())
}

/// The polynomial `x` raised to the power `n`.
pub open spec fn polynomial_power(x: Seq<real>, n: nat) -> Seq<real>
    decreases n,
{
    if n == 0 {
        one()
    } else {
        product(polynomial_power(x, (n - 1) as nat), x)
    }
}

/// The sum of the first `n` terms `s[i] * x^i`, for a polynomial `x`.
pub open spec fn composition_partial(s: Seq<real>, x: Seq<real>, n: nat) -> Seq<real>
    decreases n,
{
    if n == 0 {
        zero()
    } else {
        sum(
            composition_partial(s, x, (n - 1) as nat),
            scaled(polynomial_power(x, (n - 1) as nat), coeff(s, n - 1)),
        )
    }
}

/// The polynomial `s` with the polynomial `x` put in place of its
/// variable.
pub open spec fn composition(s: Seq<real>, x: Seq<real>) -> Seq<real> {
    composition_partial(s, x, s.len())
}

/// A power of a polynomial is in normal form, and its degree is at most
/// the degree of the polynomial times the exponent.
pub proof fn lemma_polynomial_power_len(x: Seq<real>, n: nat)
    requires
        x.len() >= 1,
    ensures
        is_normal(polynomial_power(x, n)),
        polynomial_power(x, n).len() - 1 <= n * (x.len() - 1),
    decreases n,
{
    if n == 0 {
    } else {
        let prev = polynomial_power(x, (n - 1) as nat);
        lemma_polynomial_power_len(x, (n - 1) as nat);
        lemma_normalize(product_raw(prev, x));
        assert(n * (x.len() - 1) == (n - 1) * (x.len() - 1) + (x.len() - 1))
            by (nonlinear_arith);
    }
}

} // verus!

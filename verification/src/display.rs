//! Rendering a polynomial as text, such as `x⁵ + 3x⁴ + 2x³ + x`.

use crate::rational::ratio_text;
use crate::Polynomial;
use vstd::prelude::*;

verus! {

/// The error of [`to_superscript`]: the text held a character that is not
/// a decimal digit.
#[derive(Debug, Clone, Copy, PartialEq, Eq)]
pub struct NotADigit;

/// The superscript form of a decimal digit; a character that is no digit
/// stands for itself.
pub open spec fn superscript(c: char) -> char {
    if c == '0' {
        '\u{2070}'
    } else if c == '1' {
        '\u{b9}'
    } else if c == '2' {
        '\u{b2}'
    } else if c == '3' {
        '\u{b3}'
    } else if c == '4' {
        '\u{2074}'
    } else if c == '5' {
        '\u{2075}'
    } else if c == '6' {
        '\u{2076}'
    } else if c == '7' {
        '\u{2077}'
    } else if c == '8' {
        '\u{2078}'
    } else if c == '9' {
        '\u{2079}'
    } else {
        c
    }
}

/// Whether `c` is one of the ten decimal digits.
pub open spec fn is_digit(c: char) -> bool {
    '0' <= c && c <= '9'
}

/// Whether every character of `s` is a decimal digit.
pub open spec fn all_digits(s: Seq<char>) -> bool {
    forall|i: int| 0 <= i < s.len() ==> is_digit(#[trigger] s[i])
}

/// `s` with each character replaced by its superscript form.
pub open spec fn superscripts(s: Seq<char>) -> Seq<char> {
    Seq::new(s.len(), |i: int| superscript(s[i]))
}

/// Trusted: `String::push` appends one character.
#[verifier::external_body]
fn push_char(s: &mut String, c: char)
    ensures
        final(s)@ == old(s)@.push(c),
{
    s.push(c)
}

/// The superscript form of one character, if it is a decimal digit.
fn superscript_digit(c: char) -> (r: Option<char>)
    ensures
        is_digit(c) ==> r == Some(superscript(c)),
        !is_digit(c) ==> r is None,
{
    if c == '0' {
        Some('\u{2070}')
    } else if c == '1' {
        Some('\u{b9}')
    } else if c == '2' {
        Some('\u{b2}')
    } else if c == '3' {
        Some('\u{b3}')
    } else if c == '4' {
        Some('\u{2074}')
    } else if c == '5' {
        Some('\u{2075}')
    } else if c == '6' {
        Some('\u{2076}')
    } else if c == '7' {
        Some('\u{2077}')
    } else if c == '8' {
        Some('\u{2078}')
    } else if c == '9' {
        Some('\u{2079}')
    } else {
        None
    }
}

/// Turns decimal digits into the matching superscript digits, and fails on
/// any other character.
pub fn to_superscript(k: &str) -> (r: Result<String, NotADigit>)
    ensures
        all_digits(k@) ==> r is Ok && r->Ok_0@ == superscripts(k@),
        !all_digits(k@) ==> r is Err,
{
    let n = k.unicode_len();
    let mut out = String::new();
    let mut i: usize = 0;
    while i < n
        invariant
            n == k@.len(),
            i <= n,
            out@ == superscripts(k@.take(i as int)),
            all_digits(k@.take(i as int)),
        decreases n - i,
    {
        let c = k.get_char(i);
        match superscript_digit(c) {
            Some(d) => {
                push_char(&mut out, d);
            },
            None => {
                assert(!is_digit(k@[i as int]));
                return Err(NotADigit);
            },
        }
        assert(k@.take(i + 1) == k@.take(i as int).push(c));
        assert(out@ == superscripts(k@.take(i + 1)));
        i += 1;
    }
    assert(k@.take(n as int) == k@);
    Ok(out)
}

/// The character of a decimal digit.
pub open spec fn digit(d: nat) -> char {
    if d == 0 {
        '0'
    } else if d == 1 {
        '1'
    } else if d == 2 {
        '2'
    } else if d == 3 {
        '3'
    } else if d == 4 {
        '4'
    } else if d == 5 {
        '5'
    } else if d == 6 {
        '6'
    } else if d == 7 {
        '7'
    } else if d == 8 {
        '8'
    } else {
        '9'
    }
}

/// The decimal digits of `n`, the most significant first.
pub open spec fn decimal(n: nat) -> Seq<char>
    decreases n,
{
    if n < 10 {
        seq![digit(n)]
    } else {
        decimal(n / 10).push(digit(n % 10))
    }
}

/// The text of one term: the coefficient, unless it is one and a power of
/// the variable follows; the variable, unless the power is zero; and the
/// power in superscript digits, if it is two or more.
pub open spec fn term_text(v: real, k: nat, variable: Seq<char>) -> Seq<char> {
    (if k == 0 || v != 1real {
        ratio_text(v)
    } else {
        Seq::<char>::empty()
    }) + (if k > 0 {
        variable
    } else {
        Seq::<char>::empty()
    }) + (if k > 1 {
        superscripts(decimal(k))
    } else {
        Seq::<char>::empty()
    })
}

/// Whether some coefficient of a power from `k` on is not zero.
pub open spec fn any_from(s: Seq<real>, k: int) -> bool
    decreases s.len() - k,
{
    if k >= s.len() || k < 0 {
        false
    } else {
        s[k] != 0real || any_from(s, k + 1)
    }
}

/// The text of the terms with the powers from `k` on, the highest power
/// first: terms with a zero coefficient are left out, and the others are
/// joined by `" + "`.
pub open spec fn rendered_from(s: Seq<real>, variable: Seq<char>, k: int) -> Seq<char>
    decreases s.len() - k,
{
    if k >= s.len() || k < 0 {
        Seq::<char>::empty()
    } else if s[k] == 0real {
        rendered_from(s, variable, k + 1)
    } else {
        rendered_from(s, variable, k + 1) + (if any_from(s, k + 1) {
            " + "@
        } else {
            Seq::<char>::empty()
        }) + term_text(s[k], k as nat, variable)
    }
}

/// The text of a polynomial with the coefficients `s`, in ascending
/// order, and the given name of the variable. The zero polynomial has the
/// empty text.
pub open spec fn rendering(s: Seq<real>, variable: Seq<char>) -> Seq<char> {
    rendered_from(s, variable, 0)
}

/// The decimal digits are digits.
pub proof fn lemma_decimal_digits(n: nat)
    ensures
        all_digits(decimal(n)),
    decreases n,
{
    if n >= 10 {
        lemma_decimal_digits(n / 10);
    }
}

/// The character of the decimal digit `d`.
fn digit_char(d: usize) -> (c: char)
    requires
        d < 10,
    ensures
        c == digit(d as nat),
{
    if d == 0 {
        '0'
    } else if d == 1 {
        '1'
    } else if d == 2 {
        '2'
    } else if d == 3 {
        '3'
    } else if d == 4 {
        '4'
    } else if d == 5 {
        '5'
    } else if d == 6 {
        '6'
    } else if d == 7 {
        '7'
    } else if d == 8 {
        '8'
    } else {
        '9'
    }
}

/// Appends the decimal digits of `n` to `out`.
fn push_decimal(out: &mut String, n: usize)
    ensures
        final(out)@ == old(out)@ + decimal(n as nat),
    decreases n,
{
    if n >= 10 {
        push_decimal(out, n / 10);
    }
    push_char(out, digit_char(n % 10));
}

/// The decimal digits of `n`.
pub fn decimal_string(n: usize) -> (s: String)
    ensures
        s@ == decimal(n as nat),
{
    let mut s = String::new();
    push_decimal(&mut s, n);
    s
}

/// A polynomial together with the name of its variable, ready to be
/// turned into text.
pub struct DisplayPolynomial<'a, 'b> {
    variable: &'a str,
    polynomial: &'b Polynomial,
}

impl Polynomial {
    /// Pairs the polynomial with the name of its variable, for printing.
    pub fn to_display<'a, 'b>(&'b self, variable: &'a str) -> (d: DisplayPolynomial<'a, 'b>)
        ensures
            d.variable() == variable@,
            d.coefficients() == self@,
    {
        DisplayPolynomial { variable, polynomial: self }
    }
}

impl<'a, 'b> DisplayPolynomial<'a, 'b> {
    /// The name of the variable.
    pub closed spec fn variable(&self) -> Seq<char> {
        self.variable@
    }

    /// The coefficients of the polynomial, in ascending order.
    pub closed spec fn coefficients(&self) -> Seq<real> {
        self.polynomial@
    }

    /// The polynomial as text, the highest power first, such as
    /// `x⁵ + 3x⁴ + 2x³ + x`.
    pub fn to_string(&self) -> (text: String)
        ensures
            text@ == rendering(self.coefficients(), self.variable()),
    {
        let coeffs = self.polynomial.reverse_coeffs();
        let len = coeffs.len();
        let mut out = String::new();
        let mut first = true;
        let mut k: usize = len;
        while k > 0
            invariant
                len == coeffs@.len(),
                coeffs@ == self.coefficients(),
                k <= len,
                first == !any_from(coeffs@, k as int),
                out@ == rendered_from(coeffs@, self.variable(), k as int),
            decreases k,
        {
            k -= 1;
            let v = coeffs.get(k);
            if !v.is_zero() {
                let ghost before = out@;
                if !first {
                    out.append(" + ");
                }
                first = false;
                if k == 0 || !v.is_one() {
                    let number = v.to_string();
                    out.append(number.as_str());
                }
                if k > 0 {
                    out.append(self.variable);
                }
                if k > 1 {
                    let digits = decimal_string(k);
                    proof {
                        lemma_decimal_digits(k as nat);
                    }
                    let raised = to_superscript(digits.as_str()).unwrap();
                    out.append(raised.as_str());
                }
                assert(out@ =~= before + (if any_from(coeffs@, k + 1) {
                    " + "@
                } else {
                    Seq::<char>::empty()
                }) + term_text(coeffs@[k as int], k as nat, self.variable()));
            }
        }
        out
    }
}

} // verus!

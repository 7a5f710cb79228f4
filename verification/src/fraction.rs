//! The mathematical model of an exact fraction, over unbounded integers, and
//! the algebra that the executable arithmetic is specified against.

use vstd::prelude::*;
use crate::numtheory::{
    abs, gcd, lemma_gcd_symmetric, lemma_lowest_terms_unique, lemma_quotients_coprime,
};

verus! {

/// A numerator over a denominator. Values used as results are always in
/// lowest terms with a positive denominator (see `in_lowest_terms`).
pub struct Fraction {
    pub num: int,
    pub den: int,
}

/// The fraction `n / d`, for a positive `d`, brought to lowest terms.
pub open spec fn lowest_terms(n: int, d: int) -> Fraction {
    let g = gcd(abs(n), abs(d)) as int;
    let p = (abs(n) as int) / g;
    let q = (abs(d) as int) / g;
    Fraction { num: if n < 0 { -p } else { p }, den: q }
}

/// The fraction `n / d`, for a nonzero `d` of either sign, in lowest terms.
pub open spec fn ratio(n: int, d: int) -> Fraction {
    if d < 0 {
        lowest_terms(-n, -d)
    } else {
        lowest_terms(n, d)
    }
}

impl Fraction {
    /// The fraction `n / 1`.
    pub open spec fn integer(n: int) -> Fraction {
        Fraction { num: n, den: 1 }
    }

    /// The denominator is positive and shares no factor with the numerator.
    pub open spec fn in_lowest_terms(self) -> bool {
        self.den > 0 && gcd(abs(self.num), abs(self.den)) == 1
    }

    /// Numerator and denominator both lie in the symmetric 64-bit range, so
    /// the fraction can be stored and negated without overflow.
    pub open spec fn fits(self) -> bool {
        -i64::MAX <= self.num <= i64::MAX && 0 < self.den <= i64::MAX
    }

    /// The two fractions denote the same number.
    pub open spec fn same_value(self, other: Fraction) -> bool {
        self.num * other.den == other.num * self.den
    }

    pub open spec fn is_zero(self) -> bool {
        self.num == 0
    }

    pub open spec fn is_integer(self) -> bool {
        self.den == 1
    }

    pub open spec fn add(self, rhs: Fraction) -> Fraction {
        lowest_terms(self.num * rhs.den + rhs.num * self.den, self.den * rhs.den)
    }

    pub open spec fn sub(self, rhs: Fraction) -> Fraction {
        lowest_terms(self.num * rhs.den - rhs.num * self.den, self.den * rhs.den)
    }

    pub open spec fn mul(self, rhs: Fraction) -> Fraction {
        lowest_terms(self.num * rhs.num, self.den * rhs.den)
    }

    /// The quotient; meaningful when `rhs` is not zero.
    pub open spec fn div(self, rhs: Fraction) -> Fraction {
        ratio(self.num * rhs.den, self.den * rhs.num)
    }

    pub open spec fn negate(self) -> Fraction {
        Fraction { num: -self.num, den: self.den }
    }

    /// The multiplicative inverse; meaningful when `self` is not zero.
    pub open spec fn reciprocal(self) -> Fraction {
        if self.num < 0 {
            Fraction { num: -self.den, den: -self.num }
        } else {
            Fraction { num: self.den, den: self.num }
        }
    }

    /// `self < other` as numbers, for positive denominators.
    pub open spec fn less_than(self, other: Fraction) -> bool {
        self.num * other.den < other.num * self.den
    }
}

/// `lowest_terms` keeps the value, keeps the sign of the numerator, and its
/// result is in lowest terms and no larger in either part.
pub proof fn lemma_lowest_terms(n: int, d: int)
    requires
        d > 0,
    ensures
        lowest_terms(n, d).in_lowest_terms(),
        lowest_terms(n, d).same_value(Fraction { num: n, den: d }),
        0 < lowest_terms(n, d).den <= d,
        n >= 0 ==> 0 <= lowest_terms(n, d).num <= n,
        n <= 0 ==> n <= lowest_terms(n, d).num <= 0,
        n == 0 <==> lowest_terms(n, d).num == 0,
{
    let a = abs(n);
    let b = abs(d);
    let g = gcd(a, b);
    lemma_quotients_coprime(a, b);
    let p = a / g;
    let q = b / g;
    assert(q > 0 && q <= b && p <= a) by (nonlinear_arith)
        requires
            a == p * g,
            b == q * g,
            g > 0,
            b > 0,
            a >= 0,
            p >= 0,
            q >= 0,
    ;
    assert(a > 0 ==> p > 0) by (nonlinear_arith)
        requires
            a == p * g,
    ;
    let r = lowest_terms(n, d);
    assert(abs(r.num) == p);
    assert(r.den == q);
    if n < 0 {
        assert((-(p as int)) * d == n * (q as int)) by (nonlinear_arith)
            requires
                -n == p * g,
                d == q * g,
        ;
    } else {
        assert((p as int) * d == n * (q as int)) by (nonlinear_arith)
            requires
                n == p * g,
                d == q * g,
        ;
    }
}

/// A number has one representation in lowest terms.
pub proof fn lemma_same_value_unique(a: Fraction, b: Fraction)
    requires
        a.in_lowest_terms(),
        b.in_lowest_terms(),
        a.same_value(b),
    ensures
        a == b,
{
    let n1 = abs(a.num);
    let n2 = abs(b.num);
    let d1 = abs(a.den);
    let d2 = abs(b.den);
    assert((a.num < 0 <==> b.num < 0) && n1 * d2 == n2 * d1) by (nonlinear_arith)
        requires
            a.num * b.den == b.num * a.den,
            a.den > 0,
            b.den > 0,
            n1 == if a.num < 0 { -a.num } else { a.num },
            n2 == if b.num < 0 { -b.num } else { b.num },
            d1 == a.den,
            d2 == b.den,
    ;
    lemma_lowest_terms_unique(n1, d1, n2, d2);
}

/// Two numerator-denominator pairs that denote the same number have the same
/// lowest terms.
pub proof fn lemma_lowest_terms_congruent(n1: int, d1: int, n2: int, d2: int)
    requires
        d1 > 0,
        d2 > 0,
        n1 * d2 == n2 * d1,
    ensures
        lowest_terms(n1, d1) == lowest_terms(n2, d2),
{
    let a = lowest_terms(n1, d1);
    let b = lowest_terms(n2, d2);
    lemma_lowest_terms(n1, d1);
    lemma_lowest_terms(n2, d2);
    assert(a.num * b.den == b.num * a.den) by (nonlinear_arith)
        requires
            a.num * d1 == n1 * a.den,
            b.num * d2 == n2 * b.den,
            n1 * d2 == n2 * d1,
            d1 > 0,
            d2 > 0,
            a.den > 0,
            b.den > 0,
    ;
    lemma_same_value_unique(a, b);
}

/// Bringing a fraction that is in lowest terms to lowest terms changes
/// nothing.
pub proof fn lemma_lowest_terms_fixed(a: Fraction)
    requires
        a.in_lowest_terms(),
    ensures
        lowest_terms(a.num, a.den) == a,
{
    lemma_lowest_terms(a.num, a.den);
    lemma_same_value_unique(lowest_terms(a.num, a.den), a);
}

/// Negation and reciprocal keep a fraction in lowest terms.
pub proof fn lemma_negate_reciprocal_lowest_terms(a: Fraction)
    requires
        a.in_lowest_terms(),
    ensures
        a.negate().in_lowest_terms(),
        !a.is_zero() ==> a.reciprocal().in_lowest_terms(),
{
    assert(abs(-a.num) == abs(a.num));
    if !a.is_zero() {
        lemma_gcd_symmetric(abs(a.num), abs(a.den));
    }
}

/// Every arithmetic result is in lowest terms with a positive denominator.
pub proof fn lemma_results_in_lowest_terms(a: Fraction, b: Fraction)
    requires
        a.in_lowest_terms(),
        b.in_lowest_terms(),
    ensures
        a.add(b).in_lowest_terms(),
        a.sub(b).in_lowest_terms(),
        a.mul(b).in_lowest_terms(),
        !b.is_zero() ==> a.div(b).in_lowest_terms(),
        a.negate().in_lowest_terms(),
        !a.is_zero() ==> a.reciprocal().in_lowest_terms(),
{
    assert(a.den * b.den > 0) by (nonlinear_arith)
        requires
            a.den > 0,
            b.den > 0,
    ;
    lemma_lowest_terms(a.num * b.den + b.num * a.den, a.den * b.den);
    lemma_lowest_terms(a.num * b.den - b.num * a.den, a.den * b.den);
    lemma_lowest_terms(a.num * b.num, a.den * b.den);
    lemma_negate_reciprocal_lowest_terms(a);
    if b.num > 0 {
        assert(a.den * b.num > 0) by (nonlinear_arith)
            requires
                a.den > 0,
                b.num > 0,
        ;
        lemma_lowest_terms(a.num * b.den, a.den * b.num);
    } else if b.num < 0 {
        assert(-(a.den * b.num) > 0) by (nonlinear_arith)
            requires
                a.den > 0,
                b.num < 0,
        ;
        lemma_lowest_terms(-(a.num * b.den), -(a.den * b.num));
    }
}

/// Division undoes multiplication: `(a * b) / b` is `a` for every `b`
/// other than zero.
pub proof fn lemma_div_undoes_mul(a: Fraction, b: Fraction)
    requires
        a.in_lowest_terms(),
        b.in_lowest_terms(),
        !b.is_zero(),
    ensures
        a.mul(b).div(b) == a,
{
    let m = a.mul(b);
    assert(a.den * b.den > 0) by (nonlinear_arith)
        requires
            a.den > 0,
            b.den > 0,
    ;
    lemma_lowest_terms(a.num * b.num, a.den * b.den);
    let n = m.num * b.den;
    let d = m.den * b.num;
    assert(n * a.den == a.num * d) by (nonlinear_arith)
        requires
            m.num * (a.den * b.den) == (a.num * b.num) * m.den,
            n == m.num * b.den,
            d == m.den * b.num,
    ;
    if b.num > 0 {
        assert(d > 0) by (nonlinear_arith)
            requires
                d == m.den * b.num,
                m.den > 0,
                b.num > 0,
        ;
        lemma_lowest_terms_congruent(n, d, a.num, a.den);
    } else {
        assert(-d > 0) by (nonlinear_arith)
            requires
                d == m.den * b.num,
                m.den > 0,
                b.num < 0,
        ;
        assert((-n) * a.den == a.num * (-d)) by (nonlinear_arith)
            requires
                n * a.den == a.num * d,
        ;
        lemma_lowest_terms_congruent(-n, -d, a.num, a.den);
    }
    lemma_lowest_terms_fixed(a);
}

/// Multiplication undoes division: `(a / b) * b` is `a` for every `b`
/// other than zero.
pub proof fn lemma_mul_undoes_div(a: Fraction, b: Fraction)
    requires
        a.in_lowest_terms(),
        b.in_lowest_terms(),
        !b.is_zero(),
    ensures
        a.div(b).mul(b) == a,
{
    let q = a.div(b);
    let n = a.num * b.den;
    let d = a.den * b.num;
    if b.num > 0 {
        assert(d > 0) by (nonlinear_arith)
            requires
                d == a.den * b.num,
                a.den > 0,
                b.num > 0,
        ;
        lemma_lowest_terms(n, d);
    } else {
        assert(-d > 0) by (nonlinear_arith)
            requires
                d == a.den * b.num,
                a.den > 0,
                b.num < 0,
        ;
        lemma_lowest_terms(-n, -d);
    }
    assert(q.num * d == n * q.den) by (nonlinear_arith)
        requires
            q.num * d == n * q.den || q.num * (-d) == (-n) * q.den,
    ;
    assert(q.den * b.den > 0) by (nonlinear_arith)
        requires
            q.den > 0,
            b.den > 0,
    ;
    assert((q.num * b.num) * a.den == a.num * (q.den * b.den)) by (nonlinear_arith)
        requires
            q.num * d == n * q.den,
            n == a.num * b.den,
            d == a.den * b.num,
    ;
    lemma_lowest_terms_congruent(q.num * b.num, q.den * b.den, a.num, a.den);
    lemma_lowest_terms_fixed(a);
}

/// Subtraction undoes addition: `(a + b) + (-b)` is `a`.
pub proof fn lemma_negate_undoes_add(a: Fraction, b: Fraction)
    requires
        a.in_lowest_terms(),
        b.in_lowest_terms(),
    ensures
        a.add(b).add(b.negate()) == a,
{
    let s = a.add(b);
    assert(a.den * b.den > 0) by (nonlinear_arith)
        requires
            a.den > 0,
            b.den > 0,
    ;
    lemma_lowest_terms(a.num * b.den + b.num * a.den, a.den * b.den);
    let n = s.num * b.den + (-b.num) * s.den;
    let d = s.den * b.den;
    assert(d > 0) by (nonlinear_arith)
        requires
            d == s.den * b.den,
            s.den > 0,
            b.den > 0,
    ;
    assert(n * a.den == a.num * d) by (nonlinear_arith)
        requires
            s.num * (a.den * b.den) == (a.num * b.den + b.num * a.den) * s.den,
            n == s.num * b.den + (-b.num) * s.den,
            d == s.den * b.den,
            b.den > 0,
    ;
    lemma_lowest_terms_congruent(n, d, a.num, a.den);
    lemma_lowest_terms_fixed(a);
}

} // verus!

//! Greatest common divisors: the specification, the facts about it that the
//! fraction arithmetic rests on, and the executable Euclidean algorithm.

use vstd::prelude::*;

verus! {

/// Greatest common divisor of two naturals, by Euclid's recursion.
/// `gcd(0, 0)` is `0`.
pub open spec fn gcd(a: nat, b: nat) -> nat
    decreases b,
{
    if b == 0 {
        a
    } else {
        gcd(b, a % b)
    }
}

/// The absolute value of an integer.
pub open spec fn abs(n: int) -> nat {
    if n < 0 {
        (-n) as nat
    } else {
        n as nat
    }
}

/// `a == (a / b) * b + a % b`, in the shape the proofs below use.
proof fn lemma_div_mod_split(a: nat, b: nat)
    requires
        b > 0,
    ensures
        a == (a / b) * b + a % b,
        0 <= a % b < b,
        0 <= a / b,
{
    vstd::arithmetic::div_mod::lemma_fundamental_div_mod(a as int, b as int);
    vstd::arithmetic::div_mod::lemma_mod_bound(a as int, b as int);
    vstd::arithmetic::div_mod::lemma_div_pos_is_pos(a as int, b as int);
    assert((b as int) * ((a as int) / (b as int)) == ((a as int) / (b as int)) * (b as int))
        by (nonlinear_arith);
}

/// The gcd divides both of its arguments: the cofactors are returned.
pub proof fn lemma_gcd_cofactors(a: nat, b: nat) -> (r: (nat, nat))
    ensures
        a == r.0 * gcd(a, b),
        b == r.1 * gcd(a, b),
    decreases b,
{
    if b == 0 {
        assert(a == 1 * a) by (nonlinear_arith);
        assert(0 == 0 * a) by (nonlinear_arith);
        (1, 0)
    } else {
        let g = gcd(a, b);
        let (p, q) = lemma_gcd_cofactors(b, a % b);
        lemma_div_mod_split(a, b);
        let k = a / b;
        let m = a % b;
        assert(a == (k * p + q) * g) by (nonlinear_arith)
            requires
                a == k * b + m,
                b == p * g,
                m == q * g,
        ;
        ((k * p + q) as nat, p)
    }
}

/// Bezout's identity: the gcd is an integer combination of its arguments.
pub proof fn lemma_bezout(a: nat, b: nat) -> (r: (int, int))
    ensures
        gcd(a, b) == r.0 * a + r.1 * b,
    decreases b,
{
    if b == 0 {
        assert(a == 1 * a + 0 * b) by (nonlinear_arith);
        (1, 0)
    } else {
        let g = gcd(a, b);
        let (x, y) = lemma_bezout(b, a % b);
        lemma_div_mod_split(a, b);
        let k = a / b;
        let m = a % b;
        assert(g == y * a + (x - y * k) * b) by (nonlinear_arith)
            requires
                g == x * b + y * m,
                a == k * b + m,
        ;
        (y, x - y * k)
    }
}

/// The gcd is positive unless both arguments are zero.
pub proof fn lemma_gcd_positive(a: nat, b: nat)
    requires
        a > 0 || b > 0,
    ensures
        gcd(a, b) > 0,
    decreases b,
{
    if b != 0 {
        lemma_div_mod_split(a, b);
        lemma_gcd_positive(b, a % b);
    }
}

/// Two naturals with an integer combination equal to one are coprime.
pub proof fn lemma_combination_one_coprime(a: nat, b: nat, x: int, y: int)
    requires
        x * a + y * b == 1,
    ensures
        gcd(a, b) == 1,
{
    let g = gcd(a, b);
    let (p, q) = lemma_gcd_cofactors(a, b);
    assert((x * p + y * q) * g == 1) by (nonlinear_arith)
        requires
            x * a + y * b == 1,
            a == p * g,
            b == q * g,
    ;
    let m = x * p + y * q;
    assert(g == 1) by (nonlinear_arith)
        requires
            m * g == 1,
            g >= 0,
    ;
}

/// Dividing two naturals by their gcd leaves coprime quotients.
pub proof fn lemma_quotients_coprime(a: nat, b: nat)
    requires
        a > 0 || b > 0,
    ensures
        gcd(a, b) > 0,
        a == (a / gcd(a, b)) * gcd(a, b),
        b == (b / gcd(a, b)) * gcd(a, b),
        gcd(a / gcd(a, b), b / gcd(a, b)) == 1,
{
    let g = gcd(a, b);
    lemma_gcd_positive(a, b);
    let (p, q) = lemma_gcd_cofactors(a, b);
    lemma_exact_quotient(a, g, p);
    lemma_exact_quotient(b, g, q);
    let (x, y) = lemma_bezout(a, b);
    assert(x * p + y * q == 1) by (nonlinear_arith)
        requires
            g == x * a + y * b,
            a == p * g,
            b == q * g,
            g > 0,
    ;
    lemma_combination_one_coprime(p, q, x, y);
}

/// A product divided by one of its positive factors is the other factor.
pub proof fn lemma_exact_quotient(n: nat, g: nat, k: nat)
    requires
        g > 0,
        n == k * g,
    ensures
        n / g == k,
        n % g == 0,
{
    vstd::arithmetic::div_mod::lemma_fundamental_div_mod_converse(
        n as int,
        g as int,
        k as int,
        0,
    );
    assert((g as int) * (k as int) == k * g) by (nonlinear_arith);
}

/// The gcd does not depend on the order of its arguments.
pub proof fn lemma_gcd_symmetric(a: nat, b: nat)
    ensures
        gcd(a, b) == gcd(b, a),
{
    if a == 0 && b == 0 {
    } else {
        lemma_gcd_divides_common(a, b, gcd(b, a));
        lemma_gcd_divides_common(b, a, gcd(a, b));
        lemma_gcd_positive(a, b);
        lemma_gcd_positive(b, a);
    }
}

/// Every common divisor of `a` and `b` is at most their gcd, when the latter
/// is positive; stated for the common divisor `gcd(b, a)`.
proof fn lemma_gcd_divides_common(a: nat, b: nat, d: nat)
    requires
        d == gcd(b, a),
        a > 0 || b > 0,
    ensures
        d <= gcd(a, b),
{
    let g = gcd(a, b);
    lemma_gcd_positive(a, b);
    lemma_gcd_positive(b, a);
    let (q, p) = lemma_gcd_cofactors(b, a);
    let (x, y) = lemma_bezout(a, b);
    let m = x * p + y * q;
    assert(g == m * d) by (nonlinear_arith)
        requires
            g == x * a + y * b,
            a == p * d,
            b == q * d,
            m == x * p + y * q,
    ;
    assert(d <= g) by (nonlinear_arith)
        requires
            g == m * d,
            g > 0,
            d > 0,
    ;
}

/// Two fractions in lowest terms that are equal by cross-multiplication have
/// the same numerator and the same denominator.
pub proof fn lemma_lowest_terms_unique(n1: nat, d1: nat, n2: nat, d2: nat)
    requires
        d1 > 0,
        d2 > 0,
        gcd(n1, d1) == 1,
        gcd(n2, d2) == 1,
        n1 * d2 == n2 * d1,
    ensures
        n1 == n2,
        d1 == d2,
{
    lemma_denominator_bound(n1, d1, n2, d2);
    lemma_denominator_bound(n2, d2, n1, d1);
    assert(n1 == n2) by (nonlinear_arith)
        requires
            n1 * d2 == n2 * d1,
            d1 == d2,
            d1 > 0,
    ;
}

/// With `n1/d1` in lowest terms and equal to `n2/d2`, `d1` divides `d2`, so
/// it is no larger.
proof fn lemma_denominator_bound(n1: nat, d1: nat, n2: nat, d2: nat)
    requires
        d1 > 0,
        d2 > 0,
        gcd(n1, d1) == 1,
        n1 * d2 == n2 * d1,
    ensures
        d1 <= d2,
{
    let (x, y) = lemma_bezout(n1, d1);
    let m = x * n2 + y * d2;
    assert(d2 == m * d1) by (nonlinear_arith)
        requires
            1 == x * n1 + y * d1,
            n1 * d2 == n2 * d1,
            m == x * n2 + y * d2,
    ;
    assert(d1 <= d2) by (nonlinear_arith)
        requires
            d2 == m * d1,
            d1 > 0,
            d2 > 0,
    ;
}

/// Computes the greatest common divisor of `a` and `b`.
pub fn gcd_u128(a: u128, b: u128) -> (g: u128)
    ensures
        g == gcd(a as nat, b as nat),
{
    let mut x: u128 = a;
    let mut y: u128 = b;
    while y != 0
        invariant
            gcd(x as nat, y as nat) == gcd(a as nat, b as nat),
        decreases y,
    {
        let r: u128 = x % y;
        x = y;
        y = r;
    }
    x
}

} // verus!

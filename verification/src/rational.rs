//! Exact fractions stored in lowest terms in two 64-bit integers.

use vstd::prelude::*;
use crate::error::{EngineError, ErrorView};
use crate::fraction::{lemma_lowest_terms, lowest_terms, ratio, Fraction};
use crate::numtheory::{abs, gcd, gcd_u128, lemma_gcd_symmetric, lemma_quotients_coprime};
use crate::text::{lemma_decimal_characters, push_decimal, push_signed_decimal, signed_decimal};

verus! {

/// How one number stands to another.
#[derive(Clone, Copy, Debug, PartialEq, Eq, Structural)]
pub enum Comparison {
    Less,
    Equal,
    Greater,
}

/// An exact fraction. The denominator is positive, the fraction is in lowest
/// terms, and both parts lie in `-i64::MAX ..= i64::MAX`.
#[derive(Clone, Copy, Debug, PartialEq, Eq, Structural)]
pub struct Rational {
    num: i64,
    den: i64,
}

impl View for Rational {
    type V = Fraction;

    closed spec fn view(&self) -> Fraction {
        Fraction { num: self.num as int, den: self.den as int }
    }
}

/// How a fraction is written: the numerator alone when the denominator is
/// one, else numerator, `/`, denominator.
pub open spec fn render_fraction(f: Fraction) -> Seq<char> {
    if f.den == 1 {
        signed_decimal(f.num)
    } else {
        signed_decimal(f.num) + seq!['/'] + signed_decimal(f.den)
    }
}

/// An integer is written without a denominator, and only an integer is:
/// the text of a fraction holds a `/` exactly when its denominator is not
/// one.
pub proof fn lemma_integer_has_no_denominator(f: Fraction)
    ensures
        f.is_integer() <==> !render_fraction(f).contains('/'),
{
    lemma_decimal_characters(f.num);
    lemma_decimal_characters(f.den);
    let text = render_fraction(f);
    if f.den == 1 {
        assert forall|i: int| 0 <= i < text.len() implies text[i] != '/' by {
            let c = signed_decimal(f.num)[i];
        }
    } else {
        let at = signed_decimal(f.num).len() as int;
        assert(text[at] == '/');
    }
}

/// The product of two integers of the stored range stays well inside 128
/// bits.
proof fn lemma_product_bound(x: int, y: int)
    requires
        -i64::MAX <= x <= i64::MAX,
        -i64::MAX <= y <= i64::MAX,
    ensures
        -0x3fff_ffff_ffff_ffff_0000_0000_0000_0001 <= x * y
            <= 0x3fff_ffff_ffff_ffff_0000_0000_0000_0001,
{
    assert(-0x3fff_ffff_ffff_ffff_0000_0000_0000_0001 <= x * y
        <= 0x3fff_ffff_ffff_ffff_0000_0000_0000_0001) by (nonlinear_arith)
        requires
            -0x7fff_ffff_ffff_ffff <= x <= 0x7fff_ffff_ffff_ffff,
            -0x7fff_ffff_ffff_ffff <= y <= 0x7fff_ffff_ffff_ffff,
    ;
}

/// Brings `n / d` to lowest terms and stores it, unless a part of the result
/// is out of range.
fn reduce(n: i128, d: i128) -> (r: Result<Rational, EngineError>)
    requires
        d > 0,
        n > i128::MIN,
    ensures
        match r {
            Ok(q) => q@ == lowest_terms(n as int, d as int) && q.wf(),
            Err(e) => e@ == ErrorView::Overflow && !lowest_terms(
                n as int,
                d as int,
            ).fits(),
        },
{
    let an: u128 = if n < 0 {
        (-n) as u128
    } else {
        n as u128
    };
    let ad: u128 = d as u128;
    let g: u128 = gcd_u128(an, ad);
    proof {
        lemma_quotients_coprime(an as nat, ad as nat);
        lemma_lowest_terms(n as int, d as int);
    }
    let qn: u128 = an / g;
    let qd: u128 = ad / g;
    if qn > 0x7fff_ffff_ffff_ffff || qd > 0x7fff_ffff_ffff_ffff {
        return Err(EngineError::Overflow);
    }
    let num: i64 = if n < 0 {
        -(qn as i64)
    } else {
        qn as i64
    };
    Ok(Rational { num, den: qd as i64 })
}

impl Rational {
    /// In lowest terms, and within the stored range.
    pub open spec fn wf(&self) -> bool {
        self@.in_lowest_terms() && self@.fits()
    }

    /// The fraction `numerator / denominator` in lowest terms. Fails with
    /// `DivisionByZero` when the denominator is zero, and with `Overflow`
    /// when the lowest terms are out of range.
    pub fn new(numerator: i64, denominator: i64) -> (r: Result<Rational, EngineError>)
        ensures
            denominator != 0 && numerator > i64::MIN && denominator > i64::MIN ==> r is Ok,
            match r {
                Ok(q) => q.wf() && denominator != 0 && q@ == ratio(
                    numerator as int,
                    denominator as int,
                ),
                Err(e) => if denominator == 0 {
                    e@ == ErrorView::DivisionByZero
                } else {
                    e@ == ErrorView::Overflow && !ratio(
                        numerator as int,
                        denominator as int,
                    ).fits()
                },
            },
    {
        if denominator == 0 {
            return Err(EngineError::DivisionByZero);
        }
        let n: i128 = numerator as i128;
        let d: i128 = denominator as i128;
        if d < 0 {
            proof {
                lemma_lowest_terms(-n, -d);
            }
            reduce(-n, -d)
        } else {
            proof {
                lemma_lowest_terms(n as int, d as int);
            }
            reduce(n, d)
        }
    }

    /// The integer `n` as a fraction.
    pub fn from_integer(n: i32) -> (r: Rational)
        ensures
            r.wf(),
            r@ == Fraction::integer(n as int),
    {
        assert(gcd(abs(n as int), 1) == 1) by {
            reveal_with_fuel(gcd, 3);
        }
        Rational { num: n as i64, den: 1 }
    }

    /// The number zero.
    pub fn zero() -> (r: Rational)
        ensures
            r.wf(),
            r@ == Fraction::integer(0),
    {
        Rational::from_integer(0)
    }

    /// The number one.
    pub fn one() -> (r: Rational)
        ensures
            r.wf(),
            r@ == Fraction::integer(1),
    {
        Rational::from_integer(1)
    }

    pub fn numerator(&self) -> (n: i64)
        ensures
            n == self@.num,
    {
        self.num
    }

    pub fn denominator(&self) -> (d: i64)
        ensures
            d == self@.den,
    {
        self.den
    }

    pub fn is_zero(&self) -> (b: bool)
        ensures
            b == self@.is_zero(),
    {
        self.num == 0
    }

    /// Whether the two numbers are the same.
    pub fn equals(&self, other: &Rational) -> (b: bool)
        ensures
            b == (self@ == other@),
    {
        self.num == other.num && self.den == other.den
    }

    /// The sum, or `Overflow` when it is out of range.
    pub fn add(&self, rhs: &Rational) -> (r: Result<Rational, EngineError>)
        requires
            self.wf(),
            rhs.wf(),
        ensures
            match r {
                Ok(q) => q.wf() && q@ == self@.add(rhs@),
                Err(e) => e@ == ErrorView::Overflow && !self@.add(rhs@).fits(),
            },
    {
        proof {
            lemma_product_bound(self.num as int, rhs.den as int);
            lemma_product_bound(rhs.num as int, self.den as int);
            lemma_product_bound(self.den as int, rhs.den as int);
            assert(self.den * rhs.den > 0) by (nonlinear_arith)
                requires
                    self.den > 0,
                    rhs.den > 0,
            ;
        }
        let n: i128 = (self.num as i128) * (rhs.den as i128) + (rhs.num as i128) * (
        self.den as i128);
        let d: i128 = (self.den as i128) * (rhs.den as i128);
        reduce(n, d)
    }

    /// The difference, or `Overflow` when it is out of range.
    pub fn sub(&self, rhs: &Rational) -> (r: Result<Rational, EngineError>)
        requires
            self.wf(),
            rhs.wf(),
        ensures
            match r {
                Ok(q) => q.wf() && q@ == self@.sub(rhs@),
                Err(e) => e@ == ErrorView::Overflow && !self@.sub(rhs@).fits(),
            },
    {
        proof {
            lemma_product_bound(self.num as int, rhs.den as int);
            lemma_product_bound(rhs.num as int, self.den as int);
            lemma_product_bound(self.den as int, rhs.den as int);
            assert(self.den * rhs.den > 0) by (nonlinear_arith)
                requires
                    self.den > 0,
                    rhs.den > 0,
            ;
        }
        let n: i128 = (self.num as i128) * (rhs.den as i128) - (rhs.num as i128) * (
        self.den as i128);
        let d: i128 = (self.den as i128) * (rhs.den as i128);
        reduce(n, d)
    }

    /// The product, or `Overflow` when it is out of range.
    pub fn mul(&self, rhs: &Rational) -> (r: Result<Rational, EngineError>)
        requires
            self.wf(),
            rhs.wf(),
        ensures
            match r {
                Ok(q) => q.wf() && q@ == self@.mul(rhs@),
                Err(e) => e@ == ErrorView::Overflow && !self@.mul(rhs@).fits(),
            },
    {
        proof {
            lemma_product_bound(self.num as int, rhs.num as int);
            lemma_product_bound(self.den as int, rhs.den as int);
            assert(self.den * rhs.den > 0) by (nonlinear_arith)
                requires
                    self.den > 0,
                    rhs.den > 0,
            ;
        }
        let n: i128 = (self.num as i128) * (rhs.num as i128);
        let d: i128 = (self.den as i128) * (rhs.den as i128);
        reduce(n, d)
    }

    /// The quotient. Fails with `DivisionByZero` when `rhs` is zero, and
    /// with `Overflow` when the quotient is out of range.
    pub fn div(&self, rhs: &Rational) -> (r: Result<Rational, EngineError>)
        requires
            self.wf(),
            rhs.wf(),
        ensures
            match r {
                Ok(q) => q.wf() && !rhs@.is_zero() && q@ == self@.div(rhs@),
                Err(e) => if rhs@.is_zero() {
                    e@ == ErrorView::DivisionByZero
                } else {
                    e@ == ErrorView::Overflow && !self@.div(rhs@).fits()
                },
            },
    {
        if rhs.num == 0 {
            return Err(EngineError::DivisionByZero);
        }
        proof {
            lemma_product_bound(self.num as int, rhs.den as int);
            lemma_product_bound(self.den as int, rhs.num as int);
            assert(self.den * rhs.num != 0) by (nonlinear_arith)
                requires
                    self.den > 0,
                    rhs.num != 0,
            ;
        }
        let n: i128 = (self.num as i128) * (rhs.den as i128);
        let d: i128 = (self.den as i128) * (rhs.num as i128);
        if d < 0 {
            reduce(-n, -d)
        } else {
            reduce(n, d)
        }
    }

    /// The number with the opposite sign.
    pub fn negate(&self) -> (r: Rational)
        requires
            self.wf(),
        ensures
            r.wf(),
            r@ == self@.negate(),
    {
        assert(abs(-self.num) == abs(self.num as int));
        Rational { num: -self.num, den: self.den }
    }

    /// The multiplicative inverse, or `DivisionByZero` for zero.
    pub fn reciprocal(&self) -> (r: Result<Rational, EngineError>)
        requires
            self.wf(),
        ensures
            match r {
                Ok(q) => q.wf() && !self@.is_zero() && q@ == self@.reciprocal(),
                Err(e) => e@ == ErrorView::DivisionByZero && self@.is_zero(),
            },
    {
        if self.num == 0 {
            return Err(EngineError::DivisionByZero);
        }
        proof {
            lemma_gcd_symmetric(abs(self.num as int), abs(self.den as int));
        }
        if self.num < 0 {
            Ok(Rational { num: -self.den, den: -self.num })
        } else {
            Ok(Rational { num: self.den, den: self.num })
        }
    }

    /// Orders the two numbers.
    pub fn compare_to(&self, other: &Rational) -> (c: Comparison)
        requires
            self.wf(),
            other.wf(),
        ensures
            c == Comparison::Less <==> self@.less_than(other@),
            c == Comparison::Greater <==> other@.less_than(self@),
            c == Comparison::Equal <==> self@ == other@,
    {
        proof {
            lemma_product_bound(self.num as int, other.den as int);
            lemma_product_bound(other.num as int, self.den as int);
            if self@.same_value(other@) {
                crate::fraction::lemma_same_value_unique(self@, other@);
            }
        }
        let left: i128 = (self.num as i128) * (other.den as i128);
        let right: i128 = (other.num as i128) * (self.den as i128);
        if left < right {
            Comparison::Less
        } else if left > right {
            Comparison::Greater
        } else {
            Comparison::Equal
        }
    }

    /// Appends the number to `out`: an integer as its digits alone, any
    /// other as numerator, `/`, denominator.
    pub fn push_rendered(&self, out: &mut String)
        requires
            self.wf(),
        ensures
            final(out)@ == old(out)@ + render_fraction(self@),
    {
        push_signed_decimal(out, self.num);
        if self.den != 1 {
            out.push('/');
            push_decimal(out, self.den as u64);
        }
        assert(final(out)@ =~= old(out)@ + render_fraction(self@));
    }

    /// The number as text.
    pub fn render(&self) -> (s: String)
        requires
            self.wf(),
        ensures
            s@ == render_fraction(self@),
    {
        let mut s: String = String::new();
        self.push_rendered(&mut s);
        assert(s@ =~= render_fraction(self@));
        s
    }
}

} // verus!

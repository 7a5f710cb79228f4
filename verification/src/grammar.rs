//! The grammar of a document, as functions on its characters.
//!
//! A document is a list of lines. Every line that is not blank is one
//! statement: `name = expression`, or an expression alone. In an
//! expression `*` and `/` bind tighter than `+` and `-`, all four associate
//! to the left, a minus sign in front binds tightest, and parentheses group.
//! An operand is a number, a number followed by a unit alias, a name, or a
//! group. Blanks may stand between any two of these.
//!
//! Each function below reads from a position `pos` up to a limit `end` and
//! says what it found and how many characters it took.

use vstd::prelude::*;
use crate::assoc::Text;
use crate::ast::{ExpressionView, Operator, SourceStatementView, StatementView};
use crate::error::{ErrorView, Expected};
use crate::fraction::{ratio, Fraction};

verus! {

/// The classes of characters that the grammar reads in runs.
#[derive(Clone, Copy, Debug, PartialEq, Eq, Structural)]
pub enum CharClass {
    /// Space, tab and carriage return.
    Blank,
    /// The decimal digits.
    Digit,
    /// What a name is made of: ASCII letters, digits and the underscore.
    Name,
    /// Everything but the line feed.
    Line,
}

pub open spec fn is_blank(c: char) -> bool {
    c == ' ' || c == '\t' || c == '\r'
}

pub open spec fn is_digit(c: char) -> bool {
    '0' <= c && c <= '9'
}

/// Whether a name can start with `c`: an ASCII letter or the underscore.
pub open spec fn is_name_start(c: char) -> bool {
    ('a' <= c && c <= 'z') || ('A' <= c && c <= 'Z') || c == '_'
}

pub open spec fn in_class(class: CharClass, c: char) -> bool {
    match class {
        CharClass::Blank => is_blank(c),
        CharClass::Digit => is_digit(c),
        CharClass::Name => is_name_start(c) || is_digit(c),
        CharClass::Line => c != '\n',
    }
}

/// The number that the digit `c` stands for.
pub open spec fn digit_of(c: char) -> nat {
    (c as u32 - '0' as u32) as nat
}

/// The character at `pos`, if `pos` is before the limit.
pub open spec fn at(s: Text, pos: int, end: int) -> Option<char> {
    if 0 <= pos < end <= s.len() {
        Some(s[pos])
    } else {
        None
    }
}

/// How many characters are left before the limit.
pub open spec fn left(pos: int, end: int) -> nat {
    if pos < end {
        (end - pos) as nat
    } else {
        0
    }
}

/// The length of the longest run of characters of `class` that starts at
/// `pos`.
pub open spec fn run_length(s: Text, pos: int, end: int, class: CharClass) -> nat
    decreases left(pos, end),
{
    match at(s, pos, end) {
        Some(c) => if in_class(class, c) {
            1 + run_length(s, pos + 1, end, class)
        } else {
            0
        },
        None => 0,
    }
}

/// The number of blanks at `pos`.
pub open spec fn blanks(s: Text, pos: int, end: int) -> nat {
    run_length(s, pos, end, CharClass::Blank)
}

/// The number written by the digits `s[from..to]`.
pub open spec fn digits_value(s: Text, from: int, to: int) -> nat
    decreases to - from,
{
    if to <= from {
        0
    } else {
        digits_value(s, from, to - 1) * 10 + digit_of(s[to - 1])
    }
}

pub open spec fn pow10(k: nat) -> nat
    decreases k,
{
    if k == 0 {
        1
    } else {
        10 * pow10((k - 1) as nat)
    }
}

/// The number of digits after the decimal point of the number at `pos`:
/// zero when it has no point followed by a digit.
pub open spec fn fraction_digits(s: Text, pos: int, end: int) -> nat {
    let point = pos + run_length(s, pos, end, CharClass::Digit);
    if at(s, point, end) == Some('.') {
        run_length(s, point + 1, end, CharClass::Digit)
    } else {
        0
    }
}

/// The length of the number at `pos`: its digits, and a point with the
/// digits after it where there are any.
pub open spec fn number_length(s: Text, pos: int, end: int) -> nat {
    let whole = run_length(s, pos, end, CharClass::Digit);
    let fraction = fraction_digits(s, pos, end);
    if fraction == 0 {
        whole
    } else {
        whole + 1 + fraction
    }
}

/// The value of the number at `pos`: all its digits read as one integer,
/// over ten to the number of digits after the point. A number whose digits
/// or whose power of ten exceed the stored range is an overflow.
pub open spec fn number_value(s: Text, pos: int, end: int) -> Result<Fraction, ErrorView> {
    let whole = run_length(s, pos, end, CharClass::Digit);
    let fraction = fraction_digits(s, pos, end);
    let point = pos + whole;
    let digits = digits_value(s, pos, point) * pow10(fraction) + digits_value(
        s,
        point + 1,
        point + 1 + fraction,
    );
    if digits > i64::MAX || pow10(fraction) > i64::MAX {
        Err(ErrorView::Overflow)
    } else {
        Ok(ratio(digits as int, pow10(fraction) as int))
    }
}

/// The error of finding something else than `expected` at `pos`.
pub open spec fn syntax_error(s: Text, pos: int, end: int, expected: Expected) -> ErrorView {
    ErrorView::ParseError { position: pos, expected, found: at(s, pos, end) }
}

/// What a parser yields: the expression and the number of characters
/// taken, or the error.
pub type Parsed = Result<(ExpressionView, nat), ErrorView>;

/// The same result for a parser that started `by` characters earlier.
pub open spec fn shifted(r: Parsed, by: nat) -> Parsed {
    match r {
        Ok((e, n)) => Ok((e, n + by)),
        Err(e) => Err(e),
    }
}

/// `e` with the opposite sign: minus one times `e`, which keeps the
/// dimensions of `e`.
pub open spec fn negated(e: ExpressionView) -> ExpressionView {
    ExpressionView::BinaryOp(
        Operator::Mul,
        Box::new(ExpressionView::NumericLiteral(Fraction::integer(-1))),
        Box::new(e),
    )
}

/// The operator that the character writes.
pub open spec fn operator_of(c: char) -> Operator {
    if c == '+' {
        Operator::Add
    } else if c == '-' {
        Operator::Sub
    } else if c == '*' {
        Operator::Mul
    } else {
        Operator::Div
    }
}

/// A number at `p`, with the unit alias that follows it if one does. `pos`
/// is where the operand started, blanks included.
pub open spec fn literal(s: Text, pos: int, p: int, end: int) -> Parsed {
    match number_value(s, p, end) {
        Err(e) => Err(e),
        Ok(q) => {
            let after = p + number_length(s, p, end);
            let u = after + blanks(s, after, end);
            match at(s, u, end) {
                Some(c) => if is_name_start(c) {
                    let m = run_length(s, u, end, CharClass::Name);
                    Ok((ExpressionView::UnitLiteral(q, s.subrange(u, u + m)), (u + m - pos) as nat))
                } else {
                    Ok((ExpressionView::NumericLiteral(q), (after - pos) as nat))
                },
                None => Ok((ExpressionView::NumericLiteral(q), (after - pos) as nat)),
            }
        },
    }
}

/// An operand: a number with or without a unit, a name, or a group in
/// parentheses.
pub open spec fn primary(s: Text, pos: int, end: int) -> Parsed
    decreases left(pos, end), 0nat,
{
    let p = pos + blanks(s, pos, end);
    match at(s, p, end) {
        None => Err(syntax_error(s, p, end, Expected::Operand)),
        Some(c) => if is_digit(c) {
            literal(s, pos, p, end)
        } else if is_name_start(c) {
            let m = run_length(s, p, end, CharClass::Name);
            Ok((ExpressionView::Variable(s.subrange(p, p + m)), (p + m - pos) as nat))
        } else if c == '(' {
            match sum(s, p + 1, end) {
                Err(e) => Err(e),
                Ok((e, n)) => {
                    let q = p + 1 + n + blanks(s, p + 1 + n, end);
                    if at(s, q, end) == Some(')') {
                        Ok((e, (q + 1 - pos) as nat))
                    } else {
                        Err(syntax_error(s, q, end, Expected::ClosingParenthesis))
                    }
                },
            }
        } else {
            Err(syntax_error(s, p, end, Expected::Operand))
        },
    }
}

/// An operand with any number of minus signs in front.
pub open spec fn unary(s: Text, pos: int, end: int) -> Parsed
    decreases left(pos, end), 1nat,
{
    let p = pos + blanks(s, pos, end);
    if at(s, p, end) == Some('-') {
        match unary(s, p + 1, end) {
            Err(e) => Err(e),
            Ok((e, n)) => Ok((negated(e), (p + 1 + n - pos) as nat)),
        }
    } else {
        primary(s, pos, end)
    }
}

/// What follows the first factor of a product: any number of `*` or `/`
/// with a factor each, applied to `acc` from left to right.
pub open spec fn product_tail(s: Text, pos: int, end: int, acc: ExpressionView) -> Parsed
    decreases left(pos, end), 2nat,
{
    let p = pos + blanks(s, pos, end);
    match at(s, p, end) {
        Some(c) => if c == '*' || c == '/' {
            match unary(s, p + 1, end) {
                Err(e) => Err(e),
                Ok((rhs, n)) => shifted(
                    product_tail(
                        s,
                        p + 1 + n,
                        end,
                        ExpressionView::BinaryOp(operator_of(c), Box::new(acc), Box::new(rhs)),
                    ),
                    (p + 1 + n - pos) as nat,
                ),
            }
        } else {
            Ok((acc, 0))
        },
        None => Ok((acc, 0)),
    }
}

/// A product: factors joined by `*` and `/`.
pub open spec fn product(s: Text, pos: int, end: int) -> Parsed
    decreases left(pos, end), 3nat,
{
    match unary(s, pos, end) {
        Err(e) => Err(e),
        Ok((first, n)) => shifted(product_tail(s, pos + n, end, first), n),
    }
}

/// What follows the first term of a sum: any number of `+` or `-` with a
/// term each, applied to `acc` from left to right.
pub open spec fn sum_tail(s: Text, pos: int, end: int, acc: ExpressionView) -> Parsed
    decreases left(pos, end), 4nat,
{
    let p = pos + blanks(s, pos, end);
    match at(s, p, end) {
        Some(c) => if c == '+' || c == '-' {
            match product(s, p + 1, end) {
                Err(e) => Err(e),
                Ok((rhs, n)) => shifted(
                    sum_tail(
                        s,
                        p + 1 + n,
                        end,
                        ExpressionView::BinaryOp(operator_of(c), Box::new(acc), Box::new(rhs)),
                    ),
                    (p + 1 + n - pos) as nat,
                ),
            }
        } else {
            Ok((acc, 0))
        },
        None => Ok((acc, 0)),
    }
}

/// A sum: terms joined by `+` and `-`. This is a whole expression.
pub open spec fn sum(s: Text, pos: int, end: int) -> Parsed
    decreases left(pos, end), 5nat,
{
    match product(s, pos, end) {
        Err(e) => Err(e),
        Ok((first, n)) => shifted(sum_tail(s, pos + n, end, first), n),
    }
}

/// An expression that reaches the limit, but for blanks.
pub open spec fn complete(s: Text, pos: int, end: int) -> Result<ExpressionView, ErrorView> {
    match sum(s, pos, end) {
        Err(e) => Err(e),
        Ok((e, n)) => {
            let z = pos + n + blanks(s, pos + n, end);
            if z >= end {
                Ok(e)
            } else {
                Err(syntax_error(s, z, end, Expected::EndOfStatement))
            }
        },
    }
}

/// Whether the line `s[start..end]` opens with a name and `=`.
pub open spec fn is_assignment(s: Text, start: int, end: int) -> bool {
    let p = start + blanks(s, start, end);
    let q = p + run_length(s, p, end, CharClass::Name);
    &&& at(s, p, end) is Some
    &&& is_name_start(at(s, p, end)->0)
    &&& at(s, q + blanks(s, q, end), end) == Some('=')
}

/// The statement on the line `s[start..end]`.
#[verifier::opaque]
pub open spec fn statement(s: Text, start: int, end: int) -> Result<StatementView, ErrorView> {
    let p = start + blanks(s, start, end);
    let q = p + run_length(s, p, end, CharClass::Name);
    if is_assignment(s, start, end) {
        match complete(s, q + blanks(s, q, end) + 1, end) {
            Err(e) => Err(e),
            Ok(e) => Ok(StatementView::Assignment(s.subrange(p, q), e)),
        }
    } else {
        match complete(s, start, end) {
            Err(e) => Err(e),
            Ok(e) => Ok(StatementView::Expression(e)),
        }
    }
}

/// The statements of the lines from `pos` on: one for every line that is
/// not blank, each with the text of its line, or the error of the first
/// line that is malformed.
pub open spec fn statements_from(s: Text, pos: int) -> Result<Seq<SourceStatementView>, ErrorView>
    decreases left(pos, s.len() as int),
{
    if !(0 <= pos < s.len()) {
        Ok(Seq::empty())
    } else {
        let end = pos + run_length(s, pos, s.len() as int, CharClass::Line);
        if pos + blanks(s, pos, end) >= end {
            statements_from(s, end + 1)
        } else {
            match statement(s, pos, end) {
                Err(e) => Err(e),
                Ok(st) => match statements_from(s, end + 1) {
                    Err(e) => Err(e),
                    Ok(rest) => Ok(
                        seq![SourceStatementView { text: s.subrange(pos, end), statement: st }]
                            + rest,
                    ),
                },
            }
        }
    }
}

/// The statements of a document.
pub open spec fn document(s: Text) -> Result<Seq<SourceStatementView>, ErrorView> {
    statements_from(s, 0)
}

} // verus!

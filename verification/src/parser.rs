//! The parser: reads the characters of a document into statements, by
//! recursive descent along the grammar.

use vstd::prelude::*;
use crate::ast::{Expression, ExpressionView, Operator, SourceStatement, Statement};
use crate::error::{fails_with, succeeds_with, EngineError, ErrorView, Expected};
use crate::executor::statements_view;
use crate::grammar::{
    at, blanks, complete, digit_of, digits_value, document, fraction_digits, in_class, is_blank,
    is_digit, is_name_start, left, literal, negated, number_length, number_value, pow10, primary,
    product, product_tail, run_length, shifted, statement, statements_from, sum, sum_tail,
    syntax_error, unary, CharClass, Parsed,
};
use crate::rational::Rational;
use crate::text::{chars_of, string_of};

verus! {

/// Whether the result is the given model result: the same expression, with
/// the position after it, or the same error.
pub open spec fn parsed(
    r: Result<(Expression, usize), EngineError>,
    model: Parsed,
    pos: usize,
    end: usize,
) -> bool {
    match r {
        Ok((e, next)) => e.wf() && pos <= next <= end && succeeds_with(
            model,
            (e@, (next - pos) as nat),
        ),
        Err(err) => fails_with(model, err@),
    }
}

fn blank(c: char) -> (b: bool)
    ensures
        b == is_blank(c),
{
    c == ' ' || c == '\t' || c == '\r'
}

fn digit(c: char) -> (b: bool)
    ensures
        b == is_digit(c),
{
    '0' <= c && c <= '9'
}

fn name_start(c: char) -> (b: bool)
    ensures
        b == is_name_start(c),
{
    ('a' <= c && c <= 'z') || ('A' <= c && c <= 'Z') || c == '_'
}

fn member(class: CharClass, c: char) -> (b: bool)
    ensures
        b == in_class(class, c),
{
    match class {
        CharClass::Blank => blank(c),
        CharClass::Digit => digit(c),
        CharClass::Name => name_start(c) || digit(c),
        CharClass::Line => c != '\n',
    }
}

/// The position after the run of characters of `class` that starts at
/// `pos`.
fn scan(s: &Vec<char>, pos: usize, end: usize, class: CharClass) -> (next: usize)
    requires
        pos <= end <= s.len(),
    ensures
        pos <= next <= end,
        next == pos + run_length(s@, pos as int, end as int, class),
{
    let mut i: usize = pos;
    while i < end && member(class, s[i])
        invariant
            pos <= i <= end <= s.len(),
            run_length(s@, pos as int, end as int, class) == (i - pos) + run_length(
                s@,
                i as int,
                end as int,
                class,
            ),
        decreases end - i,
    {
        i += 1;
    }
    i
}

/// The character found at `pos`, for an error report.
fn found(s: &Vec<char>, pos: usize, end: usize) -> (r: Option<char>)
    requires
        pos <= end <= s.len(),
    ensures
        r == at(s@, pos as int, end as int),
{
    if pos < end {
        Some(s[pos])
    } else {
        None
    }
}

fn error_at(s: &Vec<char>, pos: usize, end: usize, expected: Expected) -> (e: EngineError)
    requires
        pos <= end <= s.len(),
    ensures
        e@ == syntax_error(s@, pos as int, end as int, expected),
{
    EngineError::ParseError { position: pos, expected, found: found(s, pos, end) }
}

/// The digits `s[from..to]` read as one integer after the digits read so
/// far: `before` times ten for each digit, plus the digits. `None` stands
/// for a number beyond the stored range, and stays so.
fn accumulate(s: &Vec<char>, from: usize, to: usize, before: Option<u64>, Ghost(value): Ghost<nat>) -> (r:
    Option<u64>)
    requires
        from <= to <= s.len(),
        forall|i: int| from <= i < to ==> is_digit(#[trigger] s@[i]),
        match before {
            Some(n) => n == value && n <= i64::MAX,
            None => value > i64::MAX,
        },
    ensures
        match r {
            Some(n) => n <= i64::MAX && n == value * pow10((to - from) as nat) + digits_value(
                s@,
                from as int,
                to as int,
            ),
            None => value * pow10((to - from) as nat) + digits_value(s@, from as int, to as int)
                > i64::MAX,
        },
{
    let mut acc: Option<u64> = before;
    let mut i: usize = from;
    assert(value * pow10(0) + digits_value(s@, from as int, from as int) == value) by {
        assert(pow10(0) == 1);
        assert(value * 1 == value) by (nonlinear_arith);
    }
    while i < to
        invariant
            from <= i <= to <= s.len(),
            forall|j: int| from <= j < to ==> is_digit(#[trigger] s@[j]),
            match acc {
                Some(n) => n <= i64::MAX && n == value * pow10((i - from) as nat) + digits_value(
                    s@,
                    from as int,
                    i as int,
                ),
                None => value * pow10((i - from) as nat) + digits_value(s@, from as int, i as int)
                    > i64::MAX,
            },
        decreases to - i,
    {
        let c = s[i];
        let d: u64 = (c as u32 - '0' as u32) as u64;
        proof {
            let k = (i - from) as nat;
            let p = pow10(k);
            let v = digits_value(s@, from as int, i as int);
            assert(pow10(k + 1) == 10 * p);
            assert(digits_value(s@, from as int, i + 1) == v * 10 + digit_of(c));
            assert(value * (10 * p) + (v * 10 + d) == (value * p + v) * 10 + d) by (nonlinear_arith);
        }
        acc = match acc {
            Some(n) => {
                let next: u128 = (n as u128) * 10 + (d as u128);
                if next > 0x7fff_ffff_ffff_ffff {
                    None
                } else {
                    Some(next as u64)
                }
            },
            None => None,
        };
        i += 1;
    }
    acc
}

/// The power of ten with `k` zeros, or `None` when it is beyond the stored
/// range.
fn power_of_ten(k: usize) -> (r: Option<u64>)
    ensures
        match r {
            Some(n) => n <= i64::MAX && n == pow10(k as nat),
            None => pow10(k as nat) > i64::MAX,
        },
{
    let mut acc: Option<u64> = Some(1);
    let mut i: usize = 0;
    while i < k
        invariant
            i <= k,
            match acc {
                Some(n) => n <= i64::MAX && n == pow10(i as nat),
                None => pow10(i as nat) > i64::MAX,
            },
        decreases k - i,
    {
        assert(pow10((i + 1) as nat) == 10 * pow10(i as nat));
        acc = match acc {
            Some(n) => {
                let next: u128 = (n as u128) * 10;
                if next > 0x7fff_ffff_ffff_ffff {
                    None
                } else {
                    Some(next as u64)
                }
            },
            None => None,
        };
        i += 1;
    }
    acc
}

/// Every character of a run belongs to the class of the run.
proof fn lemma_run_members(s: Seq<char>, pos: int, end: int, class: CharClass)
    requires
        0 <= pos <= end <= s.len(),
    ensures
        forall|i: int|
            pos <= i < pos + run_length(s, pos, end, class) ==> in_class(class, #[trigger] s[i]),
    decreases left(pos, end),
{
    if pos < end && in_class(class, s[pos]) {
        lemma_run_members(s, pos + 1, end, class);
    }
}

/// Reads the number at `pos`.
fn parse_number(s: &Vec<char>, pos: usize, end: usize) -> (r: Result<(Rational, usize), EngineError>)
    requires
        pos <= end <= s.len(),
    ensures
        match r {
            Ok((q, next)) => {
                &&& q.wf()
                &&& pos <= next <= end
                &&& next == pos + number_length(s@, pos as int, end as int)
                &&& succeeds_with(number_value(s@, pos as int, end as int), q@)
            },
            Err(e) => fails_with(number_value(s@, pos as int, end as int), e@),
        },
{
    let point = scan(s, pos, end, CharClass::Digit);
    proof {
        lemma_run_members(s@, pos as int, end as int, CharClass::Digit);
    }
    let whole = accumulate(s, pos, point, Some(0), Ghost(0));
    let mut last: usize = point;
    if point < end && s[point] == '.' {
        let stop = scan(s, point + 1, end, CharClass::Digit);
        if stop > point + 1 {
            last = stop;
        }
        proof {
            lemma_run_members(s@, point + 1, end as int, CharClass::Digit);
        }
    }
    let ghost fraction = fraction_digits(s@, pos as int, end as int);
    let first: usize = if last == point {
        point
    } else {
        point + 1
    };
    let ghost whole_value = digits_value(s@, pos as int, point as int);
    let digits = accumulate(s, first, last, whole, Ghost(whole_value));
    let scale = power_of_ten(last - first);
    match (digits, scale) {
        (Some(n), Some(d)) => {
            proof {
                lemma_pow10_positive(fraction);
            }
            match Rational::new(n as i64, d as i64) {
                Ok(q) => Ok((q, last)),
                Err(e) => Err(e),
            }
        },
        _ => Err(EngineError::Overflow),
    }
}

proof fn lemma_pow10_positive(k: nat)
    ensures
        pow10(k) > 0,
    decreases k,
{
    if k > 0 {
        lemma_pow10_positive((k - 1) as nat);
    }
}

/// Reads a number at `p`, with the unit alias that follows it if one does.
fn parse_literal(s: &Vec<char>, pos: usize, p: usize, end: usize) -> (r: Result<
    (Expression, usize),
    EngineError,
>)
    requires
        pos <= p <= end <= s.len(),
    ensures
        parsed(r, literal(s@, pos as int, p as int, end as int), pos, end),
{
    let (q, after) = parse_number(s, p, end)?;
    let u = scan(s, after, end, CharClass::Blank);
    if u < end && name_start(s[u]) {
        let stop = scan(s, u, end, CharClass::Name);
        Ok((Expression::UnitLiteral(q, string_of(s, u, stop)), stop))
    } else {
        Ok((Expression::NumericLiteral(q), after))
    }
}

/// Reads an operand.
fn parse_primary(s: &Vec<char>, pos: usize, end: usize) -> (r: Result<
    (Expression, usize),
    EngineError,
>)
    requires
        pos <= end <= s.len(),
    ensures
        parsed(r, primary(s@, pos as int, end as int), pos, end),
    decreases left(pos as int, end as int), 0nat,
{
    let p = scan(s, pos, end, CharClass::Blank);
    if p >= end {
        return Err(error_at(s, p, end, Expected::Operand));
    }
    let c = s[p];
    if digit(c) {
        parse_literal(s, pos, p, end)
    } else if name_start(c) {
        let stop = scan(s, p, end, CharClass::Name);
        Ok((Expression::Variable(string_of(s, p, stop)), stop))
    } else if c == '(' {
        let (e, inner) = parse_sum(s, p + 1, end)?;
        let q = scan(s, inner, end, CharClass::Blank);
        if q < end && s[q] == ')' {
            Ok((e, q + 1))
        } else {
            Err(error_at(s, q, end, Expected::ClosingParenthesis))
        }
    } else {
        Err(error_at(s, p, end, Expected::Operand))
    }
}

/// Reads an operand with any number of minus signs in front.
fn parse_unary(s: &Vec<char>, pos: usize, end: usize) -> (r: Result<(Expression, usize), EngineError>)
    requires
        pos <= end <= s.len(),
    ensures
        parsed(r, unary(s@, pos as int, end as int), pos, end),
    decreases left(pos as int, end as int), 1nat,
{
    let p = scan(s, pos, end, CharClass::Blank);
    if p < end && s[p] == '-' {
        let (e, next) = parse_unary(s, p + 1, end)?;
        let minus_one = Expression::NumericLiteral(Rational::from_integer(-1));
        let ghost inner = e@;
        let whole = Expression::BinaryOp(Operator::Mul, Box::new(minus_one), Box::new(e));
        proof {
            reveal_with_fuel(Expression::model, 2);
            reveal_with_fuel(Expression::wf, 2);
            assert(whole@ == negated(inner));
        }
        Ok((whole, next))
    } else {
        parse_primary(s, pos, end)
    }
}

/// Reads a product.
fn parse_product(s: &Vec<char>, pos: usize, end: usize) -> (r: Result<
    (Expression, usize),
    EngineError,
>)
    requires
        pos <= end <= s.len(),
    ensures
        parsed(r, product(s@, pos as int, end as int), pos, end),
    decreases left(pos as int, end as int), 3nat,
{
    let (first, after_first) = parse_unary(s, pos, end)?;
    let mut acc: Expression = first;
    let mut here: usize = after_first;
    loop
        invariant
            pos <= here <= end <= s.len(),
            acc.wf(),
            product(s@, pos as int, end as int) == shifted(
                product_tail(s@, here as int, end as int, acc@),
                (here - pos) as nat,
            ),
        decreases end - here,
    {
        let p = scan(s, here, end, CharClass::Blank);
        if p < end && (s[p] == '*' || s[p] == '/') {
            let op = if s[p] == '*' {
                Operator::Mul
            } else {
                Operator::Div
            };
            match parse_unary(s, p + 1, end) {
                Err(e) => {
                    return Err(e);
                },
                Ok((rhs, next)) => {
                    acc = Expression::BinaryOp(op, Box::new(acc), Box::new(rhs));
                    here = next;
                },
            }
        } else {
            return Ok((acc, here));
        }
    }
}

/// Reads a sum: a whole expression.
fn parse_sum(s: &Vec<char>, pos: usize, end: usize) -> (r: Result<(Expression, usize), EngineError>)
    requires
        pos <= end <= s.len(),
    ensures
        parsed(r, sum(s@, pos as int, end as int), pos, end),
    decreases left(pos as int, end as int), 5nat,
{
    let (first, after_first) = parse_product(s, pos, end)?;
    let mut acc: Expression = first;
    let mut here: usize = after_first;
    loop
        invariant
            pos <= here <= end <= s.len(),
            acc.wf(),
            sum(s@, pos as int, end as int) == shifted(
                sum_tail(s@, here as int, end as int, acc@),
                (here - pos) as nat,
            ),
        decreases end - here,
    {
        let p = scan(s, here, end, CharClass::Blank);
        if p < end && (s[p] == '+' || s[p] == '-') {
            let op = if s[p] == '+' {
                Operator::Add
            } else {
                Operator::Sub
            };
            match parse_product(s, p + 1, end) {
                Err(e) => {
                    return Err(e);
                },
                Ok((rhs, next)) => {
                    acc = Expression::BinaryOp(op, Box::new(acc), Box::new(rhs));
                    here = next;
                },
            }
        } else {
            return Ok((acc, here));
        }
    }
}

/// Reads an expression that must reach the limit, but for blanks.
fn parse_complete(s: &Vec<char>, pos: usize, end: usize) -> (r: Result<Expression, EngineError>)
    requires
        pos <= end <= s.len(),
    ensures
        match r {
            Ok(e) => e.wf() && succeeds_with(complete(s@, pos as int, end as int), e@),
            Err(err) => fails_with(complete(s@, pos as int, end as int), err@),
        },
{
    let (e, next) = parse_sum(s, pos, end)?;
    let z = scan(s, next, end, CharClass::Blank);
    if z >= end {
        Ok(e)
    } else {
        Err(error_at(s, z, end, Expected::EndOfStatement))
    }
}

/// Reads the statement on the line `s[start..end]`.
fn parse_line(s: &Vec<char>, start: usize, end: usize) -> (r: Result<Statement, EngineError>)
    requires
        start <= end <= s.len(),
    ensures
        match r {
            Ok(st) => st.wf() && succeeds_with(statement(s@, start as int, end as int), st@),
            Err(err) => fails_with(statement(s@, start as int, end as int), err@),
        },
{
    proof {
        reveal(statement);
    }
    let p = scan(s, start, end, CharClass::Blank);
    if p < end && name_start(s[p]) {
        let q = scan(s, p, end, CharClass::Name);
        let sign = scan(s, q, end, CharClass::Blank);
        if sign < end && s[sign] == '=' {
            let e = parse_complete(s, sign + 1, end)?;
            return Ok(Statement::Assignment(string_of(s, p, q), e));
        }
    }
    let e = parse_complete(s, start, end)?;
    Ok(Statement::Expression(e))
}

/// Reads an expression that takes up the whole of `source`.
pub fn parse_expression(source: &str) -> (r: Result<Expression, EngineError>)
    ensures
        match r {
            Ok(e) => e.wf() && succeeds_with(complete(source@, 0, source@.len() as int), e@),
            Err(err) => fails_with(complete(source@, 0, source@.len() as int), err@),
        },
{
    let s = chars_of(source);
    parse_complete(&s, 0, s.len())
}

/// Reads a document into its statements: one for every line that is not
/// blank, in order, each with the text of its line. A malformed line fails
/// the whole document with the error of the first such line.
pub fn parse_document(source: &str) -> (r: Result<Vec<SourceStatement>, EngineError>)
    ensures
        match r {
            Ok(v) => {
                &&& succeeds_with(document(source@), statements_view(v@))
                &&& forall|i: int| 0 <= i < v@.len() ==> (#[trigger] v@[i]).statement.wf()
            },
            Err(err) => fails_with(document(source@), err@),
        },
{
    let s = chars_of(source);
    let mut statements: Vec<SourceStatement> = Vec::new();
    let mut pos: usize = 0;
    assert(statements_view(statements@) =~= Seq::empty());
    while pos < s.len()
        invariant
            pos <= s.len(),
            s@ == source@,
            forall|i: int| 0 <= i < statements@.len() ==> (#[trigger] statements@[i]).statement.wf(),
            document(s@) == match statements_from(s@, pos as int) {
                Ok(rest) => Ok::<Seq<crate::ast::SourceStatementView>, ErrorView>(
                    statements_view(statements@) + rest,
                ),
                Err(e) => Err(e),
            },
        decreases s.len() - pos,
    {
        let end = scan(&s, pos, s.len(), CharClass::Line);
        let p = scan(&s, pos, end, CharClass::Blank);
        let ghost before = statements_view(statements@);
        if p < end {
            let st = parse_line(&s, pos, end)?;
            let entry = SourceStatement { text: string_of(&s, pos, end), statement: st };
            statements.push(entry);
            proof {
                assert(statements_view(statements@) =~= before.push(entry@));
                match statements_from(s@, end + 1) {
                    Ok(rest) => {
                        assert(before + (seq![entry@] + rest) =~= before.push(entry@) + rest);
                    },
                    Err(_) => {},
                }
            }
        }
        if end >= s.len() {
            assert(statements_from(s@, end + 1) == Ok::<
                Seq<crate::ast::SourceStatementView>,
                ErrorView,
            >(Seq::empty()));
            assert(statements_view(statements@) + Seq::empty() =~= statements_view(statements@));
            return Ok(statements);
        }
        pos = end + 1;
    }
    assert(statements_view(statements@) + Seq::empty() =~= statements_view(statements@));
    Ok(statements)
}

} // verus!

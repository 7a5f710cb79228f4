use calculatex::ast::{Expression, Operator, Statement};
use calculatex::error::{EngineError, Expected};
use calculatex::parser::{parse_document, parse_expression};
use calculatex::rational::Rational;

fn n(v: i64) -> Expression {
    Expression::NumericLiteral(Rational::new(v, 1).unwrap())
}

fn frac(a: i64, b: i64) -> Expression {
    Expression::NumericLiteral(Rational::new(a, b).unwrap())
}

fn unit(v: i64, alias: &str) -> Expression {
    Expression::UnitLiteral(Rational::new(v, 1).unwrap(), alias.to_string())
}

fn var(name: &str) -> Expression {
    Expression::Variable(name.to_string())
}

fn bin(op: Operator, l: Expression, r: Expression) -> Expression {
    Expression::BinaryOp(op, Box::new(l), Box::new(r))
}

fn neg(e: Expression) -> Expression {
    bin(Operator::Mul, n(-1), e)
}

fn parse(s: &str) -> Expression {
    parse_expression(s).unwrap()
}

fn syntax_error(s: &str) -> (usize, Expected, Option<char>) {
    match parse_expression(s) {
        Err(EngineError::ParseError { position, expected, found }) => (position, expected, found),
        other => panic!("expected a syntax error for {:?}, got {:?}", s, other),
    }
}

#[test]
fn numbers_are_exact() {
    assert_eq!(parse("5"), n(5));
    assert_eq!(parse("0"), n(0));
    assert_eq!(parse("007"), n(7));
    assert_eq!(parse("2.5"), frac(5, 2));
    assert_eq!(parse("2.50"), frac(5, 2));
    assert_eq!(parse("0.001"), frac(1, 1000));
    assert_eq!(parse("10.0"), n(10));
    assert_eq!(parse("0.333"), frac(333, 1000));
    assert_eq!(parse("9223372036854775807"), n(i64::MAX));
    assert_eq!(parse("0.000000000000000001"), frac(1, 1000000000000000000));
}

#[test]
fn numbers_beyond_the_stored_range_overflow() {
    assert!(matches!(parse_expression("9223372036854775808"), Err(EngineError::Overflow)));
    assert!(matches!(
        parse_expression("99999999999999999999999999999999999999999999"),
        Err(EngineError::Overflow)
    ));
    assert!(matches!(parse_expression("0.0000000000000000001"), Err(EngineError::Overflow)));
    assert!(matches!(parse_expression("1.0000000000000000000"), Err(EngineError::Overflow)));
    assert!(matches!(parse_expression("922337203685477580.8"), Err(EngineError::Overflow)));
    assert!(matches!(parse_expression("1 + 9223372036854775808 +"), Err(EngineError::Overflow)));
}

#[test]
fn a_unit_attaches_to_the_literal_before_it() {
    assert_eq!(parse("5 kg"), unit(5, "kg"));
    assert_eq!(parse("5kg"), unit(5, "kg"));
    assert_eq!(parse("5 \t kg"), unit(5, "kg"));
    assert_eq!(
        parse("2.5 m"),
        Expression::UnitLiteral(Rational::new(5, 2).unwrap(), "m".to_string())
    );
    assert_eq!(parse("2 * 3 kg"), bin(Operator::Mul, n(2), unit(3, "kg")));
    assert_eq!(parse("1 / 2 s"), bin(Operator::Div, n(1), unit(2, "s")));
    assert_eq!(
        parse("5 kilograms + 4 grams"),
        bin(Operator::Add, unit(5, "kilograms"), unit(4, "grams"))
    );
    assert_eq!(parse("3 x_1"), unit(3, "x_1"));
}

#[test]
fn names_are_letters_digits_and_underscores() {
    assert_eq!(parse("x"), var("x"));
    assert_eq!(parse("  total_mass2  "), var("total_mass2"));
    assert_eq!(parse("_t"), var("_t"));
    assert_eq!(parse("X9"), var("X9"));
    assert_eq!(parse("a-b"), bin(Operator::Sub, var("a"), var("b")));
}

#[test]
fn product_binds_tighter_than_sum() {
    assert_eq!(
        parse("1 + 2 * 3"),
        bin(Operator::Add, n(1), bin(Operator::Mul, n(2), n(3)))
    );
    assert_eq!(
        parse("1 * 2 + 3"),
        bin(Operator::Add, bin(Operator::Mul, n(1), n(2)), n(3))
    );
    assert_eq!(
        parse("1 - 6 / 3"),
        bin(Operator::Sub, n(1), bin(Operator::Div, n(6), n(3)))
    );
    assert_eq!(
        parse("a * b + c * d"),
        bin(
            Operator::Add,
            bin(Operator::Mul, var("a"), var("b")),
            bin(Operator::Mul, var("c"), var("d"))
        )
    );
}

#[test]
fn operators_associate_to_the_left() {
    assert_eq!(
        parse("10 - 4 - 3"),
        bin(Operator::Sub, bin(Operator::Sub, n(10), n(4)), n(3))
    );
    assert_eq!(
        parse("8 / 4 / 2"),
        bin(Operator::Div, bin(Operator::Div, n(8), n(4)), n(2))
    );
    assert_eq!(
        parse("1 + 2 - 3 + 4"),
        bin(
            Operator::Add,
            bin(Operator::Sub, bin(Operator::Add, n(1), n(2)), n(3)),
            n(4)
        )
    );
    assert_eq!(
        parse("2 * 3 / 4 * 5"),
        bin(
            Operator::Mul,
            bin(Operator::Div, bin(Operator::Mul, n(2), n(3)), n(4)),
            n(5)
        )
    );
}

#[test]
fn parentheses_group() {
    assert_eq!(
        parse("(1 + 2) * 3"),
        bin(Operator::Mul, bin(Operator::Add, n(1), n(2)), n(3))
    );
    assert_eq!(
        parse("10 - (4 - 3)"),
        bin(Operator::Sub, n(10), bin(Operator::Sub, n(4), n(3)))
    );
    assert_eq!(parse("((7))"), n(7));
    assert_eq!(parse("( x )"), var("x"));
    assert_eq!(
        parse("2*(3+(4-1))"),
        bin(
            Operator::Mul,
            n(2),
            bin(Operator::Add, n(3), bin(Operator::Sub, n(4), n(1)))
        )
    );
}

#[test]
fn minus_in_front_binds_tightest() {
    assert_eq!(parse("-5"), neg(n(5)));
    assert_eq!(parse("--5"), neg(neg(n(5))));
    assert_eq!(parse("- x"), neg(var("x")));
    assert_eq!(parse("-5 kg"), neg(unit(5, "kg")));
    assert_eq!(parse("-2 * 3"), bin(Operator::Mul, neg(n(2)), n(3)));
    assert_eq!(parse("2 * -3"), bin(Operator::Mul, n(2), neg(n(3))));
    assert_eq!(parse("2 - -3"), bin(Operator::Sub, n(2), neg(n(3))));
    assert_eq!(parse("-(1 + 2)"), neg(bin(Operator::Add, n(1), n(2))));
    assert_eq!(parse("-1 - 2"), bin(Operator::Sub, neg(n(1)), n(2)));
}

#[test]
fn blanks_are_free_between_tokens() {
    assert_eq!(parse("1+2"), bin(Operator::Add, n(1), n(2)));
    assert_eq!(parse("  1  +\t2 \r"), bin(Operator::Add, n(1), n(2)));
    assert_eq!(parse("(1+2)*x"), parse(" ( 1 + 2 ) * x "));
}

#[test]
fn a_missing_operand_is_reported_where_it_is_missing() {
    assert_eq!(syntax_error(""), (0, Expected::Operand, None));
    assert_eq!(syntax_error("   "), (3, Expected::Operand, None));
    assert_eq!(syntax_error("1 +"), (3, Expected::Operand, None));
    assert_eq!(syntax_error("1 + "), (4, Expected::Operand, None));
    assert_eq!(syntax_error("1 * / 2"), (4, Expected::Operand, Some('/')));
    assert_eq!(syntax_error("+ 1"), (0, Expected::Operand, Some('+')));
    assert_eq!(syntax_error(")"), (0, Expected::Operand, Some(')')));
    assert_eq!(syntax_error("()"), (1, Expected::Operand, Some(')')));
    assert_eq!(syntax_error("-"), (1, Expected::Operand, None));
    assert_eq!(syntax_error("2 * (3 + $)"), (9, Expected::Operand, Some('$')));
    assert_eq!(syntax_error(".5"), (0, Expected::Operand, Some('.')));
    assert_eq!(syntax_error("µ"), (0, Expected::Operand, Some('µ')));
}

#[test]
fn a_missing_closing_parenthesis_is_reported() {
    assert_eq!(syntax_error("(1 + 2"), (6, Expected::ClosingParenthesis, None));
    assert_eq!(syntax_error("(1 + 2  "), (8, Expected::ClosingParenthesis, None));
    assert_eq!(syntax_error("((1)"), (4, Expected::ClosingParenthesis, None));
    assert_eq!(syntax_error("(1 2)"), (3, Expected::ClosingParenthesis, Some('2')));
    assert_eq!(syntax_error("(1 = 2)"), (3, Expected::ClosingParenthesis, Some('=')));
}

#[test]
fn what_follows_a_whole_expression_is_reported() {
    assert_eq!(syntax_error("1 2"), (2, Expected::EndOfStatement, Some('2')));
    assert_eq!(syntax_error("1 $ 2"), (2, Expected::EndOfStatement, Some('$')));
    assert_eq!(syntax_error("1 + 2)"), (5, Expected::EndOfStatement, Some(')')));
    assert_eq!(syntax_error("1."), (1, Expected::EndOfStatement, Some('.')));
    assert_eq!(syntax_error("1.x"), (1, Expected::EndOfStatement, Some('.')));
    assert_eq!(syntax_error("1..2"), (1, Expected::EndOfStatement, Some('.')));
    assert_eq!(syntax_error("1.2.3"), (3, Expected::EndOfStatement, Some('.')));
    assert_eq!(syntax_error("x y"), (2, Expected::EndOfStatement, Some('y')));
    assert_eq!(syntax_error("5 kg m"), (5, Expected::EndOfStatement, Some('m')));
    assert_eq!(syntax_error("x = 1"), (2, Expected::EndOfStatement, Some('=')));
    assert_eq!(syntax_error("2 ^ 3"), (2, Expected::EndOfStatement, Some('^')));
    assert_eq!(syntax_error("1\n2"), (1, Expected::EndOfStatement, Some('\n')));
}

fn statements(document: &str) -> Vec<(String, Statement)> {
    parse_document(document)
        .unwrap()
        .into_iter()
        .map(|s| (s.text, s.statement))
        .collect()
}

fn assign(name: &str, e: Expression) -> Statement {
    Statement::Assignment(name.to_string(), e)
}

#[test]
fn every_line_that_is_not_blank_is_a_statement() {
    assert_eq!(statements(""), vec![]);
    assert_eq!(statements("\n\n  \n\t\n"), vec![]);
    assert_eq!(
        statements("x = 5 kg\ny = x * 2\n\nx + y"),
        vec![
            ("x = 5 kg".to_string(), assign("x", unit(5, "kg"))),
            (
                "y = x * 2".to_string(),
                assign("y", bin(Operator::Mul, var("x"), n(2)))
            ),
            (
                "x + y".to_string(),
                Statement::Expression(bin(Operator::Add, var("x"), var("y")))
            ),
        ]
    );
    assert_eq!(
        statements("1\n"),
        vec![("1".to_string(), Statement::Expression(n(1)))]
    );
    assert_eq!(
        statements("\n  7  \n\n"),
        vec![("  7  ".to_string(), Statement::Expression(n(7)))]
    );
}

#[test]
fn carriage_returns_are_blanks() {
    assert_eq!(
        statements("a = 1\r\n\r\na\r\n"),
        vec![
            ("a = 1\r".to_string(), assign("a", n(1))),
            ("a\r".to_string(), Statement::Expression(var("a"))),
        ]
    );
}

#[test]
fn an_assignment_is_a_name_then_an_equals_sign() {
    assert_eq!(statements("x=1"), vec![("x=1".to_string(), assign("x", n(1)))]);
    assert_eq!(
        statements("  long_name  =  -2 m"),
        vec![(
            "  long_name  =  -2 m".to_string(),
            assign("long_name", neg(unit(2, "m")))
        )]
    );
    assert_eq!(
        statements("x"),
        vec![("x".to_string(), Statement::Expression(var("x")))]
    );
    assert_eq!(
        statements("x - 1"),
        vec![(
            "x - 1".to_string(),
            Statement::Expression(bin(Operator::Sub, var("x"), n(1)))
        )]
    );
}

fn document_error(document: &str) -> (usize, Expected, Option<char>) {
    match parse_document(document) {
        Err(EngineError::ParseError { position, expected, found }) => (position, expected, found),
        other => panic!("expected a syntax error for {:?}, got {:?}", document, other),
    }
}

#[test]
fn a_malformed_line_fails_the_document_at_its_offset() {
    assert_eq!(document_error("1\n2 +"), (5, Expected::Operand, None));
    assert_eq!(document_error("1\n2 +\n3"), (5, Expected::Operand, None));
    assert_eq!(document_error("x = 1\ny = (x\nz = 2"), (12, Expected::ClosingParenthesis, None));
    assert_eq!(document_error("x ="), (3, Expected::Operand, None));
    assert_eq!(document_error("x == 1"), (3, Expected::Operand, Some('=')));
    assert_eq!(document_error("x + 1 = 3"), (6, Expected::EndOfStatement, Some('=')));
    assert_eq!(document_error("5 = 3"), (2, Expected::EndOfStatement, Some('=')));
    assert_eq!(document_error("\n\n  ?"), (4, Expected::Operand, Some('?')));
    assert_eq!(document_error("ok = 1\nµ = 2"), (7, Expected::Operand, Some('µ')));
}

#[test]
fn the_first_malformed_line_is_the_one_reported() {
    assert_eq!(document_error("1 +\n(2"), (3, Expected::Operand, None));
    assert_eq!(document_error("(2\n1 +"), (2, Expected::ClosingParenthesis, None));
    assert!(matches!(
        parse_document("1\n99999999999999999999\n1 +"),
        Err(EngineError::Overflow)
    ));
    assert_eq!(
        document_error("1 +\n99999999999999999999"),
        (3, Expected::Operand, None)
    );
}

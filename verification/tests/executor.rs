use calculatex::ast::{Expression, Operator, SourceStatement, Statement};
use calculatex::engine::evaluate_document;
use calculatex::error::{EngineError, Expected, MismatchKind};
use calculatex::evaluator::{apply_operator, evaluate};
use calculatex::executor::{ExecutionState, Executor};
use calculatex::parser::{parse_document, parse_expression};
use calculatex::rational::Rational;
use calculatex::registry::UnitRegistry;
use calculatex::scope::Scope;
use calculatex::value::Value;

fn q(n: i64, d: i64) -> Rational {
    Rational::new(n, d).unwrap()
}

fn eval_in(scope: &Scope, s: &str) -> Result<Value, EngineError> {
    evaluate(&parse_expression(s).unwrap(), scope, &UnitRegistry::standard())
}

fn eval(s: &str) -> String {
    eval_in(&Scope::default(), s).unwrap().render()
}

fn records(document: &str) -> Vec<(String, String)> {
    evaluate_document(document, &UnitRegistry::standard())
        .unwrap()
        .iter()
        .map(|r| (r.source_text().clone(), r.formatted()))
        .collect()
}

fn pairs(items: &[(&str, &str)]) -> Vec<(String, String)> {
    items.iter().map(|(a, b)| (a.to_string(), b.to_string())).collect()
}

#[test]
fn arithmetic_on_pure_numbers() {
    assert_eq!(eval("5 - 3"), "2");
    assert_eq!(eval("2 + 3 * 4"), "14");
    assert_eq!(eval("(2 + 3) * 4"), "20");
    assert_eq!(eval("10 - 4 - 3"), "3");
    assert_eq!(eval("8 / 4 / 2"), "1");
    assert_eq!(eval("1 / 3"), "1/3");
    assert_eq!(eval("1 / 3 + 1 / 6"), "1/2");
    assert_eq!(eval("2.5 * 4"), "10");
    assert_eq!(eval("0.1 + 0.2"), "3/10");
    assert_eq!(eval("-5"), "-5");
    assert_eq!(eval("--5"), "5");
    assert_eq!(eval("2 * -3"), "-6");
    assert_eq!(eval("-(2 + 3)"), "-5");
    assert_eq!(eval("3 - 5"), "-2");
    assert_eq!(eval("6 / -4"), "-3/2");
}

#[test]
fn arithmetic_on_quantities() {
    assert_eq!(eval("1 km + 1 m"), "1001 m");
    assert_eq!(eval("1 m + 1 km"), "1001 m");
    assert_eq!(eval("5 m - 3 m"), "2 m");
    assert_eq!(eval("2.5 kg"), "2500 g");
    assert_eq!(eval("0.001 kg"), "1 g");
    assert_eq!(eval("-5 kg"), "-5000 g");
    assert_eq!(eval("1 m / 3 s"), "1/3 m s^-1");
    assert_eq!(eval("3 m * 2 m"), "6 m^2");
    assert_eq!(eval("2 * 3 kg"), "6000 g");
    assert_eq!(eval("1 / 2 s"), "1/2 s^-1");
    assert_eq!(eval("1 N / 1 kg"), "1 m s^-2");
    assert_eq!(eval("2 kg * 3 m / (1 s * 1 s) + 1 N"), "7000 g m s^-2");
    assert_eq!(eval("1 N + 2 kg * 3 m / (1 s * 1 s)"), "7000 m g s^-2");
    assert_eq!(eval("90 km / 1 h"), "25 m s^-1");
    assert_eq!(eval("1 h - 59 min - 60 s"), "0 s");
    assert_eq!(eval("1 cm * 1 cm"), "1/10000 m^2");
}

#[test]
fn evaluation_errors_carry_their_cause() {
    let scope = Scope::default();
    match eval_in(&scope, "y + 1") {
        Err(EngineError::UndefinedVariable(name)) => assert_eq!(name, "y"),
        other => panic!("expected an undefined variable, got {:?}", other),
    }
    match eval_in(&scope, "5 smoots") {
        Err(EngineError::UnknownUnit(alias)) => assert_eq!(alias, "smoots"),
        other => panic!("expected an unknown unit, got {:?}", other),
    }
    assert!(matches!(eval_in(&scope, "1 / 0"), Err(EngineError::DivisionByZero)));
    assert!(matches!(eval_in(&scope, "1 m / (2 s - 2 s)"), Err(EngineError::DivisionByZero)));
    assert!(matches!(
        eval_in(&scope, "1 m + 1 s"),
        Err(EngineError::UnitMismatch { kind: MismatchKind::Add, .. })
    ));
    assert!(matches!(
        eval_in(&scope, "1 m - 1"),
        Err(EngineError::UnitMismatch { kind: MismatchKind::Subtract, .. })
    ));
    assert!(matches!(
        eval_in(&scope, "9223372036854775807 + 1"),
        Err(EngineError::Overflow)
    ));
    assert!(matches!(
        eval_in(&scope, "9223372036854775807 kg"),
        Err(EngineError::Overflow)
    ));
}

#[test]
fn the_left_operand_is_evaluated_first() {
    let scope = Scope::default();
    match eval_in(&scope, "a + b") {
        Err(EngineError::UndefinedVariable(name)) => assert_eq!(name, "a"),
        other => panic!("expected an undefined variable, got {:?}", other),
    }
    match eval_in(&scope, "1 / 0 + b") {
        Err(EngineError::DivisionByZero) => {}
        other => panic!("expected a division by zero, got {:?}", other),
    }
    match eval_in(&scope, "b + 1 / 0") {
        Err(EngineError::UndefinedVariable(name)) => assert_eq!(name, "b"),
        other => panic!("expected an undefined variable, got {:?}", other),
    }
    match eval_in(&scope, "(1 m + 1 s) * c") {
        Err(EngineError::UnitMismatch { .. }) => {}
        other => panic!("expected a mismatch, got {:?}", other),
    }
}

#[test]
fn cast_nodes_are_evaluated() {
    let registry = UnitRegistry::standard();
    let scope = Scope::default();
    let inner = parse_expression("2 g * 3 m / (1 s * 1 s)").unwrap();
    let cast = Expression::UnitCast(Box::new(inner), "N".to_string());
    assert_eq!(evaluate(&cast, &scope, &registry).unwrap().render(), "6 m g s^-2");
    let cast = Expression::UnitCast(Box::new(parse_expression("5").unwrap()), "N".to_string());
    assert!(matches!(
        evaluate(&cast, &scope, &registry),
        Err(EngineError::UnitMismatch { kind: MismatchKind::Convert, .. })
    ));
    let cast = Expression::UnitCast(Box::new(parse_expression("5 m").unwrap()), "ells".to_string());
    match evaluate(&cast, &scope, &registry) {
        Err(EngineError::UnknownUnit(alias)) => assert_eq!(alias, "ells"),
        other => panic!("expected an unknown unit, got {:?}", other),
    }
    let cast = Expression::UnitCast(Box::new(parse_expression("1 / 0").unwrap()), "m".to_string());
    assert!(matches!(evaluate(&cast, &scope, &registry), Err(EngineError::DivisionByZero)));
}

#[test]
fn apply_operator_dispatches_on_the_operator() {
    let a = Value::number(q(6, 1));
    let b = Value::number(q(4, 1));
    assert_eq!(apply_operator(Operator::Add, &a, &b).unwrap().render(), "10");
    assert_eq!(apply_operator(Operator::Sub, &a, &b).unwrap().render(), "2");
    assert_eq!(apply_operator(Operator::Mul, &a, &b).unwrap().render(), "24");
    assert_eq!(apply_operator(Operator::Div, &a, &b).unwrap().render(), "3/2");
}

#[test]
fn scope_binds_and_rebinds_names() {
    let mut scope = Scope::default();
    assert!(scope.get("x").is_none());
    scope.set("x", Value::number(q(1, 1)));
    scope.set("y", Value::number(q(2, 1)));
    assert_eq!(scope.get("x").unwrap().render(), "1");
    assert_eq!(scope.get("y").unwrap().render(), "2");
    scope.set("x", Value::number(q(3, 1)));
    assert_eq!(scope.get("x").unwrap().render(), "3");
    assert_eq!(scope.get("y").unwrap().render(), "2");
    assert!(scope.get("X").is_none());
    assert!(scope.get("").is_none());
    assert_eq!(eval_in(&scope, "x * y + x").unwrap().render(), "9");
}

#[test]
fn one_record_per_statement_in_order() {
    assert_eq!(records(""), pairs(&[]));
    assert_eq!(
        records("x = 5 kg\ny = 4 grams\n\nx + y\n"),
        pairs(&[("x = 5 kg", "5000 g"), ("y = 4 grams", "4 g"), ("x + y", "5004 g")])
    );
    assert_eq!(
        records("x = 1\nx = x + 1\nx"),
        pairs(&[("x = 1", "1"), ("x = x + 1", "2"), ("x", "2")])
    );
    assert_eq!(
        records("f = 10 N\na = f / 2 kg\n  a * 3 s  "),
        pairs(&[
            ("f = 10 N", "10000 m g s^-2"),
            ("a = f / 2 kg", "5 m s^-2"),
            ("  a * 3 s  ", "15 m s^-1"),
        ])
    );
}

#[test]
fn a_bare_expression_does_not_change_the_scope() {
    match evaluate_document("x = 1\ny\n", &UnitRegistry::standard()) {
        Err(EngineError::UndefinedVariable(name)) => assert_eq!(name, "y"),
        other => panic!("expected an undefined variable, got {:?}", other),
    }
    assert_eq!(
        records("x = 1\nx + 1\nx"),
        pairs(&[("x = 1", "1"), ("x + 1", "2"), ("x", "1")])
    );
}

#[test]
fn a_failed_assignment_binds_nothing() {
    let registry = UnitRegistry::standard();
    let statements = parse_document("x = 1\nx = 1 / 0\nx").unwrap();
    let executor = Executor::run(&statements, &registry);
    assert_eq!(executor.record_count(), 1);
    assert!(matches!(
        executor.state(),
        ExecutionState::Errored(EngineError::DivisionByZero)
    ));
    assert_eq!(executor.scope().get("x").unwrap().render(), "1");
    match evaluate_document("x = x", &registry) {
        Err(EngineError::UndefinedVariable(name)) => assert_eq!(name, "x"),
        other => panic!("expected an undefined variable, got {:?}", other),
    }
}

#[test]
fn a_name_must_be_assigned_before_it_is_used() {
    match evaluate_document("x\nx = 1", &UnitRegistry::standard()) {
        Err(EngineError::UndefinedVariable(name)) => assert_eq!(name, "x"),
        other => panic!("expected an undefined variable, got {:?}", other),
    }
}

#[test]
fn execution_stops_at_the_first_error_and_keeps_earlier_records() {
    let registry = UnitRegistry::standard();
    let statements = parse_document("a = 2 m\nb = a * 3\nc = b + 1 s\nd = 7\nd").unwrap();
    assert_eq!(statements.len(), 5);
    let executor = Executor::run(&statements, &registry);
    assert_eq!(executor.record_count(), 2);
    assert_eq!(executor.record(0).source_text(), "a = 2 m");
    assert_eq!(executor.record(0).formatted(), "2 m");
    assert_eq!(executor.record(1).source_text(), "b = a * 3");
    assert_eq!(executor.record(1).formatted(), "6 m");
    assert_eq!(executor.record(1).value().magnitude(), q(6, 1));
    assert!(matches!(
        executor.state(),
        ExecutionState::Errored(EngineError::UnitMismatch { kind: MismatchKind::Add, .. })
    ));
    assert!(executor.scope().get("a").is_some());
    assert!(executor.scope().get("b").is_some());
    assert!(executor.scope().get("c").is_none());
    assert!(executor.scope().get("d").is_none());
    let (records, state) = executor.into_parts();
    assert_eq!(records.len(), 2);
    assert!(matches!(state, ExecutionState::Errored(_)));
    assert!(matches!(
        evaluate_document("a = 2 m\nb = a * 3\nc = b + 1 s\nd = 7\nd", &registry),
        Err(EngineError::UnitMismatch { kind: MismatchKind::Add, .. })
    ));
}

#[test]
fn the_error_reported_is_that_of_the_first_failing_statement() {
    let registry = UnitRegistry::standard();
    assert!(matches!(
        evaluate_document("1 / 0\n1 m + 1 s\nq", &registry),
        Err(EngineError::DivisionByZero)
    ));
    assert!(matches!(
        evaluate_document("1 m + 1 s\n1 / 0", &registry),
        Err(EngineError::UnitMismatch { .. })
    ));
}

#[test]
fn a_malformed_document_executes_nothing() {
    let registry = UnitRegistry::standard();
    match evaluate_document("x = 1\ny = 1 / 0\nz = (", &registry) {
        Err(EngineError::ParseError { position, expected, found }) => {
            assert_eq!(position, 21);
            assert_eq!(expected, Expected::Operand);
            assert_eq!(found, None);
        }
        other => panic!("expected a syntax error, got {:?}", other),
    }
    assert!(parse_document("x = 1\ny = 1 / 0\nz = (").is_err());
}

#[test]
fn executor_runs_step_by_step() {
    let registry = UnitRegistry::standard();
    let mut executor = Executor::new();
    assert!(matches!(executor.state(), ExecutionState::Running));
    assert_eq!(executor.record_count(), 0);
    let first = SourceStatement {
        text: "x = 2 m".to_string(),
        statement: Statement::Assignment("x".to_string(), parse_expression("2 m").unwrap()),
    };
    executor.execute(&first, &registry);
    assert!(matches!(executor.state(), ExecutionState::Running));
    assert_eq!(executor.record_count(), 1);
    assert_eq!(executor.record(0).formatted(), "2 m");
    let bad = SourceStatement {
        text: "x / 0".to_string(),
        statement: Statement::Expression(parse_expression("x / 0").unwrap()),
    };
    executor.execute(&bad, &registry);
    assert!(matches!(
        executor.state(),
        ExecutionState::Errored(EngineError::DivisionByZero)
    ));
    assert_eq!(executor.record_count(), 1);
    executor.execute(&first, &registry);
    assert_eq!(executor.record_count(), 1);
    assert!(matches!(executor.state(), ExecutionState::Errored(_)));
    executor.finish();
    assert!(matches!(
        executor.state(),
        ExecutionState::Errored(EngineError::DivisionByZero)
    ));
}

#[test]
fn a_finished_executor_is_done_and_accepts_nothing_more() {
    let registry = UnitRegistry::standard();
    let statements = parse_document("1\n2").unwrap();
    let mut executor = Executor::run(&statements, &registry);
    assert!(matches!(executor.state(), ExecutionState::Done));
    assert_eq!(executor.record_count(), 2);
    executor.execute(&statements[0], &registry);
    assert_eq!(executor.record_count(), 2);
    assert!(matches!(executor.state(), ExecutionState::Done));
    let empty = Executor::run(&Vec::new(), &registry);
    assert!(matches!(empty.state(), ExecutionState::Done));
    assert_eq!(empty.record_count(), 0);
}

#[test]
fn evaluation_is_deterministic() {
    let document = "m = 3 kg\nv = 4 m / 2 s\ne = m * v * v / 2\ne";
    assert_eq!(records(document), records(document));
    assert_eq!(records(document)[3], ("e".to_string(), "6000 g m^2 s^-2".to_string()));
}

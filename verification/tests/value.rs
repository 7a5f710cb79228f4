use calculatex::dimension::DimensionVector;
use calculatex::error::{EngineError, MismatchKind};
use calculatex::rational::Rational;
use calculatex::registry::{UnitDefinition, UnitRegistry};
use calculatex::value::Value;

fn q(n: i64, d: i64) -> Rational {
    Rational::new(n, d).unwrap()
}

fn lit(n: i64, alias: &str) -> Value {
    Value::from_literal(&q(n, 1), alias, &UnitRegistry::standard()).unwrap()
}

fn num(n: i64) -> Value {
    Value::number(q(n, 1))
}

fn dims_text(d: &DimensionVector) -> String {
    let mut out = String::new();
    d.push_rendered(&mut out);
    out
}

#[test]
fn literal_is_brought_to_base_units_at_once() {
    let v = lit(5, "kg");
    assert_eq!(v.magnitude(), q(5000, 1));
    assert_eq!(dims_text(v.dimensions()), " g");
    let v = lit(3, "cm");
    assert_eq!(v.magnitude(), q(3, 100));
    assert_eq!(v.render(), "3/100 m");
    let v = lit(2, "h");
    assert_eq!(v.render(), "7200 s");
    let v = Value::from_literal(&q(1, 2), "km", &UnitRegistry::standard()).unwrap();
    assert_eq!(v.render(), "500 m");
}

#[test]
fn literal_with_an_unknown_alias_fails() {
    let r = Value::from_literal(&q(5, 1), "furlongs", &UnitRegistry::standard());
    match r {
        Err(EngineError::UnknownUnit(alias)) => assert_eq!(alias, "furlongs"),
        other => panic!("expected an unknown unit, got {:?}", other),
    }
}

#[test]
fn literal_whose_scaled_magnitude_is_out_of_range_overflows() {
    let r = Value::from_literal(&q(i64::MAX, 1), "kg", &UnitRegistry::standard());
    assert!(matches!(r, Err(EngineError::Overflow)));
    let r = Value::from_literal(&q(1, i64::MAX), "mm", &UnitRegistry::standard());
    assert!(matches!(r, Err(EngineError::Overflow)));
    let r = Value::from_literal(&q(i64::MAX, 1), "g", &UnitRegistry::standard());
    assert_eq!(r.unwrap().magnitude(), q(i64::MAX, 1));
}

#[test]
fn from_definition_multiplies_by_the_scale() {
    let def = UnitDefinition::new(DimensionVector::base("m"), q(254, 10000));
    let v = Value::from_definition(&q(10, 1), &def).unwrap();
    assert_eq!(v.render(), "127/500 m");
    assert_eq!(def.scale(), q(127, 5000));
    assert_eq!(dims_text(def.dimensions()), " m");
}

#[test]
fn number_has_no_dimensions() {
    let v = num(7);
    assert!(v.dimensions().is_dimensionless());
    assert_eq!(v.render(), "7");
    let v = Value::new(q(3, 2), DimensionVector::base("s"));
    assert_eq!(v.render(), "3/2 s");
}

#[test]
fn add_needs_equal_dimensions() {
    assert_eq!(lit(5, "grams").add(&lit(4, "grams")).unwrap().render(), "9 g");
    assert_eq!(lit(5, "kilograms").add(&lit(4, "grams")).unwrap().render(), "5004 g");
    assert_eq!(num(1).add(&num(2)).unwrap().render(), "3");
    match lit(1, "m").add(&lit(1, "s")) {
        Err(EngineError::UnitMismatch { kind, left, right }) => {
            assert_eq!(kind, MismatchKind::Add);
            assert_eq!(dims_text(&left), " m");
            assert_eq!(dims_text(&right), " s");
        }
        other => panic!("expected a mismatch, got {:?}", other),
    }
    assert!(matches!(
        lit(1, "m").add(&num(1)),
        Err(EngineError::UnitMismatch { kind: MismatchKind::Add, .. })
    ));
    assert!(matches!(
        num(1).add(&lit(1, "m")),
        Err(EngineError::UnitMismatch { kind: MismatchKind::Add, .. })
    ));
}

#[test]
fn add_takes_the_order_of_the_left_operand() {
    let mg = lit(1, "m").mul(&lit(1, "g")).unwrap();
    let gm = lit(2, "g").mul(&lit(1, "m")).unwrap();
    assert_eq!(mg.add(&gm).unwrap().render(), "3 m g");
    assert_eq!(gm.add(&mg).unwrap().render(), "3 g m");
    assert_eq!(mg.sub(&gm).unwrap().render(), "-1 m g");
}

#[test]
fn sub_needs_equal_dimensions() {
    assert_eq!(num(5).sub(&num(3)).unwrap().render(), "2");
    assert_eq!(lit(1, "km").sub(&lit(1, "m")).unwrap().render(), "999 m");
    match lit(1, "m").sub(&lit(1, "g")) {
        Err(EngineError::UnitMismatch { kind, left, right }) => {
            assert_eq!(kind, MismatchKind::Subtract);
            assert_eq!(dims_text(&left), " m");
            assert_eq!(dims_text(&right), " g");
        }
        other => panic!("expected a mismatch, got {:?}", other),
    }
}

#[test]
fn mismatch_comes_before_overflow() {
    let big = Value::new(q(i64::MAX, 1), DimensionVector::base("m"));
    let other = Value::new(q(i64::MAX, 1), DimensionVector::base("s"));
    assert!(matches!(big.add(&other), Err(EngineError::UnitMismatch { .. })));
    assert!(matches!(big.add(&big), Err(EngineError::Overflow)));
    assert!(matches!(big.sub(&big.mul(&num(-1)).unwrap()), Err(EngineError::Overflow)));
}

#[test]
fn mul_never_fails_on_dimensions() {
    assert_eq!(lit(5, "meters").mul(&lit(4, "grams")).unwrap().render(), "20 m g");
    assert_eq!(lit(3, "m").mul(&lit(2, "m")).unwrap().render(), "6 m^2");
    assert_eq!(lit(3, "m").mul(&num(2)).unwrap().render(), "6 m");
    assert_eq!(num(2).mul(&lit(3, "m")).unwrap().render(), "6 m");
    assert_eq!(lit(2, "N").mul(&lit(3, "m")).unwrap().render(), "6000 m^2 g s^-2");
    assert_eq!(lit(2, "Hz").mul(&lit(3, "s")).unwrap().render(), "6");
}

#[test]
fn div_never_fails_on_dimensions() {
    assert_eq!(lit(5, "meters").div(&lit(4, "grams")).unwrap().render(), "5/4 m g^-1");
    assert_eq!(lit(6, "m").div(&lit(2, "m")).unwrap().render(), "3");
    assert_eq!(lit(1, "N").div(&lit(1, "kg")).unwrap().render(), "1 m s^-2");
    assert_eq!(num(1).div(&lit(2, "s")).unwrap().render(), "1/2 s^-1");
    assert_eq!(lit(1, "J").div(&lit(1, "N")).unwrap().render(), "1 m");
    assert_eq!(lit(1, "m").div(&lit(1, "J")).unwrap().render(), "1/1000 m^-1 g^-1 s^2");
}

#[test]
fn div_by_a_zero_magnitude_fails_whatever_the_dimensions() {
    assert!(matches!(num(1).div(&num(0)), Err(EngineError::DivisionByZero)));
    assert!(matches!(lit(1, "m").div(&lit(0, "s")), Err(EngineError::DivisionByZero)));
    assert!(matches!(num(0).div(&lit(0, "kg")), Err(EngineError::DivisionByZero)));
    assert_eq!(num(0).div(&lit(2, "kg")).unwrap().render(), "0 g^-1");
}

#[test]
fn mul_and_div_report_overflow() {
    let big = Value::new(q(i64::MAX, 1), DimensionVector::base("m"));
    assert!(matches!(big.mul(&num(2)), Err(EngineError::Overflow)));
    assert!(matches!(big.div(&Value::number(q(1, 2))), Err(EngineError::Overflow)));
}

#[test]
fn div_undoes_mul_on_concrete_values() {
    let a = lit(7, "N");
    let b = Value::new(q(-3, 5), DimensionVector::base("s"));
    let back = a.mul(&b).unwrap().div(&b).unwrap();
    assert_eq!(back.magnitude(), a.magnitude());
    assert!(back.dimensions().same_dimensions(a.dimensions()));
    assert_eq!(back.render(), "7000 m g s^-2");
    let c = Value::new(q(2, 3), DimensionVector::base("g").invert());
    let d = lit(5, "g");
    let back = c.mul(&d).unwrap().div(&d).unwrap();
    assert_eq!(back.magnitude(), c.magnitude());
    assert!(back.dimensions().same_dimensions(c.dimensions()));
}

#[test]
fn cast_needs_equal_dimensions_and_keeps_the_magnitude() {
    let registry = UnitRegistry::standard();
    let v = lit(5, "kg");
    let shown = v.cast_to("mg", &registry).unwrap();
    assert_eq!(shown.magnitude(), v.magnitude());
    assert_eq!(shown.render(), "5000 g");
    assert!(matches!(
        v.cast_to("m", &registry),
        Err(EngineError::UnitMismatch { kind: MismatchKind::Convert, .. })
    ));
    assert!(matches!(
        lit(0, "kg").cast_to("s", &registry),
        Err(EngineError::UnitMismatch { kind: MismatchKind::Convert, .. })
    ));
    match v.cast_to("parsecs", &registry) {
        Err(EngineError::UnknownUnit(alias)) => assert_eq!(alias, "parsecs"),
        other => panic!("expected an unknown unit, got {:?}", other),
    }
}

#[test]
fn cast_to_definition_reports_both_vectors() {
    let target = UnitDefinition::new(DimensionVector::base("s"), q(60, 1));
    match lit(2, "m").cast_to_definition(&target) {
        Err(EngineError::UnitMismatch { kind, left, right }) => {
            assert_eq!(kind, MismatchKind::Convert);
            assert_eq!(dims_text(&left), " m");
            assert_eq!(dims_text(&right), " s");
        }
        other => panic!("expected a mismatch, got {:?}", other),
    }
    let shown = lit(2, "min").cast_to_definition(&target).unwrap();
    assert_eq!(shown.render(), "120 s");
}

#[test]
fn with_unit_counts_the_quantity_in_the_unit() {
    let registry = UnitRegistry::standard();
    let newton = registry.resolve("N").unwrap();
    assert_eq!(num(5).with_unit(&newton).unwrap().render(), "5000 m g s^-2");
    let metre = registry.resolve("m").unwrap();
    assert_eq!(lit(2, "m").with_unit(&metre).unwrap().render(), "2 m^2");
    assert!(matches!(
        Value::number(q(i64::MAX, 1)).with_unit(&newton),
        Err(EngineError::Overflow)
    ));
}

#[test]
fn render_writes_magnitude_then_dimensions() {
    assert_eq!(num(0).render(), "0");
    assert_eq!(Value::number(q(-1, 3)).render(), "-1/3");
    assert_eq!(lit(1, "W").render(), "1000 m^2 g s^-3");
    assert_eq!(lit(1, "Pa").render(), "1000 m^-1 g s^-2");
    assert_eq!(lit(3, "mol").render(), "3 mol");
}

#[test]
fn clone_of_a_value_is_the_same_value() {
    let v = lit(5, "N");
    let c = v.clone();
    assert_eq!(c.render(), v.render());
    assert_eq!(c.magnitude(), v.magnitude());
}

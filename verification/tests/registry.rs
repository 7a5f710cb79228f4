use calculatex::error::EngineError;
use calculatex::rational::Rational;
use calculatex::registry::UnitRegistry;

fn q(n: i64, d: i64) -> Rational {
    Rational::new(n, d).unwrap()
}

fn entry(alias: &str) -> (String, Rational) {
    let def = UnitRegistry::standard().resolve(alias).unwrap();
    let mut dims = String::new();
    def.dimensions().push_rendered(&mut dims);
    (dims, def.scale())
}

#[test]
fn every_name_of_a_unit_resolves_to_the_same_definition() {
    for alias in ["m", "meter", "meters"] {
        assert_eq!(entry(alias), (" m".to_string(), q(1, 1)));
    }
    for alias in ["g", "gram", "grams"] {
        assert_eq!(entry(alias), (" g".to_string(), q(1, 1)));
    }
    for alias in ["kg", "kilogram", "kilograms"] {
        assert_eq!(entry(alias), (" g".to_string(), q(1000, 1)));
    }
    for alias in ["s", "second", "seconds"] {
        assert_eq!(entry(alias), (" s".to_string(), q(1, 1)));
    }
}

#[test]
fn prefixed_units_have_their_scale() {
    assert_eq!(entry("km"), (" m".to_string(), q(1000, 1)));
    assert_eq!(entry("kilometers"), (" m".to_string(), q(1000, 1)));
    assert_eq!(entry("cm"), (" m".to_string(), q(1, 100)));
    assert_eq!(entry("centimeter"), (" m".to_string(), q(1, 100)));
    assert_eq!(entry("mm"), (" m".to_string(), q(1, 1000)));
    assert_eq!(entry("millimeters"), (" m".to_string(), q(1, 1000)));
    assert_eq!(entry("mg"), (" g".to_string(), q(1, 1000)));
    assert_eq!(entry("milligrams"), (" g".to_string(), q(1, 1000)));
    assert_eq!(entry("ms"), (" s".to_string(), q(1, 1000)));
    assert_eq!(entry("millisecond"), (" s".to_string(), q(1, 1000)));
}

#[test]
fn units_of_time_count_seconds() {
    assert_eq!(entry("min"), (" s".to_string(), q(60, 1)));
    assert_eq!(entry("minutes"), (" s".to_string(), q(60, 1)));
    assert_eq!(entry("h"), (" s".to_string(), q(3600, 1)));
    assert_eq!(entry("hour"), (" s".to_string(), q(3600, 1)));
    assert_eq!(entry("hours"), (" s".to_string(), q(3600, 1)));
}

#[test]
fn other_base_units_have_scale_one() {
    assert_eq!(entry("A"), (" A".to_string(), q(1, 1)));
    assert_eq!(entry("amperes"), (" A".to_string(), q(1, 1)));
    assert_eq!(entry("K"), (" K".to_string(), q(1, 1)));
    assert_eq!(entry("kelvin"), (" K".to_string(), q(1, 1)));
    assert_eq!(entry("mol"), (" mol".to_string(), q(1, 1)));
    assert_eq!(entry("moles"), (" mol".to_string(), q(1, 1)));
    assert_eq!(entry("cd"), (" cd".to_string(), q(1, 1)));
    assert_eq!(entry("candela"), (" cd".to_string(), q(1, 1)));
}

#[test]
fn derived_units_decompose_into_base_dimensions() {
    for alias in ["N", "newton", "newtons"] {
        assert_eq!(entry(alias), (" m g s^-2".to_string(), q(1000, 1)));
    }
    for alias in ["J", "joule", "joules"] {
        assert_eq!(entry(alias), (" m^2 g s^-2".to_string(), q(1000, 1)));
    }
    for alias in ["W", "watt", "watts"] {
        assert_eq!(entry(alias), (" m^2 g s^-3".to_string(), q(1000, 1)));
    }
    for alias in ["Pa", "pascal", "pascals"] {
        assert_eq!(entry(alias), (" m^-1 g s^-2".to_string(), q(1000, 1)));
    }
    for alias in ["Hz", "hertz"] {
        assert_eq!(entry(alias), (" s^-1".to_string(), q(1, 1)));
    }
}

#[test]
fn aliases_are_case_sensitive_and_exact() {
    let registry = UnitRegistry::standard();
    for alias in ["", "M", "KG", "Kg", "n", "metre", "kgs", " kg", "kg ", "hz", "x"] {
        match registry.resolve(alias) {
            Err(EngineError::UnknownUnit(name)) => assert_eq!(name, alias),
            other => panic!("expected an unknown unit for {:?}, got {:?}", alias, other),
        }
    }
}

#[test]
fn resolved_definition_is_a_copy() {
    let registry = UnitRegistry::standard();
    let a = registry.resolve("N").unwrap();
    let b = a.clone();
    assert_eq!(a.scale(), b.scale());
    assert!(a.dimensions().same_dimensions(b.dimensions()));
    assert_eq!(b.dimensions().len(), 3);
}

//! The unit registry: every recognised unit alias with its dimensions and
//! its scale relative to the base units (metre, gram, second, ampere,
//! kelvin, mole, candela).

use vstd::prelude::*;
use crate::assoc::{lemma_lookup_none, lemma_lookup_prefix, to_map, Text};
use crate::dimension::{dims_wf, DimensionVector, Dims};
use crate::error::{EngineError, ErrorView};
use crate::fraction::{ratio, Fraction};
use crate::rational::Rational;

verus! {

/// The model of a unit definition.
pub struct UnitView {
    pub dimensions: Dims,
    pub scale: Fraction,
}

impl UnitView {
    /// The dimensions are well formed and the scale is a stored fraction.
    pub open spec fn wf(self) -> bool {
        dims_wf(self.dimensions) && self.scale.in_lowest_terms() && self.scale.fits()
    }
}

/// What one unit of an alias is: its dimensions, and how many base units
/// it holds.
#[derive(Debug)]
pub struct UnitDefinition {
    dimensions: DimensionVector,
    scale: Rational,
}

impl View for UnitDefinition {
    type V = UnitView;

    closed spec fn view(&self) -> UnitView {
        UnitView { dimensions: self.dimensions@, scale: self.scale@ }
    }
}

impl Clone for UnitDefinition {
    fn clone(&self) -> (r: Self)
        ensures
            r@ == self@,
    {
        UnitDefinition { dimensions: self.dimensions.clone(), scale: self.scale }
    }
}

impl UnitDefinition {
    pub open spec fn wf(&self) -> bool {
        self@.wf()
    }

    pub fn new(dimensions: DimensionVector, scale: Rational) -> (r: UnitDefinition)
        requires
            dimensions.wf(),
            scale.wf(),
        ensures
            r.wf(),
            r@ == (UnitView { dimensions: dimensions@, scale: scale@ }),
    {
        UnitDefinition { dimensions, scale }
    }

    pub fn dimensions(&self) -> (d: &DimensionVector)
        ensures
            d@ == self@.dimensions,
    {
        &self.dimensions
    }

    pub fn scale(&self) -> (s: Rational)
        ensures
            s@ == self@.scale,
    {
        self.scale
    }
}

/// An alias with its definition.
#[derive(Debug)]
struct UnitEntry {
    alias: String,
    definition: UnitDefinition,
}

impl View for UnitEntry {
    type V = (Text, UnitView);

    closed spec fn view(&self) -> (Text, UnitView) {
        (self.alias@, self.definition@)
    }
}

/// The table of recognised units. It is built once and only read after.
#[derive(Debug)]
pub struct UnitRegistry {
    units: Vec<UnitEntry>,
}

impl View for UnitRegistry {
    type V = Map<Text, UnitView>;

    closed spec fn view(&self) -> Map<Text, UnitView> {
        to_map(self.entries())
    }
}

/// The unit with the given dimensions and the scale `n / d`.
pub open spec fn unit(dimensions: Dims, n: int, d: int) -> UnitView {
    UnitView { dimensions, scale: ratio(n, d) }
}

/// The dimension vector of one base dimension.
pub open spec fn base_dims(symbol: Text) -> Dims {
    seq![(symbol, Fraction::integer(1))]
}

/// Mass times length over time squared.
pub open spec fn force_dims() -> Dims {
    seq![
        ("m"@, Fraction::integer(1)),
        ("g"@, Fraction::integer(1)),
        ("s"@, Fraction::integer(-2)),
    ]
}

/// Force times length.
pub open spec fn energy_dims() -> Dims {
    seq![
        ("m"@, Fraction::integer(2)),
        ("g"@, Fraction::integer(1)),
        ("s"@, Fraction::integer(-2)),
    ]
}

/// Energy over time.
pub open spec fn power_dims() -> Dims {
    seq![
        ("m"@, Fraction::integer(2)),
        ("g"@, Fraction::integer(1)),
        ("s"@, Fraction::integer(-3)),
    ]
}

/// Force over area.
pub open spec fn pressure_dims() -> Dims {
    seq![
        ("m"@, Fraction::integer(-1)),
        ("g"@, Fraction::integer(1)),
        ("s"@, Fraction::integer(-2)),
    ]
}

/// One over time.
pub open spec fn frequency_dims() -> Dims {
    seq![("s"@, Fraction::integer(-1))]
}

/// The units of length, in the order in which the table lists them.
pub open spec fn length_units() -> Seq<(Text, UnitView)> {
    let d = base_dims("m"@);
    seq![
        ("m"@, unit(d, 1, 1)),
        ("meter"@, unit(d, 1, 1)),
        ("meters"@, unit(d, 1, 1)),
        ("km"@, unit(d, 1000, 1)),
        ("kilometer"@, unit(d, 1000, 1)),
        ("kilometers"@, unit(d, 1000, 1)),
        ("cm"@, unit(d, 1, 100)),
        ("centimeter"@, unit(d, 1, 100)),
        ("centimeters"@, unit(d, 1, 100)),
        ("mm"@, unit(d, 1, 1000)),
        ("millimeter"@, unit(d, 1, 1000)),
        ("millimeters"@, unit(d, 1, 1000)),
    ]
}

/// The units of mass.
pub open spec fn mass_units() -> Seq<(Text, UnitView)> {
    let d = base_dims("g"@);
    seq![
        ("g"@, unit(d, 1, 1)),
        ("gram"@, unit(d, 1, 1)),
        ("grams"@, unit(d, 1, 1)),
        ("kg"@, unit(d, 1000, 1)),
        ("kilogram"@, unit(d, 1000, 1)),
        ("kilograms"@, unit(d, 1000, 1)),
        ("mg"@, unit(d, 1, 1000)),
        ("milligram"@, unit(d, 1, 1000)),
        ("milligrams"@, unit(d, 1, 1000)),
    ]
}

/// The units of time.
pub open spec fn time_units() -> Seq<(Text, UnitView)> {
    let d = base_dims("s"@);
    seq![
        ("s"@, unit(d, 1, 1)),
        ("second"@, unit(d, 1, 1)),
        ("seconds"@, unit(d, 1, 1)),
        ("ms"@, unit(d, 1, 1000)),
        ("millisecond"@, unit(d, 1, 1000)),
        ("milliseconds"@, unit(d, 1, 1000)),
        ("min"@, unit(d, 60, 1)),
        ("minute"@, unit(d, 60, 1)),
        ("minutes"@, unit(d, 60, 1)),
        ("h"@, unit(d, 3600, 1)),
        ("hour"@, unit(d, 3600, 1)),
        ("hours"@, unit(d, 3600, 1)),
    ]
}

/// The units of the remaining base dimensions: current, temperature,
/// amount of substance, luminous intensity.
pub open spec fn other_base_units() -> Seq<(Text, UnitView)> {
    seq![
        ("A"@, unit(base_dims("A"@), 1, 1)),
        ("ampere"@, unit(base_dims("A"@), 1, 1)),
        ("amperes"@, unit(base_dims("A"@), 1, 1)),
        ("K"@, unit(base_dims("K"@), 1, 1)),
        ("kelvin"@, unit(base_dims("K"@), 1, 1)),
        ("mol"@, unit(base_dims("mol"@), 1, 1)),
        ("mole"@, unit(base_dims("mol"@), 1, 1)),
        ("moles"@, unit(base_dims("mol"@), 1, 1)),
        ("cd"@, unit(base_dims("cd"@), 1, 1)),
        ("candela"@, unit(base_dims("cd"@), 1, 1)),
    ]
}

/// The derived units. Their scale is 1000 where the SI unit is built on
/// the kilogram, the base unit of mass here being the gram.
pub open spec fn derived_units() -> Seq<(Text, UnitView)> {
    seq![
        ("N"@, unit(force_dims(), 1000, 1)),
        ("newton"@, unit(force_dims(), 1000, 1)),
        ("newtons"@, unit(force_dims(), 1000, 1)),
        ("J"@, unit(energy_dims(), 1000, 1)),
        ("joule"@, unit(energy_dims(), 1000, 1)),
        ("joules"@, unit(energy_dims(), 1000, 1)),
        ("W"@, unit(power_dims(), 1000, 1)),
        ("watt"@, unit(power_dims(), 1000, 1)),
        ("watts"@, unit(power_dims(), 1000, 1)),
        ("Pa"@, unit(pressure_dims(), 1000, 1)),
        ("pascal"@, unit(pressure_dims(), 1000, 1)),
        ("pascals"@, unit(pressure_dims(), 1000, 1)),
        ("Hz"@, unit(frequency_dims(), 1, 1)),
        ("hertz"@, unit(frequency_dims(), 1, 1)),
    ]
}

/// The whole standard table, as a list.
pub open spec fn standard_entries() -> Seq<(Text, UnitView)> {
    length_units() + mass_units() + time_units() + other_base_units() + derived_units()
}

/// The standard table, as a map from alias to definition.
pub open spec fn standard_units() -> Map<Text, UnitView> {
    to_map(standard_entries())
}

/// The dimensions of a mechanical quantity: length to the given power,
/// mass, and time to the given power.
fn mechanical(length: i32, time: i32) -> (r: DimensionVector)
    requires
        length != 0,
        time != 0,
    ensures
        r.wf(),
        r@ == seq![
            ("m"@, Fraction::integer(length as int)),
            ("g"@, Fraction::integer(1)),
            ("s"@, Fraction::integer(time as int)),
        ],
{
    proof {
        reveal_strlit("m");
        reveal_strlit("g");
        reveal_strlit("s");
        assert("m"@[0] != "g"@[0] && "m"@[0] != "s"@[0] && "g"@[0] != "s"@[0]);
    }
    let mut r = DimensionVector::dimensionless();
    r.push("m", Rational::from_integer(length));
    proof {
        lemma_lookup_none(r@, "g"@);
    }
    r.push("g", Rational::from_integer(1));
    proof {
        lemma_lookup_none(r@, "s"@);
    }
    r.push("s", Rational::from_integer(time));
    r
}

impl UnitRegistry {
    /// The entries of the table, in the order in which they were defined.
    pub closed spec fn entries(&self) -> Seq<(Text, UnitView)> {
        Seq::new(self.units@.len(), |i: int| self.units@[i]@)
    }

    /// Every definition in the table is well formed.
    pub closed spec fn wf(&self) -> bool {
        forall|i: int| 0 <= i < self.units@.len() ==> (#[trigger] self.units@[i]).definition.wf()
    }

    fn empty() -> (r: UnitRegistry)
        ensures
            r.wf(),
            r.entries() == Seq::<(Text, UnitView)>::empty(),
    {
        let r = UnitRegistry { units: Vec::new() };
        assert(r.entries() =~= Seq::<(Text, UnitView)>::empty());
        r
    }

    /// Adds the unit `alias` with the given dimensions and the scale
    /// `numerator / denominator`.
    fn define(
        &mut self,
        alias: &str,
        dimensions: &DimensionVector,
        numerator: i64,
        denominator: i64,
    )
        requires
            old(self).wf(),
            dimensions.wf(),
            0 < numerator,
            0 < denominator,
        ensures
            final(self).wf(),
            final(self).entries() == old(self).entries().push(
                (alias@, unit(dimensions@, numerator as int, denominator as int)),
            ),
    {
        match Rational::new(numerator, denominator) {
            Ok(scale) => {
                let entry = UnitEntry {
                    alias: alias.to_owned(),
                    definition: UnitDefinition::new(dimensions.clone(), scale),
                };
                self.units.push(entry);
                assert(final(self).entries() =~= old(self).entries().push(
                    (alias@, unit(dimensions@, numerator as int, denominator as int)),
                ));
            },
            Err(_) => {
            },
        }
    }

    /// Adds `short`, `long` and `long` with an `s` as three names of one
    /// unit; `plural` is the third name.
    fn define_named(
        &mut self,
        short: &str,
        long: &str,
        plural: &str,
        dimensions: &DimensionVector,
        numerator: i64,
        denominator: i64,
    )
        requires
            old(self).wf(),
            dimensions.wf(),
            0 < numerator,
            0 < denominator,
        ensures
            final(self).wf(),
            final(self).entries() == old(self).entries().push(
                (short@, unit(dimensions@, numerator as int, denominator as int)),
            ).push((long@, unit(dimensions@, numerator as int, denominator as int))).push(
                (plural@, unit(dimensions@, numerator as int, denominator as int)),
            ),
    {
        self.define(short, dimensions, numerator, denominator);
        self.define(long, dimensions, numerator, denominator);
        self.define(plural, dimensions, numerator, denominator);
    }

    /// The definition of `alias`, or `UnknownUnit` when the table does not
    /// have it.
    pub fn resolve(&self, alias: &str) -> (r: Result<UnitDefinition, EngineError>)
        requires
            self.wf(),
        ensures
            match r {
                Ok(d) => self@.contains_key(alias@) && d@ == self@[alias@] && d.wf(),
                Err(e) => !self@.contains_key(alias@) && e@ == ErrorView::UnknownUnit(alias@),
            },
    {
        let key = alias.to_owned();
        let mut i: usize = self.units.len();
        while i > 0
            invariant
                i <= self.units.len(),
                self.wf(),
                key@ == alias@,
                forall|j: int|
                    i <= j < self.entries().len() ==> (#[trigger] self.entries()[j]).0 != alias@,
            decreases i,
        {
            i -= 1;
            assert(self.entries()[i as int] == self.units@[i as int]@);
            if self.units[i].alias == key {
                proof {
                    lemma_lookup_prefix(self.entries(), i + 1, alias@);
                    assert(self.entries().take(i + 1).last() == self.entries()[i as int]);
                }
                return Ok(self.units[i].definition.clone());
            }
        }
        proof {
            lemma_lookup_none(self.entries(), alias@);
        }
        Err(EngineError::UnknownUnit(key))
    }

    /// The standard table.
    pub fn standard() -> (r: UnitRegistry)
        ensures
            r.wf(),
            r@ == standard_units(),
    {
        let one = Rational::from_integer(1);
        let two = Rational::from_integer(2);
        let length = DimensionVector::base("m");
        let mass = DimensionVector::base("g");
        let time = DimensionVector::base("s");
        let current = DimensionVector::base("A");
        let temperature = DimensionVector::base("K");
        let amount = DimensionVector::base("mol");
        let intensity = DimensionVector::base("cd");
        let force = mechanical(1, -2);
        let energy = mechanical(2, -2);
        let power = mechanical(2, -3);
        let pressure = mechanical(-1, -2);
        let mut frequency = DimensionVector::dimensionless();
        frequency.push("s", Rational::from_integer(-1));

        let mut r = UnitRegistry::empty();
        r.define_named("m", "meter", "meters", &length, 1, 1);
        r.define_named("km", "kilometer", "kilometers", &length, 1000, 1);
        r.define_named("cm", "centimeter", "centimeters", &length, 1, 100);
        r.define_named("mm", "millimeter", "millimeters", &length, 1, 1000);
        assert(r.entries() =~= length_units());

        r.define_named("g", "gram", "grams", &mass, 1, 1);
        r.define_named("kg", "kilogram", "kilograms", &mass, 1000, 1);
        r.define_named("mg", "milligram", "milligrams", &mass, 1, 1000);
        assert(r.entries() =~= length_units() + mass_units());

        r.define_named("s", "second", "seconds", &time, 1, 1);
        r.define_named("ms", "millisecond", "milliseconds", &time, 1, 1000);
        r.define_named("min", "minute", "minutes", &time, 60, 1);
        r.define_named("h", "hour", "hours", &time, 3600, 1);
        assert(r.entries() =~= length_units() + mass_units() + time_units());

        r.define_named("A", "ampere", "amperes", &current, 1, 1);
        r.define("K", &temperature, 1, 1);
        r.define("kelvin", &temperature, 1, 1);
        r.define_named("mol", "mole", "moles", &amount, 1, 1);
        r.define("cd", &intensity, 1, 1);
        r.define("candela", &intensity, 1, 1);
        assert(r.entries() =~= length_units() + mass_units() + time_units() + other_base_units());

        r.define_named("N", "newton", "newtons", &force, 1000, 1);
        r.define_named("J", "joule", "joules", &energy, 1000, 1);
        r.define_named("W", "watt", "watts", &power, 1000, 1);
        r.define_named("Pa", "pascal", "pascals", &pressure, 1000, 1);
        r.define("Hz", &frequency, 1, 1);
        r.define("hertz", &frequency, 1, 1);
        assert(r.entries() =~= standard_entries());
        r
    }
}

} // verus!

//! Quantities: an exact magnitude in base units with its dimensions, and
//! the unit algebra on them.

use vstd::prelude::*;
use crate::assoc::Text;
use crate::assoc::{lemma_lookup_entry, lemma_lookup_some, lookup};
use crate::dimension::{
    combine_fits, combined, dims_equal, dims_wf, exponent_of, inverted, lemma_combined_exponent,
    lemma_combined_wf, lemma_inverted, render_dims, DimensionVector, Dims,
};
use crate::error::{fails_with, succeeds_with, EngineError, ErrorView, MismatchKind};
use crate::fraction::{
    lemma_div_undoes_mul, lemma_mul_undoes_div, lemma_negate_undoes_add, Fraction,
};
use crate::numtheory::gcd;
use crate::rational::{render_fraction, Rational};
use crate::registry::{UnitDefinition, UnitRegistry, UnitView};

verus! {

/// The model of a quantity.
pub struct ValueView {
    pub magnitude: Fraction,
    pub dims: Dims,
}

impl ValueView {
    /// The magnitude is a stored fraction and the dimensions are well
    /// formed.
    pub open spec fn wf(self) -> bool {
        self.magnitude.in_lowest_terms() && self.magnitude.fits() && dims_wf(self.dims)
    }
}

/// The literal `raw` tagged with a unit: the magnitude is brought to base
/// units at once.
pub open spec fn literal_value(raw: Fraction, definition: UnitView) -> Result<
    ValueView,
    ErrorView,
> {
    if !raw.mul(definition.scale).fits() {
        Err(ErrorView::Overflow)
    } else {
        Ok(ValueView { magnitude: raw.mul(definition.scale), dims: definition.dimensions })
    }
}

/// The literal `raw` tagged with the unit `alias` of the table `units`.
pub open spec fn literal_with_alias(raw: Fraction, alias: Text, units: Map<Text, UnitView>) -> Result<
    ValueView,
    ErrorView,
> {
    if !units.contains_key(alias) {
        Err(ErrorView::UnknownUnit(alias))
    } else {
        literal_value(raw, units[alias])
    }
}

/// The sum of two quantities: defined exactly when their dimensions are
/// equal.
pub open spec fn value_sum(a: ValueView, b: ValueView) -> Result<ValueView, ErrorView> {
    if !dims_equal(a.dims, b.dims) {
        Err(ErrorView::UnitMismatch { kind: MismatchKind::Add, left: a.dims, right: b.dims })
    } else if !a.magnitude.add(b.magnitude).fits() {
        Err(ErrorView::Overflow)
    } else {
        Ok(ValueView { magnitude: a.magnitude.add(b.magnitude), dims: a.dims })
    }
}

/// The difference of two quantities: defined exactly when their dimensions
/// are equal.
pub open spec fn value_difference(a: ValueView, b: ValueView) -> Result<ValueView, ErrorView> {
    if !dims_equal(a.dims, b.dims) {
        Err(ErrorView::UnitMismatch { kind: MismatchKind::Subtract, left: a.dims, right: b.dims })
    } else if !a.magnitude.sub(b.magnitude).fits() {
        Err(ErrorView::Overflow)
    } else {
        Ok(ValueView { magnitude: a.magnitude.sub(b.magnitude), dims: a.dims })
    }
}

/// The product of two quantities, whatever their dimensions.
pub open spec fn value_product(a: ValueView, b: ValueView) -> Result<ValueView, ErrorView> {
    if !a.magnitude.mul(b.magnitude).fits() || !combine_fits(a.dims, b.dims) {
        Err(ErrorView::Overflow)
    } else {
        Ok(ValueView { magnitude: a.magnitude.mul(b.magnitude), dims: combined(a.dims, b.dims) })
    }
}

/// The quotient of two quantities, whatever their dimensions; division by
/// a quantity of magnitude zero is an error.
pub open spec fn value_quotient(a: ValueView, b: ValueView) -> Result<ValueView, ErrorView> {
    if b.magnitude.is_zero() {
        Err(ErrorView::DivisionByZero)
    } else if !a.magnitude.div(b.magnitude).fits() || !combine_fits(a.dims, inverted(b.dims)) {
        Err(ErrorView::Overflow)
    } else {
        Ok(
            ValueView {
                magnitude: a.magnitude.div(b.magnitude),
                dims: combined(a.dims, inverted(b.dims)),
            },
        )
    }
}

/// The quantity `v` shown in the dimensions of a target unit: the same
/// magnitude, and the target's dimensions, which must equal those of `v`.
pub open spec fn value_cast(v: ValueView, target: UnitView) -> Result<ValueView, ErrorView> {
    if !dims_equal(v.dims, target.dimensions) {
        Err(
            ErrorView::UnitMismatch {
                kind: MismatchKind::Convert,
                left: v.dims,
                right: target.dimensions,
            },
        )
    } else {
        Ok(ValueView { magnitude: v.magnitude, dims: target.dimensions })
    }
}

/// The quantity `v` shown in the dimensions of the unit `alias`.
pub open spec fn cast_with_alias(v: ValueView, alias: Text, units: Map<Text, UnitView>) -> Result<
    ValueView,
    ErrorView,
> {
    if !units.contains_key(alias) {
        Err(ErrorView::UnknownUnit(alias))
    } else {
        value_cast(v, units[alias])
    }
}

/// How a quantity is written: the magnitude, then each dimension in stored
/// order.
pub open spec fn render_value(v: ValueView) -> Seq<char> {
    render_fraction(v.magnitude) + render_dims(v.dims)
}

/// The exponent that a well-formed vector gives a symbol is in lowest
/// terms and can be stored.
pub proof fn lemma_exponent_stored(d: Dims, symbol: Text)
    requires
        dims_wf(d),
    ensures
        exponent_of(d, symbol).in_lowest_terms(),
        exponent_of(d, symbol).fits(),
{
    if lookup(d, symbol) is Some {
        let i = lemma_lookup_some(d, symbol);
        assert(d[i].1 == exponent_of(d, symbol));
    } else {
        reveal_with_fuel(gcd, 3);
    }
}

/// Multiplication and division are each other's inverse: where the product
/// of `a` and `b` can be stored and `b` is not zero, dividing it by `b`
/// succeeds and gives the magnitude of `a` with the dimensions of `a`.
pub proof fn lemma_quotient_undoes_product(a: ValueView, b: ValueView)
    requires
        a.wf(),
        b.wf(),
        !b.magnitude.is_zero(),
        value_product(a, b) is Ok,
    ensures
        value_quotient(value_product(a, b)->Ok_0, b) is Ok,
        value_quotient(value_product(a, b)->Ok_0, b)->Ok_0.magnitude == a.magnitude,
        dims_equal(value_quotient(value_product(a, b)->Ok_0, b)->Ok_0.dims, a.dims),
{
    let p = value_product(a, b)->Ok_0;
    let back = inverted(b.dims);
    lemma_div_undoes_mul(a.magnitude, b.magnitude);
    lemma_combined_wf(a.dims, b.dims);
    lemma_inverted(b.dims, Seq::empty());
    assert forall|symbol: Text|
        exponent_of(p.dims, symbol).add(exponent_of(back, symbol)) == exponent_of(
            a.dims,
            symbol,
        ) by {
        lemma_combined_exponent(a.dims, b.dims, symbol);
        lemma_inverted(b.dims, symbol);
        lemma_exponent_stored(a.dims, symbol);
        lemma_exponent_stored(b.dims, symbol);
        assert(exponent_of(back, symbol) == exponent_of(b.dims, symbol).negate());
        lemma_negate_undoes_add(exponent_of(a.dims, symbol), exponent_of(b.dims, symbol));
    }
    assert forall|i: int| 0 <= i < p.dims.len() implies (#[trigger] p.dims[i]).1.add(
        exponent_of(back, p.dims[i].0),
    ).fits() by {
        lemma_lookup_entry(p.dims, i);
        lemma_exponent_stored(a.dims, p.dims[i].0);
        assert(exponent_of(p.dims, p.dims[i].0) == p.dims[i].1);
    }
    assert forall|symbol: Text|
        exponent_of(combined(p.dims, back), symbol) == exponent_of(a.dims, symbol) by {
        lemma_combined_exponent(p.dims, back, symbol);
    }
}

/// The other way round: where the quotient of `a` by `b` can be stored,
/// multiplying it by `b` succeeds and gives the magnitude of `a` with the
/// dimensions of `a`.
pub proof fn lemma_product_undoes_quotient(a: ValueView, b: ValueView)
    requires
        a.wf(),
        b.wf(),
        value_quotient(a, b) is Ok,
    ensures
        value_product(value_quotient(a, b)->Ok_0, b) is Ok,
        value_product(value_quotient(a, b)->Ok_0, b)->Ok_0.magnitude == a.magnitude,
        dims_equal(value_product(value_quotient(a, b)->Ok_0, b)->Ok_0.dims, a.dims),
{
    let q = value_quotient(a, b)->Ok_0;
    let back = inverted(b.dims);
    lemma_mul_undoes_div(a.magnitude, b.magnitude);
    lemma_inverted(b.dims, Seq::empty());
    lemma_combined_wf(a.dims, back);
    assert forall|symbol: Text|
        exponent_of(q.dims, symbol).add(exponent_of(b.dims, symbol)) == exponent_of(
            a.dims,
            symbol,
        ) by {
        lemma_combined_exponent(a.dims, back, symbol);
        lemma_inverted(b.dims, symbol);
        lemma_exponent_stored(a.dims, symbol);
        lemma_exponent_stored(b.dims, symbol);
        lemma_exponent_stored(back, symbol);
        assert(exponent_of(back, symbol).negate() == exponent_of(b.dims, symbol));
        lemma_negate_undoes_add(exponent_of(a.dims, symbol), exponent_of(back, symbol));
    }
    assert forall|i: int| 0 <= i < q.dims.len() implies (#[trigger] q.dims[i]).1.add(
        exponent_of(b.dims, q.dims[i].0),
    ).fits() by {
        lemma_lookup_entry(q.dims, i);
        lemma_exponent_stored(a.dims, q.dims[i].0);
        assert(exponent_of(q.dims, q.dims[i].0) == q.dims[i].1);
    }
    assert forall|symbol: Text|
        exponent_of(combined(q.dims, b.dims), symbol) == exponent_of(a.dims, symbol) by {
        lemma_combined_exponent(q.dims, b.dims, symbol);
    }
}

/// A magnitude in base units with its dimensions.
#[derive(Debug)]
pub struct Value {
    magnitude: Rational,
    dims: DimensionVector,
}

impl View for Value {
    type V = ValueView;

    closed spec fn view(&self) -> ValueView {
        ValueView { magnitude: self.magnitude@, dims: self.dims@ }
    }
}

impl Clone for Value {
    fn clone(&self) -> (r: Self)
        ensures
            r@ == self@,
    {
        Value { magnitude: self.magnitude, dims: self.dims.clone() }
    }
}

/// Whether the result is the given model result: the same value on
/// success, the same error on failure.
pub open spec fn agrees(r: Result<Value, EngineError>, model: Result<ValueView, ErrorView>) -> bool {
    match r {
        Ok(v) => succeeds_with(model, v@) && v.wf(),
        Err(e) => fails_with(model, e@),
    }
}

impl Value {
    pub open spec fn wf(&self) -> bool {
        self@.wf()
    }

    /// The quantity with the given magnitude, in base units, and
    /// dimensions.
    pub fn new(magnitude: Rational, dims: DimensionVector) -> (r: Value)
        requires
            magnitude.wf(),
            dims.wf(),
        ensures
            r.wf(),
            r@ == (ValueView { magnitude: magnitude@, dims: dims@ }),
    {
        Value { magnitude, dims }
    }

    /// The pure number `magnitude`.
    pub fn number(magnitude: Rational) -> (r: Value)
        requires
            magnitude.wf(),
        ensures
            r.wf(),
            r@ == (ValueView { magnitude: magnitude@, dims: Seq::empty() }),
    {
        Value { magnitude, dims: DimensionVector::dimensionless() }
    }

    pub fn magnitude(&self) -> (m: Rational)
        ensures
            m@ == self@.magnitude,
    {
        self.magnitude
    }

    pub fn dimensions(&self) -> (d: &DimensionVector)
        ensures
            d@ == self@.dims,
    {
        &self.dims
    }

    /// The literal `raw` tagged with a unit.
    pub fn from_definition(raw: &Rational, definition: &UnitDefinition) -> (r: Result<
        Value,
        EngineError,
    >)
        requires
            raw.wf(),
            definition.wf(),
        ensures
            agrees(r, literal_value(raw@, definition@)),
    {
        let scale = definition.scale();
        let magnitude = raw.mul(&scale)?;
        Ok(Value { magnitude, dims: definition.dimensions().clone() })
    }

    /// The literal `raw` tagged with the unit `alias`: `UnknownUnit` when
    /// the registry does not have the alias, else the magnitude times the
    /// unit's scale, with the unit's dimensions.
    pub fn from_literal(raw: &Rational, alias: &str, registry: &UnitRegistry) -> (r: Result<
        Value,
        EngineError,
    >)
        requires
            raw.wf(),
            registry.wf(),
        ensures
            agrees(r, literal_with_alias(raw@, alias@, registry@)),
    {
        let definition = registry.resolve(alias)?;
        Value::from_definition(raw, &definition)
    }

    /// The sum. Fails with `UnitMismatch` unless the dimensions are equal.
    pub fn add(&self, rhs: &Value) -> (r: Result<Value, EngineError>)
        requires
            self.wf(),
            rhs.wf(),
        ensures
            agrees(r, value_sum(self@, rhs@)),
            r is Err && r->Err_0@ is UnitMismatch <==> !dims_equal(self@.dims, rhs@.dims),
    {
        if !self.dims.same_dimensions(&rhs.dims) {
            return Err(
                EngineError::UnitMismatch {
                    kind: MismatchKind::Add,
                    left: self.dims.clone(),
                    right: rhs.dims.clone(),
                },
            );
        }
        let magnitude = self.magnitude.add(&rhs.magnitude)?;
        Ok(Value { magnitude, dims: self.dims.clone() })
    }

    /// The difference. Fails with `UnitMismatch` unless the dimensions are
    /// equal.
    pub fn sub(&self, rhs: &Value) -> (r: Result<Value, EngineError>)
        requires
            self.wf(),
            rhs.wf(),
        ensures
            agrees(r, value_difference(self@, rhs@)),
            r is Err && r->Err_0@ is UnitMismatch <==> !dims_equal(self@.dims, rhs@.dims),
    {
        if !self.dims.same_dimensions(&rhs.dims) {
            return Err(
                EngineError::UnitMismatch {
                    kind: MismatchKind::Subtract,
                    left: self.dims.clone(),
                    right: rhs.dims.clone(),
                },
            );
        }
        let magnitude = self.magnitude.sub(&rhs.magnitude)?;
        Ok(Value { magnitude, dims: self.dims.clone() })
    }

    /// The product. It never fails on the dimensions: the exponents are
    /// added.
    pub fn mul(&self, rhs: &Value) -> (r: Result<Value, EngineError>)
        requires
            self.wf(),
            rhs.wf(),
        ensures
            agrees(r, value_product(self@, rhs@)),
            r is Err ==> r->Err_0@ is Overflow,
    {
        let magnitude = self.magnitude.mul(&rhs.magnitude)?;
        let dims = self.dims.combine(&rhs.dims)?;
        Ok(Value { magnitude, dims })
    }

    /// The quotient. Fails with `DivisionByZero` when the magnitude of
    /// `rhs` is zero; it never fails on the dimensions.
    pub fn div(&self, rhs: &Value) -> (r: Result<Value, EngineError>)
        requires
            self.wf(),
            rhs.wf(),
        ensures
            agrees(r, value_quotient(self@, rhs@)),
            r is Err && r->Err_0@ is DivisionByZero <==> rhs@.magnitude.is_zero(),
            r is Err ==> r->Err_0@ is DivisionByZero || r->Err_0@ is Overflow,
    {
        let magnitude = self.magnitude.div(&rhs.magnitude)?;
        let dims = self.dims.combine(&rhs.dims.invert())?;
        Ok(Value { magnitude, dims })
    }

    /// The quantity shown in the dimensions of a target unit. Fails with
    /// `UnitMismatch` unless the dimensions are equal; the magnitude is
    /// never changed.
    pub fn cast_to_definition(&self, target: &UnitDefinition) -> (r: Result<Value, EngineError>)
        requires
            self.wf(),
            target.wf(),
        ensures
            agrees(r, value_cast(self@, target@)),
            r is Ok ==> r->Ok_0@.magnitude == self@.magnitude && dims_equal(
                r->Ok_0@.dims,
                self@.dims,
            ),
            r is Err <==> !dims_equal(self@.dims, target@.dimensions),
            r is Err ==> r->Err_0@ is UnitMismatch,
    {
        if !self.dims.same_dimensions(target.dimensions()) {
            return Err(
                EngineError::UnitMismatch {
                    kind: MismatchKind::Convert,
                    left: self.dims.clone(),
                    right: target.dimensions().clone(),
                },
            );
        }
        Ok(Value { magnitude: self.magnitude, dims: target.dimensions().clone() })
    }

    /// The quantity shown in the dimensions of the unit `alias`.
    pub fn cast_to(&self, alias: &str, registry: &UnitRegistry) -> (r: Result<Value, EngineError>)
        requires
            self.wf(),
            registry.wf(),
        ensures
            agrees(r, cast_with_alias(self@, alias@, registry@)),
            r is Ok ==> r->Ok_0@.magnitude == self@.magnitude && dims_equal(
                r->Ok_0@.dims,
                self@.dims,
            ),
            registry@.contains_key(alias@) && !dims_equal(
                self@.dims,
                registry@[alias@].dimensions,
            ) ==> r is Err && r->Err_0@ is UnitMismatch,
    {
        let target = registry.resolve(alias)?;
        self.cast_to_definition(&target)
    }

    /// The quantity counted in a unit: the quantity times one of `unit`.
    pub fn with_unit(&self, unit: &UnitDefinition) -> (r: Result<Value, EngineError>)
        requires
            self.wf(),
            unit.wf(),
        ensures
            agrees(
                r,
                value_product(
                    self@,
                    ValueView { magnitude: unit@.scale, dims: unit@.dimensions },
                ),
            ),
    {
        let one = Value { magnitude: unit.scale(), dims: unit.dimensions().clone() };
        self.mul(&one)
    }

    /// The quantity as text: the magnitude, then each dimension as a
    /// space, its symbol, and `^` with the exponent unless the exponent is
    /// one.
    pub fn render(&self) -> (s: String)
        requires
            self.wf(),
        ensures
            s@ == render_value(self@),
    {
        let mut s: String = String::new();
        self.magnitude.push_rendered(&mut s);
        self.dims.push_rendered(&mut s);
        assert(s@ =~= render_value(self@));
        s
    }
}

} // verus!

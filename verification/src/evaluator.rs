//! The evaluator: reduces an expression to a quantity, given the variables
//! in scope and the unit registry.

use vstd::prelude::*;
use crate::assoc::Text;
use crate::ast::{Expression, ExpressionView, Operator};
use crate::error::{EngineError, ErrorView};
use crate::registry::{UnitRegistry, UnitView};
use crate::scope::Scope;
use crate::value::{
    agrees, cast_with_alias, literal_with_alias, value_difference, value_product, value_quotient,
    value_sum, Value, ValueView,
};

verus! {

/// The operator applied to two quantities.
pub open spec fn apply(op: Operator, a: ValueView, b: ValueView) -> Result<ValueView, ErrorView> {
    match op {
        Operator::Add => value_sum(a, b),
        Operator::Sub => value_difference(a, b),
        Operator::Mul => value_product(a, b),
        Operator::Div => value_quotient(a, b),
    }
}

/// The value of an expression. A literal is a pure number or is brought to
/// base units through the registry; a variable stands for its value in
/// scope; an operator is applied to the values of its operands, the left
/// one first; a cast shows the value of its operand in the target's
/// dimensions. The first error met is the result.
pub open spec fn eval(
    e: ExpressionView,
    scope: Map<Text, ValueView>,
    units: Map<Text, UnitView>,
) -> Result<ValueView, ErrorView>
    decreases e,
{
    match e {
        ExpressionView::NumericLiteral(q) => Ok(ValueView { magnitude: q, dims: Seq::empty() }),
        ExpressionView::UnitLiteral(q, alias) => literal_with_alias(q, alias, units),
        ExpressionView::Variable(name) => if scope.contains_key(name) {
            Ok(scope[name])
        } else {
            Err(ErrorView::UndefinedVariable(name))
        },
        ExpressionView::BinaryOp(op, left, right) => match eval(*left, scope, units) {
            Err(e) => Err(e),
            Ok(a) => match eval(*right, scope, units) {
                Err(e) => Err(e),
                Ok(b) => apply(op, a, b),
            },
        },
        ExpressionView::UnitCast(inner, alias) => match eval(*inner, scope, units) {
            Err(e) => Err(e),
            Ok(v) => cast_with_alias(v, alias, units),
        },
    }
}

/// Applies the operator to two quantities.
pub fn apply_operator(op: Operator, a: &Value, b: &Value) -> (r: Result<Value, EngineError>)
    requires
        a.wf(),
        b.wf(),
    ensures
        agrees(r, apply(op, a@, b@)),
{
    match op {
        Operator::Add => a.add(b),
        Operator::Sub => a.sub(b),
        Operator::Mul => a.mul(b),
        Operator::Div => a.div(b),
    }
}

/// Evaluates `expression` with the variables of `scope` and the units of
/// `registry`.
pub fn evaluate(expression: &Expression, scope: &Scope, registry: &UnitRegistry) -> (r: Result<
    Value,
    EngineError,
>)
    requires
        expression.wf(),
        scope.wf(),
        registry.wf(),
    ensures
        agrees(r, eval(expression@, scope@, registry@)),
    decreases expression,
{
    match expression {
        Expression::NumericLiteral(q) => Ok(Value::number(*q)),
        Expression::UnitLiteral(q, alias) => Value::from_literal(q, alias.as_str(), registry),
        Expression::Variable(name) => match scope.get(name.as_str()) {
            Some(v) => Ok(v),
            None => Err(EngineError::UndefinedVariable(name.clone())),
        },
        Expression::BinaryOp(op, left, right) => {
            let a = evaluate(left, scope, registry)?;
            let b = evaluate(right, scope, registry)?;
            apply_operator(*op, &a, &b)
        },
        Expression::UnitCast(inner, alias) => {
            let v = evaluate(inner, scope, registry)?;
            v.cast_to(alias.as_str(), registry)
        },
    }
}

} // verus!

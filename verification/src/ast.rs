//! The syntax tree of a document: expressions and statements.

use vstd::prelude::*;
use crate::assoc::Text;
use crate::fraction::Fraction;
use crate::rational::Rational;

verus! {

/// The four arithmetic operators.
#[derive(Clone, Copy, Debug, PartialEq, Eq, Structural)]
pub enum Operator {
    Add,
    Sub,
    Mul,
    Div,
}

/// An expression.
#[derive(Debug, PartialEq, Eq)]
pub enum Expression {
    /// A pure number.
    NumericLiteral(Rational),
    /// A number tagged with a unit alias.
    UnitLiteral(Rational, String),
    /// A reference to a variable.
    Variable(String),
    /// An operator applied to a left and a right operand.
    BinaryOp(Operator, Box<Expression>, Box<Expression>),
    /// An expression shown in the dimensions of a target unit.
    UnitCast(Box<Expression>, String),
}

/// The model of an expression.
pub enum ExpressionView {
    NumericLiteral(Fraction),
    UnitLiteral(Fraction, Text),
    Variable(Text),
    BinaryOp(Operator, Box<ExpressionView>, Box<ExpressionView>),
    UnitCast(Box<ExpressionView>, Text),
}

impl View for Expression {
    type V = ExpressionView;

    open spec fn view(&self) -> ExpressionView {
        self.model()
    }
}

impl Expression {
    /// The model of the expression, node by node.
    pub open spec fn model(&self) -> ExpressionView
        decreases self,
    {
        match self {
            Expression::NumericLiteral(q) => ExpressionView::NumericLiteral(q@),
            Expression::UnitLiteral(q, alias) => ExpressionView::UnitLiteral(q@, alias@),
            Expression::Variable(name) => ExpressionView::Variable(name@),
            Expression::BinaryOp(op, left, right) => ExpressionView::BinaryOp(
                *op,
                Box::new(left.model()),
                Box::new(right.model()),
            ),
            Expression::UnitCast(inner, alias) => ExpressionView::UnitCast(
                Box::new(inner.model()),
                alias@,
            ),
        }
    }

    /// Every literal in the expression is a stored fraction in lowest
    /// terms.
    pub open spec fn wf(&self) -> bool
        decreases self,
    {
        match self {
            Expression::NumericLiteral(q) => q.wf(),
            Expression::UnitLiteral(q, _) => q.wf(),
            Expression::Variable(_) => true,
            Expression::BinaryOp(_, left, right) => left.wf() && right.wf(),
            Expression::UnitCast(inner, _) => inner.wf(),
        }
    }
}

/// A statement: an assignment to a name, or an expression to display.
#[derive(Debug, PartialEq, Eq)]
pub enum Statement {
    Assignment(String, Expression),
    Expression(Expression),
}

/// The model of a statement.
pub enum StatementView {
    Assignment(Text, ExpressionView),
    Expression(ExpressionView),
}

impl View for Statement {
    type V = StatementView;

    open spec fn view(&self) -> StatementView {
        match self {
            Statement::Assignment(name, e) => StatementView::Assignment(name@, e@),
            Statement::Expression(e) => StatementView::Expression(e@),
        }
    }
}

impl Statement {
    pub open spec fn wf(&self) -> bool {
        match self {
            Statement::Assignment(_, e) => e.wf(),
            Statement::Expression(e) => e.wf(),
        }
    }
}

impl StatementView {
    /// The expression that the statement evaluates.
    pub open spec fn expression(self) -> ExpressionView {
        match self {
            StatementView::Assignment(_, e) => e,
            StatementView::Expression(e) => e,
        }
    }
}

/// A statement together with its text in the document.
#[derive(Debug, PartialEq, Eq)]
pub struct SourceStatement {
    pub text: String,
    pub statement: Statement,
}

/// The model of a statement with its text.
pub struct SourceStatementView {
    pub text: Text,
    pub statement: StatementView,
}

impl View for SourceStatement {
    type V = SourceStatementView;

    open spec fn view(&self) -> SourceStatementView {
        SourceStatementView { text: self.text@, statement: self.statement@ }
    }
}

} // verus!

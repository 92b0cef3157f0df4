//! Scalar expressions over the columns of a chunk.
//!
//! Expressions are only described here. Evaluating one on a chunk is the engine's work, which the
//! executors are handed as a function.
use crate::array::{Column, DataChunk};
use crate::error::RwError;
use crate::interval::IntervalUnit;
use crate::types::{DataType, Datum, ScalarImpl};
use vstd::prelude::*;

verus! {

/// The operator of a binary expression.
#[derive(Debug, Clone, Copy, PartialEq, Eq, Structural)]
pub enum ExprType {
    Add,
    Subtract,
    /// The start of the tumbling window, of the length on the right, that holds the left side.
    TumbleStart,
}

/// A reference to a column by its position.
#[derive(Debug, PartialEq, Eq)]
pub struct InputRefExpression {
    pub return_type: DataType,
    pub idx: usize,
}

/// A constant.
#[derive(Debug, PartialEq, Eq)]
pub struct LiteralExpression {
    pub return_type: DataType,
    pub literal: Datum,
}

/// An operator applied to two expressions. Where one of them is null, so is the result.
#[derive(Debug, PartialEq, Eq)]
pub struct BinaryExpression {
    pub expr_type: ExprType,
    pub return_type: DataType,
    pub left: Expression,
    pub right: Expression,
}

/// An expression that the engine built from a plan, known by the number the engine gave it.
#[derive(Debug, PartialEq, Eq)]
pub struct EngineExpression {
    pub return_type: DataType,
    pub id: u64,
}

#[derive(Debug, PartialEq, Eq)]
pub enum Expression {
    InputRef(InputRefExpression),
    Literal(LiteralExpression),
    Binary(Box<BinaryExpression>),
    Engine(EngineExpression),
}

impl Expression {
    /// The type of the values that the expression evaluates to.
    pub open spec fn return_type_spec(self) -> DataType {
        match self {
            Expression::InputRef(e) => e.return_type,
            Expression::Literal(e) => e.return_type,
            Expression::Binary(e) => e.return_type,
            Expression::Engine(e) => e.return_type,
        }
    }

    pub fn return_type(&self) -> (r: DataType)
        ensures
            r == self.return_type_spec(),
    {
        match self {
            Expression::InputRef(e) => e.return_type,
            Expression::Literal(e) => e.return_type,
            Expression::Binary(e) => e.return_type,
            Expression::Engine(e) => e.return_type,
        }
    }
}

/// `outcome` is a possible outcome of the engine's evaluation of `expr` on `input`.
pub open spec fn evaluates<F>(
    eval: F,
    expr: Expression,
    input: DataChunk,
    outcome: Result<Column, RwError>,
) -> bool where F: Fn(&Expression, &DataChunk) -> Result<Column, RwError> {
    call_ensures(eval, (&expr, &input), outcome)
}

/// The engine can be asked to evaluate any expression on any chunk.
pub open spec fn evaluates_anything<F>(eval: F) -> bool where
    F: Fn(&Expression, &DataChunk) -> Result<Column, RwError>,
 {
    forall|expr: &Expression, input: &DataChunk| call_requires(eval, (expr, input))
}

/// The column at position `idx`.
pub open spec fn input_ref(return_type: DataType, idx: usize) -> Expression {
    Expression::InputRef(InputRefExpression { return_type, idx })
}

/// The constant interval `interval`.
pub open spec fn interval_literal(interval: IntervalUnit) -> Expression {
    Expression::Literal(
        LiteralExpression {
            return_type: DataType::Interval,
            literal: Some(ScalarImpl::Interval(interval)),
        },
    )
}

/// `left` and `right` joined by an operator.
pub open spec fn binary(
    expr_type: ExprType,
    return_type: DataType,
    left: Expression,
    right: Expression,
) -> Expression {
    Expression::Binary(Box::new(BinaryExpression { expr_type, return_type, left, right }))
}

pub fn new_input_ref_expr(return_type: DataType, idx: usize) -> (r: Expression)
    ensures
        r == input_ref(return_type, idx),
{
    Expression::InputRef(InputRefExpression { return_type, idx })
}

pub fn new_interval_expr(interval: IntervalUnit) -> (r: Expression)
    ensures
        r == interval_literal(interval),
{
    Expression::Literal(
        LiteralExpression {
            return_type: DataType::Interval,
            literal: Some(ScalarImpl::Interval(interval)),
        },
    )
}

pub fn new_binary_expr(
    expr_type: ExprType,
    return_type: DataType,
    left: Expression,
    right: Expression,
) -> (r: Expression)
    ensures
        r == binary(expr_type, return_type, left, right),
{
    Expression::Binary(Box::new(BinaryExpression { expr_type, return_type, left, right }))
}

} // verus!

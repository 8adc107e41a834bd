use vstd::prelude::*;

use crate::checked_operations::MathError;
use crate::evaluate_expression::{eval_simple_expression, spec_eval_simple_expression};
use crate::expression_value::MathOperator;

verus! {

/// One token of a simple calculation: an operator or a number.
#[derive(Debug, PartialEq)]
pub enum OperationItem<T> {
    Operator(MathOperator),
    Number(T),
}

/// A layer of a simple calculation: a token, or a nested layer.
#[derive(Debug, PartialEq)]
pub enum ExpressionLayer<T> {
    OperationItem(OperationItem<T>),
    Layer(Box<ExpressionLayer<T>>),
}

/// Evaluates a simple arithmetic expression consisting of two operand
/// bit patterns and a given operator: the checked application, with the
/// raw IEEE-754 result of the operation supplied by the caller.
pub fn checked_eval_simple_expression(
    left_operand: u32,
    operator: MathOperator,
    right_operand: u32,
    raw: u32,
) -> (r: Result<u32, MathError>)
    ensures
        r == spec_eval_simple_expression(left_operand, operator, right_operand, raw),
{
    eval_simple_expression(left_operand, operator, right_operand, raw)
}

} // verus!

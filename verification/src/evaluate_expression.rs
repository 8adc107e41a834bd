use vstd::prelude::*;

use crate::checked_operations::{classify_bits, is_zero_bits, CheckedFloatOperations, MathError};
use crate::expression_value::MathOperator;

verus! {

/// A node of a layered expression: a nested layer, an operator, or a
/// number.
#[derive(Debug, PartialEq)]
pub enum ExpressionLayer<T> {
    Layer(Box<Vec<ExpressionLayer<T>>>),
    Operator(MathOperator),
    Number(T),
}

/// The order the evaluator works in: nested layers first, then the three
/// operator tiers — `Pow`, then `Mul`/`Div`/`Rem`, then `Add`/`Sub`.
#[derive(Debug, PartialEq, Clone, Copy)]
pub enum OrderOfOperations {
    Parenthesis,
    Pow([MathOperator; 1]),
    MulDivAndRem([MathOperator; 3]),
    AddAndSub([MathOperator; 2]),
}

/// The failures of evaluating a layered expression.
#[derive(Debug, PartialEq, Eq, Structural, Clone, Copy)]
pub enum EvaluateExpressionError {
    MathError(MathError),
    EmptyParenthesis,
    MissingRightOperand,
    MissingLeftOperand,
    MissingOperator,
}

/// What the checked application of one operator to two operand bit
/// patterns yields, `raw` being the raw IEEE-754 result of the
/// operation: a division by a zero divisor is rejected before the raw
/// result is consulted, everything else classifies it.
pub open spec fn spec_eval_simple_expression(
    left_term: u32,
    operator: MathOperator,
    right_term: u32,
    raw: u32,
) -> Result<u32, MathError> {
    if operator == MathOperator::Div && is_zero_bits(right_term) {
        Err(MathError::DivisionBy0)
    } else {
        classify_bits(raw)
    }
}

/// Applies the checked operation selected by `operator` to two
/// single-precision bit patterns. The caller supplies `raw`, the bit
/// pattern of the raw IEEE-754 result of the operation.
pub fn eval_simple_expression(
    left_term: u32,
    operator: MathOperator,
    right_term: u32,
    raw: u32,
) -> (r: Result<u32, MathError>)
    ensures
        r == spec_eval_simple_expression(left_term, operator, right_term, raw),
{
    match operator {
        MathOperator::Add => CheckedFloatOperations::checked_add(&left_term, right_term, raw),
        MathOperator::Sub => CheckedFloatOperations::checked_sub(&left_term, right_term, raw),
        MathOperator::Mul => CheckedFloatOperations::checked_mul(&left_term, right_term, raw),
        MathOperator::Div => CheckedFloatOperations::checked_div(&left_term, right_term, raw),
        MathOperator::Pow => CheckedFloatOperations::checked_pow(&left_term, right_term, raw),
        MathOperator::Rem => CheckedFloatOperations::checked_rem(&left_term, right_term, raw),
    }
}

} // verus!

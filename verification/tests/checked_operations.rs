use console_calculator::checked_operations::{CheckedFloatOperations, MathError};
use console_calculator::expression_value::MathOperator;
use console_calculator::simple_calculator;

fn checked_add(a: f32, b: f32) -> Result<f32, MathError> {
    CheckedFloatOperations::checked_add(&a.to_bits(), b.to_bits(), (a + b).to_bits())
        .map(f32::from_bits)
}

fn checked_sub(a: f32, b: f32) -> Result<f32, MathError> {
    CheckedFloatOperations::checked_sub(&a.to_bits(), b.to_bits(), (a - b).to_bits())
        .map(f32::from_bits)
}

fn checked_mul(a: f32, b: f32) -> Result<f32, MathError> {
    CheckedFloatOperations::checked_mul(&a.to_bits(), b.to_bits(), (a * b).to_bits())
        .map(f32::from_bits)
}

fn checked_div(a: f32, b: f32) -> Result<f32, MathError> {
    CheckedFloatOperations::checked_div(&a.to_bits(), b.to_bits(), (a / b).to_bits())
        .map(f32::from_bits)
}

fn checked_rem(a: f32, b: f32) -> Result<f32, MathError> {
    CheckedFloatOperations::checked_rem(&a.to_bits(), b.to_bits(), (a % b).to_bits())
        .map(f32::from_bits)
}

fn checked_pow(a: f32, b: f32) -> Result<f32, MathError> {
    CheckedFloatOperations::checked_pow(&a.to_bits(), b.to_bits(), a.powf(b).to_bits())
        .map(f32::from_bits)
}

#[test]
fn add() {
    let one: f32 = 1.0;
    assert_eq!(checked_add(f32::NAN, one).unwrap_err(), MathError::Nan);
    assert_eq!(checked_add(f32::INFINITY, one).unwrap_err(), MathError::Infinity);
    assert_eq!(checked_add(f32::NEG_INFINITY, one).unwrap_err(), MathError::NegativeInfinity);
    assert_eq!(checked_add(f32::MAX, one).unwrap_err(), MathError::Overflow);
    assert_eq!(checked_add(f32::MIN, -one).unwrap_err(), MathError::Underflow);
    assert_eq!(checked_add(one, one).unwrap(), 2.0);
}

#[test]
fn sub() {
    let one: f32 = 1.0;
    assert_eq!(checked_sub(f32::NAN, one).unwrap_err(), MathError::Nan);
    assert_eq!(checked_sub(f32::INFINITY, one).unwrap_err(), MathError::Infinity);
    assert_eq!(checked_sub(f32::NEG_INFINITY, one).unwrap_err(), MathError::NegativeInfinity);
    assert_eq!(checked_sub(f32::MAX, -one).unwrap_err(), MathError::Overflow);
    assert_eq!(checked_sub(f32::MIN, one).unwrap_err(), MathError::Underflow);
    assert_eq!(checked_sub(one, one).unwrap(), 0.0);
}

#[test]
fn mul() {
    let one: f32 = 1.0;
    assert_eq!(checked_mul(f32::NAN, one).unwrap_err(), MathError::Nan);
    assert_eq!(checked_mul(f32::INFINITY, one).unwrap_err(), MathError::Infinity);
    assert_eq!(checked_mul(f32::NEG_INFINITY, one).unwrap_err(), MathError::NegativeInfinity);
    assert_eq!(checked_mul(f32::MAX, one).unwrap_err(), MathError::Overflow);
    assert_eq!(checked_mul(f32::MIN, one).unwrap_err(), MathError::Underflow);
    assert_eq!(checked_mul(one, one).unwrap(), 1.0);
}

#[test]
fn div() {
    let one: f32 = 1.0;
    let zero: f32 = 0.0;
    assert_eq!(checked_div(f32::NAN, one).unwrap_err(), MathError::Nan);
    assert_eq!(checked_div(f32::INFINITY, one).unwrap_err(), MathError::Infinity);
    assert_eq!(checked_div(f32::NEG_INFINITY, one).unwrap_err(), MathError::NegativeInfinity);
    assert_eq!(checked_div(f32::MAX, one).unwrap_err(), MathError::Overflow);
    assert_eq!(checked_div(f32::MIN, one).unwrap_err(), MathError::Underflow);
    assert_eq!(checked_div(f32::MIN, zero).unwrap_err(), MathError::DivisionBy0);
    assert_eq!(checked_div(f32::MIN, -zero).unwrap_err(), MathError::DivisionBy0);
    assert_eq!(checked_div(one, one).unwrap(), 1.0);
}

#[test]
fn rem() {
    let one: f32 = 1.0;
    assert_eq!(checked_rem(f32::NAN, one).unwrap_err(), MathError::Nan);
    assert_eq!(checked_rem(f32::INFINITY, one).unwrap_err(), MathError::Nan);
    assert_eq!(checked_rem(f32::NEG_INFINITY, one).unwrap_err(), MathError::Nan);
    assert_eq!(checked_rem(f32::MAX, one).unwrap(), 0.0);
    assert_eq!(checked_rem(f32::MIN, one).unwrap(), -0.0);
    assert_eq!(checked_div(one, one).unwrap(), 1.0);
}

#[test]
fn pow() {
    let one: f32 = 1.0;
    assert_eq!(checked_pow(f32::NAN, one).unwrap_err(), MathError::Nan);
    assert_eq!(checked_pow(f32::INFINITY, one).unwrap_err(), MathError::Infinity);
    assert_eq!(checked_pow(f32::NEG_INFINITY, one).unwrap_err(), MathError::NegativeInfinity);
    assert_eq!(checked_pow(f32::MAX, one).unwrap_err(), MathError::Overflow);
    assert_eq!(checked_pow(f32::MIN, one).unwrap_err(), MathError::Underflow);
    assert_eq!(checked_pow(one, one).unwrap(), 1.0);
}

#[test]
fn classify_ordinary_values() {
    assert_eq!(checked_add(2.0, 3.0).unwrap(), 5.0);
    assert_eq!(checked_sub(2.0, 3.0).unwrap(), -1.0);
    assert_eq!(checked_mul(1.5, 2.0).unwrap(), 3.0);
    assert_eq!(checked_rem(7.0, 4.0).unwrap(), 3.0);
    assert_eq!(checked_pow(2.0, 10.0).unwrap(), 1024.0);
}

fn simple_eval(left: f32, operator: MathOperator, right: f32) -> Result<f32, MathError> {
    let raw = match operator {
        MathOperator::Add => left + right,
        MathOperator::Sub => left - right,
        MathOperator::Mul => left * right,
        MathOperator::Div => left / right,
        MathOperator::Rem => left % right,
        MathOperator::Pow => left.powf(right),
    };
    simple_calculator::checked_eval_simple_expression(
        left.to_bits(),
        operator,
        right.to_bits(),
        raw.to_bits(),
    )
    .map(f32::from_bits)
}

#[test]
fn checked_eval_simple_expression() {
    assert_eq!(simple_eval(6.0, MathOperator::Add, 2.0).unwrap(), 8.0);
    assert_eq!(simple_eval(6.0, MathOperator::Sub, 2.0).unwrap(), 4.0);
    assert_eq!(simple_eval(6.0, MathOperator::Mul, 2.0).unwrap(), 12.0);
    assert_eq!(simple_eval(6.0, MathOperator::Div, 2.0).unwrap(), 3.0);
    assert_eq!(simple_eval(6.0, MathOperator::Rem, 2.0).unwrap(), 0.0);
    assert_eq!(simple_eval(6.0, MathOperator::Pow, 2.0).unwrap(), 36.0);
}

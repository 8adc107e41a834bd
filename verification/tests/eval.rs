use console_calculator::checked_operations::MathError;
use console_calculator::eval::{EvalError, EvalOutcome, EvalRequest};
use console_calculator::expression_builder::{ExpressionBuilder, ExpressionBuilderError};
use console_calculator::expression_item::ExpressionItem;
use console_calculator::operator::Operator;

fn raw_operation(left: u32, op: Operator, right: u32) -> u32 {
    let a = f32::from_bits(left);
    let b = f32::from_bits(right);
    let raw = match op {
        Operator::Add => a + b,
        Operator::Subtract => a - b,
        Operator::Multiply => a * b,
        Operator::Divide => a / b,
        Operator::Power => a.powf(b),
        Operator::Remainder => a % b,
    };
    raw.to_bits()
}

fn answer(request: &EvalRequest) -> u32 {
    match request {
        EvalRequest::Number(lit) => {
            let text: String = lit.iter().collect();
            text.parse::<f32>().unwrap().to_bits()
        }
        EvalRequest::Operation(left, op, right) => raw_operation(*left, *op, *right),
    }
}

fn run_str(expression: &str) -> Result<f32, EvalError> {
    let mut answers: Vec<u32> = Vec::new();
    loop {
        match console_calculator::eval::eval_str(expression, &answers) {
            EvalOutcome::Value(v) => return Ok(f32::from_bits(v)),
            EvalOutcome::Failed(e) => return Err(e),
            EvalOutcome::Need(request) => answers.push(answer(&request)),
        }
    }
}

fn run_item(item: &ExpressionItem) -> Result<f32, EvalError> {
    let mut answers: Vec<u32> = Vec::new();
    loop {
        match item.eval(&answers) {
            EvalOutcome::Value(v) => return Ok(f32::from_bits(v)),
            EvalOutcome::Failed(e) => return Err(e),
            EvalOutcome::Need(request) => answers.push(answer(&request)),
        }
    }
}

#[test]
fn eval_str() {
    let expression = "1+1";
    let items = ExpressionBuilder::new(expression).get_expression().unwrap();
    let tree = ExpressionItem::Parentheses(items);
    let tree_result = run_item(&tree);
    assert!(tree_result.is_ok());
    assert_eq!(tree_result.as_ref().unwrap(), &2.0);
    assert_eq!(run_str(expression), tree_result);
}

#[test]
fn eval_ok() {
    assert!(run_str(r"+1").is_ok_and(|v| v == 1.0));
    assert!(run_str(r"1+1").is_ok_and(|v| v == 2.0));
    assert!(run_str(r"(1)+0").is_ok_and(|v| v == 1.0));
    assert!(run_str(r"1.5+(1)").is_ok_and(|v| v == 2.5));
    assert!(run_str(r"1").is_ok_and(|v| v == 1.0));
    assert!(run_str(r"-100.0").is_ok_and(|v| v == -100.0));
    assert!(run_str(r"1+1+1+1").is_ok_and(|v| v == 4.0));
    assert!(run_str(r"5+(10*2)").is_ok_and(|v| v == 25.0));
    assert!(run_str(r"1+-1+1+1").is_ok_and(|v| v == 2.0));
    assert!(run_str(r"2+2-2*2/2%2^2").is_ok_and(|v| v == 2.0));
    assert!(run_str(r"1+(1)").is_ok_and(|v| v == 2.0));
}

#[test]
fn eval_err() {
    assert!(run_str(r"+").is_err_and(|err| err == EvalError::ExpectedOperand));
    assert!(run_str(r"").is_err_and(|err| err == EvalError::ExpectedOperand));
    assert!(
        run_str(r"(1").is_err_and(
            |err| err == ExpressionBuilderError::ExpectedClosingParentheses.into()
        )
    );
    assert!(run_str(r"1)").is_err_and(|err| err == EvalError::ExpectedOperator));
    assert!(run_str(r"1+").is_err_and(|err| err == EvalError::ExpectedOperand));
}

#[test]
fn precedence() {
    assert!(run_str("2+3*4").is_ok_and(|v| v == 14.0));
    assert!(run_str("(2+3)*4").is_ok_and(|v| v == 20.0));
}

#[test]
fn power_is_left_associative() {
    assert!(run_str("2^3^2").is_ok_and(|v| v == 64.0));
}

#[test]
fn nested_groups() {
    assert!(run_str("((((5))))").is_ok_and(|v| v == 5.0));
    assert!(run_str("1+(2*(3+(4/(2))))").is_ok_and(|v| v == 11.0));
    assert!(run_str("1 + ( 2 * 3 )").is_ok_and(|v| v == 7.0));
}

#[test]
fn division_by_zero_either_sign() {
    assert!(run_str("1/0").is_err_and(|err| err == EvalError::MathError(MathError::DivisionBy0)));
    assert!(run_str("1/-0").is_err_and(|err| err == EvalError::MathError(MathError::DivisionBy0)));
}

#[test]
fn boundary_arithmetic() {
    let max = format!("{}", f32::MAX);
    let min = format!("{}", f32::MIN);
    assert!(
        run_str(&format!("{}+1", max))
            .is_err_and(|err| err == EvalError::MathError(MathError::Overflow))
    );
    assert!(
        run_str(&format!("{}-1", min))
            .is_err_and(|err| err == EvalError::MathError(MathError::Underflow))
    );
    assert!(
        run_str(&format!("{}+{}", max, max))
            .is_err_and(|err| err == EvalError::MathError(MathError::Infinity))
    );
    assert!(
        run_str(&format!("{}+{}", min, min))
            .is_err_and(|err| err == EvalError::MathError(MathError::NegativeInfinity))
    );
    assert!(
        run_str("0/0").is_err_and(|err| err == EvalError::MathError(MathError::DivisionBy0))
    );
}

#[test]
fn empty_group_fails_at_evaluation() {
    assert!(run_str("()").is_err_and(|err| err == EvalError::ExpectedOperand));
    assert!(run_str("1+()").is_err_and(|err| err == EvalError::ExpectedOperand));
}

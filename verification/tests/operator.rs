use console_calculator::operator::{Operator, OperatorError};

#[test]
fn operator() {
    for operator in ['+', '-', '*', '/', '^', '%'] {
        assert!(Operator::new(&operator).is_ok());
    }
    assert!(Operator::new(&' ').is_err_and(|e| e == OperatorError::UnexpectedOperator));
}

#[test]
fn try_from_char() {
    for operator in &['+', '-', '*', '/', '^', '%'] {
        assert!(Operator::new(operator).is_ok());
    }
    assert!(Operator::new(&' ').is_err_and(|e| e == OperatorError::UnexpectedOperator));
}

#[test]
fn into_char() {
    for operator_char in &['+', '-', '*', '/', '^', '%'] {
        let operator = Operator::new(operator_char);
        assert!(&operator.is_ok());
        assert_eq!(operator.unwrap().to_char(), *operator_char);
    }
}

#[test]
fn tiers() {
    assert!(Operator::Power.in_tier(1));
    assert!(Operator::Multiply.in_tier(2));
    assert!(Operator::Divide.in_tier(2));
    assert!(Operator::Remainder.in_tier(2));
    assert!(Operator::Add.in_tier(3));
    assert!(Operator::Subtract.in_tier(3));
    assert!(!Operator::Power.in_tier(2));
    assert!(!Operator::Add.in_tier(1));
}

use console_calculator::expression_value::{
    EquationItem, EvaluateOperator, ExpressionEnum, ExpressionError, MathOperator, ReductionStop,
    SolveExpression, TryPushEpression, TryPushEquation,
};

#[test]
fn eval_operators_ok() {
    let test_expression: Vec<EquationItem<f32>> = vec![
        EquationItem::Operand(1.0),
        EquationItem::Operator(MathOperator::Add),
        EquationItem::Operand(1.0),
        EquationItem::Operator(MathOperator::Sub),
        EquationItem::Operand(1.0),
    ];
    let test_expression_answer: Vec<EquationItem<f32>> = vec![
        EquationItem::Operand(2.0),
        EquationItem::Operator(MathOperator::Sub),
        EquationItem::Operand(1.0),
    ];
    assert_eq!(
        test_expression
            .eval_operators(&[MathOperator::Add], &vec![2.0])
            .unwrap(),
        test_expression_answer
    );
    let test_expression: Vec<EquationItem<f32>> = vec![EquationItem::Operand(1.0)];
    assert_eq!(
        test_expression
            .eval_operators(&[MathOperator::Add], &vec![])
            .unwrap(),
        vec![EquationItem::Operand(1.0)]
    );
}

#[test]
fn eval_operators_err() {
    let test_expression: Vec<EquationItem<f32>> = vec![
        EquationItem::Operand(1.0),
        EquationItem::Operator(MathOperator::Add),
        EquationItem::Operand(1.0),
        EquationItem::Operator(MathOperator::Sub),
    ];
    assert_eq!(
        test_expression
            .eval_operators(&[MathOperator::Add], &vec![2.0])
            .unwrap_err(),
        ReductionStop::Failed(ExpressionError::ExpectedOperand)
    );

    let test_expression: Vec<EquationItem<f32>> = vec![];
    assert_eq!(
        test_expression
            .eval_operators(&[MathOperator::Add], &vec![])
            .unwrap_err(),
        ReductionStop::Failed(ExpressionError::EmptyExpressionLayer)
    );

    let test_expression: Vec<EquationItem<f32>> = vec![
        EquationItem::Operand(1.0),
        EquationItem::Operator(MathOperator::Add),
        EquationItem::Operand(1.0),
        EquationItem::Operand(1.0),
    ];
    assert_eq!(
        test_expression
            .eval_operators(&[MathOperator::Add], &vec![2.0])
            .unwrap_err(),
        ReductionStop::Failed(ExpressionError::ExpectedOperator)
    );
    let test_expression: Vec<EquationItem<f32>> = vec![EquationItem::Operator(MathOperator::Add)];
    assert_eq!(
        test_expression
            .eval_operators(&[MathOperator::Add], &vec![])
            .unwrap_err(),
        ReductionStop::Failed(ExpressionError::ExpectedOperand)
    );
}

#[test]
fn eval_operators_requests_raw_results() {
    let test_expression: Vec<EquationItem<f32>> = vec![
        EquationItem::Operand(2.0),
        EquationItem::Operator(MathOperator::Mul),
        EquationItem::Operand(3.0),
    ];
    assert_eq!(
        test_expression
            .eval_operators(&[MathOperator::Mul], &vec![])
            .unwrap_err(),
        ReductionStop::Need(2.0, MathOperator::Mul, 3.0)
    );
    assert_eq!(
        test_expression
            .eval_operators(&[MathOperator::Mul], &vec![6.0])
            .unwrap(),
        vec![EquationItem::Operand(6.0)]
    );
}

#[test]
fn try_push() {
    let mut test_expression: Vec<ExpressionEnum<f32>> = vec![];
    assert_eq!(
        TryPushEpression::try_push(
            &mut test_expression,
            ExpressionEnum::Value(EquationItem::Operator(MathOperator::Add))
        )
        .unwrap_err(),
        ExpressionError::ExpectedOperand
    );
    assert_eq!(test_expression.last(), None);
    assert!(TryPushEpression::try_push(
        &mut test_expression,
        ExpressionEnum::Value(EquationItem::Operand(5.0))
    )
    .is_ok());
    assert_eq!(
        test_expression.last(),
        Some(&ExpressionEnum::Value(EquationItem::Operand(5.0f32)))
    );
    assert!(TryPushEpression::try_push(
        &mut test_expression,
        ExpressionEnum::Value(EquationItem::Operator(MathOperator::Add))
    )
    .is_ok());
    assert_eq!(
        test_expression.last(),
        Some(&ExpressionEnum::Value(EquationItem::Operator(MathOperator::Add)))
    );
}

#[test]
fn try_push_equation() {
    let mut flat: Vec<EquationItem<f32>> = vec![];
    assert_eq!(
        TryPushEquation::try_push(&mut flat, EquationItem::Operator(MathOperator::Mul))
            .unwrap_err(),
        ExpressionError::ExpectedOperand
    );
    assert!(TryPushEquation::try_push(&mut flat, EquationItem::Operand(1.0)).is_ok());
    assert_eq!(
        TryPushEquation::try_push(&mut flat, EquationItem::Operand(2.0)).unwrap_err(),
        ExpressionError::ExpectedOperator
    );
    assert!(TryPushEquation::try_push(&mut flat, EquationItem::Operator(MathOperator::Mul))
        .is_ok());
    assert_eq!(flat.len(), 2);
}

fn solve_driver(expression: &Vec<ExpressionEnum<f32>>) -> Result<f32, ExpressionError> {
    let mut answers: Vec<f32> = Vec::new();
    loop {
        match expression.solve(&answers) {
            Ok(v) => return Ok(v),
            Err(ReductionStop::Failed(e)) => return Err(e),
            Err(ReductionStop::Need(left, op, right)) => {
                let raw = match op {
                    MathOperator::Add => left + right,
                    MathOperator::Sub => left - right,
                    MathOperator::Mul => left * right,
                    MathOperator::Div => left / right,
                    MathOperator::Rem => left % right,
                    MathOperator::Pow => left.powf(right),
                };
                answers.push(raw);
            }
        }
    }
}

#[test]
fn solve_ok() {
    let expression: Vec<ExpressionEnum<f32>> = vec![
        EquationItem::Operand(1.0),
        EquationItem::Operator(MathOperator::Add),
        EquationItem::Operand(1.0),
    ]
    .into_iter()
    .map(|f| ExpressionEnum::Value(f))
    .collect();
    let nested_expression = vec![
        ExpressionEnum::Expression(Box::new(expression)),
        ExpressionEnum::Value(EquationItem::Operator(MathOperator::Add)),
        ExpressionEnum::Value(EquationItem::Operand(1.0)),
    ];
    assert_eq!(solve_driver(&nested_expression).unwrap(), 3.0);
}

#[test]
fn solve_err() {
    let nested_expression = vec![
        ExpressionEnum::Expression(Box::new(vec![])),
        ExpressionEnum::Value(EquationItem::Operator(MathOperator::Add)),
        ExpressionEnum::Value(EquationItem::Operand(1.0)),
    ];
    assert_eq!(
        solve_driver(&nested_expression).unwrap_err(),
        ExpressionError::EmptyExpressionLayer
    );
}

#[test]
fn equation_item_getters() {
    let operand: EquationItem<f32> = EquationItem::Operand(4.5);
    let operator: EquationItem<f32> = EquationItem::Operator(MathOperator::Rem);
    assert_eq!(operand.operand(), Some(4.5));
    assert_eq!(operand.operator(), None);
    assert_eq!(operator.operand(), None);
    assert_eq!(operator.operator(), Some(MathOperator::Rem));
}

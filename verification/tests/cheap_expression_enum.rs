use console_calculator::cheap_expression_enum::{
    CheapEquationItem, CheapReductionStop, Reduce, ReduceCheapEquationItemError,
};

fn operand(value: f32) -> CheapEquationItem {
    CheapEquationItem::Operand(value.to_bits())
}

fn reduce_driver(
    expression: &Vec<CheapEquationItem>,
) -> Result<Vec<CheapEquationItem>, ReduceCheapEquationItemError> {
    let mut answers: Vec<u32> = Vec::new();
    loop {
        match expression.try_reduced(&answers) {
            Ok(reduced) => return Ok(reduced),
            Err(CheapReductionStop::Failed(e)) => return Err(e),
            Err(CheapReductionStop::Need(left, operator, right)) => {
                let a = f32::from_bits(left);
                let b = f32::from_bits(right);
                let raw = match operator {
                    '^' => a.powf(b),
                    '*' => a * b,
                    '/' => a / b,
                    '%' => a % b,
                    '+' => a + b,
                    '-' => a - b,
                    _ => unreachable!(),
                };
                answers.push(raw.to_bits());
            }
        }
    }
}

#[test]
fn try_reduced() {
    let expression: Vec<CheapEquationItem> = vec![
        operand(1.0),
        CheapEquationItem::Operator('+'),
        CheapEquationItem::Parenthesis(vec![
            operand(1.0),
            CheapEquationItem::Operator('+'),
            operand(1.0),
        ]),
        CheapEquationItem::Operator('-'),
        operand(1.0),
    ];
    assert_eq!(reduce_driver(&expression).unwrap(), vec![operand(2.0)]);
    let nested_expression = vec![
        operand(1.0),
        CheapEquationItem::Operator('+'),
        CheapEquationItem::Parenthesis(expression),
    ];
    assert_eq!(reduce_driver(&nested_expression).unwrap(), vec![operand(3.0)]);

    let broken_expression: Vec<CheapEquationItem> =
        vec![operand(1.0), CheapEquationItem::Operator('+')];
    assert_eq!(
        reduce_driver(&broken_expression).unwrap_err(),
        ReduceCheapEquationItemError::ExpectedOperand,
    );

    let lone_operand: Vec<CheapEquationItem> = vec![operand(1.0)];
    assert_eq!(reduce_driver(&lone_operand).unwrap(), vec![operand(1.0)]);

    let wrapped_lone_operand: Vec<CheapEquationItem> = vec![
        CheapEquationItem::Parenthesis(vec![operand(1.0)]),
        CheapEquationItem::Operator('+'),
        operand(2.0),
    ];
    assert_eq!(reduce_driver(&wrapped_lone_operand).unwrap(), vec![operand(3.0)]);

    let broken_expression: Vec<CheapEquationItem> = vec![
        operand(1.0),
        CheapEquationItem::Operator('+'),
        operand(1.0),
        CheapEquationItem::Operator('+'),
        operand(1.0),
        CheapEquationItem::Operator('+'),
    ];
    assert_eq!(
        reduce_driver(&broken_expression).unwrap_err(),
        ReduceCheapEquationItemError::ExpectedOperand,
    );

    let broken_expression: Vec<CheapEquationItem> = vec![
        operand(1.0),
        CheapEquationItem::Operator('+'),
        operand(1.0),
        CheapEquationItem::Operator('+'),
        operand(1.0),
        operand(1.0),
    ];
    assert_eq!(
        reduce_driver(&broken_expression).unwrap_err(),
        ReduceCheapEquationItemError::ExpectedOperator,
    );
}

#[test]
fn cheap_getters() {
    let operand_item = operand(1.5);
    assert_eq!(operand_item.operand(), Some(1.5f32.to_bits()));
    assert_eq!(operand_item.operator(), None);
    let operator_item = CheapEquationItem::Operator('%');
    assert_eq!(operator_item.operator(), Some('%'));
    assert_eq!(operator_item.operand(), None);
    let unrecognised = CheapEquationItem::Operator('a');
    assert_eq!(unrecognised.operator(), None);
    let parenthesis = CheapEquationItem::Parenthesis(vec![operand(1.0)]);
    assert!(parenthesis.parenthesis().is_some_and(|children| children.len() == 1));
}

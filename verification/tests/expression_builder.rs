use console_calculator::expression_builder::{ExpressionBuilder, ExpressionBuilderError};
use console_calculator::expression_item::{render_items, ExpressionItem};
use console_calculator::operator::Operator;

fn operand(text: &str) -> ExpressionItem {
    ExpressionItem::Operand(text.chars().collect())
}

fn operator(symbol: char) -> ExpressionItem {
    ExpressionItem::Operator(Operator::new(&symbol).unwrap())
}

fn rendering(item: &ExpressionItem) -> String {
    item.render().iter().collect()
}

#[test]
fn get_operator() {
    let operator_chars = &['+', '-', '*', '/', '^', '%'];
    let operator_enums = operator_chars.map(|operator| Operator::new(&operator).unwrap());
    for (operator_char, operator_enum) in operator_chars.iter().zip(operator_enums) {
        assert!(ExpressionBuilder::new(&operator_char.to_string())
            .get_operator()
            .is_some_and(|operator| operator == operator_enum));
    }
}

#[test]
fn get_operand() {
    for sign in &['+', '-'] {
        for number in 0..100u16 {
            for rest in 0..100 {
                let expression = format!("{}{}.{}", sign, number, rest);
                assert!(ExpressionBuilder::new(&expression)
                    .get_operand()
                    .is_some_and(|lit| {
                        let text: String = lit.iter().collect();
                        text.parse::<f32>().unwrap() == expression.parse::<f32>().unwrap()
                    }));
            }
        }
    }
    assert!(ExpressionBuilder::new(".").get_operand().is_none());
    assert!(ExpressionBuilder::new(".0")
        .get_operand()
        .is_some_and(|lit| lit.iter().collect::<String>().parse::<f32>().unwrap() == 0.0));
    assert!(ExpressionBuilder::new("0.")
        .get_operand()
        .is_some_and(|lit| lit.iter().collect::<String>().parse::<f32>().unwrap() == 0.0));
}

#[test]
fn get_next_operand() {
    let operand_item = operand("1");
    let operator_item = operator('+');
    let parentheses = ExpressionItem::Parentheses(vec![operand("1"), operator('+'), operand("2")]);

    assert!(ExpressionBuilder::new(&rendering(&operand_item))
        .get_next(None)
        .is_ok_and(|ok| ok == operand_item));
    assert!(ExpressionBuilder::new(&rendering(&operand_item))
        .get_next(Some(&operand_item))
        .is_err_and(|err| err == ExpressionBuilderError::ExpectedOperator));
    assert!(ExpressionBuilder::new(&rendering(&operand_item))
        .get_next(Some(&operator_item))
        .is_ok_and(|ok| ok == operand_item));
    assert!(ExpressionBuilder::new(&rendering(&operand_item))
        .get_next(Some(&parentheses))
        .is_err_and(|err| err == ExpressionBuilderError::ExpectedOperator));
}

#[test]
fn get_next_operator() {
    let operand_item = operand("1");
    let operator_item = operator('+');
    let parentheses = ExpressionItem::Parentheses(vec![operand("1"), operator('+'), operand("2")]);

    assert!(ExpressionBuilder::new(&rendering(&operator_item))
        .get_next(None)
        .is_err_and(|err| err == ExpressionBuilderError::ExpectedOperand));
    assert!(ExpressionBuilder::new(&rendering(&operator_item))
        .get_next(Some(&operand_item))
        .is_ok_and(|ok| ok == operator_item));
    assert!(ExpressionBuilder::new(&rendering(&operator_item))
        .get_next(Some(&operator_item))
        .is_err_and(|err| err == ExpressionBuilderError::ExpectedOperand));
    assert!(ExpressionBuilder::new(&rendering(&operator_item))
        .get_next(Some(&parentheses))
        .is_ok_and(|ok| ok == operator_item));
}

#[test]
fn get_next_parentheses() {
    let operand_item = operand("1");
    let operator_item = operator('+');
    let parentheses = ExpressionItem::Parentheses(vec![operand("1"), operator('+'), operand("2")]);

    assert!(ExpressionBuilder::new(&rendering(&parentheses))
        .get_next(None)
        .is_ok_and(|ok| ok == parentheses));
    assert!(ExpressionBuilder::new(&rendering(&parentheses))
        .get_next(Some(&operand_item))
        .is_err_and(|err| err == ExpressionBuilderError::ExpectedOperator));
    assert!(ExpressionBuilder::new(&rendering(&parentheses))
        .get_next(Some(&operator_item))
        .is_ok_and(|ok| ok == parentheses));
    assert!(ExpressionBuilder::new(&rendering(&parentheses))
        .get_next(Some(&parentheses))
        .is_err_and(|err| err == ExpressionBuilderError::ExpectedOperator));
}

#[test]
fn get_parentheses_operands_operators() {
    let mut children: Vec<ExpressionItem> = Vec::new();
    for operator_char in &['+', '-', '*', '/', '^', '%'] {
        for sign in &["+", "-"] {
            for number in 0..10u16 {
                for rest in 0..10u16 {
                    children.push(operand(&format!("{}{}.{}", sign, number, rest)));
                    let parentheses_item = ExpressionItem::Parentheses(children.clone());
                    assert!(ExpressionBuilder::new(&rendering(&parentheses_item))
                        .get_parentheses()
                        .is_ok_and(|ok| ok.is_some_and(|some| some == parentheses_item)));
                    children.push(operator(*operator_char));
                }
            }
        }
    }
}

#[test]
fn get_parentheses() {
    let parentheses = ExpressionItem::Parentheses(vec![operand("1"), operator('+'), operand("2")]);
    assert!(ExpressionBuilder::new(&rendering(&parentheses))
        .get_parentheses()
        .is_ok_and(|ok| ok.is_some_and(|some| some == parentheses)));
    let parentheses = ExpressionItem::Parentheses(vec![operand("1"), operator('+'), operand("2")]);
    let expression_item =
        ExpressionItem::Parentheses(vec![parentheses, operator('-'), operand("2")]);
    assert!(ExpressionBuilder::new(&rendering(&expression_item))
        .get_parentheses()
        .is_ok_and(|ok| ok.is_some_and(|some| some == expression_item)));

    let single_vec_expression = ExpressionItem::Parentheses(vec![operand("1")]);
    assert!(ExpressionBuilder::new(&rendering(&single_vec_expression))
        .get_parentheses()
        .is_ok_and(|ok| ok.is_some_and(|some| some == single_vec_expression)));
    assert!(ExpressionBuilder::new("(1")
        .get_parentheses()
        .is_err_and(|err| err == ExpressionBuilderError::ExpectedClosingParentheses));
}

#[test]
fn get_expression() {
    let parentheses = ExpressionItem::Parentheses(vec![operand("1"), operator('+'), operand("2")]);
    let expression_item =
        ExpressionItem::Parentheses(vec![parentheses, operator('-'), operand("2")]);
    assert!(ExpressionBuilder::new(&rendering(&expression_item))
        .get_expression()
        .is_ok_and(|ok| ok == vec![expression_item]));
}

#[test]
fn round_trip_parse_render_parse() {
    for source in ["1.50+(2*3)", "-0.5", "((1))", "1+ ( 2 % 3 ) ^4", "()+0", "5.+.5"] {
        let first = ExpressionBuilder::new(source).get_expression().unwrap();
        let rendered: String = render_items(&first).iter().collect();
        let second = ExpressionBuilder::new(&rendered).get_expression().unwrap();
        assert_eq!(first, second);
    }
}

#[test]
fn whitespace_between_tokens() {
    assert!(ExpressionBuilder::new(" 1 + 1 ").get_expression().is_ok_and(|items| items
        == vec![operand("1"), operator('+'), operand("1")]));
}

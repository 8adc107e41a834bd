use console_calculator::expression_item::ExpressionItem;
use console_calculator::operator::Operator;

#[test]
fn display() {
    let operand = ExpressionItem::Operand(vec!['-', '0', '.', '1']);
    assert_eq!(operand.render().iter().collect::<String>(), "-0.1");
    let operator = ExpressionItem::Operator(Operator::Add);
    assert_eq!(operator.render().iter().collect::<String>(), "+");
    let operand_again = ExpressionItem::Operand(vec!['-', '0', '.', '1']);
    let operator_again = ExpressionItem::Operator(Operator::Add);
    let second_operand = ExpressionItem::Operand(vec!['-', '0', '.', '1']);
    let parentheses =
        ExpressionItem::Parentheses(vec![operand_again, operator_again, second_operand]);
    assert_eq!(parentheses.render().iter().collect::<String>(), "(-0.1+-0.1)");
}

#[test]
fn getters() {
    let operand = ExpressionItem::Operand(vec!['5', '0']);
    assert_eq!(operand.operand(), Some(vec!['5', '0']));
    let operator = ExpressionItem::Operator(Operator::Remainder);
    assert_eq!(operator.operator(), Some(Operator::Remainder));
    let child = ExpressionItem::Operand(vec!['1']);
    let parentheses = ExpressionItem::Parentheses(vec![child]);
    assert_eq!(
        parentheses.parentheses(),
        Some(vec![ExpressionItem::Operand(vec!['1'])])
    );
    let operand = ExpressionItem::Operand(vec!['5', '0']);
    assert_eq!(operand.operator(), None);
    let operator = ExpressionItem::Operator(Operator::Remainder);
    assert_eq!(operator.operand(), None);
}

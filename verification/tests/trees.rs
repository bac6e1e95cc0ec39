//! The parser: which tree, or which error, a text gives.

use grade_calculator::calculator::Calculator;
use grade_calculator::error::ParseError;
use grade_calculator::expr::Expr;
use grade_calculator::parser::Parser;
use grade_calculator::ui_elements::RowHeaders;

fn num(text: &str) -> Expr {
    Expr::Number(text.to_string())
}

fn unary(op: char, operand: Expr) -> Expr {
    Expr::UnaryOp { op, operand: Box::new(operand) }
}

fn binary(op: char, left: Expr, right: Expr) -> Expr {
    Expr::BinaryOp { op, left: Box::new(left), right: Box::new(right) }
}

fn parse(text: &str) -> Result<Expr, ParseError> {
    Parser::new(text)?.parse()
}

fn tree(text: &str) -> Expr {
    parse(text).unwrap()
}

fn failure(text: &str) -> ParseError {
    parse(text).unwrap_err()
}

#[test]
fn a_number_is_a_leaf() {
    assert_eq!(tree("42"), num("42"));
    assert_eq!(tree(" 4.25 "), num("4.25"));
}

#[test]
fn a_binary_operator_joins_two_operands() {
    assert_eq!(tree("2 + 3"), binary('+', num("2"), num("3")));
    assert_eq!(tree("10 - 4"), binary('-', num("10"), num("4")));
    assert_eq!(tree("3 * 4"), binary('*', num("3"), num("4")));
    assert_eq!(tree("15 / 3"), binary('/', num("15"), num("3")));
}

#[test]
fn multiplication_binds_tighter_than_addition() {
    assert_eq!(
        tree("2 + 3 * 4"),
        binary('+', num("2"), binary('*', num("3"), num("4")))
    );
    assert_eq!(
        tree("2 * 3 + 4"),
        binary('+', binary('*', num("2"), num("3")), num("4"))
    );
    assert_eq!(
        tree("10 - 6 / 2"),
        binary('-', num("10"), binary('/', num("6"), num("2")))
    );
}

#[test]
fn operators_of_one_precedence_group_from_the_left() {
    assert_eq!(
        tree("10 - 3 - 2"),
        binary('-', binary('-', num("10"), num("3")), num("2"))
    );
    assert_eq!(
        tree("8 / 4 * 2"),
        binary('*', binary('/', num("8"), num("4")), num("2"))
    );
    assert_eq!(
        tree("1 + 2 - 3 + 4"),
        binary(
            '+',
            binary('-', binary('+', num("1"), num("2")), num("3")),
            num("4")
        )
    );
}

#[test]
fn parentheses_group_and_leave_no_node() {
    assert_eq!(
        tree("(2 + 3) * 4"),
        binary('*', binary('+', num("2"), num("3")), num("4"))
    );
    assert_eq!(tree("((7))"), num("7"));
    assert_eq!(
        tree("10 / (2 + (3 - 1))"),
        binary(
            '/',
            num("10"),
            binary('+', num("2"), binary('-', num("3"), num("1")))
        )
    );
}

#[test]
fn a_sign_binds_tighter_than_any_binary_operator() {
    assert_eq!(tree("-5"), unary('-', num("5")));
    assert_eq!(tree("+5"), unary('+', num("5")));
    assert_eq!(tree("-5 + 3"), binary('+', unary('-', num("5")), num("3")));
    assert_eq!(tree("-2 * 3"), binary('*', unary('-', num("2")), num("3")));
    assert_eq!(tree("- -2"), unary('-', unary('-', num("2"))));
    assert_eq!(
        tree("-(5 + 3)"),
        unary('-', binary('+', num("5"), num("3")))
    );
    assert_eq!(
        tree("2 + + 3"),
        binary('+', num("2"), unary('+', num("3")))
    );
}

#[test]
fn implied_multiplication_is_a_product() {
    assert_eq!(
        tree("2(3 + 4)"),
        binary('*', num("2"), binary('+', num("3"), num("4")))
    );
    assert_eq!(
        tree("(2+3)(4-1)"),
        binary(
            '*',
            binary('+', num("2"), num("3")),
            binary('-', num("4"), num("1"))
        )
    );
    assert_eq!(
        tree("1 + 2(3)"),
        binary('+', num("1"), binary('*', num("2"), num("3")))
    );
}

#[test]
fn a_missing_operand_is_the_end_of_the_expression() {
    assert_eq!(failure("2 +"), ParseError::UnexpectedEndOfExpression);
    assert_eq!(failure("("), ParseError::UnexpectedEndOfExpression);
    assert_eq!(failure("-"), ParseError::UnexpectedEndOfExpression);
    assert_eq!(failure("2 * (3 -"), ParseError::UnexpectedEndOfExpression);
}

#[test]
fn an_open_parenthesis_must_be_closed() {
    assert_eq!(failure("(2 + 3"), ParseError::MissingClosingParenthesis);
    assert_eq!(failure("((2)"), ParseError::MissingClosingParenthesis);
    assert_eq!(failure("(2 3)"), ParseError::MissingClosingParenthesis);
}

#[test]
fn an_operator_cannot_start_an_operand() {
    assert_eq!(
        failure("* 2"),
        ParseError::UnexpectedToken("operator '*'".to_string())
    );
    assert_eq!(
        failure("2 + / 3"),
        ParseError::UnexpectedToken("operator '/'".to_string())
    );
    assert_eq!(
        failure("()"),
        ParseError::UnexpectedToken("operator ')'".to_string())
    );
}

#[test]
fn nothing_may_follow_the_expression() {
    assert_eq!(
        failure("2 3"),
        ParseError::UnexpectedToken("Number(3)".to_string())
    );
    assert_eq!(
        failure("2 + 3)"),
        ParseError::UnexpectedToken("Operator(')')".to_string())
    );
    assert_eq!(
        failure("1.2.3"),
        ParseError::UnexpectedToken("Number(.3)".to_string())
    );
}

#[test]
fn errors_of_the_tokenizer_come_through_the_parser() {
    assert!(matches!(Parser::new(""), Err(ParseError::EmptyExpression)));
    assert!(matches!(
        Parser::new("2 $ 3"),
        Err(ParseError::InvalidCharacter('$'))
    ));
    assert!(matches!(Parser::new("."), Err(ParseError::InvalidNumber(_))));
}

#[test]
fn the_five_rejected_texts_fail_each_in_its_own_way() {
    assert_eq!(failure(""), ParseError::EmptyExpression);
    assert_eq!(failure("2 +"), ParseError::UnexpectedEndOfExpression);
    assert_eq!(failure("(2 + 3"), ParseError::MissingClosingParenthesis);
    assert_eq!(failure("2 $ 3"), ParseError::InvalidCharacter('$'));
    assert_eq!(
        failure("2 + * 3"),
        ParseError::UnexpectedToken("operator '*'".to_string())
    );
}

#[test]
fn each_error_has_its_sentence() {
    assert_eq!(
        ParseError::InvalidNumber(".".to_string()).to_string(),
        "Invalid number: ."
    );
    assert_eq!(
        ParseError::InvalidCharacter('$').to_string(),
        "Invalid character: '$'"
    );
    assert_eq!(
        ParseError::UnexpectedToken("operator '*'".to_string()).to_string(),
        "Unexpected token: operator '*'"
    );
    assert_eq!(
        ParseError::UnexpectedEndOfExpression.to_string(),
        "Unexpected end of expression"
    );
    assert_eq!(
        ParseError::MissingClosingParenthesis.to_string(),
        "Missing closing parenthesis"
    );
    assert_eq!(ParseError::EmptyExpression.to_string(), "Empty expression");
}

#[test]
fn parsing_again_starts_where_the_cursor_stands() {
    let mut parser = Parser::new("2 3").unwrap();
    assert_eq!(
        parser.parse(),
        Err(ParseError::UnexpectedToken("Number(3)".to_string()))
    );
    assert_eq!(parser.parse(), Ok(num("3")));
    assert_eq!(parser.parse(), Err(ParseError::UnexpectedEndOfExpression));
    assert_eq!(parser.parse(), Err(ParseError::UnexpectedEndOfExpression));
}

#[test]
fn the_same_text_gives_the_same_tree() {
    let text = "25/50 + 10(2 - .5)";
    assert_eq!(parse(text), parse(text));
    assert_eq!(parse("2 +"), parse("2 +"));
}

#[test]
fn a_copy_of_a_tree_is_equal_to_it() {
    let first = tree("-(1 + 2) * 3");
    assert_eq!(first.clone(), first);
}

#[test]
fn the_calculator_gives_the_tree_or_the_sentence() {
    assert_eq!(
        Calculator::str_2_expr("2 + 3"),
        Ok(binary('+', num("2"), num("3")))
    );
    assert_eq!(
        Calculator::str_2_expr(""),
        Err("Empty expression".to_string())
    );
    assert_eq!(
        Calculator::str_2_expr("2 $ 3"),
        Err("Invalid character: '$'".to_string())
    );
    assert_eq!(
        Calculator::str_2_expr("."),
        Err("Invalid number: .".to_string())
    );
    assert_eq!(
        Calculator::str_2_expr("2 +"),
        Err("Unexpected end of expression".to_string())
    );
    assert_eq!(
        Calculator::str_2_expr("(2 + 3"),
        Err("Missing closing parenthesis".to_string())
    );
    assert_eq!(
        Calculator::str_2_expr("2 3"),
        Err("Unexpected token: Number(3)".to_string())
    );
    assert_eq!(
        Calculator::str_2_expr("2 + )"),
        Err("Unexpected token: operator ')'".to_string())
    );
}

#[test]
fn a_weighted_sum_needs_one_weight_for_each_grade() {
    assert!(Calculator::can_weigh(3, 3));
    assert!(Calculator::can_weigh(1, 1));
    assert!(!Calculator::can_weigh(0, 0));
    assert!(!Calculator::can_weigh(1, 2));
    assert!(!Calculator::can_weigh(2, 1));
    assert!(!Calculator::can_weigh(0, 1));
}

#[test]
fn the_table_has_its_four_headings() {
    let headers = RowHeaders::new();
    assert_eq!(headers.delete, "Delete");
    assert_eq!(headers.section, "Section");
    assert_eq!(headers.marks, "Marks/Total");
    assert_eq!(headers.weight, "Weight %");
}

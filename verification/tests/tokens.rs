//! The tokenizer, seen through the cursor that it fills.

use grade_calculator::error::ParseError;
use grade_calculator::lexer::Lexer;
use grade_calculator::token::Token;

fn number(text: &str) -> Token {
    Token::Number(text.to_string())
}

fn operator(symbol: char) -> Token {
    Token::Operator(symbol)
}

/// All tokens of `text`, read until the end mark has come twice.
fn tokens(text: &str) -> Vec<Token> {
    let mut lexer = Lexer::new(text).unwrap();
    let mut all = Vec::new();
    loop {
        let token = lexer.next();
        let done = token == Token::EOF;
        all.push(token);
        if done {
            break;
        }
    }
    assert_eq!(lexer.next(), Token::EOF);
    all
}

fn failure(text: &str) -> ParseError {
    match Lexer::new(text) {
        Ok(_) => panic!("{:?} was split into tokens", text),
        Err(e) => e,
    }
}

#[test]
fn numbers_and_operators_in_order() {
    assert_eq!(
        tokens("25/50 + 10/20"),
        vec![
            number("25"),
            operator('/'),
            number("50"),
            operator('+'),
            number("10"),
            operator('/'),
            number("20"),
            Token::EOF,
        ]
    );
}

#[test]
fn a_literal_keeps_its_text() {
    assert_eq!(tokens("12.50"), vec![number("12.50"), Token::EOF]);
    assert_eq!(tokens(".5"), vec![number(".5"), Token::EOF]);
    assert_eq!(tokens("5."), vec![number("5."), Token::EOF]);
    assert_eq!(tokens("0012"), vec![number("0012"), Token::EOF]);
}

#[test]
fn white_space_gives_no_token() {
    assert_eq!(
        tokens(" \t2\n+\t 3 \n"),
        vec![number("2"), operator('+'), number("3"), Token::EOF]
    );
}

#[test]
fn every_operator_is_a_token() {
    assert_eq!(
        tokens("+-*/("),
        vec![
            operator('+'),
            operator('-'),
            operator('*'),
            operator('/'),
            operator('('),
            Token::EOF,
        ]
    );
    assert_eq!(tokens(")"), vec![operator(')'), Token::EOF]);
}

#[test]
fn a_number_before_a_parenthesis_multiplies() {
    assert_eq!(
        tokens("2(3)"),
        vec![
            number("2"),
            operator('*'),
            operator('('),
            number("3"),
            operator(')'),
            Token::EOF,
        ]
    );
    assert_eq!(
        tokens("2 \t (3)"),
        vec![
            number("2"),
            operator('*'),
            operator('('),
            number("3"),
            operator(')'),
            Token::EOF,
        ]
    );
}

#[test]
fn a_group_before_a_parenthesis_or_a_digit_multiplies() {
    assert_eq!(
        tokens("(1)(2)"),
        vec![
            operator('('),
            number("1"),
            operator(')'),
            operator('*'),
            operator('('),
            number("2"),
            operator(')'),
            Token::EOF,
        ]
    );
    assert_eq!(
        tokens("(1) 2"),
        vec![
            operator('('),
            number("1"),
            operator(')'),
            operator('*'),
            number("2"),
            Token::EOF,
        ]
    );
}

#[test]
fn nothing_is_implied_elsewhere() {
    assert_eq!(tokens("2 3"), vec![number("2"), number("3"), Token::EOF]);
    assert_eq!(
        tokens("(1).5"),
        vec![
            operator('('),
            number("1"),
            operator(')'),
            number(".5"),
            Token::EOF,
        ]
    );
    assert_eq!(
        tokens("(1)+2"),
        vec![
            operator('('),
            number("1"),
            operator(')'),
            operator('+'),
            number("2"),
            Token::EOF,
        ]
    );
}

#[test]
fn a_second_point_starts_a_new_literal() {
    assert_eq!(
        tokens("1.2.3"),
        vec![number("1.2"), number(".3"), Token::EOF]
    );
}

#[test]
fn a_point_alone_is_no_number() {
    assert_eq!(failure("."), ParseError::InvalidNumber(".".to_string()));
    assert_eq!(failure("1 + ."), ParseError::InvalidNumber(".".to_string()));
    assert_eq!(failure(".."), ParseError::InvalidNumber(".".to_string()));
    assert_eq!(failure("(.)"), ParseError::InvalidNumber(".".to_string()));
}

#[test]
fn a_point_alone_behind_a_literal_is_an_invalid_character() {
    assert_eq!(failure("1.2."), ParseError::InvalidCharacter('.'));
    assert_eq!(failure("1.."), ParseError::InvalidCharacter('.'));
    assert_eq!(failure("1.2. + 3"), ParseError::InvalidCharacter('.'));
}

#[test]
fn an_unknown_character_is_reported() {
    assert_eq!(failure("2 $ 3"), ParseError::InvalidCharacter('$'));
    assert_eq!(failure("x"), ParseError::InvalidCharacter('x'));
    assert_eq!(failure("2 ^ 3"), ParseError::InvalidCharacter('^'));
    assert_eq!(failure("2\r+ 3"), ParseError::InvalidCharacter('\r'));
    assert_eq!(failure("1e5"), ParseError::InvalidCharacter('e'));
    assert_eq!(failure("2 × 3"), ParseError::InvalidCharacter('×'));
}

#[test]
fn the_first_error_from_the_left_is_reported() {
    assert_eq!(failure("$ ."), ParseError::InvalidCharacter('$'));
    assert_eq!(failure(". $"), ParseError::InvalidNumber(".".to_string()));
}

#[test]
fn a_text_without_tokens_is_empty() {
    assert_eq!(failure(""), ParseError::EmptyExpression);
    assert_eq!(failure(" \t\n "), ParseError::EmptyExpression);
}

#[test]
fn peek_does_not_move_the_cursor() {
    let mut lexer = Lexer::new("7 -").unwrap();
    assert_eq!(lexer.peek(), number("7"));
    assert_eq!(lexer.peek(), number("7"));
    assert_eq!(lexer.next(), number("7"));
    assert_eq!(lexer.peek(), operator('-'));
    assert_eq!(lexer.next(), operator('-'));
    assert_eq!(lexer.peek(), Token::EOF);
    assert_eq!(lexer.next(), Token::EOF);
    assert_eq!(lexer.peek(), Token::EOF);
    assert_eq!(lexer.next(), Token::EOF);
}

#[test]
fn a_token_describes_itself() {
    assert_eq!(number("2.5").describe(), "Number(2.5)");
    assert_eq!(operator(')').describe(), "Operator(')')");
    assert_eq!(Token::EOF.describe(), "EOF");
}

#[test]
fn a_copy_of_a_token_is_equal_to_it() {
    assert_eq!(number("31").clone(), number("31"));
    assert_eq!(operator('*').clone(), operator('*'));
    assert_eq!(Token::EOF.clone(), Token::EOF);
}

#[test]
fn an_implied_sign_may_as_well_be_written() {
    assert_eq!(tokens("2(3)"), tokens("2*(3)"));
    assert_eq!(tokens("(2)(3)"), tokens("(2)*(3)"));
    assert_eq!(tokens("(2)3"), tokens("(2)*3"));
    assert_eq!(tokens("1 + 2 \t(3 - 4) 5"), tokens("1 + 2 \t*(3 - 4) *5"));
    assert_eq!(tokens("1.5.5(2)"), tokens("1.5.5*(2)"));
}

//! Every text of up to five characters over a small alphabet, read by the
//! library and held against what is known of all texts.

use grade_calculator::error::ParseError;
use grade_calculator::expr::Expr;
use grade_calculator::lexer::Lexer;
use grade_calculator::parser::Parser;
use grade_calculator::token::Token;

const PLAIN: [char; 11] = ['0', '7', '.', '+', '-', '*', '/', '(', ')', ' ', '\n'];

/// All texts of up to `longest` characters over `alphabet`.
fn texts(alphabet: &[char], longest: usize) -> Vec<String> {
    let mut all = vec![String::new()];
    let mut last = vec![String::new()];
    for _ in 0..longest {
        let mut next = Vec::new();
        for text in &last {
            for c in alphabet {
                let mut longer = text.clone();
                longer.push(*c);
                next.push(longer);
            }
        }
        all.extend(next.iter().cloned());
        last = next;
    }
    all
}

fn tokens(text: &str) -> Result<Vec<Token>, ParseError> {
    let mut lexer = Lexer::new(text)?;
    let mut all = Vec::new();
    loop {
        let token = lexer.next();
        let done = token == Token::EOF;
        all.push(token);
        if done {
            return Ok(all);
        }
    }
}

fn is_literal(text: &str) -> bool {
    text.chars().all(|c| c.is_ascii_digit() || c == '.')
        && text.chars().any(|c| c.is_ascii_digit())
        && text.chars().filter(|c| *c == '.').count() <= 1
}

fn is_well_formed(tree: &Expr) -> bool {
    match tree {
        Expr::Number(text) => is_literal(text),
        Expr::UnaryOp { op, operand } => "+-".contains(*op) && is_well_formed(operand),
        Expr::BinaryOp { op, left, right } => {
            "+-*/".contains(*op) && is_well_formed(left) && is_well_formed(right)
        }
    }
}

/// A parser for the grammar in layers, written without binding powers.
struct Layered {
    tokens: Vec<Token>,
    at: usize,
}

impl Layered {
    fn peek(&self) -> Token {
        self.tokens.get(self.at).cloned().unwrap_or(Token::EOF)
    }

    fn sum(&mut self) -> Option<Expr> {
        let mut left = self.product()?;
        while let Token::Operator(op @ ('+' | '-')) = self.peek() {
            self.at += 1;
            let right = self.product()?;
            left = Expr::BinaryOp { op, left: Box::new(left), right: Box::new(right) };
        }
        Some(left)
    }

    fn product(&mut self) -> Option<Expr> {
        let mut left = self.factor()?;
        while let Token::Operator(op @ ('*' | '/')) = self.peek() {
            self.at += 1;
            let right = self.factor()?;
            left = Expr::BinaryOp { op, left: Box::new(left), right: Box::new(right) };
        }
        Some(left)
    }

    fn factor(&mut self) -> Option<Expr> {
        let token = self.peek();
        self.at += 1;
        match token {
            Token::Number(text) => Some(Expr::Number(text)),
            Token::Operator(op @ ('+' | '-')) => {
                let operand = self.factor()?;
                Some(Expr::UnaryOp { op, operand: Box::new(operand) })
            }
            Token::Operator('(') => {
                let inner = self.sum()?;
                let closed = self.peek() == Token::Operator(')');
                self.at += 1;
                if closed {
                    Some(inner)
                } else {
                    None
                }
            }
            _ => None,
        }
    }

    fn whole(tokens: Vec<Token>) -> Option<Expr> {
        let mut parser = Layered { tokens, at: 0 };
        let tree = parser.sum()?;
        if parser.peek() == Token::EOF {
            Some(tree)
        } else {
            None
        }
    }
}

#[test]
fn token_sequences_are_well_formed() {
    for text in texts(&PLAIN, 5) {
        if let Ok(all) = tokens(&text) {
            assert!(all.len() >= 2, "{:?}", text);
            assert_eq!(all.last(), Some(&Token::EOF), "{:?}", text);
            for token in &all[..all.len() - 1] {
                match token {
                    Token::Number(literal) => {
                        assert!(is_literal(literal), "{:?}", text);
                        assert!(literal.parse::<f32>().is_ok(), "{:?}", text);
                    }
                    Token::Operator(symbol) => assert!("+-*/()".contains(*symbol), "{:?}", text),
                    Token::EOF => panic!("an end mark inside the tokens of {:?}", text),
                }
            }
        }
    }
}

#[test]
fn the_tokenizer_fails_in_three_ways_only() {
    for text in texts(&PLAIN, 5) {
        match Lexer::new(&text) {
            Ok(_) => {}
            Err(ParseError::EmptyExpression) => {
                assert!(text.chars().all(|c| c == ' ' || c == '\n'), "{:?}", text)
            }
            Err(ParseError::InvalidNumber(literal)) => {
                assert_eq!(literal, ".", "{:?}", text);
                assert!(literal.parse::<f32>().is_err());
            }
            Err(ParseError::InvalidCharacter(c)) => assert_eq!(c, '.', "{:?}", text),
            Err(other) => panic!("{:?} gave {:?}", text, other),
        }
    }
}

#[test]
fn a_foreign_character_is_the_first_error_unless_a_point_comes_before() {
    let alphabet = ['1', '.', '+', '(', ')', ' ', '$'];
    for text in texts(&alphabet, 5) {
        if !text.contains('$') {
            continue;
        }
        match Lexer::new(&text) {
            Err(ParseError::InvalidCharacter('$')) => {}
            Err(ParseError::InvalidCharacter('.')) | Err(ParseError::InvalidNumber(_)) => {
                let dollar = text.find('$').unwrap();
                assert!(text[..dollar].contains('.'), "{:?}", text);
            }
            other => panic!("{:?} gave {:?}", text, other.map(|_| ())),
        }
    }
}

#[test]
fn the_parser_fails_in_three_ways_only() {
    for text in texts(&PLAIN, 5) {
        if let Ok(mut parser) = Parser::new(&text) {
            match parser.parse() {
                Ok(tree) => assert!(is_well_formed(&tree), "{:?}", text),
                Err(ParseError::UnexpectedToken(_))
                | Err(ParseError::UnexpectedEndOfExpression)
                | Err(ParseError::MissingClosingParenthesis) => {}
                Err(other) => panic!("{:?} gave {:?}", text, other),
            }
        }
    }
}

#[test]
fn a_tree_takes_every_token() {
    for text in texts(&PLAIN, 5) {
        if let Ok(mut parser) = Parser::new(&text) {
            if parser.parse().is_ok() {
                assert_eq!(
                    parser.parse(),
                    Err(ParseError::UnexpectedEndOfExpression),
                    "{:?}",
                    text
                );
            }
        }
    }
}

#[test]
fn the_parser_reads_the_grammar_in_layers() {
    let alphabet = ['3', '+', '-', '*', '/', '(', ')'];
    for text in texts(&alphabet, 6) {
        if let Ok(all) = tokens(&text) {
            let climbed = Parser::new(&text).unwrap().parse().ok();
            assert_eq!(climbed, Layered::whole(all), "{:?}", text);
        }
    }
}

#[test]
fn reading_twice_gives_the_same() {
    for text in texts(&PLAIN, 4) {
        let first = Parser::new(&text).and_then(|mut parser| parser.parse());
        let second = Parser::new(&text).and_then(|mut parser| parser.parse());
        assert_eq!(first, second, "{:?}", text);
    }
}

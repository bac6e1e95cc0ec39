use vstd::prelude::*;
use vstd::string::StringExecFns;
use crate::text::push_char;

verus! {

/// Why a text could not be read as an arithmetic expression.
///
/// The first, second and last variants come from splitting the text into
/// tokens, the others from building the tree.
#[derive(Debug, PartialEq, Eq)]
pub enum ParseError {
    /// A numeric literal without any digit; holds the literal as written.
    InvalidNumber(String),
    /// A character that no token can start with.
    InvalidCharacter(char),
    /// A token where the grammar allows none of its kind; holds a description of it.
    UnexpectedToken(String),
    /// The tokens ran out where an operand was due.
    UnexpectedEndOfExpression,
    /// An opened parenthesis was not closed.
    MissingClosingParenthesis,
    /// The text holds no token at all.
    EmptyExpression,
}

/// The mathematical value of a [`ParseError`]: the same variants, with texts as sequences.
pub enum ParseErrorModel {
    InvalidNumber(Seq<char>),
    InvalidCharacter(char),
    UnexpectedToken(Seq<char>),
    UnexpectedEndOfExpression,
    MissingClosingParenthesis,
    EmptyExpression,
}

impl View for ParseError {
    type V = ParseErrorModel;

    open spec fn view(&self) -> ParseErrorModel {
        match self {
            ParseError::InvalidNumber(text) => ParseErrorModel::InvalidNumber(text@),
            ParseError::InvalidCharacter(c) => ParseErrorModel::InvalidCharacter(*c),
            ParseError::UnexpectedToken(what) => ParseErrorModel::UnexpectedToken(what@),
            ParseError::UnexpectedEndOfExpression => ParseErrorModel::UnexpectedEndOfExpression,
            ParseError::MissingClosingParenthesis => ParseErrorModel::MissingClosingParenthesis,
            ParseError::EmptyExpression => ParseErrorModel::EmptyExpression,
        }
    }
}

impl ParseErrorModel {
    /// The sentence that reports this error to a person.
    pub open spec fn message(self) -> Seq<char> {
        match self {
            ParseErrorModel::InvalidNumber(text) => "Invalid number: "@ + text,
            ParseErrorModel::InvalidCharacter(c) => "Invalid character: '"@.push(c) + "'"@,
            ParseErrorModel::UnexpectedToken(what) => "Unexpected token: "@ + what,
            ParseErrorModel::UnexpectedEndOfExpression => "Unexpected end of expression"@,
            ParseErrorModel::MissingClosingParenthesis => "Missing closing parenthesis"@,
            ParseErrorModel::EmptyExpression => "Empty expression"@,
        }
    }
}

impl ParseError {
    /// Renders the error as a sentence for a person to read.
    pub fn to_string(&self) -> (text: String)
        ensures
            text@ == self@.message(),
    {
        match self {
            ParseError::InvalidNumber(literal) => {
                String::from_str("Invalid number: ").concat(literal.as_str())
            },
            ParseError::InvalidCharacter(c) => {
                let mut text = String::from_str("Invalid character: '");
                push_char(&mut text, *c);
                text.concat("'")
            },
            ParseError::UnexpectedToken(what) => {
                String::from_str("Unexpected token: ").concat(what.as_str())
            },
            ParseError::UnexpectedEndOfExpression => String::from_str(
                "Unexpected end of expression",
            ),
            ParseError::MissingClosingParenthesis => String::from_str(
                "Missing closing parenthesis",
            ),
            ParseError::EmptyExpression => String::from_str("Empty expression"),
        }
    }
}

} // verus!

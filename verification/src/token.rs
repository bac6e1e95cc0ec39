use vstd::prelude::*;
use vstd::string::StringExecFns;
use crate::text::push_char;

verus! {

/// A decimal digit.
pub open spec fn is_digit(c: char) -> bool {
    '0' <= c && c <= '9'
}

/// A character that a numeric literal can hold: a digit or the decimal point.
pub open spec fn is_literal_char(c: char) -> bool {
    is_digit(c) || c == '.'
}

/// One of the six operator characters.
pub open spec fn is_operator(c: char) -> bool {
    c == '+' || c == '-' || c == '*' || c == '/' || c == '(' || c == ')'
}

/// White space between tokens: space, tab and newline.
pub open spec fn is_space(c: char) -> bool {
    c == ' ' || c == '\t' || c == '\n'
}

/// Whether `text` holds a digit.
pub open spec fn has_digit(text: Seq<char>) -> bool {
    exists|k: int| 0 <= k < text.len() && is_digit(#[trigger] text[k])
}

/// Whether `text` is a numeric literal: digits and at most one point, with at
/// least one digit. Such a text reads as a decimal number: `12`, `12.5`,
/// `.5` and `5.` do, a point alone does not.
pub open spec fn is_literal(text: Seq<char>) -> bool {
    &&& has_digit(text)
    &&& forall|k: int| 0 <= k < text.len() ==> is_literal_char(#[trigger] text[k])
    &&& forall|j: int, k: int|
        0 <= j < k < text.len() ==> !(#[trigger] text[j] == '.' && #[trigger] text[k] == '.')
}

/// One lexical unit of an expression.
///
/// A number is kept as the literal that was written, digits and at most one
/// point: turning it into a machine number is left to whoever evaluates the
/// tree, so that nothing is rounded before it has to be.
#[derive(Debug, PartialEq, Eq)]
pub enum Token {
    /// A numeric literal, as written.
    Number(String),
    /// One of `+ - * / ( )`.
    Operator(char),
    /// The mark that ends every token sequence.
    EOF,
}

/// The mathematical value of a [`Token`].
pub enum TokenModel {
    Number(Seq<char>),
    Operator(char),
    EOF,
}

impl View for Token {
    type V = TokenModel;

    open spec fn view(&self) -> TokenModel {
        match self {
            Token::Number(text) => TokenModel::Number(text@),
            Token::Operator(symbol) => TokenModel::Operator(*symbol),
            Token::EOF => TokenModel::EOF,
        }
    }
}

impl Clone for Token {
    fn clone(&self) -> (copy: Token)
        ensures
            copy@ == self@,
    {
        match self {
            Token::Number(text) => Token::Number(text.clone()),
            Token::Operator(symbol) => Token::Operator(*symbol),
            Token::EOF => Token::EOF,
        }
    }
}

impl TokenModel {
    /// How a token is described inside an error: its variant's name, with
    /// what it holds in brackets.
    pub open spec fn describe(self) -> Seq<char> {
        match self {
            TokenModel::Number(text) => "Number("@ + text + ")"@,
            TokenModel::Operator(symbol) => "Operator('"@.push(symbol) + "')"@,
            TokenModel::EOF => "EOF"@,
        }
    }

    /// Whether the token is one that a text can give: a number holds a
    /// numeric literal, an operator one of the six operator characters.
    pub open spec fn well_formed(self) -> bool {
        match self {
            TokenModel::Number(text) => is_literal(text),
            TokenModel::Operator(symbol) => is_operator(symbol),
            TokenModel::EOF => true,
        }
    }
}

/// Whether `tokens` is the token sequence of some expression: at least one
/// token that is not the end mark, then exactly one end mark, which is the
/// last token; and every token well formed.
pub open spec fn well_formed_tokens(tokens: Seq<TokenModel>) -> bool {
    &&& tokens.len() >= 2
    &&& tokens.last() == TokenModel::EOF
    &&& forall|k: int|
        0 <= k < tokens.len() - 1 ==> (#[trigger] tokens[k]) != TokenModel::EOF
            && tokens[k].well_formed()
}

/// The token at `position`, or the end mark behind the last token.
pub open spec fn token_at(tokens: Seq<TokenModel>, position: nat) -> TokenModel {
    if position < tokens.len() {
        tokens[position as int]
    } else {
        TokenModel::EOF
    }
}

/// The position behind `position`; behind the last token nothing moves.
pub open spec fn advance(tokens: Seq<TokenModel>, position: nat) -> nat {
    if position < tokens.len() {
        position + 1
    } else {
        position
    }
}

impl Token {
    /// Describes the token for an error message.
    pub fn describe(&self) -> (text: String)
        ensures
            text@ == self@.describe(),
    {
        match self {
            Token::Number(literal) => {
                String::from_str("Number(").concat(literal.as_str()).concat(")")
            },
            Token::Operator(symbol) => {
                let mut text = String::from_str("Operator('");
                push_char(&mut text, *symbol);
                text.concat("')")
            },
            Token::EOF => String::from_str("EOF"),
        }
    }
}

/// The mathematical values of a run of tokens.
pub open spec fn token_models(tokens: Seq<Token>) -> Seq<TokenModel> {
    Seq::new(tokens.len(), |i: int| tokens[i]@)
}

} // verus!

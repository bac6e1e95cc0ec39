use vstd::prelude::*;
use crate::error::ParseErrorModel;
use crate::expr::{Expr, ExprModel};
use crate::lexical::{is_blank, lemma_lex_outcomes, lex};
use crate::parser::Parser;
use crate::precedence::{is_structural, lemma_parse_outcomes, parse_tokens};
use crate::token::{is_digit, is_literal_char, is_operator, is_space};

verus! {

/// The tree of the text `s`: its tokens, parsed from the first as one whole
/// expression.
pub open spec fn parse_text(s: Seq<char>) -> Result<ExprModel, ParseErrorModel> {
    match lex(s) {
        Ok(tokens) => parse_tokens(tokens, 0).result,
        Err(e) => Err(e),
    }
}

/// The entry points for callers that hold an expression as text.
pub struct Calculator {}

impl Calculator {
    /// Reads `expr` as an arithmetic expression.
    ///
    /// Gives the tree of the expression, or the sentence that tells a person
    /// why the text is none. The tree is well formed: to evaluate it, every
    /// leaf can be read as a number and every operator is a known one.
    pub fn str_2_expr(expr: &str) -> (r: Result<Expr, String>)
        ensures
            match parse_text(expr@) {
                Ok(tree) => r is Ok && r->Ok_0@ == tree,
                Err(e) => r is Err && r->Err_0@ == e.message(),
            },
            r matches Ok(tree) ==> tree@.well_formed(),
    {
        let mut parser = match Parser::new(expr) {
            Ok(parser) => parser,
            Err(e) => {
                return Err(e.to_string());
            },
        };
        match parser.parse() {
            Ok(tree) => Ok(tree),
            Err(e) => Err(e.to_string()),
        }
    }

    /// Whether `grades` grades and `weights` weights have a weighted sum:
    /// there is one weight for each grade, and at least one grade.
    pub fn can_weigh(grades: usize, weights: usize) -> (r: bool)
        ensures
            r == (grades == weights && grades > 0),
    {
        grades == weights && grades != 0
    }
}

/// The mathematical value of what [`Calculator::str_2_expr`] returns.
pub open spec fn reading_model(r: Result<Expr, String>) -> Result<ExprModel, Seq<char>> {
    match r {
        Ok(tree) => Ok(tree@),
        Err(message) => Err(message@),
    }
}

/// What reading a text can give.
///
/// A tree is well formed. An empty expression is a text of white space only,
/// and every such text is one. An invalid number is a point alone, which
/// stands in the text. An invalid character stands in the text and is no
/// digit, no operator and no white space. Every other error is one of
/// structure.
pub proof fn lemma_reading_outcomes(s: Seq<char>)
    ensures
        is_blank(s) <==> (parse_text(s) matches Err(ParseErrorModel::EmptyExpression)),
        match parse_text(s) {
            Ok(tree) => tree.well_formed(),
            Err(ParseErrorModel::EmptyExpression) => true,
            Err(ParseErrorModel::InvalidNumber(text)) => text == seq!['.'] && s.contains('.'),
            Err(ParseErrorModel::InvalidCharacter(c)) => s.contains(c) && !is_digit(c)
                && !is_operator(c) && !is_space(c),
            Err(e) => is_structural(e),
        },
{
    lemma_lex_outcomes(s);
    if let Ok(tokens) = lex(s) {
        lemma_parse_outcomes(tokens, 0);
    }
}

/// A text of digits, points, operators and white space is read as a tree or
/// rejected for its structure, for being empty, or for a point that stands
/// alone: no other character of it is ever invalid. Without a point in it,
/// such a text is rejected only for its structure or for being empty.
pub proof fn lemma_reading_plain_text(s: Seq<char>)
    requires
        forall|k: int|
            0 <= k < s.len() ==> is_literal_char(#[trigger] s[k]) || is_operator(s[k])
                || is_space(s[k]),
    ensures
        parse_text(s) matches Err(ParseErrorModel::InvalidCharacter(c)) ==> c == '.',
        !s.contains('.') ==> match parse_text(s) {
            Ok(tree) => tree.well_formed(),
            Err(e) => is_structural(e) || (e is EmptyExpression && is_blank(s)),
        },
{
    lemma_reading_outcomes(s);
    if let Err(ParseErrorModel::InvalidCharacter(c)) = parse_text(s) {
        let k = choose|k: int| 0 <= k < s.len() && s[k] == c;
        assert(is_literal_char(s[k]) || is_operator(s[k]) || is_space(s[k]));
    }
}

/// Reading is a function of the text: two calls on texts that hold the same
/// characters give the same tree, or the same sentence.
pub proof fn lemma_reading_is_pure(
    first_text: &str,
    second_text: &str,
    first: Result<Expr, String>,
    second: Result<Expr, String>,
)
    requires
        first_text@ == second_text@,
        call_ensures(Calculator::str_2_expr, (first_text,), first),
        call_ensures(Calculator::str_2_expr, (second_text,), second),
    ensures
        reading_model(first) == reading_model(second),
{
}

} // verus!

use vstd::prelude::*;
use vstd::string::StringExecFns;
use crate::error::ParseError;
use crate::expr::Expr;
use crate::lexer::Lexer;
use crate::lexical::lex;
use crate::precedence::{
    expression, infix, infix_loop, infix_power, lemma_expression_sound, lemma_parse_outcomes,
    lemma_prefix_sound, operator_description, parse_tokens, prefix, prefix_power, Outcome,
};
use crate::text::push_char;
use crate::token::{Token, TokenModel};

verus! {

/// Whether what a parsing function returned, and where it left the cursor, is what `outcome` says.
pub open spec fn agrees(r: Result<Expr, ParseError>, position: nat, outcome: Outcome) -> bool {
    &&& position == outcome.next
    &&& match outcome.result {
        Ok(tree) => r is Ok && r->Ok_0@ == tree,
        Err(e) => r is Err && r->Err_0@ == e,
    }
}

/// A parser by precedence climbing over the tokens of one expression.
///
/// It reads the tokens once, from left to right, and never goes back.
pub struct Parser {
    lexer: Lexer,
}

impl Parser {
    /// The token sequence that is being parsed.
    pub closed spec fn tokens(&self) -> Seq<TokenModel> {
        self.lexer.tokens()
    }

    /// How many tokens have been read.
    pub closed spec fn position(&self) -> nat {
        self.lexer.position()
    }

    /// Splits `expr` into tokens and gets ready to parse them from the first.
    pub fn new(expr: &str) -> (r: Result<Parser, ParseError>)
        ensures
            match lex(expr@) {
                Ok(tokens) => r is Ok && r->Ok_0.tokens() == tokens && r->Ok_0.position() == 0,
                Err(e) => r is Err && r->Err_0@ == e,
            },
    {
        match Lexer::new(expr) {
            Ok(lexer) => Ok(Parser { lexer }),
            Err(e) => Err(e),
        }
    }

    /// Parses the tokens from the cursor on as one whole expression.
    ///
    /// The cursor ends behind the last token read, also when parsing fails.
    pub fn parse(&mut self) -> (r: Result<Expr, ParseError>)
        ensures
            final(self).tokens() == old(self).tokens(),
            agrees(
                r,
                final(self).position(),
                parse_tokens(old(self).tokens(), old(self).position()),
            ),
            r matches Ok(tree) ==> tree@.well_formed(),
            r is Ok ==> final(self).position() + 1 == old(self).tokens().len(),
    {
        match self.parse_expression(0) {
            Ok(expr) => match self.lexer.peek() {
                Token::EOF => {
                    proof {
                        lemma_parse_outcomes(self.tokens(), old(self).position());
                    }
                    Ok(expr)
                },
                token => Err(ParseError::UnexpectedToken(token.describe())),
            },
            Err(e) => Err(e),
        }
    }

    /// Parses an expression whose binary operators bind to their left with at
    /// least `min_bp`.
    fn parse_expression(&mut self, min_bp: u8) -> (r: Result<Expr, ParseError>)
        ensures
            final(self).tokens() == old(self).tokens(),
            agrees(
                r,
                final(self).position(),
                expression(old(self).tokens(), old(self).position(), min_bp as nat),
            ),
        decreases old(self).tokens().len() - old(self).position(), 2int,
    {
        proof {
            lemma_prefix_sound(self.tokens(), self.position());
        }
        let mut left = match self.parse_prefix() {
            Ok(operand) => operand,
            Err(e) => {
                return Err(e);
            },
        };
        loop
            invariant
                self.tokens() == old(self).tokens(),
                old(self).position() < self.position() <= self.tokens().len(),
                infix_loop(self.tokens(), self.position(), left@, min_bp as nat) == expression(
                    old(self).tokens(),
                    old(self).position(),
                    min_bp as nat,
                ),
            ensures
                self.tokens() == old(self).tokens(),
                agrees(
                    Ok(left),
                    self.position(),
                    expression(old(self).tokens(), old(self).position(), min_bp as nat),
                ),
            decreases self.tokens().len() - self.position(),
        {
            let token = self.lexer.peek();
            let bp = match &token {
                Token::Operator(op) => self.infix_binding_power(*op),
                _ => None,
            };
            match bp {
                Some((left_bp, right_bp)) => {
                    if left_bp < min_bp {
                        break ;
                    }
                    proof {
                        lemma_expression_sound(self.tokens(), self.position() + 1, right_bp as nat);
                    }
                    self.lexer.next();
                    left = match self.parse_infix(left, token) {
                        Ok(joined) => joined,
                        Err(e) => {
                            return Err(e);
                        },
                    };
                },
                None => {
                    break ;
                },
            }
        }
        Ok(left)
    }

    /// Parses an operand: a number, a sign with its operand, or an expression
    /// in parentheses.
    fn parse_prefix(&mut self) -> (r: Result<Expr, ParseError>)
        ensures
            final(self).tokens() == old(self).tokens(),
            agrees(r, final(self).position(), prefix(old(self).tokens(), old(self).position())),
        decreases old(self).tokens().len() - old(self).position(), 0int,
    {
        let token = self.lexer.next();
        match token {
            Token::Number(literal) => Ok(Expr::Number(literal)),
            Token::Operator(op) => {
                if op == '+' || op == '-' {
                    let (_, right_bp) = self.prefix_binding_power(op);
                    match self.parse_expression(right_bp) {
                        Ok(operand) => Ok(Expr::UnaryOp { op, operand: Box::new(operand) }),
                        Err(e) => Err(e),
                    }
                } else if op == '(' {
                    match self.parse_expression(0) {
                        Ok(expr) => match self.lexer.next() {
                            Token::Operator(')') => Ok(expr),
                            _ => Err(ParseError::MissingClosingParenthesis),
                        },
                        Err(e) => Err(e),
                    }
                } else {
                    Err(ParseError::UnexpectedToken(describe_operator(op)))
                }
            },
            Token::EOF => Err(ParseError::UnexpectedEndOfExpression),
        }
    }

    /// Parses the right operand of the operator `op_token`, which has just
    /// been read, and joins it with `left`.
    fn parse_infix(&mut self, left: Expr, op_token: Token) -> (r: Result<Expr, ParseError>)
        ensures
            final(self).tokens() == old(self).tokens(),
            agrees(
                r,
                final(self).position(),
                infix(old(self).tokens(), old(self).position(), left@, op_token@),
            ),
        decreases old(self).tokens().len() - old(self).position(), 3int,
    {
        match op_token {
            Token::Operator(op) => match self.infix_binding_power(op) {
                Some((_, right_bp)) => match self.parse_expression(right_bp) {
                    Ok(right) => Ok(
                        Expr::BinaryOp { op, left: Box::new(left), right: Box::new(right) },
                    ),
                    Err(e) => Err(e),
                },
                None => Err(ParseError::UnexpectedToken(describe_operator(op))),
            },
            _ => Err(ParseError::UnexpectedToken(op_token.describe())),
        }
    }

    /// The binding power of a sign to its right; a sign has none to its left.
    fn prefix_binding_power(&self, op: char) -> (power: ((), u8))
        ensures
            power.1 == prefix_power(op),
    {
        if op == '+' || op == '-' {
            ((), 9)
        } else {
            ((), 0)
        }
    }

    /// The binding powers of a binary operator, left and right.
    fn infix_binding_power(&self, op: char) -> (power: Option<(u8, u8)>)
        ensures
            power is Some <==> infix_power(op) is Some,
            power matches Some(p) ==> infix_power(op) == Some((p.0 as nat, p.1 as nat)),
    {
        if op == '+' || op == '-' {
            Some((5, 6))
        } else if op == '*' || op == '/' {
            Some((7, 8))
        } else {
            None
        }
    }
}

/// Describes an operator that stands where an operand should start.
fn describe_operator(op: char) -> (text: String)
    ensures
        text@ == operator_description(op),
{
    let mut text = String::from_str("operator '");
    push_char(&mut text, op);
    text.concat("'")
}

} // verus!

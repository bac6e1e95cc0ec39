use vstd::prelude::*;
use crate::error::ParseError;
use crate::lexical::{
    lemma_lex_outcomes, lemma_literal_end_bounds, lemma_prepend_twice, lex, lex_from,
    literal_end, prepend, skip_spaces, with_implied,
};
use crate::text::{chars_of, push_char};
use crate::token::{
    advance, has_digit, is_digit, is_literal_char, is_operator, is_space, token_at,
    token_models, well_formed_tokens, Token, TokenModel,
};

verus! {

/// Whether `c` is a decimal digit.
fn digit(c: char) -> (r: bool)
    ensures
        r == is_digit(c),
{
    '0' <= c && c <= '9'
}

/// Whether a numeric literal can hold `c`.
fn literal_char(c: char) -> (r: bool)
    ensures
        r == is_literal_char(c),
{
    digit(c) || c == '.'
}

/// Whether `c` is one of the six operator characters.
fn operator(c: char) -> (r: bool)
    ensures
        r == is_operator(c),
{
    c == '+' || c == '-' || c == '*' || c == '/' || c == '(' || c == ')'
}

/// Whether `c` is white space between tokens.
fn space(c: char) -> (r: bool)
    ensures
        r == is_space(c),
{
    c == ' ' || c == '\t' || c == '\n'
}

/// Moves over the white space that starts at `from`.
fn skip_spaces_in(chars: &Vec<char>, from: usize) -> (at: usize)
    requires
        from <= chars.len(),
    ensures
        at == skip_spaces(chars@, from as int),
        from <= at <= chars.len(),
{
    let mut at = from;
    while at < chars.len() && space(chars[at])
        invariant
            from <= at <= chars.len(),
            skip_spaces(chars@, from as int) == skip_spaces(chars@, at as int),
        decreases chars.len() - at,
    {
        at += 1;
    }
    at
}

/// What a successful pass over a numeric literal gives.
struct Literal {
    text: String,
    end: usize,
    digits: bool,
}

/// Reads the numeric literal that starts at `start`.
fn read_literal(chars: &Vec<char>, start: usize) -> (literal: Literal)
    requires
        start < chars.len(),
        is_literal_char(chars[start as int]),
    ensures
        literal.end == literal_end(chars@, start as int, false),
        start < literal.end <= chars.len(),
        literal.text@ == chars@.subrange(start as int, literal.end as int),
        literal.digits == has_digit(literal.text@),
{
    let mut text = String::new();
    let mut end = start;
    let mut seen_point = false;
    let mut digits = false;
    proof {
        lemma_literal_end_bounds(chars@, start as int, false);
    }
    while end < chars.len() && (digit(chars[end]) || (chars[end] == '.' && !seen_point))
        invariant
            start <= end <= chars.len(),
            literal_end(chars@, start as int, false) == literal_end(
                chars@,
                end as int,
                seen_point,
            ),
            text@ == chars@.subrange(start as int, end as int),
            digits == has_digit(text@),
        decreases chars.len() - end,
    {
        let c = chars[end];
        let ghost before = text@;
        push_char(&mut text, c);
        if c == '.' {
            seen_point = true;
        } else {
            digits = true;
        }
        end += 1;
        proof {
            assert(text@ == chars@.subrange(start as int, end as int));
            assert(text@.last() == c);
            assert(forall|k: int| 0 <= k < before.len() ==> text@[k] == before[k]);
        }
    }
    Literal { text, end, digits }
}

/// A cursor over the tokens of one expression.
///
/// The tokens are made once, by [`Lexer::new`], and end with the end mark.
/// Reading behind the last token gives the end mark again and again.
pub struct Lexer {
    tokens: Vec<Token>,
    current_token: usize,
}

impl Lexer {
    /// The whole token sequence, whatever has been read of it.
    pub closed spec fn tokens(&self) -> Seq<TokenModel> {
        token_models(self.tokens@)
    }

    /// How many tokens have been read.
    pub closed spec fn position(&self) -> nat {
        self.current_token as nat
    }

    #[verifier::type_invariant]
    spec fn well_formed(&self) -> bool {
        &&& self.current_token <= self.tokens.len()
        &&& well_formed_tokens(token_models(self.tokens@))
    }

    /// Splits `expr` into tokens and puts the cursor on the first.
    pub fn new(expr: &str) -> (r: Result<Lexer, ParseError>)
        ensures
            match lex(expr@) {
                Ok(tokens) => r is Ok && r->Ok_0.tokens() == tokens && r->Ok_0.position() == 0,
                Err(e) => r is Err && r->Err_0@ == e,
            },
    {
        proof {
            lemma_lex_outcomes(expr@);
        }
        match Lexer::tokenize(expr) {
            Ok(tokens) => Ok(Lexer { tokens, current_token: 0 }),
            Err(e) => Err(e),
        }
    }

    /// Splits `expr` into tokens, as [`lex`] says.
    fn tokenize(expr: &str) -> (r: Result<Vec<Token>, ParseError>)
        ensures
            match lex(expr@) {
                Ok(tokens) => r is Ok && token_models(r->Ok_0@) == tokens,
                Err(e) => r is Err && r->Err_0@ == e,
            },
    {
        let chars = chars_of(expr);
        let mut tokens: Vec<Token> = Vec::new();
        let mut i: usize = 0;
        while i < chars.len()
            invariant
                chars@ == expr@,
                i <= chars.len(),
                lex_from(chars@, 0) == prepend(token_models(tokens@), lex_from(chars@, i as int)),
            decreases chars.len() - i,
        {
            let c = chars[i];
            let ghost before = token_models(tokens@);
            if literal_char(c) {
                let literal = read_literal(&chars, i);
                if !literal.digits {
                    if i > 0 && literal_char(chars[i - 1]) {
                        return Err(ParseError::InvalidCharacter('.'));
                    }
                    return Err(ParseError::InvalidNumber(literal.text));
                }
                let ghost number = TokenModel::Number(literal.text@);
                tokens.push(Token::Number(literal.text));
                i = skip_spaces_in(&chars, literal.end);
                let implied = i < chars.len() && chars[i] == '(';
                if implied {
                    tokens.push(Token::Operator('*'));
                }
                proof {
                    assert(token_models(tokens@) == before + with_implied(number, implied));
                    lemma_prepend_twice(
                        before,
                        with_implied(number, implied),
                        lex_from(chars@, i as int),
                    );
                }
            } else if c == ')' {
                tokens.push(Token::Operator(c));
                i = skip_spaces_in(&chars, i + 1);
                let implied = i < chars.len() && (chars[i] == '(' || digit(chars[i]));
                if implied {
                    tokens.push(Token::Operator('*'));
                }
                proof {
                    assert(token_models(tokens@) == before + with_implied(
                        TokenModel::Operator(')'),
                        implied,
                    ));
                    lemma_prepend_twice(
                        before,
                        with_implied(TokenModel::Operator(')'), implied),
                        lex_from(chars@, i as int),
                    );
                }
            } else if operator(c) {
                tokens.push(Token::Operator(c));
                i += 1;
                proof {
                    assert(token_models(tokens@) == before + seq![TokenModel::Operator(c)]);
                    lemma_prepend_twice(
                        before,
                        seq![TokenModel::Operator(c)],
                        lex_from(chars@, i as int),
                    );
                }
            } else if space(c) {
                i += 1;
            } else {
                return Err(ParseError::InvalidCharacter(c));
            }
        }
        assert(token_models(tokens@) + Seq::<TokenModel>::empty() == token_models(tokens@));
        if tokens.len() == 0 {
            return Err(ParseError::EmptyExpression);
        }
        let ghost before = token_models(tokens@);
        tokens.push(Token::EOF);
        assert(token_models(tokens@) == before.push(TokenModel::EOF));
        Ok(tokens)
    }

    /// Gives the token under the cursor and moves the cursor behind it. At the
    /// end of the tokens it gives the end mark and moves nothing.
    pub fn next(&mut self) -> (token: Token)
        ensures
            token@ == token_at(old(self).tokens(), old(self).position()),
            final(self).tokens() == old(self).tokens(),
            final(self).position() == advance(old(self).tokens(), old(self).position()),
            final(self).position() <= final(self).tokens().len(),
            well_formed_tokens(final(self).tokens()),
    {
        proof {
            use_type_invariant(&*self);
        }
        if self.current_token < self.tokens.len() {
            let token = self.tokens[self.current_token].clone();
            self.current_token += 1;
            token
        } else {
            Token::EOF
        }
    }

    /// Gives the token under the cursor without moving the cursor.
    pub fn peek(&self) -> (token: Token)
        ensures
            token@ == token_at(self.tokens(), self.position()),
            self.position() <= self.tokens().len(),
            well_formed_tokens(self.tokens()),
    {
        proof {
            use_type_invariant(self);
        }
        if self.current_token < self.tokens.len() {
            self.tokens[self.current_token].clone()
        } else {
            Token::EOF
        }
    }
}

} // verus!

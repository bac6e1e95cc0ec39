use vstd::prelude::*;
use crate::error::ParseErrorModel;
use crate::token::{
    has_digit, is_digit, is_literal, is_literal_char, is_operator, is_space, well_formed_tokens,
    TokenModel,
};

verus! {

/// Where the numeric literal that is being read ends.
///
/// Reading is at index `i`; `seen_point` tells whether the literal already
/// holds a point. The literal goes on over digits, and over one point as long
/// as it holds none yet.
pub open spec fn literal_end(s: Seq<char>, i: int, seen_point: bool) -> int
    decreases s.len() - i,
{
    if 0 <= i < s.len() && (is_digit(s[i]) || (s[i] == '.' && !seen_point)) {
        literal_end(s, i + 1, seen_point || s[i] == '.')
    } else {
        i
    }
}

/// The first index from `i` on that holds no white space, or the length of `s`.
pub open spec fn skip_spaces(s: Seq<char>, i: int) -> int
    decreases s.len() - i,
{
    if 0 <= i < s.len() && is_space(s[i]) {
        skip_spaces(s, i + 1)
    } else {
        i
    }
}

/// Whether a multiplication is implied at index `at`, where the text goes on
/// after a numeric literal and the white space behind it: an opening
/// parenthesis follows.
pub open spec fn implied_after_number(s: Seq<char>, at: int) -> bool {
    0 <= at < s.len() && s[at] == '('
}

/// Whether a multiplication is implied at index `at`, where the text goes on
/// after a closing parenthesis and the white space behind it: an opening
/// parenthesis or a digit follows.
pub open spec fn implied_after_group(s: Seq<char>, at: int) -> bool {
    0 <= at < s.len() && (s[at] == '(' || is_digit(s[at]))
}

/// Whether `s` holds nothing but white space.
pub open spec fn is_blank(s: Seq<char>) -> bool {
    forall|k: int| 0 <= k < s.len() ==> is_space(#[trigger] s[k])
}

/// `head` followed by the tokens of `rest`, or the error of `rest`.
pub open spec fn prepend(
    head: Seq<TokenModel>,
    rest: Result<Seq<TokenModel>, ParseErrorModel>,
) -> Result<Seq<TokenModel>, ParseErrorModel> {
    match rest {
        Ok(tail) => Ok(head + tail),
        Err(e) => Err(e),
    }
}

/// The tokens that a literal or a closing parenthesis gives: the token itself,
/// and a multiplication sign behind it where one is implied.
pub open spec fn with_implied(token: TokenModel, implied: bool) -> Seq<TokenModel> {
    if implied {
        seq![token, TokenModel::Operator('*')]
    } else {
        seq![token]
    }
}

/// The tokens of `s` from index `i` on, without the end mark, or the first
/// error met when reading from left to right.
///
/// - A digit or a point starts a numeric literal, which runs as
///   [`literal_end`] says. A literal that holds a digit is a number token. One
///   that holds none is a point alone: an invalid character where it stands
///   directly behind another literal (which then holds a point already), else
///   an invalid number.
/// - Behind a number, white space is skipped, and an opening parenthesis that
///   follows implies a multiplication sign.
/// - Behind a closing parenthesis, white space is skipped, and an opening
///   parenthesis or a digit that follows implies a multiplication sign.
/// - Any other operator character is a token by itself.
/// - White space gives no token; any other character is an error.
pub open spec fn lex_from(s: Seq<char>, i: int) -> Result<Seq<TokenModel>, ParseErrorModel>
    decreases s.len() - i,
{
    if i < 0 || i >= s.len() {
        Ok(Seq::empty())
    } else if is_literal_char(s[i]) {
        let end = literal_end(s, i, false);
        let text = s.subrange(i, end);
        if !has_digit(text) {
            if i > 0 && is_literal_char(s[i - 1]) {
                Err(ParseErrorModel::InvalidCharacter('.'))
            } else {
                Err(ParseErrorModel::InvalidNumber(text))
            }
        } else {
            let next = skip_spaces(s, end);
            proof {
                lemma_literal_end_bounds(s, i, false);
                lemma_skip_spaces_bounds(s, end);
            }
            prepend(
                with_implied(TokenModel::Number(text), implied_after_number(s, next)),
                lex_from(s, next),
            )
        }
    } else if s[i] == ')' {
        let next = skip_spaces(s, i + 1);
        proof {
            lemma_skip_spaces_bounds(s, i + 1);
        }
        prepend(
            with_implied(TokenModel::Operator(')'), implied_after_group(s, next)),
            lex_from(s, next),
        )
    } else if is_operator(s[i]) {
        prepend(seq![TokenModel::Operator(s[i])], lex_from(s, i + 1))
    } else if is_space(s[i]) {
        lex_from(s, i + 1)
    } else {
        Err(ParseErrorModel::InvalidCharacter(s[i]))
    }
}

/// The token sequence of the text `s`: its tokens in order, closed by one end
/// mark. A text without any token is an empty expression.
pub open spec fn lex(s: Seq<char>) -> Result<Seq<TokenModel>, ParseErrorModel> {
    match lex_from(s, 0) {
        Ok(tokens) => if tokens.len() == 0 {
            Err(ParseErrorModel::EmptyExpression)
        } else {
            Ok(tokens.push(TokenModel::EOF))
        },
        Err(e) => Err(e),
    }
}

/// A literal that is being read ends at or behind the reading position, inside the text.
pub proof fn lemma_literal_end_bounds(s: Seq<char>, i: int, seen_point: bool)
    requires
        0 <= i <= s.len(),
    ensures
        i <= literal_end(s, i, seen_point) <= s.len(),
        i < s.len() && (is_digit(s[i]) || (s[i] == '.' && !seen_point)) ==> i < literal_end(
            s,
            i,
            seen_point,
        ),
    decreases s.len() - i,
{
    if i < s.len() && (is_digit(s[i]) || (s[i] == '.' && !seen_point)) {
        lemma_literal_end_bounds(s, i + 1, seen_point || s[i] == '.');
    }
}

/// Skipping white space moves forward only, and stays inside the text.
pub proof fn lemma_skip_spaces_bounds(s: Seq<char>, i: int)
    requires
        0 <= i <= s.len(),
    ensures
        i <= skip_spaces(s, i) <= s.len(),
    decreases s.len() - i,
{
    if i < s.len() && is_space(s[i]) {
        lemma_skip_spaces_bounds(s, i + 1);
    }
}

/// What a literal holds: between the reading position and its end stand only
/// digits and points, of points at most one, and none where the literal held
/// one before.
pub proof fn lemma_literal_shape(s: Seq<char>, i: int, seen_point: bool)
    requires
        0 <= i <= s.len(),
    ensures
        forall|k: int|
            i <= k < literal_end(s, i, seen_point) ==> is_literal_char(#[trigger] s[k]),
        seen_point ==> forall|k: int|
            i <= k < literal_end(s, i, seen_point) ==> #[trigger] s[k] != '.',
        forall|j: int, k: int|
            i <= j < k < literal_end(s, i, seen_point) ==> !(#[trigger] s[j] == '.'
                && #[trigger] s[k] == '.'),
    decreases s.len() - i,
{
    if i < s.len() && (is_digit(s[i]) || (s[i] == '.' && !seen_point)) {
        lemma_literal_shape(s, i + 1, seen_point || s[i] == '.');
    }
}

/// The text of a literal that starts at `i`: a numeric literal if it holds a
/// digit, and otherwise a point alone.
pub proof fn lemma_literal_text(s: Seq<char>, i: int)
    requires
        0 <= i < s.len(),
        is_literal_char(s[i]),
    ensures
        ({
            let text = s.subrange(i, literal_end(s, i, false));
            if has_digit(text) {
                is_literal(text)
            } else {
                text == seq!['.']
            }
        }),
{
    let end = literal_end(s, i, false);
    let text = s.subrange(i, end);
    lemma_literal_end_bounds(s, i, false);
    lemma_literal_shape(s, i, false);
    assert forall|k: int| 0 <= k < text.len() implies is_literal_char(#[trigger] text[k]) by {
        assert(text[k] == s[i + k]);
    }
    assert forall|j: int, k: int| 0 <= j < k < text.len() implies !(#[trigger] text[j] == '.'
        && #[trigger] text[k] == '.') by {
        assert(text[j] == s[i + j] && text[k] == s[i + k]);
    }
    if !has_digit(text) {
        assert(text[0] == '.');
        if text.len() > 1 {
            assert(text[1] == '.');
        }
        assert(text =~= seq!['.']);
    }
}

/// What the tokenizer can give for a text.
///
/// A token sequence is well formed. An empty expression is a text of white
/// space only, and every such text is one. An invalid number is a point
/// alone, which stands in the text. An invalid character stands in the text
/// and is no digit, no operator and no white space. The tokenizer gives no
/// other error.
pub proof fn lemma_lex_outcomes(s: Seq<char>)
    ensures
        is_blank(s) <==> (lex(s) matches Err(ParseErrorModel::EmptyExpression)),
        match lex(s) {
            Ok(tokens) => well_formed_tokens(tokens),
            Err(ParseErrorModel::EmptyExpression) => true,
            Err(ParseErrorModel::InvalidNumber(text)) => text == seq!['.'] && s.contains('.'),
            Err(ParseErrorModel::InvalidCharacter(c)) => s.contains(c) && !is_digit(c)
                && !is_operator(c) && !is_space(c),
            Err(_) => false,
        },
{
    lemma_lex_from_outcomes(s, 0);
    if let Ok(tokens) = lex_from(s, 0) {
        if tokens.len() > 0 {
            let all = tokens.push(TokenModel::EOF);
            assert forall|k: int| 0 <= k < all.len() - 1 implies (#[trigger] all[k])
                != TokenModel::EOF && all[k].well_formed() by {
                assert(all[k] == tokens[k]);
            }
        }
    }
}

/// [`lemma_lex_outcomes`], for the tokens from index `i` on.
proof fn lemma_lex_from_outcomes(s: Seq<char>, i: int)
    requires
        0 <= i <= s.len(),
    ensures
        match lex_from(s, i) {
            Ok(tokens) => {
                &&& forall|k: int|
                    0 <= k < tokens.len() ==> (#[trigger] tokens[k]) != TokenModel::EOF
                        && tokens[k].well_formed()
                &&& tokens.len() == 0 <==> forall|k: int|
                    i <= k < s.len() ==> is_space(#[trigger] s[k])
            },
            Err(ParseErrorModel::InvalidNumber(text)) => text == seq!['.'] && s.contains('.'),
            Err(ParseErrorModel::InvalidCharacter(c)) => s.contains(c) && !is_digit(c)
                && !is_operator(c) && !is_space(c),
            Err(_) => false,
        },
        lex_from(s, i) is Err ==> exists|k: int| i <= k < s.len() && !is_space(#[trigger] s[k]),
    decreases s.len() - i,
{
    if i >= s.len() {
    } else if is_literal_char(s[i]) {
        let end = literal_end(s, i, false);
        let text = s.subrange(i, end);
        lemma_literal_end_bounds(s, i, false);
        lemma_literal_text(s, i);
        if has_digit(text) {
            let next = skip_spaces(s, end);
            lemma_skip_spaces_bounds(s, end);
            lemma_lex_from_outcomes(s, next);
        } else {
            assert(s[i] == text[0]);
        }
    } else if s[i] == ')' {
        let next = skip_spaces(s, i + 1);
        lemma_skip_spaces_bounds(s, i + 1);
        lemma_lex_from_outcomes(s, next);
    } else if is_operator(s[i]) {
        lemma_lex_from_outcomes(s, i + 1);
    } else if is_space(s[i]) {
        lemma_lex_from_outcomes(s, i + 1);
    } else {
    }
}

/// Prepending in two steps is prepending the two runs joined.
pub proof fn lemma_prepend_twice(
    first: Seq<TokenModel>,
    second: Seq<TokenModel>,
    rest: Result<Seq<TokenModel>, ParseErrorModel>,
)
    ensures
        prepend(first, prepend(second, rest)) == prepend(first + second, rest),
{
    if let Ok(tail) = rest {
        assert(first + (second + tail) == (first + second) + tail);
    }
}

} // verus!

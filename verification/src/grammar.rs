use vstd::prelude::*;
use crate::error::ParseErrorModel;
use crate::expr::ExprModel;
use crate::precedence::{
    expression, infix_loop, lemma_expression_sound, lemma_infix_loop_sound, lemma_prefix_sound,
    operator_description, parse_tokens, prefix, Outcome,
};
use crate::token::{advance, token_at, TokenModel};

verus! {

/// `+` or `-`, the operators of a sum.
pub open spec fn is_additive(op: char) -> bool {
    op == '+' || op == '-'
}

/// `*` or `/`, the operators of a product.
pub open spec fn is_multiplicative(op: char) -> bool {
    op == '*' || op == '/'
}

/// The tree of `left op right`.
pub open spec fn join(op: char, left: ExprModel, right: ExprModel) -> ExprModel {
    ExprModel::BinaryOp { op, left: Box::new(left), right: Box::new(right) }
}

/// A sum that starts at `position`: a product, and the products added to it
/// or subtracted from it.
///
/// Together with [`product`] and [`factor`] this is the grammar in layers
///
/// ```text
/// sum     = product { ("+" | "-") product }
/// product = factor  { ("*" | "/") factor }
/// factor  = number | ("+" | "-") factor | "(" sum ")"
/// ```
///
/// in which every repetition groups from the left.
pub open spec fn sum(tokens: Seq<TokenModel>, position: nat) -> Outcome
    decreases tokens.len() - position, 2int,
{
    let first = product(tokens, position);
    match first.result {
        Ok(left) => if position < first.next <= tokens.len() {
            more_products(tokens, first.next, left)
        } else {
            first
        },
        Err(_) => first,
    }
}

/// The products that follow the sum `left`, which ends before `position`.
/// Each is joined to what stands to its left.
pub open spec fn more_products(tokens: Seq<TokenModel>, position: nat, left: ExprModel) -> Outcome
    decreases tokens.len() - position, 0int,
{
    match token_at(tokens, position) {
        TokenModel::Operator(op) => if is_additive(op) {
            let right = product(tokens, position + 1);
            match right.result {
                Ok(operand) => if position < right.next <= tokens.len() {
                    more_products(tokens, right.next, join(op, left, operand))
                } else {
                    right
                },
                Err(_) => right,
            }
        } else {
            Outcome { result: Ok(left), next: position }
        },
        _ => Outcome { result: Ok(left), next: position },
    }
}

/// A product that starts at `position`: a factor, and the factors that it is
/// multiplied with or divided by.
pub open spec fn product(tokens: Seq<TokenModel>, position: nat) -> Outcome
    decreases tokens.len() - position, 1int,
{
    let first = factor(tokens, position);
    match first.result {
        Ok(left) => if position < first.next <= tokens.len() {
            more_factors(tokens, first.next, left)
        } else {
            first
        },
        Err(_) => first,
    }
}

/// The factors that follow the product `left`, which ends before `position`.
/// Each is joined to what stands to its left.
pub open spec fn more_factors(tokens: Seq<TokenModel>, position: nat, left: ExprModel) -> Outcome
    decreases tokens.len() - position, 0int,
{
    match token_at(tokens, position) {
        TokenModel::Operator(op) => if is_multiplicative(op) {
            let right = factor(tokens, position + 1);
            match right.result {
                Ok(operand) => if position < right.next <= tokens.len() {
                    more_factors(tokens, right.next, join(op, left, operand))
                } else {
                    right
                },
                Err(_) => right,
            }
        } else {
            Outcome { result: Ok(left), next: position }
        },
        _ => Outcome { result: Ok(left), next: position },
    }
}

/// A factor that starts at `position`: a number, a signed factor, or a sum in
/// parentheses.
pub open spec fn factor(tokens: Seq<TokenModel>, position: nat) -> Outcome
    decreases tokens.len() - position, 0int,
{
    match token_at(tokens, position) {
        TokenModel::Number(text) => Outcome {
            result: Ok(ExprModel::Number(text)),
            next: position + 1,
        },
        TokenModel::Operator(op) => if is_additive(op) {
            let operand = factor(tokens, position + 1);
            match operand.result {
                Ok(tree) => Outcome {
                    result: Ok(ExprModel::UnaryOp { op, operand: Box::new(tree) }),
                    next: operand.next,
                },
                Err(_) => operand,
            }
        } else if op == '(' {
            let inner = sum(tokens, position + 1);
            match inner.result {
                Ok(tree) => Outcome {
                    result: if token_at(tokens, inner.next) == TokenModel::Operator(')') {
                        Ok(tree)
                    } else {
                        Err(ParseErrorModel::MissingClosingParenthesis)
                    },
                    next: advance(tokens, inner.next),
                },
                Err(_) => inner,
            }
        } else {
            Outcome {
                result: Err(ParseErrorModel::UnexpectedToken(operator_description(op))),
                next: position + 1,
            }
        },
        TokenModel::EOF => Outcome {
            result: Err(ParseErrorModel::UnexpectedEndOfExpression),
            next: advance(tokens, position),
        },
    }
}

/// The operators that follow `left` when any binary operator may: first the
/// factors of the product that `left` starts, then the products of the sum
/// that this product starts.
pub open spec fn more_factors_then_products(
    tokens: Seq<TokenModel>,
    position: nat,
    left: ExprModel,
) -> Outcome {
    let first = more_factors(tokens, position, left);
    match first.result {
        Ok(product) => more_products(tokens, first.next, product),
        Err(_) => first,
    }
}

/// With a threshold over the left binding power of every binary operator, an
/// expression is an operand alone.
pub proof fn lemma_tight_expression_is_prefix(
    tokens: Seq<TokenModel>,
    position: nat,
    min_bp: nat,
)
    requires
        min_bp >= 8,
    ensures
        expression(tokens, position, min_bp) == prefix(tokens, position),
{
    lemma_prefix_sound(tokens, position);
}

/// A factor of the layered grammar is an operand of the climbing parser.
pub proof fn lemma_factor_is_prefix(tokens: Seq<TokenModel>, position: nat)
    ensures
        factor(tokens, position) == prefix(tokens, position),
    decreases tokens.len() - position, 0int,
{
    match token_at(tokens, position) {
        TokenModel::Operator(op) => {
            if is_additive(op) {
                lemma_factor_is_prefix(tokens, position + 1);
                lemma_tight_expression_is_prefix(tokens, position + 1, 9);
            } else if op == '(' {
                lemma_sum_is_expression(tokens, position + 1);
            }
        },
        _ => {},
    }
}

/// Reading factors is climbing with the threshold 6, which lets `*` and `/`
/// pass and stops at `+` and `-`.
pub proof fn lemma_more_factors_is_infix_loop(
    tokens: Seq<TokenModel>,
    position: nat,
    left: ExprModel,
)
    ensures
        more_factors(tokens, position, left) == infix_loop(tokens, position, left, 6),
    decreases tokens.len() - position, 0int,
{
    if let TokenModel::Operator(op) = token_at(tokens, position) {
        if is_multiplicative(op) {
            lemma_tight_expression_is_prefix(tokens, position + 1, 8);
            lemma_factor_is_prefix(tokens, position + 1);
            let right = factor(tokens, position + 1);
            if let Ok(operand) = right.result {
                if position < right.next <= tokens.len() {
                    lemma_more_factors_is_infix_loop(tokens, right.next, join(op, left, operand));
                }
            }
        }
    }
}

/// A product of the layered grammar is an expression with the threshold 6,
/// the right binding power of `+` and `-`.
pub proof fn lemma_product_is_expression(tokens: Seq<TokenModel>, position: nat)
    ensures
        product(tokens, position) == expression(tokens, position, 6),
    decreases tokens.len() - position, 1int,
{
    lemma_factor_is_prefix(tokens, position);
    let first = factor(tokens, position);
    if let Ok(left) = first.result {
        if position < first.next <= tokens.len() {
            lemma_more_factors_is_infix_loop(tokens, first.next, left);
        }
    }
}

/// A factor holds at least one token, and ends inside the tokens.
pub proof fn lemma_factor_advances(tokens: Seq<TokenModel>, position: nat)
    ensures
        factor(tokens, position).result is Ok ==> position < factor(tokens, position).next
            <= tokens.len(),
    decreases tokens.len() - position, 1int,
{
    lemma_factor_is_prefix(tokens, position);
    lemma_prefix_sound(tokens, position);
}

/// Where the factors of a product end, no `*` and no `/` stands.
pub proof fn lemma_more_factors_stops(tokens: Seq<TokenModel>, position: nat, left: ExprModel)
    ensures
        ({
            let all = more_factors(tokens, position, left);
            all.result is Ok ==> !(token_at(tokens, all.next) matches TokenModel::Operator(op)
                && is_multiplicative(op))
        }),
    decreases tokens.len() - position, 0int,
{
    if let TokenModel::Operator(op) = token_at(tokens, position) {
        if is_multiplicative(op) {
            let right = factor(tokens, position + 1);
            lemma_factor_advances(tokens, position + 1);
            if let Ok(operand) = right.result {
                lemma_more_factors_stops(tokens, right.next, join(op, left, operand));
            }
        }
    }
}

/// Climbing without a threshold reads the factors of the product that `left`
/// starts, and then the products of the sum that this product starts.
pub proof fn lemma_infix_loop_is_layered(tokens: Seq<TokenModel>, position: nat, left: ExprModel)
    ensures
        infix_loop(tokens, position, left, 0) == more_factors_then_products(
            tokens,
            position,
            left,
        ),
    decreases tokens.len() - position, 0int,
{
    if let TokenModel::Operator(op) = token_at(tokens, position) {
        if is_multiplicative(op) {
            lemma_tight_expression_is_prefix(tokens, position + 1, 8);
            lemma_factor_is_prefix(tokens, position + 1);
            lemma_factor_advances(tokens, position + 1);
            let right = factor(tokens, position + 1);
            if let Ok(operand) = right.result {
                lemma_infix_loop_is_layered(tokens, right.next, join(op, left, operand));
            }
        } else if is_additive(op) {
            lemma_product_is_expression(tokens, position + 1);
            let right = product(tokens, position + 1);
            if let Ok(operand) = right.result {
                lemma_expression_sound(tokens, position + 1, 6);
                let joined = join(op, left, operand);
                lemma_infix_loop_is_layered(tokens, right.next, joined);
                let first = factor(tokens, position + 1);
                lemma_factor_advances(tokens, position + 1);
                lemma_more_factors_stops(tokens, first.next, first.result->Ok_0);
                assert(more_factors(tokens, right.next, joined) == Outcome {
                    result: Ok(joined),
                    next: right.next,
                });
            }
        }
    }
}

/// The climbing parser reads the layered grammar: an expression without a
/// threshold is a sum, with the same tree or the same error, and the same
/// position behind it.
pub proof fn lemma_sum_is_expression(tokens: Seq<TokenModel>, position: nat)
    ensures
        sum(tokens, position) == expression(tokens, position, 0),
    decreases tokens.len() - position, 2int,
{
    lemma_factor_is_prefix(tokens, position);
    lemma_prefix_sound(tokens, position);
    let first = factor(tokens, position);
    if let Ok(left) = first.result {
        lemma_infix_loop_is_layered(tokens, first.next, left);
        lemma_more_factors_is_infix_loop(tokens, first.next, left);
        lemma_infix_loop_sound(tokens, first.next, left, 6);
    }
}

/// What parsing gives for a whole token sequence, said with the layered
/// grammar: a sum, behind which only the end mark may stand.
pub proof fn lemma_parse_is_layered(tokens: Seq<TokenModel>, position: nat)
    ensures
        parse_tokens(tokens, position) == ({
            let whole = sum(tokens, position);
            match whole.result {
                Ok(tree) => match token_at(tokens, whole.next) {
                    TokenModel::EOF => whole,
                    trailing => Outcome {
                        result: Err(ParseErrorModel::UnexpectedToken(trailing.describe())),
                        next: whole.next,
                    },
                },
                Err(_) => whole,
            }
        }),
{
    lemma_sum_is_expression(tokens, position);
}

/// The tokens of `a first b second c`, three numbers and two binary operators between them.
pub open spec fn chain_tokens(
    a: Seq<char>,
    first: char,
    b: Seq<char>,
    second: char,
    c: Seq<char>,
) -> Seq<TokenModel> {
    seq![
        TokenModel::Number(a),
        TokenModel::Operator(first),
        TokenModel::Number(b),
        TokenModel::Operator(second),
        TokenModel::Number(c),
        TokenModel::EOF,
    ]
}

/// Two operators of one precedence group from the left: `a - b - c` is
/// `(a - b) - c`, and `a / b * c` is `(a / b) * c`.
pub proof fn lemma_equal_precedence_groups_left(
    a: Seq<char>,
    first: char,
    b: Seq<char>,
    second: char,
    c: Seq<char>,
)
    requires
        (is_additive(first) && is_additive(second)) || (is_multiplicative(first)
            && is_multiplicative(second)),
    ensures
        parse_tokens(chain_tokens(a, first, b, second, c), 0).result == Ok::<
            ExprModel,
            ParseErrorModel,
        >(
            join(
                second,
                join(first, ExprModel::Number(a), ExprModel::Number(b)),
                ExprModel::Number(c),
            ),
        ),
{
    reveal_with_fuel(expression, 4);
    reveal_with_fuel(infix_loop, 4);
    reveal_with_fuel(prefix, 4);
}

/// A product is one operand of a sum, on whichever side it stands:
/// `a + b * c` is `a + (b * c)`, and `a * b + c` is `(a * b) + c`.
pub proof fn lemma_product_binds_tighter(
    a: Seq<char>,
    first: char,
    b: Seq<char>,
    second: char,
    c: Seq<char>,
)
    requires
        (is_additive(first) && is_multiplicative(second)) || (is_multiplicative(first)
            && is_additive(second)),
    ensures
        parse_tokens(chain_tokens(a, first, b, second, c), 0).result == Ok::<
            ExprModel,
            ParseErrorModel,
        >(
            if is_additive(first) {
                join(
                    first,
                    ExprModel::Number(a),
                    join(second, ExprModel::Number(b), ExprModel::Number(c)),
                )
            } else {
                join(
                    second,
                    join(first, ExprModel::Number(a), ExprModel::Number(b)),
                    ExprModel::Number(c),
                )
            },
        ),
{
    reveal_with_fuel(expression, 4);
    reveal_with_fuel(infix_loop, 4);
    reveal_with_fuel(prefix, 4);
}

/// A sign belongs to the operand behind it alone, whatever operator follows:
/// `-a + b` is `(-a) + b`, and `-a * b` is `(-a) * b`.
pub proof fn lemma_sign_binds_tightest(sign: char, a: Seq<char>, op: char, b: Seq<char>)
    requires
        is_additive(sign),
        is_additive(op) || is_multiplicative(op),
    ensures
        parse_tokens(
            seq![
                TokenModel::Operator(sign),
                TokenModel::Number(a),
                TokenModel::Operator(op),
                TokenModel::Number(b),
                TokenModel::EOF,
            ],
            0,
        ).result == Ok::<ExprModel, ParseErrorModel>(
            join(
                op,
                ExprModel::UnaryOp { op: sign, operand: Box::new(ExprModel::Number(a)) },
                ExprModel::Number(b),
            ),
        ),
{
    reveal_with_fuel(expression, 4);
    reveal_with_fuel(infix_loop, 4);
    reveal_with_fuel(prefix, 4);
}

} // verus!

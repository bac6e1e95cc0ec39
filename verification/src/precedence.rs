use vstd::prelude::*;
use crate::error::ParseErrorModel;
use crate::expr::ExprModel;
use crate::token::{advance, token_at, well_formed_tokens, TokenModel};

verus! {

/// How strongly a binary operator binds to its left and to its right.
///
/// All four operators associate to the left: the right power is one more than
/// the left, so an operator of the same precedence that follows the right
/// operand is not drawn into it.
pub open spec fn infix_power(op: char) -> Option<(nat, nat)> {
    if op == '+' || op == '-' {
        Some((5nat, 6nat))
    } else if op == '*' || op == '/' {
        Some((7nat, 8nat))
    } else {
        None
    }
}

/// How strongly a sign binds to its operand: more than any binary operator.
pub open spec fn prefix_power(op: char) -> nat {
    if op == '+' || op == '-' {
        9
    } else {
        0
    }
}

/// How an operator is described where it cannot start an operand.
pub open spec fn operator_description(op: char) -> Seq<char> {
    "operator '"@.push(op) + "'"@
}

/// What parsing gives: a tree or an error, and the position behind the last token read.
pub struct Outcome {
    pub result: Result<ExprModel, ParseErrorModel>,
    pub next: nat,
}

/// An expression that starts at `position` and holds no binary operator whose
/// left binding power is under `min_bp`: an operand, and the operators that
/// follow it as [`infix_loop`] says.
///
/// The test on where the operand ends is there for the definition to
/// terminate. By [`lemma_prefix_sound`] it holds of every operand.
pub open spec fn expression(tokens: Seq<TokenModel>, position: nat, min_bp: nat) -> Outcome
    decreases tokens.len() - position, 2int,
{
    let first = prefix(tokens, position);
    match first.result {
        Ok(left) => if position < first.next <= tokens.len() {
            infix_loop(tokens, first.next, left, min_bp)
        } else {
            first
        },
        Err(_) => first,
    }
}

/// What follows the operand `left`, which ends before `position`.
///
/// As long as the next token is a binary operator whose left binding power is
/// at least `min_bp`, the operator is read, its right operand is parsed with
/// the operator's right binding power as the new threshold, and the two
/// operands become one, to the left of whatever follows.
///
/// The test on where the right operand ends is there for the definition to
/// terminate. By [`lemma_expression_sound`] it holds of every operand.
pub open spec fn infix_loop(
    tokens: Seq<TokenModel>,
    position: nat,
    left: ExprModel,
    min_bp: nat,
) -> Outcome
    decreases tokens.len() - position, 1int,
{
    match token_at(tokens, position) {
        TokenModel::Operator(op) => match infix_power(op) {
            Some(power) => if power.0 >= min_bp {
                let right = expression(tokens, position + 1, power.1);
                match right.result {
                    Ok(operand) => if position < right.next <= tokens.len() {
                        infix_loop(
                            tokens,
                            right.next,
                            ExprModel::BinaryOp {
                                op,
                                left: Box::new(left),
                                right: Box::new(operand),
                            },
                            min_bp,
                        )
                    } else {
                        right
                    },
                    Err(_) => right,
                }
            } else {
                Outcome { result: Ok(left), next: position }
            },
            None => Outcome { result: Ok(left), next: position },
        },
        _ => Outcome { result: Ok(left), next: position },
    }
}

/// An operand that starts at `position`: a number, a sign in front of an
/// operand, or an expression in parentheses.
pub open spec fn prefix(tokens: Seq<TokenModel>, position: nat) -> Outcome
    decreases tokens.len() - position, 0int,
{
    match token_at(tokens, position) {
        TokenModel::Number(text) => Outcome {
            result: Ok(ExprModel::Number(text)),
            next: position + 1,
        },
        TokenModel::Operator(op) => if op == '+' || op == '-' {
            let operand = expression(tokens, position + 1, prefix_power(op));
            match operand.result {
                Ok(tree) => Outcome {
                    result: Ok(ExprModel::UnaryOp { op, operand: Box::new(tree) }),
                    next: operand.next,
                },
                Err(_) => operand,
            }
        } else if op == '(' {
            let inner = expression(tokens, position + 1, 0);
            match inner.result {
                Ok(tree) => Outcome {
                    result: if token_at(tokens, inner.next) == TokenModel::Operator(')') {
                        Ok(tree)
                    } else {
                        Err(ParseErrorModel::MissingClosingParenthesis)
                    },
                    next: advance(tokens, inner.next),
                },
                Err(_) => inner,
            }
        } else {
            Outcome {
                result: Err(ParseErrorModel::UnexpectedToken(operator_description(op))),
                next: position + 1,
            }
        },
        TokenModel::EOF => Outcome {
            result: Err(ParseErrorModel::UnexpectedEndOfExpression),
            next: advance(tokens, position),
        },
    }
}

/// The operand `left` joined with what follows the operator `token`, which
/// ends before `position`. A token that is no binary operator is an error.
pub open spec fn infix(
    tokens: Seq<TokenModel>,
    position: nat,
    left: ExprModel,
    token: TokenModel,
) -> Outcome {
    match token {
        TokenModel::Operator(op) => match infix_power(op) {
            Some(power) => {
                let right = expression(tokens, position, power.1);
                match right.result {
                    Ok(operand) => Outcome {
                        result: Ok(
                            ExprModel::BinaryOp {
                                op,
                                left: Box::new(left),
                                right: Box::new(operand),
                            },
                        ),
                        next: right.next,
                    },
                    Err(_) => right,
                }
            },
            None => Outcome {
                result: Err(ParseErrorModel::UnexpectedToken(operator_description(op))),
                next: position,
            },
        },
        _ => Outcome {
            result: Err(ParseErrorModel::UnexpectedToken(token.describe())),
            next: position,
        },
    }
}

/// The whole expression that starts at `position`: an expression without a
/// threshold, behind which only the end mark may stand.
///
/// By [`crate::grammar::lemma_parse_is_layered`] this is the sum that the
/// grammar in layers reads at `position`.
pub open spec fn parse_tokens(tokens: Seq<TokenModel>, position: nat) -> Outcome {
    let whole = expression(tokens, position, 0);
    match whole.result {
        Ok(tree) => match token_at(tokens, whole.next) {
            TokenModel::EOF => whole,
            trailing => Outcome {
                result: Err(ParseErrorModel::UnexpectedToken(trailing.describe())),
                next: whole.next,
            },
        },
        Err(_) => whole,
    }
}

/// Whether `e` is an error of structure, which only the parser gives: a token
/// out of place, tokens that end too early, or a parenthesis left open.
pub open spec fn is_structural(e: ParseErrorModel) -> bool {
    e is UnexpectedToken || e is UnexpectedEndOfExpression || e is MissingClosingParenthesis
}

/// What holds of whatever reading an operand or an expression at `position`
/// gives.
///
/// A tree spans at least one token and ends inside the tokens; read from a
/// well-formed token sequence it is well formed and ends before the end
/// mark. An error is one of structure, and the position behind it is not
/// before `position`: reading never goes back.
pub open spec fn sound(tokens: Seq<TokenModel>, position: nat, outcome: Outcome) -> bool {
    match outcome.result {
        Ok(tree) => {
            &&& position < outcome.next <= tokens.len()
            &&& well_formed_tokens(tokens) ==> tree.well_formed() && outcome.next < tokens.len()
        },
        Err(e) => is_structural(e) && position <= outcome.next,
    }
}

/// What holds of whatever reading the operators behind the operand `left`
/// gives, where `left` ends before `position`.
///
/// The tree ends at or behind `position`, inside the tokens; in a well-formed
/// token sequence it is well formed if `left` is, and ends before the end
/// mark if `left` does. An error is one of structure, and the position
/// behind it is not before `position`.
pub open spec fn sound_behind(
    tokens: Seq<TokenModel>,
    position: nat,
    left: ExprModel,
    outcome: Outcome,
) -> bool {
    match outcome.result {
        Ok(tree) => {
            &&& position <= outcome.next <= tokens.len()
            &&& well_formed_tokens(tokens) && left.well_formed() ==> tree.well_formed()
            &&& well_formed_tokens(tokens) && position < tokens.len() ==> outcome.next
                < tokens.len()
        },
        Err(e) => is_structural(e) && position <= outcome.next,
    }
}

/// Reading an operand is sound.
pub proof fn lemma_prefix_sound(tokens: Seq<TokenModel>, position: nat)
    ensures
        sound(tokens, position, prefix(tokens, position)),
    decreases tokens.len() - position, 0int,
{
    match token_at(tokens, position) {
        TokenModel::Number(_) => {
            if well_formed_tokens(tokens) {
                assert(tokens[position as int] != TokenModel::EOF);
                assert(tokens[position as int].well_formed());
            }
        },
        TokenModel::Operator(op) => {
            if op == '+' || op == '-' {
                lemma_expression_sound(tokens, position + 1, prefix_power(op));
            } else if op == '(' {
                lemma_expression_sound(tokens, position + 1, 0);
                let inner = expression(tokens, position + 1, 0);
                if well_formed_tokens(tokens) && inner.result is Ok && token_at(tokens, inner.next)
                    == TokenModel::Operator(')') {
                    assert(tokens[inner.next as int] != TokenModel::EOF);
                }
            }
        },
        TokenModel::EOF => {},
    }
}

/// Reading an expression is sound.
pub proof fn lemma_expression_sound(tokens: Seq<TokenModel>, position: nat, min_bp: nat)
    ensures
        sound(tokens, position, expression(tokens, position, min_bp)),
    decreases tokens.len() - position, 2int,
{
    let first = prefix(tokens, position);
    lemma_prefix_sound(tokens, position);
    if let Ok(left) = first.result {
        lemma_infix_loop_sound(tokens, first.next, left, min_bp);
    }
}

/// Reading the operators behind an operand is sound.
pub proof fn lemma_infix_loop_sound(
    tokens: Seq<TokenModel>,
    position: nat,
    left: ExprModel,
    min_bp: nat,
)
    requires
        position <= tokens.len(),
    ensures
        sound_behind(tokens, position, left, infix_loop(tokens, position, left, min_bp)),
    decreases tokens.len() - position, 1int,
{
    if let TokenModel::Operator(op) = token_at(tokens, position) {
        if let Some(power) = infix_power(op) {
            if power.0 >= min_bp {
                let right = expression(tokens, position + 1, power.1);
                lemma_expression_sound(tokens, position + 1, power.1);
                if let Ok(operand) = right.result {
                    lemma_infix_loop_sound(
                        tokens,
                        right.next,
                        ExprModel::BinaryOp { op, left: Box::new(left), right: Box::new(operand) },
                        min_bp,
                    );
                }
            }
        }
    }
}

/// What parsing a whole token sequence can give.
///
/// An error is one of structure: the errors of the tokenizer and those of the
/// parser are two kinds apart. A tree has taken every token: read from a
/// well-formed token sequence it is well formed, and the position behind it
/// is that of the end mark, the last token. Either way the position has not
/// moved back.
pub proof fn lemma_parse_outcomes(tokens: Seq<TokenModel>, position: nat)
    ensures
        position <= parse_tokens(tokens, position).next,
        match parse_tokens(tokens, position).result {
            Ok(tree) => well_formed_tokens(tokens) ==> tree.well_formed() && parse_tokens(
                tokens,
                position,
            ).next == tokens.len() - 1,
            Err(e) => is_structural(e),
        },
{
    lemma_expression_sound(tokens, position, 0);
    let whole = expression(tokens, position, 0);
    if well_formed_tokens(tokens) && whole.result is Ok && whole.next < tokens.len() - 1 {
        assert(tokens[whole.next as int] != TokenModel::EOF);
    }
}

} // verus!

use vstd::prelude::*;
use crate::token::is_literal;

verus! {

/// An arithmetic expression as a tree.
///
/// Each node owns its operands. A number is kept as the literal that was
/// written, so the tree itself holds no rounded value.
#[derive(Debug, PartialEq, Eq)]
pub enum Expr {
    /// A numeric literal, as written: digits with at most one point.
    Number(String),
    /// A sign, `+` or `-`, in front of an operand.
    UnaryOp { op: char, operand: Box<Expr> },
    /// One of `+ - * /` between two operands.
    BinaryOp { op: char, left: Box<Expr>, right: Box<Expr> },
}

/// The mathematical value of an [`Expr`].
pub enum ExprModel {
    Number(Seq<char>),
    UnaryOp { op: char, operand: Box<ExprModel> },
    BinaryOp { op: char, left: Box<ExprModel>, right: Box<ExprModel> },
}

impl ExprModel {
    /// Whether the tree is one that a text can give: every number is a
    /// numeric literal, every sign is `+` or `-`, and every binary operator is
    /// one of `+ - * /`.
    pub open spec fn well_formed(self) -> bool
        decreases self,
    {
        match self {
            ExprModel::Number(text) => is_literal(text),
            ExprModel::UnaryOp { op, operand } => (op == '+' || op == '-') && operand.well_formed(),
            ExprModel::BinaryOp { op, left, right } => (op == '+' || op == '-' || op == '*' || op
                == '/') && left.well_formed() && right.well_formed(),
        }
    }
}

/// The mathematical value of the tree `expr`.
pub open spec fn expr_model(expr: Expr) -> ExprModel
    decreases expr,
{
    match expr {
        Expr::Number(text) => ExprModel::Number(text@),
        Expr::UnaryOp { op, operand } => ExprModel::UnaryOp {
            op,
            operand: Box::new(expr_model(*operand)),
        },
        Expr::BinaryOp { op, left, right } => ExprModel::BinaryOp {
            op,
            left: Box::new(expr_model(*left)),
            right: Box::new(expr_model(*right)),
        },
    }
}

impl View for Expr {
    type V = ExprModel;

    open spec fn view(&self) -> ExprModel {
        expr_model(*self)
    }
}

impl Clone for Expr {
    fn clone(&self) -> (copy: Expr)
        ensures
            copy@ == self@,
        decreases self,
    {
        match self {
            Expr::Number(text) => Expr::Number(text.clone()),
            Expr::UnaryOp { op, operand } => Expr::UnaryOp {
                op: *op,
                operand: Box::new((&**operand).clone()),
            },
            Expr::BinaryOp { op, left, right } => Expr::BinaryOp {
                op: *op,
                left: Box::new((&**left).clone()),
                right: Box::new((&**right).clone()),
            },
        }
    }
}

} // verus!

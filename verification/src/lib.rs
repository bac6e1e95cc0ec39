//! Arithmetic expressions for a grade calculator, read with proof.
//!
//! A text such as `25/50 + 10(2 - .5)` is split into tokens and parsed into a
//! tree by precedence climbing. Every executable function is verified against
//! a mathematical description of what it returns:
//!
//! - [`lexical`] says which tokens a text has, and [`lexer`] computes them;
//! - [`implied`] proves that a multiplication sign which a text implies may
//!   as well be written;
//! - [`precedence`] says which tree a token sequence has, and [`parser`]
//!   builds it;
//! - [`grammar`] proves that this tree is the one of the usual grammar in
//!   layers of sums, products and factors;
//! - [`calculator`] puts the two steps together.
//!
//! Numbers stay as they were written: the library holds no rounded value, and
//! leaves the arithmetic on a tree to its caller.

pub mod calculator;
pub mod error;
pub mod expr;
pub mod grammar;
pub mod implied;
pub mod lexer;
pub mod lexical;
pub mod parser;
pub mod precedence;
mod text;
pub mod token;
pub mod ui_elements;

pub use crate::calculator::Calculator;
pub use crate::error::ParseError;
pub use crate::expr::Expr;
pub use crate::lexer::Lexer;
pub use crate::parser::Parser;
pub use crate::token::Token;
pub use crate::ui_elements::RowHeaders;

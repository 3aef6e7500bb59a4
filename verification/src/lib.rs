//! A verified parser and exact evaluator for arithmetic expression text.
//!
//! The grammar covers decimal numerals, the four binary operators `+ - * /`
//! with the usual precedence, parenthesized grouping, a unary minus, and the
//! two named functions `log` and `sqrt` applied to a whole expression.
//!
//! Parsing turns a string into an expression tree ([`ast::Expr`]); the shape
//! of that tree, and exactly which strings are accepted, is pinned down by
//! the specification functions in [`grammar`]. Evaluation is exact rational
//! arithmetic over 64-bit numerators and denominators ([`eval`]); a value
//! that the exact arithmetic cannot represent (an irrational logarithm or
//! square root, or a quantity outside the 64-bit range) is reported as
//! indeterminate rather than approximated. The laws that hold of the whole
//! library — redundant brackets and surrounding whitespace never change a
//! meaning, malformed input always fails, rendered integer results
//! re-evaluate to themselves, and the exact arithmetic of literals and
//! binary operations — are stated and proved in [`laws`].

pub mod chars;
pub mod brackets;
pub mod ast;
pub mod grammar;
pub mod parser;
pub mod rational;
pub mod eval;
pub mod trace;
pub mod render;
pub mod laws;

pub use ast::{BinOp, Compound, Expr, Operand, ParseError};
pub use brackets::{check_balanced_brackets, remove_outer_brackets};
pub use eval::{eval_expr, evaluate};
pub use parser::parse_expr;
pub use rational::{Outcome, Rat};
pub use render::render_integer;
pub use trace::{evaluate_with_trace, operator_trace, Evaluation};

//! An arithmetic expression evaluator over exact 32-bit integers.
//!
//! A line of text holding numeric literals, the four binary operators,
//! bracketed groups, `let` declarations and assignments is split into tokens,
//! built into one expression tree by a single recursive pass, and evaluated.
//! The bindings of declared variables are the only state kept between lines.
//!
//! ```text
//! let x          declares x; the statement itself has no value
//! x = 3 + 4      assigns 7 to x and has the value 7
//! x * 2 + 1      has the value 21: operators group to the right
//! [x * 2] + 1    has the value 15: the bracketed group is computed first
//! let x = 1      declares x anew: it is bound to a new cell that holds 1
//! ```
//!
//! A statement may have up to [`interpreter::machine::MAX_TOKENS`] tokens.
//!
//! Every function is verified against a mathematical model: tokens are
//! described by [`interpreter::lexer::Lexeme`], trees by
//! [`interpreter::expr::Expr`], the cells of the variables by a sequence of
//! optional values, the parser by [`interpreter::machine::Machine`] and a
//! session by [`interpreter::Session`]. What follows from the models for whole
//! families of statements is proved in [`interpreter::laws`].

pub mod error;
pub mod interpreter;

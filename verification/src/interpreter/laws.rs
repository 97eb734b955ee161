//! What the evaluator guarantees of every input of a given shape, proved
//! from the models of the lexer, the parser and the trees.

pub mod bindings;
pub mod brackets;
pub mod chains;
pub mod lexing;
pub mod statements;
pub mod texts;
pub mod trees;

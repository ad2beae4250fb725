//! The parser: the syntax tree, the grammar as mathematical functions on
//! token sequences, the recursive-descent procedures that implement it, and
//! what follows from the grammar.

pub mod ast;
pub mod error;
pub mod grammar;
pub mod laws;
pub mod parser;
pub mod written;

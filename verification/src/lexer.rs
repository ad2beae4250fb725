//! The tokenizer: the lexical rules as mathematical functions on byte
//! sequences, the scanner that implements them, and what follows from them.

pub mod laws;
pub mod lexer;
pub mod rules;
mod text;

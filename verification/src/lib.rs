//! Front end of a compiler for a small C-like language: a tokenizer that turns
//! source text into classified, positioned tokens, and a recursive-descent
//! parser that turns a token sequence into a syntax tree.

pub mod lexer;
pub mod parser;
pub mod token;

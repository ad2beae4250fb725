//! The one error of the parser: a token that the grammar has no use for
//! where it stands.

use crate::token::{TokenType, TokenView};
use vstd::prelude::*;

verus! {

/// A token of kind `expected` was needed, and the token found in its place
/// is of another kind, or the tokens had run out.
#[derive(Debug, Clone, Copy, PartialEq, Eq)]
pub struct SyntaxError {
    /// The kind of token that the grammar needed. Where several kinds would
    /// have done, one stands for them: `int` for a type, an identifier for
    /// the start of an expression, `;` for what may follow the name of a
    /// variable.
    pub expected: TokenType,
    /// The kind of the token that stands there; `None` at the end of the
    /// tokens.
    pub found: Option<TokenType>,
    /// The line of that token; at the end of the tokens, of the last token.
    pub row: usize,
    /// The column of that token; at the end of the tokens, of the last token.
    pub column: usize,
}

/// Mathematical value of a [`SyntaxError`].
pub struct SyntaxErrorView {
    pub expected: TokenType,
    pub found: Option<TokenType>,
    pub row: nat,
    pub column: nat,
}

impl View for SyntaxError {
    type V = SyntaxErrorView;

    open spec fn view(&self) -> SyntaxErrorView {
        SyntaxErrorView {
            expected: self.expected,
            found: self.found,
            row: self.row as nat,
            column: self.column as nat,
        }
    }
}

/// The error of needing a token of kind `expected` at index `at` of `ts`.
/// It names the kind and the position of the token at `at`. Past the last
/// token there is no kind to name, and the position is that of the last
/// token; of line 1, column 0 where there is no token at all.
pub open spec fn mismatch(ts: Seq<TokenView>, at: int, expected: TokenType) -> SyntaxErrorView {
    if 0 <= at < ts.len() {
        SyntaxErrorView {
            expected,
            found: Some(ts[at].kind),
            row: ts[at].row,
            column: ts[at].column,
        }
    } else if ts.len() > 0 {
        SyntaxErrorView { expected, found: None, row: ts.last().row, column: ts.last().column }
    } else {
        SyntaxErrorView { expected, found: None, row: 1, column: 0 }
    }
}

} // verus!

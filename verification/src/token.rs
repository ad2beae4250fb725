//! The closed vocabulary of lexical categories and the token record shared by
//! the tokenizer and the parser.

use vstd::prelude::*;

verus! {

/// Reserved words of the language.
#[derive(Debug, Clone, Copy, PartialEq, Eq, Structural)]
pub enum KeyWord {
    Int,
    Char,
    Float,
    Void,
    If,
    Else,
    Return,
    While,
}

/// Arithmetic, relational and logical operators.
#[derive(Debug, Clone, Copy, PartialEq, Eq, Structural)]
pub enum Operator {
    /// `+`
    Add,
    /// `++`
    Inc,
    /// `-`
    Minus,
    /// `--`
    Dec,
    /// `*`
    Mul,
    /// `/`
    Div,
    /// `=`
    Assign,
    /// `==`
    Equal,
    /// `>`
    Greater,
    /// `>=`
    GreaterEqual,
    /// `<`
    Less,
    /// `<=`
    LessEqual,
    /// `&&`
    And,
    /// `||`
    Or,
    /// Reserved; no lexeme produces it.
    Not,
}

/// Punctuation.
#[derive(Debug, Clone, Copy, PartialEq, Eq, Structural)]
pub enum Symbol {
    /// `;`
    Semi,
    /// `,`
    Comma,
    /// `(`
    LeftParen,
    /// `)`
    RightParen,
    /// `[`
    LeftBarcket,
    /// `]`
    RightBarcket,
    /// `{`
    LeftCurly,
    /// `}`
    RightCurly,
    /// `'`
    Quote,
}

/// The kind of a token. `==` on kinds is structural: two kinds are equal when
/// they are the same keyword, operator or symbol, or are both `Var`, both
/// `Number` or both `ILLEGAL`.
#[derive(Debug, Clone, Copy, PartialEq, Eq, Structural)]
pub enum TokenType {
    KeyWord(KeyWord),
    Operator(Operator),
    Symbol(Symbol),
    /// An identifier; the token carries its name.
    Var,
    /// A run of decimal digits; the token carries the digits.
    Number,
    /// A character that starts no lexeme.
    ILLEGAL,
}

impl TokenType {
    /// Whether tokens of this kind carry their lexeme.
    pub open spec fn has_text(self) -> bool {
        self == TokenType::Var || self == TokenType::Number
    }
}

/// A classified lexical unit with the position of its first character.
#[derive(Debug)]
pub struct Token {
    pub token_type: TokenType,
    /// The lexeme, for `Var` and `Number` tokens only.
    pub token_str: Option<String>,
    /// Line of the first character, counted from 1.
    pub row: usize,
    /// Offset of the first character in its line, counted from 0.
    pub column: usize,
}

/// Mathematical value of a [`Token`].
pub struct TokenView {
    pub kind: TokenType,
    pub text: Option<Seq<char>>,
    pub row: nat,
    pub column: nat,
}

/// Mathematical value of an optional string.
pub open spec fn text_view(s: Option<String>) -> Option<Seq<char>> {
    match s {
        Some(t) => Some(t@),
        None => None,
    }
}

impl View for Token {
    type V = TokenView;

    open spec fn view(&self) -> TokenView {
        TokenView {
            kind: self.token_type,
            text: text_view(self.token_str),
            row: self.row as nat,
            column: self.column as nat,
        }
    }
}

/// The mathematical values of a sequence of tokens.
pub open spec fn token_views(tokens: Seq<Token>) -> Seq<TokenView> {
    tokens.map_values(|t: Token| t@)
}

impl TokenView {
    /// The shape every token of the tokenizer has: rows start at 1, and a
    /// lexeme is present exactly for identifiers and numbers.
    pub open spec fn well_formed(self) -> bool {
        &&& self.row >= 1
        &&& self.text is Some <==> self.kind.has_text()
    }

    /// Kind equality: the position and the lexeme are ignored.
    pub open spec fn same_kind(self, other: TokenView) -> bool {
        self.kind == other.kind
    }
}

/// Copies an optional string.
fn clone_text(s: &Option<String>) -> (r: Option<String>)
    ensures
        text_view(r) == text_view(*s),
{
    match s {
        Some(t) => Some(t.clone()),
        None => None,
    }
}

impl Clone for Token {
    fn clone(&self) -> (r: Token)
        ensures
            r@ == self@,
    {
        Token {
            token_type: self.token_type,
            token_str: clone_text(&self.token_str),
            row: self.row,
            column: self.column,
        }
    }
}

impl Token {
    /// Kind equality, the relation by which the grammar matches tokens: two
    /// tokens are of the same kind whatever their lexemes and positions.
    pub fn same_kind(&self, other: &Token) -> (r: bool)
        ensures
            r == self@.same_kind(other@),
    {
        self.token_type == other.token_type
    }
}

/// What the tokenizer learns of a lexeme before it is given a position.
#[derive(Debug)]
pub struct TokenInfo {
    pub token_type: TokenType,
    pub token_str: Option<String>,
}

} // verus!

//! The lexical rules of the language, stated on a sequence of bytes.
//!
//! A source buffer is read byte by byte. Every lexeme of the language is made
//! of ASCII bytes; any other byte starts no lexeme and is a token of its own,
//! of kind `ILLEGAL`.

use crate::token::{KeyWord, Operator, Symbol, TokenType, TokenView};
use vstd::prelude::*;
use vstd::utf8::encode_utf8;

verus! {

/// `a`-`z`, `A`-`Z` or `_`.
pub open spec fn letter(b: u8) -> bool {
    let c = b as char;
    ('a' <= c && c <= 'z') || ('A' <= c && c <= 'Z') || c == '_'
}

/// `0`-`9`.
pub open spec fn digit(b: u8) -> bool {
    let c = b as char;
    '0' <= c && c <= '9'
}

/// A byte that may continue an identifier or keyword.
pub open spec fn word_byte(b: u8) -> bool {
    letter(b) || digit(b)
}

/// Space, tab, carriage return or newline: bytes between tokens.
pub open spec fn blank(b: u8) -> bool {
    let c = b as char;
    c == ' ' || c == '\t' || c == '\r' || c == '\n'
}

/// Where the maximal run of bytes of one class that starts at `i` ends: the
/// first index from `i` on whose byte is outside the class, or the length of
/// the buffer.
pub open spec fn run_end(s: Seq<u8>, i: int, class: spec_fn(u8) -> bool) -> int
    decreases s.len() - i,
{
    if 0 <= i < s.len() && class(s[i]) {
        run_end(s, i + 1, class)
    } else {
        i
    }
}

pub open spec fn word_end(s: Seq<u8>, i: int) -> int {
    run_end(s, i, |b: u8| word_byte(b))
}

pub open spec fn digits_end(s: Seq<u8>, i: int) -> int {
    run_end(s, i, |b: u8| digit(b))
}

pub open spec fn blank_end(s: Seq<u8>, i: int) -> int {
    run_end(s, i, |b: u8| blank(b))
}

/// A run ends between its start and the end of the buffer, holds only bytes of
/// the class, and is maximal: the byte that follows it, if any, is outside the
/// class.
pub proof fn lemma_run_end(s: Seq<u8>, i: int, class: spec_fn(u8) -> bool)
    requires
        0 <= i <= s.len(),
    ensures
        i <= run_end(s, i, class) <= s.len(),
        forall|k: int| i <= k < run_end(s, i, class) ==> class(#[trigger] s[k]),
        run_end(s, i, class) < s.len() ==> !class(s[run_end(s, i, class)]),
    decreases s.len() - i,
{
    if i < s.len() && class(s[i]) {
        lemma_run_end(s, i + 1, class);
    }
}

/// The bytes of a word: its UTF-8 encoding, which for an ASCII word is the
/// word itself, byte for character.
pub open spec fn ascii(word: &str) -> Seq<u8> {
    encode_utf8(word@)
}

/// How a keyword is written.
pub open spec fn spelling(k: KeyWord) -> Seq<u8> {
    match k {
        KeyWord::Int => ascii("int"),
        KeyWord::Char => ascii("char"),
        KeyWord::Float => ascii("float"),
        KeyWord::Void => ascii("void"),
        KeyWord::If => ascii("if"),
        KeyWord::Else => ascii("else"),
        KeyWord::Return => ascii("return"),
        KeyWord::While => ascii("while"),
    }
}

/// The keyword that a whole word spells, if any. Case matters.
pub open spec fn keyword_of(w: Seq<u8>) -> Option<KeyWord> {
    if w == spelling(KeyWord::Int) {
        Some(KeyWord::Int)
    } else if w == spelling(KeyWord::Char) {
        Some(KeyWord::Char)
    } else if w == spelling(KeyWord::Float) {
        Some(KeyWord::Float)
    } else if w == spelling(KeyWord::Void) {
        Some(KeyWord::Void)
    } else if w == spelling(KeyWord::If) {
        Some(KeyWord::If)
    } else if w == spelling(KeyWord::Else) {
        Some(KeyWord::Else)
    } else if w == spelling(KeyWord::Return) {
        Some(KeyWord::Return)
    } else if w == spelling(KeyWord::While) {
        Some(KeyWord::While)
    } else {
        None
    }
}

/// The kind of a word: the keyword it spells, or an identifier.
pub open spec fn word_kind(w: Seq<u8>) -> TokenType {
    match keyword_of(w) {
        Some(k) => TokenType::KeyWord(k),
        None => TokenType::Var,
    }
}

/// The byte that makes a two-character operator of `b` when it follows `b`
/// at once.
pub open spec fn partner(b: u8) -> Option<u8> {
    let c = b as char;
    if c == '=' || c == '<' || c == '>' {
        Some('=' as u8)
    } else if c == '+' || c == '-' || c == '&' || c == '|' {
        Some(b)
    } else {
        None
    }
}

/// Whether a two-character operator starts at `i`.
pub open spec fn doubled(s: Seq<u8>, i: int) -> bool {
    i + 1 < s.len() && partner(s[i]) == Some(s[i + 1])
}

/// The kind of the two-character operator whose first byte is `b`.
pub open spec fn pair_kind(b: u8) -> TokenType {
    let c = b as char;
    if c == '=' {
        TokenType::Operator(Operator::Equal)
    } else if c == '+' {
        TokenType::Operator(Operator::Inc)
    } else if c == '-' {
        TokenType::Operator(Operator::Dec)
    } else if c == '<' {
        TokenType::Operator(Operator::LessEqual)
    } else if c == '>' {
        TokenType::Operator(Operator::GreaterEqual)
    } else if c == '&' {
        TokenType::Operator(Operator::And)
    } else if c == '|' {
        TokenType::Operator(Operator::Or)
    } else {
        TokenType::ILLEGAL
    }
}

/// The kind of the one-byte token `b`, where `b` is neither a letter nor a
/// digit and starts no two-character operator. `&` and `|` alone, and every
/// byte the language has no use for, are `ILLEGAL`.
pub open spec fn single_kind(b: u8) -> TokenType {
    let c = b as char;
    if c == '=' {
        TokenType::Operator(Operator::Assign)
    } else if c == '+' {
        TokenType::Operator(Operator::Add)
    } else if c == '-' {
        TokenType::Operator(Operator::Minus)
    } else if c == '*' {
        TokenType::Operator(Operator::Mul)
    } else if c == '/' {
        TokenType::Operator(Operator::Div)
    } else if c == '<' {
        TokenType::Operator(Operator::Less)
    } else if c == '>' {
        TokenType::Operator(Operator::Greater)
    } else if c == '\'' {
        TokenType::Symbol(Symbol::Quote)
    } else if c == '(' {
        TokenType::Symbol(Symbol::LeftParen)
    } else if c == ')' {
        TokenType::Symbol(Symbol::RightParen)
    } else if c == '[' {
        TokenType::Symbol(Symbol::LeftBarcket)
    } else if c == ']' {
        TokenType::Symbol(Symbol::RightBarcket)
    } else if c == '{' {
        TokenType::Symbol(Symbol::LeftCurly)
    } else if c == '}' {
        TokenType::Symbol(Symbol::RightCurly)
    } else if c == ',' {
        TokenType::Symbol(Symbol::Comma)
    } else if c == ';' {
        TokenType::Symbol(Symbol::Semi)
    } else {
        TokenType::ILLEGAL
    }
}

/// Where the token that starts at `i` ends. `i` is the index of a byte that is
/// not blank.
pub open spec fn token_end(s: Seq<u8>, i: int) -> int {
    if letter(s[i]) {
        word_end(s, i)
    } else if digit(s[i]) {
        digits_end(s, i)
    } else if doubled(s, i) {
        i + 2
    } else {
        i + 1
    }
}

/// The kind of the token that starts at `i`.
pub open spec fn token_kind(s: Seq<u8>, i: int) -> TokenType {
    if letter(s[i]) {
        word_kind(s.subrange(i, word_end(s, i)))
    } else if digit(s[i]) {
        TokenType::Number
    } else if doubled(s, i) {
        pair_kind(s[i])
    } else {
        single_kind(s[i])
    }
}

/// ASCII bytes read as characters.
pub open spec fn as_chars(b: Seq<u8>) -> Seq<char> {
    Seq::new(b.len(), |k: int| b[k] as char)
}

/// The lexeme that the token starting at `i` carries: its bytes for an
/// identifier or a number, nothing for any other kind.
pub open spec fn token_text(s: Seq<u8>, i: int) -> Option<Seq<char>> {
    if token_kind(s, i).has_text() {
        Some(as_chars(s.subrange(i, token_end(s, i))))
    } else {
        None
    }
}

/// The line of the byte at index `i`, counted from 1: one more than the
/// number of newlines before it.
pub open spec fn row_at(s: Seq<u8>, i: int) -> nat
    decreases i,
{
    if i <= 0 {
        1
    } else if s[i - 1] as char == '\n' {
        row_at(s, i - 1) + 1
    } else {
        row_at(s, i - 1)
    }
}

/// The offset of the byte at index `i` in its line, counted from 0: the
/// number of bytes between the last newline before it and itself.
pub open spec fn column_at(s: Seq<u8>, i: int) -> nat
    decreases i,
{
    if i <= 0 {
        0
    } else if s[i - 1] as char == '\n' {
        0
    } else {
        column_at(s, i - 1) + 1
    }
}

/// The token that starts at `i`, with the position of its first byte.
pub open spec fn token_at(s: Seq<u8>, i: int) -> TokenView {
    TokenView {
        kind: token_kind(s, i),
        text: token_text(s, i),
        row: row_at(s, i),
        column: column_at(s, i),
    }
}

/// A token covers at least one byte and ends inside the buffer.
pub proof fn lemma_token_end(s: Seq<u8>, i: int)
    requires
        0 <= i < s.len(),
    ensures
        i < token_end(s, i) <= s.len(),
{
    lemma_run_end(s, i + 1, |b: u8| word_byte(b));
    lemma_run_end(s, i + 1, |b: u8| digit(b));
}

/// The tokens of the buffer from index `i` on: blanks are skipped, a token is
/// read where they end, and reading goes on where the token ends.
pub open spec fn tokens_from(s: Seq<u8>, i: int) -> Seq<TokenView>
    decreases s.len() - i,
{
    let start = blank_end(s, i);
    if 0 <= i && start < s.len() {
        proof {
            lemma_run_end(s, i, |b: u8| blank(b));
            lemma_token_end(s, start);
        }
        seq![token_at(s, start)] + tokens_from(s, token_end(s, start))
    } else {
        Seq::empty()
    }
}

/// The tokens of a whole buffer.
pub open spec fn lex(s: Seq<u8>) -> Seq<TokenView> {
    tokens_from(s, 0)
}

} // verus!


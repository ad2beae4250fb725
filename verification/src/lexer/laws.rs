//! What follows from the lexical rules, for every buffer.

use crate::lexer::rules::{
    as_chars, blank, blank_end, column_at, digit, keyword_of, letter, lemma_run_end,
    lemma_token_end, lex, pair_kind, partner, row_at, spelling, token_at, token_end, token_kind,
    token_text, tokens_from, word_byte,
};
use crate::token::{KeyWord, Operator, Symbol, TokenType, TokenView};
use vstd::prelude::*;
use vstd::utf8::is_ascii_chars_encode_utf8;

verus! {

/// The keywords, byte by byte.
pub proof fn lemma_spellings()
    ensures
        spelling(KeyWord::Int) == seq!['i' as u8, 'n' as u8, 't' as u8],
        spelling(KeyWord::Char) == seq!['c' as u8, 'h' as u8, 'a' as u8, 'r' as u8],
        spelling(KeyWord::Float) == seq!['f' as u8, 'l' as u8, 'o' as u8, 'a' as u8, 't' as u8],
        spelling(KeyWord::Void) == seq!['v' as u8, 'o' as u8, 'i' as u8, 'd' as u8],
        spelling(KeyWord::If) == seq!['i' as u8, 'f' as u8],
        spelling(KeyWord::Else) == seq!['e' as u8, 'l' as u8, 's' as u8, 'e' as u8],
        spelling(KeyWord::Return) == seq![
            'r' as u8,
            'e' as u8,
            't' as u8,
            'u' as u8,
            'r' as u8,
            'n' as u8,
        ],
        spelling(KeyWord::While) == seq!['w' as u8, 'h' as u8, 'i' as u8, 'l' as u8, 'e' as u8],
{
    reveal_strlit("int");
    reveal_strlit("char");
    reveal_strlit("float");
    reveal_strlit("void");
    reveal_strlit("if");
    reveal_strlit("else");
    reveal_strlit("return");
    reveal_strlit("while");
    is_ascii_chars_encode_utf8("int"@);
    is_ascii_chars_encode_utf8("char"@);
    is_ascii_chars_encode_utf8("float"@);
    is_ascii_chars_encode_utf8("void"@);
    is_ascii_chars_encode_utf8("if"@);
    is_ascii_chars_encode_utf8("else"@);
    is_ascii_chars_encode_utf8("return"@);
    is_ascii_chars_encode_utf8("while"@);
    assert(spelling(KeyWord::Int) =~= seq!['i' as u8, 'n' as u8, 't' as u8]);
    assert(spelling(KeyWord::Char) =~= seq!['c' as u8, 'h' as u8, 'a' as u8, 'r' as u8]);
    assert(spelling(KeyWord::Float) =~= seq![
        'f' as u8,
        'l' as u8,
        'o' as u8,
        'a' as u8,
        't' as u8,
    ]);
    assert(spelling(KeyWord::Void) =~= seq!['v' as u8, 'o' as u8, 'i' as u8, 'd' as u8]);
    assert(spelling(KeyWord::If) =~= seq!['i' as u8, 'f' as u8]);
    assert(spelling(KeyWord::Else) =~= seq!['e' as u8, 'l' as u8, 's' as u8, 'e' as u8]);
    assert(spelling(KeyWord::Return) =~= seq![
        'r' as u8,
        'e' as u8,
        't' as u8,
        'u' as u8,
        'r' as u8,
        'n' as u8,
    ]);
    assert(spelling(KeyWord::While) =~= seq![
        'w' as u8,
        'h' as u8,
        'i' as u8,
        'l' as u8,
        'e' as u8,
    ]);
}

/// No two keywords are written alike, so a word spells at most one.
pub proof fn lemma_keyword_of_spelling(k: KeyWord)
    ensures
        keyword_of(spelling(k)) == Some(k),
{
    lemma_spellings();
    let w = spelling(k);
    assert(w.len() == 3 ==> w[2] == 't' as u8);
    assert(w.len() == 2 ==> w[0] == 'i' as u8);
    assert(w.len() == 4 ==> w[0] == 'c' as u8 || w[0] == 'v' as u8 || w[0] == 'e' as u8);
    assert(w.len() == 5 ==> w[0] == 'f' as u8 || w[0] == 'w' as u8);
    assert(w.len() == 6 ==> w[0] == 'r' as u8);
}

/// Keyword exactness. A word is a keyword exactly when the whole word is
/// that keyword's spelling; any other word is an identifier, also one that
/// starts with a keyword.
pub proof fn lemma_keyword_exact(s: Seq<u8>, i: int, k: KeyWord)
    requires
        0 <= i < s.len(),
        letter(s[i]),
    ensures
        token_kind(s, i) == TokenType::KeyWord(k) <==> s.subrange(i, token_end(s, i)) == spelling(
            k,
        ),
        token_kind(s, i) == TokenType::Var <==> forall|any: KeyWord|
            s.subrange(i, token_end(s, i)) != spelling(any),
        token_kind(s, i) is KeyWord || token_kind(s, i) == TokenType::Var,
{
    let w = s.subrange(i, token_end(s, i));
    lemma_keyword_of_spelling(k);
    if token_kind(s, i) == TokenType::Var {
        assert forall|any: KeyWord| w != spelling(any) by {
            lemma_keyword_of_spelling(any);
        }
    } else {
        let found = keyword_of(w)->0;
        assert(w == spelling(found));
    }
}

/// Maximal munch. A word or a number is the longest run of its bytes from
/// where it starts: all its bytes are of the class, and the byte after it,
/// if any, is not.
pub proof fn lemma_maximal_munch(s: Seq<u8>, i: int)
    requires
        0 <= i < s.len(),
        letter(s[i]) || digit(s[i]),
    ensures
        i < token_end(s, i) <= s.len(),
        letter(s[i]) ==> {
            &&& forall|k: int| i <= k < token_end(s, i) ==> word_byte(#[trigger] s[k])
            &&& token_end(s, i) < s.len() ==> !word_byte(s[token_end(s, i)])
        },
        digit(s[i]) ==> {
            &&& token_kind(s, i) == TokenType::Number
            &&& forall|k: int| i <= k < token_end(s, i) ==> digit(#[trigger] s[k])
            &&& token_end(s, i) < s.len() ==> !digit(s[token_end(s, i)])
        },
{
    lemma_token_end(s, i);
    lemma_run_end(s, i, |b: u8| word_byte(b));
    lemma_run_end(s, i, |b: u8| digit(b));
}

/// Two-character operators are greedy. Where the second byte of a
/// two-character operator follows its first byte at once, the two bytes are
/// one token, never two.
pub proof fn lemma_double_is_one_token(s: Seq<u8>, i: int)
    requires
        0 <= i,
        i + 1 < s.len(),
        partner(s[i]) == Some(s[i + 1]),
    ensures
        token_end(s, i) == i + 2,
        token_kind(s, i) == pair_kind(s[i]),
        token_kind(s, i) is Operator,
        token_text(s, i) is None,
        tokens_from(s, i) == seq![token_at(s, i)] + tokens_from(s, i + 2),
{
    assert(blank_end(s, i) == i);
}

/// `&` and `|` stand only doubled. Alone, each is one `ILLEGAL` token that
/// covers that byte only, and the byte after it is read afresh.
pub proof fn lemma_lone_operator_is_illegal(s: Seq<u8>, i: int)
    requires
        0 <= i < s.len(),
        s[i] as char == '&' || s[i] as char == '|',
        i + 1 < s.len() ==> s[i + 1] != s[i],
    ensures
        token_kind(s, i) == TokenType::ILLEGAL,
        token_end(s, i) == i + 1,
        token_text(s, i) is None,
        tokens_from(s, i) == seq![token_at(s, i)] + tokens_from(s, i + 1),
{
    assert(blank_end(s, i) == i);
}

/// Rows start at 1, and a column is never more than the index.
pub proof fn lemma_position_bounds(s: Seq<u8>, i: int)
    requires
        0 <= i,
    ensures
        1 <= row_at(s, i) <= i + 1,
        column_at(s, i) <= i,
    decreases i,
{
    if i > 0 {
        lemma_position_bounds(s, i - 1);
    }
}

/// The column of a byte is its offset in its line: the distance from the
/// start of the line, which is the start of the buffer or the byte after a
/// newline.
pub proof fn lemma_column_is_offset(s: Seq<u8>, start: int, i: int)
    requires
        0 <= start <= i,
        start == 0 || s[start - 1] as char == '\n',
        forall|k: int| start <= k < i ==> #[trigger] s[k] as char != '\n',
    ensures
        column_at(s, i) == i - start,
        row_at(s, i) == row_at(s, start),
    decreases i - start,
{
    if i > start {
        lemma_column_is_offset(s, start, i - 1);
    }
}

/// On the first line the row is 1 and the column is the index.
pub proof fn lemma_position_on_first_line(s: Seq<u8>, i: int)
    requires
        0 <= i,
        forall|k: int| 0 <= k < i ==> #[trigger] s[k] as char != '\n',
    ensures
        row_at(s, i) == 1,
        column_at(s, i) == i,
{
    lemma_column_is_offset(s, 0, i);
}

/// Every token of a buffer is well formed: its row is at least 1, and it
/// carries a lexeme exactly when it is an identifier or a number.
pub proof fn lemma_tokens_well_formed(s: Seq<u8>, i: int)
    requires
        0 <= i,
    ensures
        forall|k: int|
            0 <= k < tokens_from(s, i).len() ==> (#[trigger] tokens_from(s, i)[k]).well_formed(),
    decreases s.len() - i,
{
    let start = blank_end(s, i);
    if i <= s.len() && start < s.len() {
        lemma_run_end(s, i, |b: u8| blank(b));
        lemma_token_end(s, start);
        lemma_position_bounds(s, start);
        let rest = tokens_from(s, token_end(s, start));
        lemma_tokens_well_formed(s, token_end(s, start));
        assert forall|k: int| 0 <= k < tokens_from(s, i).len() implies (#[trigger] tokens_from(
            s,
            i,
        )[k]).well_formed() by {
            if k > 0 {
                assert(tokens_from(s, i)[k] == rest[k - 1]);
            }
        }
    }
}

/// How an operator is written. `Not` is reserved and has no spelling.
pub open spec fn operator_spelling(op: Operator) -> Seq<u8> {
    match op {
        Operator::Add => seq!['+' as u8],
        Operator::Inc => seq!['+' as u8, '+' as u8],
        Operator::Minus => seq!['-' as u8],
        Operator::Dec => seq!['-' as u8, '-' as u8],
        Operator::Mul => seq!['*' as u8],
        Operator::Div => seq!['/' as u8],
        Operator::Assign => seq!['=' as u8],
        Operator::Equal => seq!['=' as u8, '=' as u8],
        Operator::Greater => seq!['>' as u8],
        Operator::GreaterEqual => seq!['>' as u8, '=' as u8],
        Operator::Less => seq!['<' as u8],
        Operator::LessEqual => seq!['<' as u8, '=' as u8],
        Operator::And => seq!['&' as u8, '&' as u8],
        Operator::Or => seq!['|' as u8, '|' as u8],
        Operator::Not => Seq::empty(),
    }
}

/// How a symbol is written.
pub open spec fn symbol_spelling(symbol: Symbol) -> Seq<u8> {
    match symbol {
        Symbol::Semi => seq![';' as u8],
        Symbol::Comma => seq![',' as u8],
        Symbol::LeftParen => seq!['(' as u8],
        Symbol::RightParen => seq![')' as u8],
        Symbol::LeftBarcket => seq!['[' as u8],
        Symbol::RightBarcket => seq![']' as u8],
        Symbol::LeftCurly => seq!['{' as u8],
        Symbol::RightCurly => seq!['}' as u8],
        Symbol::Quote => seq!['\'' as u8],
    }
}

/// The bytes of a lexeme.
pub open spec fn as_bytes(text: Seq<char>) -> Seq<u8> {
    Seq::new(text.len(), |k: int| text[k] as u8)
}

/// The lexeme of a token, as far as the token tells: the lexeme it carries
/// for an identifier or a number, the spelling of its kind for a keyword, an
/// operator or a symbol. An `ILLEGAL` token does not tell which byte it
/// was.
pub open spec fn written(t: TokenView) -> Seq<u8> {
    match t.kind {
        TokenType::KeyWord(k) => spelling(k),
        TokenType::Operator(op) => operator_spelling(op),
        TokenType::Symbol(symbol) => symbol_spelling(symbol),
        TokenType::Var | TokenType::Number => match t.text {
            Some(text) => as_bytes(text),
            None => Seq::empty(),
        },
        TokenType::ILLEGAL => Seq::empty(),
    }
}

/// The lexeme of the token that starts at `i`: what the token tells of it,
/// or, for an `ILLEGAL` token, the byte at `i`.
pub open spec fn lexeme(s: Seq<u8>, i: int) -> Seq<u8> {
    if token_kind(s, i) == TokenType::ILLEGAL {
        seq![s[i]]
    } else {
        written(token_at(s, i))
    }
}

/// The buffer from index `i` on, put together again: before each token the
/// blanks that stand before it in the buffer, then the lexeme of the token;
/// after the last token the blanks that end the buffer.
pub open spec fn rewritten(s: Seq<u8>, i: int) -> Seq<u8>
    decreases s.len() - i,
{
    let start = blank_end(s, i);
    if 0 <= i && start < s.len() {
        proof {
            lemma_run_end(s, i, |b: u8| blank(b));
            lemma_token_end(s, start);
        }
        s.subrange(i, start) + lexeme(s, start) + rewritten(s, token_end(s, start))
    } else if 0 <= i <= s.len() {
        s.subrange(i, s.len() as int)
    } else {
        Seq::empty()
    }
}

/// Lexemes are kept. A token that is not `ILLEGAL` tells its lexeme: the
/// lexeme it carries, or the spelling of its kind, is the bytes it was read
/// from. An `ILLEGAL` token is one byte long.
pub proof fn lemma_lexeme_is_kept(s: Seq<u8>, i: int)
    requires
        0 <= i < s.len(),
    ensures
        lexeme(s, i) == s.subrange(i, token_end(s, i)),
        token_kind(s, i) != TokenType::ILLEGAL ==> written(token_at(s, i)) == s.subrange(
            i,
            token_end(s, i),
        ),
        token_kind(s, i) == TokenType::ILLEGAL ==> token_end(s, i) == i + 1,
{
    lemma_token_end(s, i);
    let w = s.subrange(i, token_end(s, i));
    if letter(s[i]) || digit(s[i]) {
        if token_kind(s, i).has_text() {
            assert(as_bytes(as_chars(w)) =~= w);
        }
    } else {
        assert(lexeme(s, i) =~= w);
    }
}

/// Put together again from its lexemes and its blanks, a buffer is itself.
pub proof fn lemma_rewritten(s: Seq<u8>, i: int)
    requires
        0 <= i <= s.len(),
    ensures
        rewritten(s, i) == s.subrange(i, s.len() as int),
    decreases s.len() - i,
{
    let start = blank_end(s, i);
    lemma_run_end(s, i, |b: u8| blank(b));
    if start < s.len() {
        lemma_token_end(s, start);
        let end = token_end(s, start);
        lemma_lexeme_is_kept(s, start);
        lemma_rewritten(s, end);
        assert(s.subrange(i, start) + s.subrange(start, end) + s.subrange(end, s.len() as int)
            =~= s.subrange(i, s.len() as int));
    }
}

/// Round trip. The lexemes of the tokens of a buffer, joined by the blanks
/// that separate them in the buffer, are the buffer again; so reading them
/// again gives the same tokens: the same kinds, the same lexemes of
/// identifiers and numbers, the same positions.
pub proof fn lemma_round_trip(s: Seq<u8>)
    ensures
        rewritten(s, 0) == s,
        lex(rewritten(s, 0)) == lex(s),
{
    lemma_rewritten(s, 0);
    assert(s.subrange(0, s.len() as int) =~= s);
}

} // verus!

//! The scanner: a cursor over a source buffer that hands out one token at a
//! time.

use crate::lexer::rules::{
    as_chars, blank, blank_end, column_at, digit, digits_end, keyword_of, lemma_run_end,
    lemma_token_end, letter, lex, row_at, token_at, token_end, tokens_from, word_byte, word_end,
    word_kind,
};
use crate::lexer::laws::lemma_tokens_well_formed;
use crate::lexer::text::ascii_lexeme;
use crate::token::{
    text_view, token_views, KeyWord, Operator, Symbol, Token, TokenInfo, TokenType, TokenView,
};
use vstd::prelude::*;
use vstd::utf8::encode_utf8;

verus! {

/// Whether `ch` is `a`-`z`, `A`-`Z` or `_`.
pub fn is_letter(ch: u8) -> (r: bool)
    ensures
        r == letter(ch),
{
    let c = ch as char;
    ('a' <= c && c <= 'z') || ('A' <= c && c <= 'Z') || c == '_'
}

/// Whether `ch` is `0`-`9`.
pub fn is_digit(ch: u8) -> (r: bool)
    ensures
        r == digit(ch),
{
    let c = ch as char;
    '0' <= c && c <= '9'
}

/// Whether `ch` separates tokens.
pub fn is_blank(ch: u8) -> (r: bool)
    ensures
        r == blank(ch),
{
    let c = ch as char;
    c == ' ' || c == '\t' || c == '\n' || c == '\r'
}

/// Whether the bytes of `s` from `from` up to `to` are exactly `word`.
fn spells(s: &[u8], from: usize, to: usize, word: &str) -> (r: bool)
    requires
        from <= to <= s@.len(),
    ensures
        r == (s@.subrange(from as int, to as int) == encode_utf8(word@)),
{
    let w = word.as_bytes();
    if to - from != w.len() {
        return false;
    }
    let mut k: usize = 0;
    while k < w.len()
        invariant
            from <= to <= s@.len(),
            w@ == encode_utf8(word@),
            to - from == w@.len(),
            k <= w@.len(),
            forall|j: int| 0 <= j < k ==> s@[from + j] == w@[j],
        decreases w@.len() - k,
    {
        if s[from + k] != w[k] {
            assert(s@.subrange(from as int, to as int)[k as int] != w@[k as int]);
            return false;
        }
        k = k + 1;
    }
    assert(s@.subrange(from as int, to as int) =~= w@);
    true
}

/// The keyword that the bytes of `s` from `from` up to `to` spell, if any.
fn keyword_between(s: &[u8], from: usize, to: usize) -> (r: Option<KeyWord>)
    requires
        from <= to <= s@.len(),
    ensures
        r == keyword_of(s@.subrange(from as int, to as int)),
{
    if spells(s, from, to, "int") {
        Some(KeyWord::Int)
    } else if spells(s, from, to, "char") {
        Some(KeyWord::Char)
    } else if spells(s, from, to, "float") {
        Some(KeyWord::Float)
    } else if spells(s, from, to, "void") {
        Some(KeyWord::Void)
    } else if spells(s, from, to, "if") {
        Some(KeyWord::If)
    } else if spells(s, from, to, "else") {
        Some(KeyWord::Else)
    } else if spells(s, from, to, "return") {
        Some(KeyWord::Return)
    } else if spells(s, from, to, "while") {
        Some(KeyWord::While)
    } else {
        None
    }
}

/// A source buffer to be tokenized.
pub struct Lexer {
    input: String,
}

impl View for Lexer {
    type V = Seq<u8>;

    /// The bytes of the buffer.
    closed spec fn view(&self) -> Seq<u8> {
        encode_utf8(self.input@)
    }
}

impl Lexer {
    /// Takes a source text; its bytes are those of its UTF-8 encoding.
    pub fn new(input: String) -> (r: Lexer)
        ensures
            r@ == encode_utf8(input@),
    {
        Lexer { input }
    }

    /// A scanner at the start of the buffer.
    pub fn iter(&self) -> (r: LexerIter<'_>)
        ensures
            r.source() == self@,
            r.cursor() == 0,
            r.position() == (1nat, 0nat),
            r.on_track(),
    {
        LexerIter::new(self.input.as_str())
    }
}

/// A cursor over a source buffer. It moves forward only, keeps the line and
/// the column of the byte it stands on, and hands out the tokens of the buffer
/// in order.
pub struct LexerIter<'a> {
    lex_str: &'a str,
    /// Newlines before the cursor.
    line: usize,
    /// Bytes between the last newline before the cursor and the cursor.
    column: usize,
    /// Index of the byte under the cursor.
    pos: usize,
}

impl<'a> LexerIter<'a> {
    #[verifier::type_invariant]
    spec fn inv(self) -> bool {
        let s = encode_utf8(self.lex_str@);
        &&& self.pos <= s.len()
        &&& self.line <= self.pos
        &&& self.column <= self.pos
        &&& self.line + 1 == row_at(s, self.pos as int)
        &&& self.column == column_at(s, self.pos as int)
    }

    /// The bytes of the buffer.
    pub closed spec fn source(&self) -> Seq<u8> {
        encode_utf8(self.lex_str@)
    }

    /// The index of the byte under the cursor; the length of the buffer
    /// once every byte has been read.
    pub closed spec fn cursor(&self) -> int {
        self.pos as int
    }

    /// The line, counted from 1, and the column, counted from 0, that the
    /// scanner has counted for the byte under the cursor.
    pub closed spec fn position(&self) -> (nat, nat) {
        ((self.line + 1) as nat, self.column as nat)
    }

    /// Whether the counted position is that of the byte under the cursor,
    /// and the cursor is inside the buffer or at its end. A scanner is on
    /// track when it is made and stays so whatever is called on it.
    pub open spec fn on_track(&self) -> bool {
        &&& 0 <= self.cursor() <= self.source().len()
        &&& self.position() == (
            row_at(self.source(), self.cursor()),
            column_at(self.source(), self.cursor()),
        )
    }

    /// The tokens still to come.
    pub open spec fn remaining(&self) -> Seq<TokenView> {
        tokens_from(self.source(), self.cursor())
    }

    /// A scanner at the start of `str`. An empty buffer has no tokens.
    pub fn new(str: &'a str) -> (r: LexerIter<'a>)
        ensures
            r.source() == encode_utf8(str@),
            r.cursor() == 0,
            r.position() == (1nat, 0nat),
            r.on_track(),
    {
        LexerIter { lex_str: str, line: 0, column: 0, pos: 0 }
    }

    /// Moves the cursor over one byte, if any is left: past a newline to the
    /// start of the next line, past any other byte to the next column.
    pub fn read_char(&mut self)
        ensures
            final(self).source() == old(self).source(),
            0 <= final(self).cursor() <= final(self).source().len(),
            final(self).cursor() == if old(self).cursor() < old(self).source().len() {
                old(self).cursor() + 1
            } else {
                old(self).cursor()
            },
            final(self).position() == if old(self).cursor() >= old(self).source().len() {
                old(self).position()
            } else if old(self).source()[old(self).cursor()] as char == '\n' {
                (old(self).position().0 + 1, 0nat)
            } else {
                (old(self).position().0, old(self).position().1 + 1)
            },
            final(self).on_track(),
    {
        proof {
            use_type_invariant(&*self);
        }
        let bytes = self.lex_str.as_bytes();
        if self.pos < bytes.len() {
            if bytes[self.pos] as char == '\n' {
                *self = LexerIter {
                    lex_str: self.lex_str,
                    line: self.line + 1,
                    column: 0,
                    pos: self.pos + 1,
                };
            } else {
                *self = LexerIter {
                    lex_str: self.lex_str,
                    line: self.line,
                    column: self.column + 1,
                    pos: self.pos + 1,
                };
            }
        }
    }

    /// Whether the byte after the one under the cursor is `c`.
    fn followed_by(&self, c: char) -> (r: bool)
        ensures
            r == (self.cursor() + 1 < self.source().len()
                && self.source()[self.cursor() + 1] as char == c),
    {
        proof {
            use_type_invariant(self);
        }
        let bytes = self.lex_str.as_bytes();
        self.pos < bytes.len() && self.pos + 1 < bytes.len() && bytes[self.pos + 1] as char == c
    }

    /// Moves the cursor to the end of the maximal run of digits that starts
    /// under it.
    fn skip_digits(&mut self)
        ensures
            final(self).source() == old(self).source(),
            final(self).cursor() == digits_end(old(self).source(), old(self).cursor()),
    {
        proof {
            use_type_invariant(&*self);
        }
        let bytes = self.lex_str.as_bytes();
        while self.pos < bytes.len() && is_digit(bytes[self.pos])
            invariant
                bytes@ == self.source(),
                self.source() == old(self).source(),
                0 <= self.cursor() <= self.source().len(),
                digits_end(self.source(), self.cursor()) == digits_end(
                    old(self).source(),
                    old(self).cursor(),
                ),
            decreases self.source().len() - self.cursor(),
        {
            self.read_char();
        }
    }

    /// Reads a number: moves the cursor over the maximal run of digits that
    /// starts under it, and returns the run as a `Number`.
    pub fn match_number(&mut self) -> (r: TokenInfo)
        ensures
            final(self).source() == old(self).source(),
            final(self).cursor() == digits_end(old(self).source(), old(self).cursor()),
            r.token_type == TokenType::Number,
            text_view(r.token_str) == Some(
                as_chars(old(self).source().subrange(old(self).cursor(), final(self).cursor())),
            ),
            final(self).on_track(),
    {
        proof {
            use_type_invariant(&*self);
            lemma_run_end(self.source(), self.cursor(), |b: u8| digit(b));
        }
        let start = self.pos;
        self.skip_digits();
        proof {
            use_type_invariant(&*self);
        }
        let text = ascii_lexeme(self.lex_str, start, self.pos);
        TokenInfo { token_type: TokenType::Number, token_str: Some(text) }
    }

    /// Moves the cursor to the end of the maximal run of letters, digits and
    /// underscores that starts under it.
    fn skip_word(&mut self)
        ensures
            final(self).source() == old(self).source(),
            final(self).cursor() == word_end(old(self).source(), old(self).cursor()),
    {
        proof {
            use_type_invariant(&*self);
        }
        let bytes = self.lex_str.as_bytes();
        while self.pos < bytes.len() && (is_letter(bytes[self.pos]) || is_digit(bytes[self.pos]))
            invariant
                bytes@ == self.source(),
                self.source() == old(self).source(),
                0 <= self.cursor() <= self.source().len(),
                word_end(self.source(), self.cursor()) == word_end(
                    old(self).source(),
                    old(self).cursor(),
                ),
            decreases self.source().len() - self.cursor(),
        {
            self.read_char();
        }
    }

    /// Reads a word: moves the cursor over the maximal run of letters, digits
    /// and underscores that starts under it. The whole run is compared with
    /// the keywords: it is the keyword it spells, without a lexeme, or else an
    /// identifier with the run as its name.
    pub fn match_keyword(&mut self) -> (r: TokenInfo)
        ensures
            final(self).source() == old(self).source(),
            final(self).cursor() == word_end(old(self).source(), old(self).cursor()),
            r.token_type == word_kind(
                old(self).source().subrange(old(self).cursor(), final(self).cursor()),
            ),
            text_view(r.token_str) == if r.token_type == TokenType::Var {
                Some(
                    as_chars(
                        old(self).source().subrange(old(self).cursor(), final(self).cursor()),
                    ),
                )
            } else {
                None
            },
            final(self).on_track(),
    {
        proof {
            use_type_invariant(&*self);
            lemma_run_end(self.source(), self.cursor(), |b: u8| word_byte(b));
        }
        let start = self.pos;
        self.skip_word();
        proof {
            use_type_invariant(&*self);
        }
        match keyword_between(self.lex_str.as_bytes(), start, self.pos) {
            Some(k) => TokenInfo { token_type: TokenType::KeyWord(k), token_str: None },
            None => {
                let text = ascii_lexeme(self.lex_str, start, self.pos);
                TokenInfo { token_type: TokenType::Var, token_str: Some(text) }
            },
        }
    }

    /// Moves the cursor over the blanks under it, to the start of the next
    /// token or to the end of the buffer.
    fn skip_white_space(&mut self)
        ensures
            final(self).source() == old(self).source(),
            final(self).cursor() == blank_end(old(self).source(), old(self).cursor()),
    {
        proof {
            use_type_invariant(&*self);
        }
        let bytes = self.lex_str.as_bytes();
        while self.pos < bytes.len() && is_blank(bytes[self.pos])
            invariant
                bytes@ == self.source(),
                self.source() == old(self).source(),
                0 <= self.cursor() <= self.source().len(),
                blank_end(self.source(), self.cursor()) == blank_end(
                    old(self).source(),
                    old(self).cursor(),
                ),
            decreases self.source().len() - self.cursor(),
        {
            self.read_char();
        }
    }

    /// Reads the next token: skips the blanks under the cursor, classifies
    /// the byte that follows them, and moves the cursor to the end of the
    /// token that starts there. The token has the line and column of its
    /// first byte. Returns `None` once only blanks are left, and from then on.
    pub fn next(&mut self) -> (r: Option<Token>)
        ensures
            final(self).source() == old(self).source(),
            match r {
                Some(t) => {
                    let start = blank_end(old(self).source(), old(self).cursor());
                    &&& start < old(self).source().len()
                    &&& t@ == token_at(old(self).source(), start)
                    &&& final(self).cursor() == token_end(old(self).source(), start)
                },
                None => {
                    &&& blank_end(old(self).source(), old(self).cursor())
                        == old(self).source().len()
                    &&& final(self).cursor() == old(self).source().len()
                },
            },
            r is Some <==> old(self).remaining().len() > 0,
            r matches Some(t) ==> {
                &&& t@ == old(self).remaining()[0]
                &&& final(self).remaining() == old(self).remaining().drop_first()
            },
            r is None ==> final(self).remaining().len() == 0,
            r matches Some(t) ==> t@.well_formed(),
            final(self).on_track(),
    {
        proof {
            use_type_invariant(&*self);
            lemma_run_end(self.source(), self.cursor(), |b: u8| blank(b));
        }
        self.skip_white_space();
        proof {
            use_type_invariant(&*self);
            lemma_run_end(self.source(), self.cursor(), |b: u8| blank(b));
        }
        let bytes = self.lex_str.as_bytes();
        if self.pos >= bytes.len() {
            return None;
        }
        let ghost start = self.cursor();
        proof {
            lemma_token_end(self.source(), start);
        }
        let row = self.line + 1;
        let column = self.column;
        let b = bytes[self.pos];
        let info = if is_letter(b) {
            self.match_keyword()
        } else if is_digit(b) {
            self.match_number()
        } else {
            let kind = match b as char {
                '=' => {
                    if self.followed_by('=') {
                        self.read_char();
                        TokenType::Operator(Operator::Equal)
                    } else {
                        TokenType::Operator(Operator::Assign)
                    }
                },
                '+' => {
                    if self.followed_by('+') {
                        self.read_char();
                        TokenType::Operator(Operator::Inc)
                    } else {
                        TokenType::Operator(Operator::Add)
                    }
                },
                '-' => {
                    if self.followed_by('-') {
                        self.read_char();
                        TokenType::Operator(Operator::Dec)
                    } else {
                        TokenType::Operator(Operator::Minus)
                    }
                },
                '*' => TokenType::Operator(Operator::Mul),
                '/' => TokenType::Operator(Operator::Div),
                '<' => {
                    if self.followed_by('=') {
                        self.read_char();
                        TokenType::Operator(Operator::LessEqual)
                    } else {
                        TokenType::Operator(Operator::Less)
                    }
                },
                '>' => {
                    if self.followed_by('=') {
                        self.read_char();
                        TokenType::Operator(Operator::GreaterEqual)
                    } else {
                        TokenType::Operator(Operator::Greater)
                    }
                },
                '&' => {
                    if self.followed_by('&') {
                        self.read_char();
                        TokenType::Operator(Operator::And)
                    } else {
                        TokenType::ILLEGAL
                    }
                },
                '|' => {
                    if self.followed_by('|') {
                        self.read_char();
                        TokenType::Operator(Operator::Or)
                    } else {
                        TokenType::ILLEGAL
                    }
                },
                '\'' => TokenType::Symbol(Symbol::Quote),
                '(' => TokenType::Symbol(Symbol::LeftParen),
                ')' => TokenType::Symbol(Symbol::RightParen),
                '[' => TokenType::Symbol(Symbol::LeftBarcket),
                ']' => TokenType::Symbol(Symbol::RightBarcket),
                '{' => TokenType::Symbol(Symbol::LeftCurly),
                '}' => TokenType::Symbol(Symbol::RightCurly),
                ',' => TokenType::Symbol(Symbol::Comma),
                ';' => TokenType::Symbol(Symbol::Semi),
                _ => TokenType::ILLEGAL,
            };
            self.read_char();
            TokenInfo { token_type: kind, token_str: None }
        };
        let token = Token { token_type: info.token_type, token_str: info.token_str, row, column };
        proof {
            lemma_tokens_well_formed(old(self).source(), old(self).cursor());
            assert(old(self).remaining() =~= seq![token@] + self.remaining());
            assert(self.remaining() =~= old(self).remaining().drop_first());
        }
        Some(token)
    }
}

/// The tokens of a source text, in order: what a scanner at the start of
/// `source` hands out until it has none left.
pub fn tokenize(source: &str) -> (r: Vec<Token>)
    ensures
        token_views(r@) == lex(encode_utf8(source@)),
        forall|k: int| 0 <= k < r@.len() ==> (#[trigger] r@[k])@.well_formed(),
{
    let mut iter = LexerIter::new(source);
    let mut tokens: Vec<Token> = Vec::new();
    assert(token_views(tokens@) + iter.remaining() =~= lex(encode_utf8(source@)));
    loop
        invariant
            token_views(tokens@) + iter.remaining() == lex(encode_utf8(source@)),
        ensures
            token_views(tokens@) == lex(encode_utf8(source@)),
        decreases iter.remaining().len(),
    {
        let ghost before = iter.remaining();
        let ghost seen = token_views(tokens@);
        match iter.next() {
            Some(t) => {
                tokens.push(t);
                assert(token_views(tokens@) =~= seen.push(t@));
                assert(seen.push(t@) + iter.remaining() =~= seen + before);
            },
            None => {
                assert(seen + before =~= seen);
                break ;
            },
        }
    }
    proof {
        lemma_tokens_well_formed(encode_utf8(source@), 0);
        assert forall|k: int| 0 <= k < tokens@.len() implies (#[trigger] tokens@[k])@.well_formed(
        ) by {
            assert(token_views(tokens@)[k] == tokens@[k]@);
        }
    }
    tokens
}

} // verus!

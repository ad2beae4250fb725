use mini_c::lexer::lexer::{tokenize, Lexer, LexerIter};
use mini_c::token::{KeyWord, Operator, Symbol, Token, TokenType};

fn kinds(source: &str) -> Vec<TokenType> {
    tokenize(source).iter().map(|t| t.token_type).collect()
}

fn texts(source: &str) -> Vec<Option<String>> {
    tokenize(source).iter().map(|t| t.token_str.clone()).collect()
}

#[test]
fn maximal_munch_keeps_keyword_prefix_in_identifier() {
    let tokens = tokenize("while1");
    assert_eq!(tokens.len(), 1);
    assert_eq!(tokens[0].token_type, TokenType::Var);
    assert_eq!(tokens[0].token_str, Some(String::from("while1")));
}

#[test]
fn keyword_must_be_the_whole_word() {
    let tokens = tokenize("iffy");
    assert_eq!(tokens.len(), 1);
    assert_eq!(tokens[0].token_type, TokenType::Var);
    assert_eq!(tokens[0].token_str, Some(String::from("iffy")));
}

#[test]
fn less_equal_is_one_token() {
    assert_eq!(kinds("<="), vec![TokenType::Operator(Operator::LessEqual)]);
}

#[test]
fn lone_ampersand_is_illegal_and_next_byte_is_read_afresh() {
    let tokens = tokenize("&x");
    assert_eq!(tokens.len(), 2);
    assert_eq!(tokens[0].token_type, TokenType::ILLEGAL);
    assert_eq!(tokens[0].token_str, None);
    assert_eq!((tokens[0].row, tokens[0].column), (1, 0));
    assert_eq!(tokens[1].token_type, TokenType::Var);
    assert_eq!(tokens[1].token_str, Some(String::from("x")));
    assert_eq!((tokens[1].row, tokens[1].column), (1, 1));
}

#[test]
fn positions_of_int_x() {
    let tokens = tokenize("int x");
    assert_eq!(tokens.len(), 2);
    assert_eq!(tokens[0].token_type, TokenType::KeyWord(KeyWord::Int));
    assert_eq!((tokens[0].row, tokens[0].column), (1, 0));
    assert_eq!(tokens[1].token_type, TokenType::Var);
    assert_eq!((tokens[1].row, tokens[1].column), (1, 4));
}

#[test]
fn declaration_with_sum() {
    assert_eq!(
        kinds("int x = 1 + 2 ;"),
        vec![
            TokenType::KeyWord(KeyWord::Int),
            TokenType::Var,
            TokenType::Operator(Operator::Assign),
            TokenType::Number,
            TokenType::Operator(Operator::Add),
            TokenType::Number,
            TokenType::Symbol(Symbol::Semi),
        ]
    );
    assert_eq!(
        texts("int x = 1 + 2 ;"),
        vec![
            None,
            Some(String::from("x")),
            None,
            Some(String::from("1")),
            None,
            Some(String::from("2")),
            None,
        ]
    );
}

#[test]
fn scanner_hands_out_tokens_one_by_one() {
    let lexer = Lexer::new(String::from("a\n  b"));
    let mut iter: LexerIter = lexer.iter();
    let a: Token = iter.next().unwrap();
    assert_eq!((a.row, a.column), (1, 0));
    let b = iter.next().unwrap();
    assert_eq!(b.token_str, Some(String::from("b")));
    assert_eq!((b.row, b.column), (2, 2));
    assert!(iter.next().is_none());
    assert!(iter.next().is_none());
}

#[test]
fn empty_buffer_has_no_tokens() {
    assert!(tokenize("").is_empty());
    let lexer = Lexer::new(String::new());
    let mut iter = lexer.iter();
    assert!(iter.next().is_none());
    assert!(iter.next().is_none());
}

#[test]
fn blanks_alone_have_no_tokens() {
    assert!(tokenize(" \t\r\n  \n").is_empty());
}

#[test]
fn every_keyword() {
    assert_eq!(
        kinds("int char float void if else return while"),
        vec![
            TokenType::KeyWord(KeyWord::Int),
            TokenType::KeyWord(KeyWord::Char),
            TokenType::KeyWord(KeyWord::Float),
            TokenType::KeyWord(KeyWord::Void),
            TokenType::KeyWord(KeyWord::If),
            TokenType::KeyWord(KeyWord::Else),
            TokenType::KeyWord(KeyWord::Return),
            TokenType::KeyWord(KeyWord::While),
        ]
    );
    assert_eq!(texts("int while"), vec![None, None]);
}

#[test]
fn keywords_are_case_sensitive() {
    assert_eq!(kinds("Int IF While"), vec![TokenType::Var, TokenType::Var, TokenType::Var]);
    assert_eq!(
        texts("Int IF"),
        vec![Some(String::from("Int")), Some(String::from("IF"))]
    );
}

#[test]
fn every_operator() {
    assert_eq!(
        kinds("+ ++ - -- * / = == > >= < <= && ||"),
        vec![
            TokenType::Operator(Operator::Add),
            TokenType::Operator(Operator::Inc),
            TokenType::Operator(Operator::Minus),
            TokenType::Operator(Operator::Dec),
            TokenType::Operator(Operator::Mul),
            TokenType::Operator(Operator::Div),
            TokenType::Operator(Operator::Assign),
            TokenType::Operator(Operator::Equal),
            TokenType::Operator(Operator::Greater),
            TokenType::Operator(Operator::GreaterEqual),
            TokenType::Operator(Operator::Less),
            TokenType::Operator(Operator::LessEqual),
            TokenType::Operator(Operator::And),
            TokenType::Operator(Operator::Or),
        ]
    );
}

#[test]
fn every_symbol() {
    assert_eq!(
        kinds("; , ( ) [ ] { } '"),
        vec![
            TokenType::Symbol(Symbol::Semi),
            TokenType::Symbol(Symbol::Comma),
            TokenType::Symbol(Symbol::LeftParen),
            TokenType::Symbol(Symbol::RightParen),
            TokenType::Symbol(Symbol::LeftBarcket),
            TokenType::Symbol(Symbol::RightBarcket),
            TokenType::Symbol(Symbol::LeftCurly),
            TokenType::Symbol(Symbol::RightCurly),
            TokenType::Symbol(Symbol::Quote),
        ]
    );
}

#[test]
fn tokens_need_no_blanks_between_them() {
    assert_eq!(
        kinds("x=y+1;"),
        vec![
            TokenType::Var,
            TokenType::Operator(Operator::Assign),
            TokenType::Var,
            TokenType::Operator(Operator::Add),
            TokenType::Number,
            TokenType::Symbol(Symbol::Semi),
        ]
    );
}

#[test]
fn operators_pair_from_the_left() {
    assert_eq!(
        kinds("==="),
        vec![TokenType::Operator(Operator::Equal), TokenType::Operator(Operator::Assign)]
    );
    assert_eq!(
        kinds("+++"),
        vec![TokenType::Operator(Operator::Inc), TokenType::Operator(Operator::Add)]
    );
    assert_eq!(
        kinds("&&&"),
        vec![TokenType::Operator(Operator::And), TokenType::ILLEGAL]
    );
    assert_eq!(
        kinds("<=="),
        vec![TokenType::Operator(Operator::LessEqual), TokenType::Operator(Operator::Assign)]
    );
    assert_eq!(
        kinds("=<"),
        vec![TokenType::Operator(Operator::Assign), TokenType::Operator(Operator::Less)]
    );
}

#[test]
fn operator_at_the_end_of_the_buffer() {
    assert_eq!(kinds("="), vec![TokenType::Operator(Operator::Assign)]);
    assert_eq!(kinds("<"), vec![TokenType::Operator(Operator::Less)]);
    assert_eq!(kinds("&"), vec![TokenType::ILLEGAL]);
    assert_eq!(kinds("|"), vec![TokenType::ILLEGAL]);
    assert_eq!(kinds("a||"), vec![TokenType::Var, TokenType::Operator(Operator::Or)]);
}

#[test]
fn lone_bar_is_illegal_and_next_byte_is_read_afresh() {
    let tokens = tokenize("|x");
    assert_eq!(tokens.len(), 2);
    assert_eq!(tokens[0].token_type, TokenType::ILLEGAL);
    assert_eq!(tokens[1].token_type, TokenType::Var);
    assert_eq!(tokens[1].token_str, Some(String::from("x")));
    assert_eq!(kinds("& &"), vec![TokenType::ILLEGAL, TokenType::ILLEGAL]);
    assert_eq!(
        kinds("|&|"),
        vec![TokenType::ILLEGAL, TokenType::ILLEGAL, TokenType::ILLEGAL]
    );
}

#[test]
fn bytes_without_use_are_illegal_one_by_one() {
    assert_eq!(
        kinds("@#!"),
        vec![TokenType::ILLEGAL, TokenType::ILLEGAL, TokenType::ILLEGAL]
    );
    assert_eq!(texts("@"), vec![None]);
}

#[test]
fn bytes_beyond_ascii_are_illegal_one_by_one() {
    let tokens = tokenize("a\u{e9}b");
    assert_eq!(tokens.len(), 4);
    assert_eq!(tokens[0].token_str, Some(String::from("a")));
    assert_eq!(tokens[1].token_type, TokenType::ILLEGAL);
    assert_eq!(tokens[2].token_type, TokenType::ILLEGAL);
    assert_eq!(tokens[3].token_str, Some(String::from("b")));
    assert_eq!(tokens[3].column, 3);
}

#[test]
fn underscore_starts_and_continues_identifiers() {
    let tokens = tokenize("_tmp a_b_1 __");
    assert_eq!(tokens.len(), 3);
    assert_eq!(tokens[0].token_type, TokenType::Var);
    assert_eq!(tokens[0].token_str, Some(String::from("_tmp")));
    assert_eq!(tokens[1].token_str, Some(String::from("a_b_1")));
    assert_eq!(tokens[2].token_str, Some(String::from("__")));
}

#[test]
fn digits_then_letters_are_a_number_and_a_word() {
    let tokens = tokenize("12ab 007");
    assert_eq!(tokens.len(), 3);
    assert_eq!(tokens[0].token_type, TokenType::Number);
    assert_eq!(tokens[0].token_str, Some(String::from("12")));
    assert_eq!(tokens[1].token_type, TokenType::Var);
    assert_eq!(tokens[1].token_str, Some(String::from("ab")));
    assert_eq!(tokens[1].column, 2);
    assert_eq!(tokens[2].token_str, Some(String::from("007")));
}

#[test]
fn number_has_no_point_or_sign() {
    assert_eq!(
        kinds("-1.5"),
        vec![
            TokenType::Operator(Operator::Minus),
            TokenType::Number,
            TokenType::ILLEGAL,
            TokenType::Number,
        ]
    );
}

#[test]
fn rows_and_columns_across_lines() {
    let tokens = tokenize("int x;\n\n  return\ty;\r\nz");
    let positions: Vec<(usize, usize)> = tokens.iter().map(|t| (t.row, t.column)).collect();
    assert_eq!(positions, vec![(1, 0), (1, 4), (1, 5), (3, 2), (3, 9), (3, 10), (4, 0)]);
}

#[test]
fn two_character_token_has_the_position_of_its_first_byte() {
    let tokens = tokenize("a <= b");
    assert_eq!((tokens[1].row, tokens[1].column), (1, 2));
    assert_eq!((tokens[2].row, tokens[2].column), (1, 5));
}

#[test]
fn read_char_moves_one_byte_and_stops_at_the_end() {
    let mut iter = LexerIter::new("a\nbc");
    iter.read_char();
    iter.read_char();
    let b = iter.next().unwrap();
    assert_eq!(b.token_str, Some(String::from("bc")));
    assert_eq!((b.row, b.column), (2, 0));
    iter.read_char();
    iter.read_char();
    assert!(iter.next().is_none());
}

#[test]
fn match_number_reads_the_digits_under_the_cursor() {
    let mut iter = LexerIter::new("123abc");
    let n = iter.match_number();
    assert_eq!(n.token_type, TokenType::Number);
    assert_eq!(n.token_str, Some(String::from("123")));
    let none = iter.match_number();
    assert_eq!(none.token_type, TokenType::Number);
    assert_eq!(none.token_str, Some(String::new()));
    let w = iter.next().unwrap();
    assert_eq!(w.token_str, Some(String::from("abc")));
    assert_eq!(w.column, 3);
}

#[test]
fn match_keyword_reads_the_word_under_the_cursor() {
    let mut iter = LexerIter::new("return0 else+");
    let w = iter.match_keyword();
    assert_eq!(w.token_type, TokenType::Var);
    assert_eq!(w.token_str, Some(String::from("return0")));
    iter.read_char();
    let k = iter.match_keyword();
    assert_eq!(k.token_type, TokenType::KeyWord(KeyWord::Else));
    assert_eq!(k.token_str, None);
    let empty = iter.match_keyword();
    assert_eq!(empty.token_type, TokenType::Var);
    assert_eq!(empty.token_str, Some(String::new()));
    assert_eq!(iter.next().unwrap().token_type, TokenType::Operator(Operator::Add));
}

#[test]
fn kind_equality_ignores_lexeme_and_position() {
    let tokens = tokenize("a bb 1 22 int void");
    assert!(tokens[0].same_kind(&tokens[1]));
    assert!(tokens[2].same_kind(&tokens[3]));
    assert!(!tokens[0].same_kind(&tokens[2]));
    assert!(!tokens[4].same_kind(&tokens[5]));
    assert!(tokens[4].same_kind(&tokens[4].clone()));
    assert_eq!(tokens[1].clone().token_str, Some(String::from("bb")));
}

#[test]
fn lexemes_joined_by_their_blanks_give_the_same_tokens() {
    let source = "int  x = 1 +\n\t2 ;";
    let first = tokenize(source);
    let blanks = ["", "  ", " ", " ", " ", "\n\t", " "];
    let spellings = ["int", "x", "=", "1", "+", "2", ";"];
    let mut again = String::new();
    for (b, w) in blanks.iter().zip(spellings.iter()) {
        again.push_str(b);
        again.push_str(w);
    }
    assert_eq!(again, source);
    let second = tokenize(&again);
    assert_eq!(first.len(), second.len());
    for (a, b) in first.iter().zip(second.iter()) {
        assert_eq!(a.token_type, b.token_type);
        assert_eq!(a.token_str, b.token_str);
        assert_eq!((a.row, a.column), (b.row, b.column));
    }
}

#[test]
fn tokenize_agrees_with_the_scanner() {
    let source = "while (i <= 10) { i = i + 1; }";
    let lexer = Lexer::new(String::from(source));
    let mut iter = lexer.iter();
    let all = tokenize(source);
    for t in all.iter() {
        let u = iter.next().unwrap();
        assert_eq!(t.token_type, u.token_type);
        assert_eq!(t.token_str, u.token_str);
        assert_eq!((t.row, t.column), (u.row, u.column));
    }
    assert!(iter.next().is_none());
    assert_eq!(all.len(), 14);
}

#[test]
fn lexemes_and_blanks_give_the_buffer_also_with_illegal_bytes() {
    let source = "a & @b\n|| c|";
    let first = tokenize(source);
    let kinds_first: Vec<TokenType> = first.iter().map(|t| t.token_type).collect();
    assert_eq!(
        kinds_first,
        vec![
            TokenType::Var,
            TokenType::ILLEGAL,
            TokenType::ILLEGAL,
            TokenType::Var,
            TokenType::Operator(Operator::Or),
            TokenType::Var,
            TokenType::ILLEGAL,
        ]
    );
    let blanks = ["", " ", " ", "", "\n", " ", ""];
    let lexemes = ["a", "&", "@", "b", "||", "c", "|"];
    let mut again = String::new();
    for (b, w) in blanks.iter().zip(lexemes.iter()) {
        again.push_str(b);
        again.push_str(w);
    }
    assert_eq!(again, source);
    assert_eq!(kinds(&again), kinds_first);
}

#[test]
fn every_token_is_well_formed() {
    let tokens = tokenize("int x1 = 42;\n\nwhile (x1 >= 0) { x1 = x1 - 1; } & | @ return");
    assert_eq!(tokens.len(), 23);
    for t in tokens.iter() {
        assert!(t.row >= 1);
        let carries = t.token_type == TokenType::Var || t.token_type == TokenType::Number;
        assert_eq!(t.token_str.is_some(), carries);
    }
}

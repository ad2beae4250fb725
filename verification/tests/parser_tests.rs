use mini_c::lexer::lexer::tokenize;
use mini_c::parser::ast::{AstNode, AstType, Attribute};
use mini_c::parser::error::SyntaxError;
use mini_c::parser::parser::{parse, Parser};
use mini_c::token::{KeyWord, Operator, Symbol, TokenType};

fn show(node: &AstNode) -> String {
    let mut out = String::from(node.ast_type().tag());
    match node.attribute() {
        Some(Attribute::Literal(s)) => out.push_str(&format!(":{}", s)),
        Some(Attribute::Operator(op)) => out.push_str(&format!(":{:?}", op)),
        Some(Attribute::Type(k)) => out.push_str(&format!(":{:?}", k)),
        None => {}
    }
    if node.len() > 0 {
        out.push('(');
        let mut i = 0;
        while let Some(c) = node.child(i) {
            if i > 0 {
                out.push(' ');
            }
            out.push_str(&show(c));
            i += 1;
        }
        out.push(')');
    }
    out
}

fn parsed(source: &str) -> String {
    match parse(&tokenize(source)) {
        Ok(root) => show(&root),
        Err(e) => panic!("unexpected syntax error: {:?}", e),
    }
}

fn failed(source: &str) -> SyntaxError {
    match parse(&tokenize(source)) {
        Ok(root) => panic!("unexpected tree: {}", show(&root)),
        Err(e) => e,
    }
}

#[test]
fn declaration_with_sum_initializer() {
    let tokens = tokenize("int x = 1 + 2 ;");
    let root = parse(&tokens).unwrap();
    assert_eq!(root.ast_type(), AstType::Program);
    assert_eq!(root.len(), 1);
    let decl = root.child(0).unwrap();
    assert_eq!(decl.ast_type(), AstType::Declaration);
    assert!(matches!(decl.attribute(), Some(Attribute::Type(KeyWord::Int))));
    assert_eq!(decl.len(), 2);
    let name = decl.child(0).unwrap();
    assert_eq!(name.ast_type(), AstType::Identifier);
    assert!(matches!(name.attribute(), Some(Attribute::Literal(s)) if s == "x"));
    let init = decl.child(1).unwrap();
    assert_eq!(init.ast_type(), AstType::Binary);
    assert!(matches!(init.attribute(), Some(Attribute::Operator(Operator::Add))));
    assert_eq!(init.len(), 2);
    let one = init.child(0).unwrap();
    assert_eq!(one.ast_type(), AstType::Number);
    assert!(matches!(one.attribute(), Some(Attribute::Literal(s)) if s == "1"));
    assert_eq!(one.len(), 0);
    let two = init.child(1).unwrap();
    assert_eq!(two.ast_type(), AstType::Number);
    assert!(matches!(two.attribute(), Some(Attribute::Literal(s)) if s == "2"));
    assert!(init.child(2).is_none());
}

#[test]
fn missing_assign_cites_the_number() {
    let e = failed("int x 5 ;");
    assert_eq!(
        e,
        SyntaxError {
            expected: TokenType::Symbol(Symbol::Semi),
            found: Some(TokenType::Number),
            row: 1,
            column: 6,
        }
    );
}

#[test]
fn empty_input_is_an_empty_program() {
    assert_eq!(parsed(""), "program");
    assert_eq!(parsed("  \n\t "), "program");
}

#[test]
fn multiplication_binds_tighter_than_addition() {
    assert_eq!(
        parsed("int x = 1 + 2 * 3;"),
        "program(declaration:Int(identifier:x binary:Add(number:1 binary:Mul(number:2 number:3))))"
    );
    assert_eq!(
        parsed("int x = 1 * 2 + 3;"),
        "program(declaration:Int(identifier:x binary:Add(binary:Mul(number:1 number:2) number:3)))"
    );
}

#[test]
fn binary_operators_group_from_the_left() {
    assert_eq!(
        parsed("int x = 1 - 2 - 3;"),
        "program(declaration:Int(identifier:x binary:Minus(binary:Minus(number:1 number:2) number:3)))"
    );
    assert_eq!(
        parsed("int x = 8 / 4 / 2;"),
        "program(declaration:Int(identifier:x binary:Div(binary:Div(number:8 number:4) number:2)))"
    );
}

#[test]
fn parentheses_group_and_leave_no_node() {
    assert_eq!(
        parsed("int x = (1 + 2) * 3;"),
        "program(declaration:Int(identifier:x binary:Mul(binary:Add(number:1 number:2) number:3)))"
    );
    assert_eq!(parsed("int x = ((7));"), "program(declaration:Int(identifier:x number:7))");
}

#[test]
fn all_precedence_levels() {
    assert_eq!(
        parsed("int x = a || b && c == d < e + f * -g;"),
        "program(declaration:Int(identifier:x binary:Or(identifier:a binary:And(identifier:b \
         binary:Equal(identifier:c binary:Less(identifier:d binary:Add(identifier:e \
         binary:Mul(identifier:f unary:Minus(identifier:g)))))))))"
    );
    assert_eq!(
        parsed("int x = a <= b; int y = a > b; int z = a >= b;"),
        "program(declaration:Int(identifier:x binary:LessEqual(identifier:a identifier:b)) \
         declaration:Int(identifier:y binary:Greater(identifier:a identifier:b)) \
         declaration:Int(identifier:z binary:GreaterEqual(identifier:a identifier:b)))"
    );
}

#[test]
fn prefix_operators_nest() {
    assert_eq!(
        parsed("int x = - ++ -- y;"),
        "program(declaration:Int(identifier:x unary:Minus(unary:Inc(unary:Dec(identifier:y)))))"
    );
}

#[test]
fn assignment_groups_from_the_right() {
    assert_eq!(
        parsed("void f() { a = b = 3; }"),
        "program(function:Void(identifier:f parameters block(expression(assign:Assign(identifier:a \
         assign:Assign(identifier:b number:3))))))"
    );
}

#[test]
fn declarations_without_initializer_and_of_every_type() {
    assert_eq!(
        parsed("int a; char b; float c; void d;"),
        "program(declaration:Int(identifier:a) declaration:Char(identifier:b) \
         declaration:Float(identifier:c) declaration:Void(identifier:d))"
    );
}

#[test]
fn function_with_parameters_and_statements() {
    assert_eq!(
        parsed(
            "int max(int a, int b) {\n  if (a < b) return b; else { return a; }\n  while (a) a = a - 1;\n  return;\n  {}\n}"
        ),
        "program(function:Int(identifier:max parameters(parameter:Int(identifier:a) \
         parameter:Int(identifier:b)) block(if(binary:Less(identifier:a identifier:b) \
         return(identifier:b) block(return(identifier:a))) while(identifier:a \
         expression(assign:Assign(identifier:a binary:Minus(identifier:a number:1)))) return block)))"
    );
}

#[test]
fn else_belongs_to_the_nearest_if() {
    assert_eq!(
        parsed("void f() { if (a) if (b) x; else y; }"),
        "program(function:Void(identifier:f parameters block(if(identifier:a if(identifier:b \
         expression(identifier:x) expression(identifier:y))))))"
    );
}

#[test]
fn error_names_expected_kind_and_position() {
    let e = failed("int x = ;");
    assert_eq!(e.expected, TokenType::Var);
    assert_eq!(e.found, Some(TokenType::Symbol(Symbol::Semi)));
    assert_eq!((e.row, e.column), (1, 8));

    let e = failed("x = 1;");
    assert_eq!(e.expected, TokenType::KeyWord(KeyWord::Int));
    assert_eq!(e.found, Some(TokenType::Var));
    assert_eq!((e.row, e.column), (1, 0));

    let e = failed("int 5;");
    assert_eq!(e.expected, TokenType::Var);
    assert_eq!(e.found, Some(TokenType::Number));
    assert_eq!((e.row, e.column), (1, 4));

    let e = failed("int f(int a int b) {}");
    assert_eq!(e.expected, TokenType::Symbol(Symbol::RightParen));
    assert_eq!(e.found, Some(TokenType::KeyWord(KeyWord::Int)));
    assert_eq!((e.row, e.column), (1, 12));

    let e = failed("int f() return;");
    assert_eq!(e.expected, TokenType::Symbol(Symbol::LeftCurly));
    assert_eq!(e.found, Some(TokenType::KeyWord(KeyWord::Return)));

    let e = failed("void f() {\n  if a) x;\n}");
    assert_eq!(e.expected, TokenType::Symbol(Symbol::LeftParen));
    assert_eq!(e.found, Some(TokenType::Var));
    assert_eq!((e.row, e.column), (2, 5));

    let e = failed("void f() { x = (1 + 2; }");
    assert_eq!(e.expected, TokenType::Symbol(Symbol::RightParen));
    assert_eq!(e.found, Some(TokenType::Symbol(Symbol::Semi)));
}

#[test]
fn illegal_token_is_a_syntax_error() {
    let e = failed("int x = 1 & 2;");
    assert_eq!(e.expected, TokenType::Symbol(Symbol::Semi));
    assert_eq!(e.found, Some(TokenType::ILLEGAL));
    assert_eq!((e.row, e.column), (1, 10));
}

#[test]
fn error_at_end_of_input_has_no_found_kind() {
    let e = failed("int x = 1");
    assert_eq!(e.expected, TokenType::Symbol(Symbol::Semi));
    assert_eq!(e.found, None);
    assert_eq!((e.row, e.column), (1, 8));

    let e = failed("void f() { x;");
    assert_eq!(e.expected, TokenType::Symbol(Symbol::RightCurly));
    assert_eq!(e.found, None);
    assert_eq!((e.row, e.column), (1, 12));
}

#[test]
fn parser_keeps_what_was_built_before_the_error() {
    let tokens = tokenize("int a; int b = 2; int 3;");
    let mut parser = Parser::new(&tokens);
    let e = parser.program().unwrap_err();
    assert_eq!(e.expected, TokenType::Var);
    assert_eq!(e.found, Some(TokenType::Number));
    assert_eq!(
        show(parser.ast_root()),
        "program(declaration:Int(identifier:a) declaration:Int(identifier:b number:2))"
    );
}

#[test]
fn match_token_moves_only_on_a_match() {
    let tokens = tokenize("int x");
    let mut parser = Parser::new(&tokens);
    let e = parser.match_token(TokenType::Var).unwrap_err();
    assert_eq!(
        e,
        SyntaxError {
            expected: TokenType::Var,
            found: Some(TokenType::KeyWord(KeyWord::Int)),
            row: 1,
            column: 0,
        }
    );
    assert!(parser.match_token(TokenType::KeyWord(KeyWord::Void)).is_err());
    assert!(parser.match_token(TokenType::KeyWord(KeyWord::Int)).is_ok());
    assert!(parser.match_token(TokenType::Var).is_ok());
    let e = parser.match_token(TokenType::Symbol(Symbol::Semi)).unwrap_err();
    assert_eq!(e.found, None);
    assert_eq!((e.row, e.column), (1, 4));
}

#[test]
fn match_token_on_no_tokens() {
    let tokens = tokenize("");
    let mut parser = Parser::new(&tokens);
    let e = parser.match_token(TokenType::Var).unwrap_err();
    assert_eq!(e, SyntaxError { expected: TokenType::Var, found: None, row: 1, column: 0 });
    parser.next();
    assert!(parser.type_token().is_err());
}

#[test]
fn type_token_reads_the_four_types() {
    let tokens = tokenize("int char float void if");
    let mut parser = Parser::new(&tokens);
    assert_eq!(parser.type_token(), Ok(KeyWord::Int));
    assert_eq!(parser.type_token(), Ok(KeyWord::Char));
    assert_eq!(parser.type_token(), Ok(KeyWord::Float));
    assert_eq!(parser.type_token(), Ok(KeyWord::Void));
    let e = parser.type_token().unwrap_err();
    assert_eq!(e.expected, TokenType::KeyWord(KeyWord::Int));
    assert_eq!(e.found, Some(TokenType::KeyWord(KeyWord::If)));
}

#[test]
fn single_procedures_read_from_the_cursor() {
    let tokens = tokenize("a + 1; int b;");
    let mut parser = Parser::new(&tokens);
    let s = parser.statement().unwrap();
    assert_eq!(show(&s), "expression(binary:Add(identifier:a number:1))");
    let d = parser.declaration().unwrap();
    assert_eq!(show(&d), "declaration:Int(identifier:b)");
    assert_eq!(show(parser.ast_root()), "program");
    let e = parser.expression().unwrap_err();
    assert_eq!(e.found, None);
}

#[test]
fn node_tags() {
    assert_eq!(AstType::Program.tag(), "program");
    assert_eq!(AstType::ExpressionStatement.tag(), "expression");
    assert_eq!(AstType::Number.tag(), "number");
}

fn write_out(node: &AstNode, out: &mut Vec<(TokenType, Option<String>)>) {
    let kind = node.ast_type();
    match (kind, node.attribute()) {
        (AstType::Identifier, Some(Attribute::Literal(s))) => {
            out.push((TokenType::Var, Some(s.clone())))
        }
        (AstType::Number, Some(Attribute::Literal(s))) => {
            out.push((TokenType::Number, Some(s.clone())))
        }
        (AstType::Unary, Some(Attribute::Operator(op))) => {
            out.push((TokenType::Operator(*op), None))
        }
        (AstType::Declaration, Some(Attribute::Type(k)))
        | (AstType::Function, Some(Attribute::Type(k)))
        | (AstType::Parameter, Some(Attribute::Type(k))) => {
            out.push((TokenType::KeyWord(*k), None))
        }
        (AstType::Block, _) => out.push((TokenType::Symbol(Symbol::LeftCurly), None)),
        (AstType::If, _) => out.push((TokenType::KeyWord(KeyWord::If), None)),
        (AstType::While, _) => out.push((TokenType::KeyWord(KeyWord::While), None)),
        (AstType::Return, _) => out.push((TokenType::KeyWord(KeyWord::Return), None)),
        _ => {}
    }
    let mut i = 0;
    while let Some(c) = node.child(i) {
        match (kind, node.attribute(), i) {
            (AstType::Binary, Some(Attribute::Operator(op)), 1) => {
                out.push((TokenType::Operator(*op), None))
            }
            (AstType::Assign, _, 1) | (AstType::Declaration, _, 1) => {
                out.push((TokenType::Operator(Operator::Assign), None))
            }
            (AstType::If, _, 2) => out.push((TokenType::KeyWord(KeyWord::Else), None)),
            (AstType::Parameters, _, k) if k >= 1 => {
                out.push((TokenType::Symbol(Symbol::Comma), None))
            }
            _ => {}
        }
        write_out(c, out);
        i += 1;
    }
    match kind {
        AstType::Block => out.push((TokenType::Symbol(Symbol::RightCurly), None)),
        AstType::Return | AstType::ExpressionStatement | AstType::Declaration => {
            out.push((TokenType::Symbol(Symbol::Semi), None))
        }
        _ => {}
    }
}

#[test]
fn tree_written_out_is_the_tokens_less_parentheses() {
    let source = "int g = (1 + 2) * -3;\n\
                  int f(int a, char b) {\n\
                    if ((a) <= b) { return (a + 1) * 2; } else while (a) a = b = a - 1;\n\
                    x || y && z == w;\n\
                    return;\n\
                  }\n\
                  void h() {}";
    let tokens = tokenize(source);
    let root = parse(&tokens).unwrap();
    let mut out = Vec::new();
    write_out(&root, &mut out);
    let plain: Vec<(TokenType, Option<String>)> = tokens
        .iter()
        .filter(|t| {
            t.token_type != TokenType::Symbol(Symbol::LeftParen)
                && t.token_type != TokenType::Symbol(Symbol::RightParen)
        })
        .map(|t| (t.token_type, t.token_str.clone()))
        .collect();
    assert_eq!(out, plain);
    assert_eq!(out.len(), 57);
}

#[test]
fn reading_always_moves_forward() {
    let tokens = tokenize("a = 1; { b; } return c;");
    let mut parser = Parser::new(&tokens);
    let first = parser.statement().unwrap();
    assert_eq!(show(&first), "expression(assign:Assign(identifier:a number:1))");
    let second = parser.statement().unwrap();
    assert_eq!(show(&second), "block(expression(identifier:b))");
    let third = parser.statement().unwrap();
    assert_eq!(show(&third), "return(identifier:c)");
    let e = parser.statement().unwrap_err();
    assert_eq!(e.found, None);
    assert_eq!(e.expected, TokenType::Var);
    assert_eq!((e.row, e.column), (1, 22));
}

#[test]
fn exported_from_the_parser_module_too() {
    let root: mini_c::parser::parser::AstNode = parse(&tokenize("int a;")).unwrap();
    assert_eq!(root.len(), 1);
}

#[test]
fn grouping_and_blanks_do_not_change_the_tree() {
    let a = parsed("int x = (1 + 2);");
    let b = parsed("int  x=1+2 ;");
    let c = parsed("int x = 1 + 3;");
    assert_eq!(a, b);
    assert_ne!(a, c);
}

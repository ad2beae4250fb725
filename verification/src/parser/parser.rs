//! Recursive descent: one procedure for each nonterminal of the grammar,
//! over a sequence of tokens and a cursor.

pub use crate::parser::ast::AstNode;
use crate::parser::ast::{AstType, Attribute, Tree};
use crate::parser::error::{mismatch, SyntaxError};
use crate::parser::grammar::{
    assignment, binary, binary_rest, binds_at, block_rest, closed_by, condition, declaration,
    expression, expression_statement, function_rest, if_statement, infix_at, is_at, kind_at,
    literal, moved, operand, parameter, parameters, parameters_rest, prefix_at, primary, program,
    program_rest, return_statement, statement, type_at, unary, while_statement, Outcome, LEVELS,
};
use crate::parser::laws::{
    lemma_declaration, lemma_expression, lemma_program, lemma_program_rest, lemma_statement,
};
use crate::parser::written::{lemma_written_program, plain, written};
use crate::token::{token_views, KeyWord, Operator, Symbol, Token, TokenType, TokenView};
use vstd::prelude::*;

verus! {

/// A cursor over a sequence of tokens, and the root of the tree that is
/// being built from them. The cursor moves over a token only when the
/// grammar has a use for it.
pub struct Parser<'a> {
    place: Place<'a>,
    ast_root: AstNode,
}

/// A sequence of tokens and an index into it, never past its end.
struct Place<'a> {
    token_list: &'a Vec<Token>,
    pos: usize,
}

impl<'a> Place<'a> {
    #[verifier::type_invariant]
    spec fn inv(self) -> bool {
        self.pos <= self.token_list@.len()
    }
}

/// Whether the result `r` of a procedure and the cursor it left are what the
/// grammar says: the tree that was read and the index after it, or the error
/// of the missing token and the index of that token.
pub open spec fn realizes(
    ts: Seq<TokenView>,
    outcome: Outcome,
    r: Result<AstNode, SyntaxError>,
    cursor: int,
) -> bool {
    match outcome {
        Outcome::Done { tree, next } => r matches Ok(node) && node@ == tree && cursor == next,
        Outcome::Fail { expected, at } => r matches Err(e) && e@ == mismatch(ts, at, expected)
            && cursor == at,
    }
}

/// Whether the binary operator `op` binds at `level`.
fn binds(op: Operator, level: u8) -> (r: bool)
    ensures
        r == binds_at(op, level as nat),
{
    match op {
        Operator::Mul | Operator::Div => level == 0,
        Operator::Add | Operator::Minus => level == 1,
        Operator::Less | Operator::LessEqual | Operator::Greater | Operator::GreaterEqual => level
            == 2,
        Operator::Equal => level == 3,
        Operator::And => level == 4,
        Operator::Or => level == 5,
        _ => false,
    }
}

impl<'a> Parser<'a> {
    /// The tokens.
    pub closed spec fn tokens(&self) -> Seq<TokenView> {
        token_views(self.place.token_list@)
    }

    /// The index of the token under the cursor; the number of tokens once
    /// all have been read.
    pub closed spec fn cursor(&self) -> int {
        self.place.pos as int
    }

    /// The root of the tree, with what has been built so far.
    pub closed spec fn root(&self) -> Tree {
        self.ast_root@
    }

    /// Whether the cursor is on a token or at the end of the tokens. It is
    /// when a parser is made, and stays so whatever is called on the parser.
    pub open spec fn in_bounds(&self) -> bool {
        0 <= self.cursor() <= self.tokens().len()
    }

    /// A parser at the first token, with a root that has no children yet.
    pub fn new(token_list: &'a Vec<Token>) -> (r: Parser<'a>)
        ensures
            r.tokens() == token_views(token_list@),
            r.cursor() == 0,
            r.root() == Tree::leaf(AstType::Program, None),
            r.in_bounds(),
    {
        Parser {
            place: Place { token_list, pos: 0 },
            ast_root: AstNode::new(AstType::Program, None),
        }
    }

    /// The root of the tree, with what has been built so far.
    pub fn ast_root(&self) -> (r: &AstNode)
        ensures
            r@ == self.root(),
    {
        &self.ast_root
    }

    /// Gives up the parser for the tree it has built.
    pub fn into_root(self) -> (r: AstNode)
        ensures
            r@ == self.root(),
    {
        self.ast_root
    }

    /// Moves the cursor over one token, if any is left.
    pub fn next(&mut self)
        ensures
            final(self).tokens() == old(self).tokens(),
            final(self).root() == old(self).root(),
            old(self).cursor() <= final(self).cursor(),
            final(self).in_bounds(),
            final(self).cursor() == if old(self).cursor() < old(self).tokens().len() {
                old(self).cursor() + 1
            } else {
                old(self).cursor()
            },
    {
        proof {
            use_type_invariant(&self.place);
        }
        if self.place.pos < self.place.token_list.len() {
            self.place.pos = self.place.pos + 1;
        }
    }

    /// The kind of the token under the cursor, if there is one.
    fn peek(&self) -> (r: Option<TokenType>)
        ensures
            r == kind_at(self.tokens(), self.cursor()),
    {
        if self.place.pos < self.place.token_list.len() {
            Some(self.place.token_list[self.place.pos].token_type)
        } else {
            None
        }
    }

    /// Whether the token under the cursor is of kind `kind`.
    fn sees(&self, kind: TokenType) -> (r: bool)
        ensures
            r == is_at(self.tokens(), self.cursor(), kind),
    {
        match self.peek() {
            Some(k) => k == kind,
            None => false,
        }
    }

    /// The error of needing a token of kind `expected` under the cursor.
    fn error(&self, expected: TokenType) -> (e: SyntaxError)
        ensures
            e@ == mismatch(self.tokens(), self.cursor(), expected),
    {
        let n = self.place.token_list.len();
        if self.place.pos < n {
            let t = &self.place.token_list[self.place.pos];
            SyntaxError { expected, found: Some(t.token_type), row: t.row, column: t.column }
        } else if n > 0 {
            let t = &self.place.token_list[n - 1];
            SyntaxError { expected, found: None, row: t.row, column: t.column }
        } else {
            SyntaxError { expected, found: None, row: 1, column: 0 }
        }
    }

    /// Matches one token: where the token under the cursor is of kind
    /// `token_type`, whatever its lexeme, the cursor moves over it; where it
    /// is not, or no token is left, the cursor stays and the mismatch is the
    /// error.
    pub fn match_token(&mut self, token_type: TokenType) -> (r: Result<(), SyntaxError>)
        ensures
            final(self).tokens() == old(self).tokens(),
            final(self).root() == old(self).root(),
            old(self).cursor() <= final(self).cursor(),
            final(self).in_bounds(),
            match r {
                Ok(_) => {
                    &&& is_at(old(self).tokens(), old(self).cursor(), token_type)
                    &&& final(self).cursor() == old(self).cursor() + 1
                },
                Err(e) => {
                    &&& !is_at(old(self).tokens(), old(self).cursor(), token_type)
                    &&& final(self).cursor() == old(self).cursor()
                    &&& e@ == mismatch(old(self).tokens(), old(self).cursor(), token_type)
                },
            },
    {
        proof {
            use_type_invariant(&self.place);
        }
        if self.sees(token_type) {
            self.next();
            Ok(())
        } else {
            Err(self.error(token_type))
        }
    }

    /// Reads a type: where the token under the cursor is `int`, `char`,
    /// `float` or `void`, the cursor moves over it and the type is returned;
    /// else the cursor stays and the error asks for `int`.
    pub fn type_token(&mut self) -> (r: Result<KeyWord, SyntaxError>)
        ensures
            final(self).tokens() == old(self).tokens(),
            final(self).root() == old(self).root(),
            old(self).cursor() <= final(self).cursor(),
            final(self).in_bounds(),
            match type_at(old(self).tokens(), old(self).cursor()) {
                Some(k) => {
                    &&& r == Ok::<KeyWord, SyntaxError>(k)
                    &&& final(self).cursor() == old(self).cursor() + 1
                },
                None => r matches Err(e) && e@ == mismatch(
                    old(self).tokens(),
                    old(self).cursor(),
                    TokenType::KeyWord(KeyWord::Int),
                ) && final(self).cursor() == old(self).cursor(),
            },
    {
        proof {
            use_type_invariant(&self.place);
        }
        match self.peek() {
            Some(TokenType::KeyWord(KeyWord::Int)) => {
                self.next();
                Ok(KeyWord::Int)
            },
            Some(TokenType::KeyWord(KeyWord::Char)) => {
                self.next();
                Ok(KeyWord::Char)
            },
            Some(TokenType::KeyWord(KeyWord::Float)) => {
                self.next();
                Ok(KeyWord::Float)
            },
            Some(TokenType::KeyWord(KeyWord::Void)) => {
                self.next();
                Ok(KeyWord::Void)
            },
            _ => Err(self.error(TokenType::KeyWord(KeyWord::Int))),
        }
    }

    /// The leaf for the identifier or number under the cursor.
    fn leaf(&self, kind: AstType) -> (r: AstNode)
        requires
            self.cursor() < self.tokens().len(),
        ensures
            r@ == literal(kind, self.tokens(), self.cursor()),
    {
        let text = match &self.place.token_list[self.place.pos].token_str {
            Some(s) => s.clone(),
            None => String::new(),
        };
        AstNode::new(kind, Some(Attribute::Literal(text)))
    }

    /// Closes `tree` with the symbol `s`.
    fn close(&mut self, s: Symbol, tree: AstNode) -> (r: Result<AstNode, SyntaxError>)
        ensures
            final(self).tokens() == old(self).tokens(),
            final(self).root() == old(self).root(),
            realizes(
                old(self).tokens(),
                closed_by(old(self).tokens(), s, tree@, old(self).cursor()),
                r,
                final(self).cursor(),
            ),
    {
        if self.sees(TokenType::Symbol(s)) {
            self.next();
            Ok(tree)
        } else {
            Err(self.error(TokenType::Symbol(s)))
        }
    }

    /// primary: an identifier, a number, or an expression in parentheses.
    fn primary(&mut self) -> (r: Result<AstNode, SyntaxError>)
        ensures
            final(self).tokens() == old(self).tokens(),
            final(self).root() == old(self).root(),
            realizes(
                old(self).tokens(),
                primary(old(self).tokens(), old(self).cursor()),
                r,
                final(self).cursor(),
            ),
            r is Ok ==> moved(old(self).tokens(), old(self).cursor(), final(self).cursor()),
        decreases old(self).tokens().len() - old(self).cursor(), 0int,
    {
        if self.sees(TokenType::Var) {
            let node = self.leaf(AstType::Identifier);
            self.next();
            Ok(node)
        } else if self.sees(TokenType::Number) {
            let node = self.leaf(AstType::Number);
            self.next();
            Ok(node)
        } else if self.sees(TokenType::Symbol(Symbol::LeftParen)) {
            self.next();
            match self.expression() {
                Ok(tree) => self.close(Symbol::RightParen, tree),
                Err(e) => Err(e),
            }
        } else {
            Err(self.error(TokenType::Var))
        }
    }

    /// The prefix operator under the cursor: `++`, `--` or `-`.
    fn prefix(&self) -> (r: Option<Operator>)
        ensures
            r == prefix_at(self.tokens(), self.cursor()),
    {
        match self.peek() {
            Some(TokenType::Operator(Operator::Inc)) => Some(Operator::Inc),
            Some(TokenType::Operator(Operator::Dec)) => Some(Operator::Dec),
            Some(TokenType::Operator(Operator::Minus)) => Some(Operator::Minus),
            _ => None,
        }
    }

    /// unary: prefix operators, then a primary.
    fn unary(&mut self) -> (r: Result<AstNode, SyntaxError>)
        ensures
            final(self).tokens() == old(self).tokens(),
            final(self).root() == old(self).root(),
            realizes(
                old(self).tokens(),
                unary(old(self).tokens(), old(self).cursor()),
                r,
                final(self).cursor(),
            ),
            r is Ok ==> moved(old(self).tokens(), old(self).cursor(), final(self).cursor()),
        decreases old(self).tokens().len() - old(self).cursor(), 1int,
    {
        match self.prefix() {
            Some(op) => {
                self.next();
                match self.unary() {
                    Ok(tree) => {
                        let mut node = AstNode::new(AstType::Unary, Some(Attribute::Operator(op)));
                        node.push(tree);
                        Ok(node)
                    },
                    Err(e) => Err(e),
                }
            },
            None => self.primary(),
        }
    }

    /// The binary operator of `level` under the cursor.
    fn infix(&self, level: u8) -> (r: Option<Operator>)
        ensures
            r == infix_at(self.tokens(), self.cursor(), level as nat),
    {
        match self.peek() {
            Some(TokenType::Operator(op)) => if binds(op, level) {
                Some(op)
            } else {
                None
            },
            _ => None,
        }
    }

    /// An operand of the binary operators of `level`.
    fn operand(&mut self, level: u8) -> (r: Result<AstNode, SyntaxError>)
        requires
            level < LEVELS,
        ensures
            final(self).tokens() == old(self).tokens(),
            final(self).root() == old(self).root(),
            realizes(
                old(self).tokens(),
                operand(old(self).tokens(), old(self).cursor(), level as nat),
                r,
                final(self).cursor(),
            ),
            r is Ok ==> moved(old(self).tokens(), old(self).cursor(), final(self).cursor()),
        decreases old(self).tokens().len() - old(self).cursor(), 2 * level + 2,
    {
        if level == 0 {
            self.unary()
        } else {
            self.binary(level - 1)
        }
    }

    /// binary: operands of `level` joined by operators of `level`, grouped
    /// from the left.
    fn binary(&mut self, level: u8) -> (r: Result<AstNode, SyntaxError>)
        requires
            level < LEVELS,
        ensures
            final(self).tokens() == old(self).tokens(),
            final(self).root() == old(self).root(),
            realizes(
                old(self).tokens(),
                binary(old(self).tokens(), old(self).cursor(), level as nat),
                r,
                final(self).cursor(),
            ),
            r is Ok ==> moved(old(self).tokens(), old(self).cursor(), final(self).cursor()),
        decreases old(self).tokens().len() - old(self).cursor(), 2 * level + 3,
    {
        let ghost ts = self.tokens();
        let ghost goal = binary(ts, self.cursor(), level as nat);
        let mut left = match self.operand(level) {
            Ok(tree) => tree,
            Err(e) => {
                return Err(e);
            },
        };
        loop
            invariant
                level < LEVELS,
                self.tokens() == ts,
                ts == old(self).tokens(),
                self.root() == old(self).root(),
                moved(ts, old(self).cursor(), self.cursor()),
                binary_rest(ts, self.cursor(), left@, level as nat) == goal,
                goal == binary(ts, old(self).cursor(), level as nat),
            decreases ts.len() - self.cursor(),
        {
            match self.infix(level) {
                Some(op) => {
                    self.next();
                    match self.operand(level) {
                        Ok(right) => {
                            let mut node = AstNode::new(
                                AstType::Binary,
                                Some(Attribute::Operator(op)),
                            );
                            node.push(left);
                            node.push(right);
                            left = node;
                        },
                        Err(e) => {
                            return Err(e);
                        },
                    }
                },
                None => {
                    return Ok(left);
                },
            }
        }
    }

    /// assignment: a binary operation of the loosest level and, if `=`
    /// follows it, the assigned value, itself an assignment.
    fn assignment(&mut self) -> (r: Result<AstNode, SyntaxError>)
        ensures
            final(self).tokens() == old(self).tokens(),
            final(self).root() == old(self).root(),
            realizes(
                old(self).tokens(),
                assignment(old(self).tokens(), old(self).cursor()),
                r,
                final(self).cursor(),
            ),
            r is Ok ==> moved(old(self).tokens(), old(self).cursor(), final(self).cursor()),
        decreases old(self).tokens().len() - old(self).cursor(), 2 * LEVELS + 3,
    {
        let target = match self.binary(LEVELS - 1) {
            Ok(tree) => tree,
            Err(e) => {
                return Err(e);
            },
        };
        if self.sees(TokenType::Operator(Operator::Assign)) {
            self.next();
            match self.assignment() {
                Ok(value) => {
                    let mut node = AstNode::new(
                        AstType::Assign,
                        Some(Attribute::Operator(Operator::Assign)),
                    );
                    node.push(target);
                    node.push(value);
                    Ok(node)
                },
                Err(e) => Err(e),
            }
        } else {
            Ok(target)
        }
    }

    /// expression: an assignment. Operators bind, from loosest to tightest:
    /// `=` (grouped from the right), `||`, `&&`, `==`, the relational
    /// operators, `+` and `-`, `*` and `/` (all grouped from the left), the
    /// prefix operators.
    pub fn expression(&mut self) -> (r: Result<AstNode, SyntaxError>)
        ensures
            final(self).tokens() == old(self).tokens(),
            final(self).root() == old(self).root(),
            old(self).cursor() <= final(self).cursor(),
            final(self).in_bounds(),
            realizes(
                old(self).tokens(),
                expression(old(self).tokens(), old(self).cursor()),
                r,
                final(self).cursor(),
            ),
            r is Ok ==> moved(old(self).tokens(), old(self).cursor(), final(self).cursor()),
        decreases old(self).tokens().len() - old(self).cursor(), 2 * LEVELS + 4,
    {
        proof {
            use_type_invariant(&self.place);
            lemma_expression(self.tokens(), self.cursor());
        }
        self.assignment()
    }

    /// `(` expression `)`: the condition of an `if` or of a `while`.
    fn condition(&mut self) -> (r: Result<AstNode, SyntaxError>)
        ensures
            final(self).tokens() == old(self).tokens(),
            final(self).root() == old(self).root(),
            realizes(
                old(self).tokens(),
                condition(old(self).tokens(), old(self).cursor()),
                r,
                final(self).cursor(),
            ),
            r is Ok ==> moved(old(self).tokens(), old(self).cursor(), final(self).cursor()),
    {
        if self.sees(TokenType::Symbol(Symbol::LeftParen)) {
            self.next();
            match self.expression() {
                Ok(tree) => self.close(Symbol::RightParen, tree),
                Err(e) => Err(e),
            }
        } else {
            Err(self.error(TokenType::Symbol(Symbol::LeftParen)))
        }
    }

    /// `return` `;` or `return` expression `;`, with `return` under the
    /// cursor.
    fn return_statement(&mut self) -> (r: Result<AstNode, SyntaxError>)
        requires
            is_at(old(self).tokens(), old(self).cursor(), TokenType::KeyWord(KeyWord::Return)),
        ensures
            final(self).tokens() == old(self).tokens(),
            final(self).root() == old(self).root(),
            realizes(
                old(self).tokens(),
                return_statement(old(self).tokens(), old(self).cursor()),
                r,
                final(self).cursor(),
            ),
            r is Ok ==> moved(old(self).tokens(), old(self).cursor(), final(self).cursor()),
    {
        self.next();
        let mut node = AstNode::new(AstType::Return, None);
        if self.sees(TokenType::Symbol(Symbol::Semi)) {
            self.next();
            Ok(node)
        } else {
            match self.expression() {
                Ok(tree) => {
                    node.push(tree);
                    self.close(Symbol::Semi, node)
                },
                Err(e) => Err(e),
            }
        }
    }

    /// expression `;`.
    fn expression_statement(&mut self) -> (r: Result<AstNode, SyntaxError>)
        ensures
            final(self).tokens() == old(self).tokens(),
            final(self).root() == old(self).root(),
            realizes(
                old(self).tokens(),
                expression_statement(old(self).tokens(), old(self).cursor()),
                r,
                final(self).cursor(),
            ),
            r is Ok ==> moved(old(self).tokens(), old(self).cursor(), final(self).cursor()),
    {
        match self.expression() {
            Ok(tree) => {
                let mut node = AstNode::new(AstType::ExpressionStatement, None);
                node.push(tree);
                self.close(Symbol::Semi, node)
            },
            Err(e) => Err(e),
        }
    }

    /// statement: `if`, `while`, `return`, a block in braces, or an
    /// expression followed by `;`.
    pub fn statement(&mut self) -> (r: Result<AstNode, SyntaxError>)
        ensures
            final(self).tokens() == old(self).tokens(),
            final(self).root() == old(self).root(),
            old(self).cursor() <= final(self).cursor(),
            final(self).in_bounds(),
            realizes(
                old(self).tokens(),
                statement(old(self).tokens(), old(self).cursor()),
                r,
                final(self).cursor(),
            ),
            r is Ok ==> moved(old(self).tokens(), old(self).cursor(), final(self).cursor()),
        decreases old(self).tokens().len() - old(self).cursor(), 1int,
    {
        proof {
            use_type_invariant(&self.place);
            lemma_statement(self.tokens(), self.cursor());
        }
        match self.peek() {
            Some(TokenType::KeyWord(KeyWord::If)) => self.if_statement(),
            Some(TokenType::KeyWord(KeyWord::While)) => self.while_statement(),
            Some(TokenType::KeyWord(KeyWord::Return)) => self.return_statement(),
            Some(TokenType::Symbol(Symbol::LeftCurly)) => {
                self.next();
                self.block_rest(AstNode::new(AstType::Block, None))
            },
            _ => self.expression_statement(),
        }
    }

    /// `if` `(` expression `)` statement, and `else` statement if `else`
    /// follows; `if` is under the cursor.
    fn if_statement(&mut self) -> (r: Result<AstNode, SyntaxError>)
        requires
            is_at(old(self).tokens(), old(self).cursor(), TokenType::KeyWord(KeyWord::If)),
        ensures
            final(self).tokens() == old(self).tokens(),
            final(self).root() == old(self).root(),
            realizes(
                old(self).tokens(),
                if_statement(old(self).tokens(), old(self).cursor()),
                r,
                final(self).cursor(),
            ),
            r is Ok ==> moved(old(self).tokens(), old(self).cursor(), final(self).cursor()),
        decreases old(self).tokens().len() - old(self).cursor(), 0int,
    {
        self.next();
        let cond = match self.condition() {
            Ok(tree) => tree,
            Err(e) => {
                return Err(e);
            },
        };
        let then = match self.statement() {
            Ok(tree) => tree,
            Err(e) => {
                return Err(e);
            },
        };
        let mut node = AstNode::new(AstType::If, None);
        node.push(cond);
        node.push(then);
        if self.sees(TokenType::KeyWord(KeyWord::Else)) {
            self.next();
            match self.statement() {
                Ok(other) => {
                    node.push(other);
                    Ok(node)
                },
                Err(e) => Err(e),
            }
        } else {
            Ok(node)
        }
    }

    /// `while` `(` expression `)` statement; `while` is under the cursor.
    fn while_statement(&mut self) -> (r: Result<AstNode, SyntaxError>)
        requires
            is_at(old(self).tokens(), old(self).cursor(), TokenType::KeyWord(KeyWord::While)),
        ensures
            final(self).tokens() == old(self).tokens(),
            final(self).root() == old(self).root(),
            realizes(
                old(self).tokens(),
                while_statement(old(self).tokens(), old(self).cursor()),
                r,
                final(self).cursor(),
            ),
            r is Ok ==> moved(old(self).tokens(), old(self).cursor(), final(self).cursor()),
        decreases old(self).tokens().len() - old(self).cursor(), 0int,
    {
        self.next();
        let cond = match self.condition() {
            Ok(tree) => tree,
            Err(e) => {
                return Err(e);
            },
        };
        match self.statement() {
            Ok(body) => {
                let mut node = AstNode::new(AstType::While, None);
                node.push(cond);
                node.push(body);
                Ok(node)
            },
            Err(e) => Err(e),
        }
    }

    /// What follows `{` and the statements already in `block`: statements,
    /// each added to `block`, then `}`.
    fn block_rest(&mut self, block: AstNode) -> (r: Result<AstNode, SyntaxError>)
        ensures
            final(self).tokens() == old(self).tokens(),
            final(self).root() == old(self).root(),
            realizes(
                old(self).tokens(),
                block_rest(old(self).tokens(), old(self).cursor(), block@),
                r,
                final(self).cursor(),
            ),
            r is Ok ==> moved(old(self).tokens(), old(self).cursor(), final(self).cursor()),
        decreases old(self).tokens().len() - old(self).cursor(), 2int,
    {
        let ghost ts = self.tokens();
        let ghost goal = block_rest(ts, self.cursor(), block@);
        let mut node = block;
        loop
            invariant
                self.tokens() == ts,
                ts == old(self).tokens(),
                self.root() == old(self).root(),
                old(self).cursor() <= self.cursor(),
                block_rest(ts, self.cursor(), node@) == goal,
                goal == block_rest(ts, old(self).cursor(), block@),
            decreases ts.len() - self.cursor(),
        {
            if self.sees(TokenType::Symbol(Symbol::RightCurly)) {
                self.next();
                return Ok(node);
            }
            if self.peek().is_none() {
                return Err(self.error(TokenType::Symbol(Symbol::RightCurly)));
            }
            match self.statement() {
                Ok(tree) => {
                    node.push(tree);
                },
                Err(e) => {
                    return Err(e);
                },
            }
        }
    }

    /// parameter: a type and a name.
    fn parameter(&mut self) -> (r: Result<AstNode, SyntaxError>)
        ensures
            final(self).tokens() == old(self).tokens(),
            final(self).root() == old(self).root(),
            realizes(
                old(self).tokens(),
                parameter(old(self).tokens(), old(self).cursor()),
                r,
                final(self).cursor(),
            ),
            r is Ok ==> moved(old(self).tokens(), old(self).cursor(), final(self).cursor()),
    {
        let of_type = match self.type_token() {
            Ok(k) => k,
            Err(e) => {
                return Err(e);
            },
        };
        if self.sees(TokenType::Var) {
            let mut node = AstNode::new(AstType::Parameter, Some(Attribute::Type(of_type)));
            node.push(self.leaf(AstType::Identifier));
            self.next();
            Ok(node)
        } else {
            Err(self.error(TokenType::Var))
        }
    }

    /// What follows the `(` of a function definition: `)`, or parameters
    /// separated by `,` and then `)`.
    fn parameters(&mut self) -> (r: Result<AstNode, SyntaxError>)
        ensures
            final(self).tokens() == old(self).tokens(),
            final(self).root() == old(self).root(),
            realizes(
                old(self).tokens(),
                parameters(old(self).tokens(), old(self).cursor()),
                r,
                final(self).cursor(),
            ),
            r is Ok ==> moved(old(self).tokens(), old(self).cursor(), final(self).cursor()),
    {
        let ghost ts = self.tokens();
        let ghost goal = parameters(ts, self.cursor());
        let mut list = AstNode::new(AstType::Parameters, None);
        if self.sees(TokenType::Symbol(Symbol::RightParen)) {
            self.next();
            return Ok(list);
        }
        match self.parameter() {
            Ok(tree) => {
                list.push(tree);
            },
            Err(e) => {
                return Err(e);
            },
        }
        loop
            invariant
                self.tokens() == ts,
                ts == old(self).tokens(),
                self.root() == old(self).root(),
                old(self).cursor() < self.cursor(),
                parameters_rest(ts, self.cursor(), list@) == goal,
                goal == parameters(ts, old(self).cursor()),
            decreases ts.len() - self.cursor(),
        {
            if self.sees(TokenType::Symbol(Symbol::Comma)) {
                self.next();
                match self.parameter() {
                    Ok(tree) => {
                        list.push(tree);
                    },
                    Err(e) => {
                        return Err(e);
                    },
                }
            } else {
                return self.close(Symbol::RightParen, list);
            }
        }
    }

    /// What follows the name and the `(` of a function definition: the
    /// parameters and the body, both added to `node`.
    fn function_rest(&mut self, node: AstNode) -> (r: Result<AstNode, SyntaxError>)
        ensures
            final(self).tokens() == old(self).tokens(),
            final(self).root() == old(self).root(),
            realizes(
                old(self).tokens(),
                function_rest(old(self).tokens(), old(self).cursor(), node@),
                r,
                final(self).cursor(),
            ),
            r is Ok ==> moved(old(self).tokens(), old(self).cursor(), final(self).cursor()),
    {
        let mut node = node;
        let list = match self.parameters() {
            Ok(tree) => tree,
            Err(e) => {
                return Err(e);
            },
        };
        if self.sees(TokenType::Symbol(Symbol::LeftCurly)) {
            self.next();
            match self.block_rest(AstNode::new(AstType::Block, None)) {
                Ok(body) => {
                    node.push(list);
                    node.push(body);
                    Ok(node)
                },
                Err(e) => Err(e),
            }
        } else {
            Err(self.error(TokenType::Symbol(Symbol::LeftCurly)))
        }
    }

    /// declaration: a type and a name; then, if `(` follows, a function
    /// definition: parameters in parentheses and a block; else a variable
    /// declaration, with an initializer if `=` follows, closed by `;`.
    pub fn declaration(&mut self) -> (r: Result<AstNode, SyntaxError>)
        ensures
            final(self).tokens() == old(self).tokens(),
            final(self).root() == old(self).root(),
            old(self).cursor() <= final(self).cursor(),
            final(self).in_bounds(),
            realizes(
                old(self).tokens(),
                declaration(old(self).tokens(), old(self).cursor()),
                r,
                final(self).cursor(),
            ),
            r is Ok ==> moved(old(self).tokens(), old(self).cursor(), final(self).cursor()),
    {
        proof {
            use_type_invariant(&self.place);
            lemma_declaration(self.tokens(), self.cursor());
        }
        let of_type = match self.type_token() {
            Ok(k) => k,
            Err(e) => {
                return Err(e);
            },
        };
        if !self.sees(TokenType::Var) {
            return Err(self.error(TokenType::Var));
        }
        let name = self.leaf(AstType::Identifier);
        self.next();
        if self.sees(TokenType::Symbol(Symbol::LeftParen)) {
            self.next();
            let mut node = AstNode::new(AstType::Function, Some(Attribute::Type(of_type)));
            node.push(name);
            self.function_rest(node)
        } else {
            let mut node = AstNode::new(AstType::Declaration, Some(Attribute::Type(of_type)));
            node.push(name);
            if self.sees(TokenType::Operator(Operator::Assign)) {
                self.next();
                match self.expression() {
                    Ok(tree) => {
                        node.push(tree);
                        self.close(Symbol::Semi, node)
                    },
                    Err(e) => Err(e),
                }
            } else {
                self.close(Symbol::Semi, node)
            }
        }
    }

    /// program: declarations up to the end of the tokens, each added to the
    /// root. Stops at the first declaration that fails, with its error; the
    /// declarations read before it stay in the root, and the cursor stays on
    /// the token that did not fit.
    pub fn program(&mut self) -> (r: Result<(), SyntaxError>)
        ensures
            final(self).tokens() == old(self).tokens(),
            old(self).cursor() <= final(self).cursor(),
            final(self).in_bounds(),
            final(self).root() == program_rest(
                old(self).tokens(),
                old(self).cursor(),
                old(self).root(),
            ).root,
            final(self).cursor() == program_rest(
                old(self).tokens(),
                old(self).cursor(),
                old(self).root(),
            ).end,
            match program_rest(old(self).tokens(), old(self).cursor(), old(self).root()).expected {
                None => r is Ok,
                Some(k) => r matches Err(e) && e@ == mismatch(
                    old(self).tokens(),
                    final(self).cursor(),
                    k,
                ),
            },
    {
        proof {
            use_type_invariant(&self.place);
            lemma_program_rest(self.tokens(), self.cursor(), self.root());
        }
        let ghost ts = self.tokens();
        let ghost goal = program_rest(ts, self.cursor(), self.root());
        while self.place.pos < self.place.token_list.len()
            invariant
                self.tokens() == ts,
                ts == old(self).tokens(),
                old(self).cursor() <= self.cursor(),
                program_rest(ts, self.cursor(), self.root()) == goal,
                goal == program_rest(old(self).tokens(), old(self).cursor(), old(self).root()),
            decreases ts.len() - self.cursor(),
        {
            match self.declaration() {
                Ok(tree) => {
                    self.ast_root.push(tree);
                },
                Err(e) => {
                    return Err(e);
                },
            }
        }
        Ok(())
    }
}

/// Parses a whole token sequence: the tree of the program, rooted at a
/// `Program` node with one child for each top-level declaration, or the
/// error of the first token that does not fit. A tree is returned only
/// where every token has been read, and, written out, it is the tokens,
/// less the parentheses.
pub fn parse(tokens: &Vec<Token>) -> (r: Result<AstNode, SyntaxError>)
    ensures
        match program(token_views(tokens@)).expected {
            None => r matches Ok(root) && root@ == program(token_views(tokens@)).root,
            Some(k) => r matches Err(e) && e@ == mismatch(
                token_views(tokens@),
                program(token_views(tokens@)).end,
                k,
            ),
        },
        r matches Ok(root) ==> {
            &&& root@.kind == AstType::Program
            &&& root@.attribute is None
            &&& program(token_views(tokens@)).end == tokens@.len()
            &&& written(root@) == plain(token_views(tokens@), 0, tokens@.len() as int)
        },
        r is Err ==> 0 <= program(token_views(tokens@)).end <= tokens@.len(),
{
    proof {
        lemma_program(token_views(tokens@));
        if program(token_views(tokens@)).expected is None {
            lemma_written_program(token_views(tokens@));
        }
    }
    let mut parser = Parser::new(tokens);
    match parser.program() {
        Ok(_) => Ok(parser.into_root()),
        Err(e) => Err(e),
    }
}

} // verus!

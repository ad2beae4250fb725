//! The grammar of the language, as functions from a token sequence and an
//! index to the tree read from that index on.
//!
//! Every nonterminal is a function of the tokens and of the index of the
//! first token to read. It yields either the tree it read and the index of
//! the first token after it, or the kind of token it needed and the index at
//! which that token was missing. Nothing is skipped: the index at which
//! reading fails is that of the first token that does not fit.

use crate::parser::ast::{AstType, AttributeView, Tree};
use crate::token::{KeyWord, Operator, Symbol, TokenType, TokenView};
use vstd::prelude::*;

verus! {

/// How reading a nonterminal ends.
pub enum Outcome {
    /// `tree` was read; `next` is the index of the first token after it.
    Done { tree: Tree, next: int },
    /// A token of kind `expected` was needed at index `at`, and the token
    /// there, if any, is of another kind.
    Fail { expected: TokenType, at: int },
}

/// The kind of the token at index `i`, if there is one.
pub open spec fn kind_at(ts: Seq<TokenView>, i: int) -> Option<TokenType> {
    if 0 <= i < ts.len() {
        Some(ts[i].kind)
    } else {
        None
    }
}

/// Whether the token at index `i` is of kind `k`.
pub open spec fn is_at(ts: Seq<TokenView>, i: int, k: TokenType) -> bool {
    kind_at(ts, i) == Some(k)
}

/// Whether the symbol `s` is at index `i`.
pub open spec fn symbol_at(ts: Seq<TokenView>, i: int, s: Symbol) -> bool {
    is_at(ts, i, TokenType::Symbol(s))
}

/// The lexeme of the token at index `i`; empty where the token has none.
pub open spec fn lexeme_at(ts: Seq<TokenView>, i: int) -> Seq<char> {
    match ts[i].text {
        Some(t) => t,
        None => Seq::empty(),
    }
}

/// The type that the token at index `i` names: `int`, `char`, `float` or
/// `void`.
pub open spec fn type_at(ts: Seq<TokenView>, i: int) -> Option<KeyWord> {
    match kind_at(ts, i) {
        Some(TokenType::KeyWord(k)) => if k == KeyWord::Int || k == KeyWord::Char || k
            == KeyWord::Float || k == KeyWord::Void {
            Some(k)
        } else {
            None
        },
        _ => None,
    }
}

/// The prefix operator at index `i`: `++`, `--` or `-`.
pub open spec fn prefix_at(ts: Seq<TokenView>, i: int) -> Option<Operator> {
    match kind_at(ts, i) {
        Some(TokenType::Operator(op)) => if op == Operator::Inc || op == Operator::Dec || op
            == Operator::Minus {
            Some(op)
        } else {
            None
        },
        _ => None,
    }
}

/// The number of precedence levels of binary operators.
pub const LEVELS: u8 = 6;

/// Whether the binary operator `op` binds at `level`. Level 0 binds
/// tightest: `*` and `/`; then `+` and `-`; then `<`, `<=`, `>` and `>=`;
/// then `==`; then `&&`; level 5 binds loosest: `||`.
pub open spec fn binds_at(op: Operator, level: nat) -> bool {
    match op {
        Operator::Mul | Operator::Div => level == 0,
        Operator::Add | Operator::Minus => level == 1,
        Operator::Less | Operator::LessEqual | Operator::Greater | Operator::GreaterEqual => level
            == 2,
        Operator::Equal => level == 3,
        Operator::And => level == 4,
        Operator::Or => level == 5,
        _ => false,
    }
}

/// The binary operator of `level` at index `i`.
pub open spec fn infix_at(ts: Seq<TokenView>, i: int, level: nat) -> Option<Operator> {
    match kind_at(ts, i) {
        Some(TokenType::Operator(op)) => if binds_at(op, level) {
            Some(op)
        } else {
            None
        },
        _ => None,
    }
}

/// The leaf for the identifier or number at index `i`.
pub open spec fn literal(kind: AstType, ts: Seq<TokenView>, i: int) -> Tree {
    Tree::leaf(kind, Some(AttributeView::Literal(lexeme_at(ts, i))))
}

/// The node of a prefix operation.
pub open spec fn unary_node(op: Operator, operand: Tree) -> Tree {
    Tree::leaf(AstType::Unary, Some(AttributeView::Operator(op))).with_child(operand)
}

/// The node of a binary operation.
pub open spec fn binary_node(op: Operator, left: Tree, right: Tree) -> Tree {
    Tree::leaf(AstType::Binary, Some(AttributeView::Operator(op))).with_child(left).with_child(
        right,
    )
}

/// The node of an assignment.
pub open spec fn assign_node(target: Tree, value: Tree) -> Tree {
    Tree::leaf(AstType::Assign, Some(AttributeView::Operator(Operator::Assign))).with_child(
        target,
    ).with_child(value)
}

/// Whether reading from index `i` to index `next` moved forward and stayed in
/// the sequence. Every nonterminal that reads a tree does, as the laws of
/// the parser show; the grammar asks before it goes on reading, so that it
/// is plain that reading ends.
pub open spec fn moved(ts: Seq<TokenView>, i: int, next: int) -> bool {
    i < next <= ts.len()
}

/// `tree` once the symbol `s` has been read at index `at`.
pub open spec fn closed_by(ts: Seq<TokenView>, s: Symbol, tree: Tree, at: int) -> Outcome {
    if symbol_at(ts, at, s) {
        Outcome::Done { tree, next: at + 1 }
    } else {
        Outcome::Fail { expected: TokenType::Symbol(s), at }
    }
}

/// primary: an identifier, a number, or an expression in parentheses. The
/// parentheses leave no node.
pub open spec fn primary(ts: Seq<TokenView>, i: int) -> Outcome
    decreases ts.len() - i, 0int,
{
    if is_at(ts, i, TokenType::Var) {
        Outcome::Done { tree: literal(AstType::Identifier, ts, i), next: i + 1 }
    } else if is_at(ts, i, TokenType::Number) {
        Outcome::Done { tree: literal(AstType::Number, ts, i), next: i + 1 }
    } else if symbol_at(ts, i, Symbol::LeftParen) {
        match expression(ts, i + 1) {
            Outcome::Done { tree, next } => closed_by(ts, Symbol::RightParen, tree, next),
            fail => fail,
        }
    } else {
        Outcome::Fail { expected: TokenType::Var, at: i }
    }
}

/// unary: any number of prefix operators `++`, `--`, `-`, then a primary.
pub open spec fn unary(ts: Seq<TokenView>, i: int) -> Outcome
    decreases ts.len() - i, 1int,
{
    match prefix_at(ts, i) {
        Some(op) => match unary(ts, i + 1) {
            Outcome::Done { tree, next } => Outcome::Done { tree: unary_node(op, tree), next },
            fail => fail,
        },
        None => primary(ts, i),
    }
}

/// An operand of the binary operators of `level`: an operation of the next
/// tighter level, or a unary at level 0.
pub open spec fn operand(ts: Seq<TokenView>, i: int, level: nat) -> Outcome
    decreases ts.len() - i, 2 * level + 2,
{
    if level == 0 {
        unary(ts, i)
    } else {
        binary(ts, i, (level - 1) as nat)
    }
}

/// binary: operands of `level` joined by operators of `level`, grouped from
/// the left.
pub open spec fn binary(ts: Seq<TokenView>, i: int, level: nat) -> Outcome
    decreases ts.len() - i, 2 * level + 3,
{
    match operand(ts, i, level) {
        Outcome::Done { tree, next } => if moved(ts, i, next) {
            binary_rest(ts, next, tree, level)
        } else {
            Outcome::Done { tree, next }
        },
        fail => fail,
    }
}

/// What follows the operand `left` of a binary operation of `level`: any
/// number of times an operator of `level` and one more operand, each joined
/// to all that came before it.
pub open spec fn binary_rest(ts: Seq<TokenView>, i: int, left: Tree, level: nat) -> Outcome
    decreases ts.len() - i, 0int,
{
    match infix_at(ts, i, level) {
        Some(op) => match operand(ts, i + 1, level) {
            Outcome::Done { tree, next } => if moved(ts, i, next) {
                binary_rest(ts, next, binary_node(op, left, tree), level)
            } else {
                Outcome::Done { tree, next }
            },
            fail => fail,
        },
        None => Outcome::Done { tree: left, next: i },
    }
}

/// assignment: a binary operation of the loosest level, and, if `=` follows
/// it, the assigned value, itself an assignment: `a = b = c` assigns `b = c`
/// to `a`.
pub open spec fn assignment(ts: Seq<TokenView>, i: int) -> Outcome
    decreases ts.len() - i, 2 * LEVELS + 3,
{
    match binary(ts, i, (LEVELS - 1) as nat) {
        Outcome::Done { tree, next } => if next >= i && is_at(
            ts,
            next,
            TokenType::Operator(Operator::Assign),
        ) {
            match assignment(ts, next + 1) {
                Outcome::Done { tree: value, next: end } => Outcome::Done {
                    tree: assign_node(tree, value),
                    next: end,
                },
                fail => fail,
            }
        } else {
            Outcome::Done { tree, next }
        },
        fail => fail,
    }
}

/// expression: an assignment.
pub open spec fn expression(ts: Seq<TokenView>, i: int) -> Outcome
    decreases ts.len() - i, 2 * LEVELS + 4,
{
    assignment(ts, i)
}

/// `(` expression `)`, from index `i` on: the condition of an `if` or of a
/// `while`.
pub open spec fn condition(ts: Seq<TokenView>, i: int) -> Outcome {
    if symbol_at(ts, i, Symbol::LeftParen) {
        match expression(ts, i + 1) {
            Outcome::Done { tree, next } => closed_by(ts, Symbol::RightParen, tree, next),
            fail => fail,
        }
    } else {
        Outcome::Fail { expected: TokenType::Symbol(Symbol::LeftParen), at: i }
    }
}

/// `return` `;` or `return` expression `;`, where `return` is at index `i`.
pub open spec fn return_statement(ts: Seq<TokenView>, i: int) -> Outcome {
    if symbol_at(ts, i + 1, Symbol::Semi) {
        Outcome::Done { tree: Tree::leaf(AstType::Return, None), next: i + 2 }
    } else {
        match expression(ts, i + 1) {
            Outcome::Done { tree, next } => closed_by(
                ts,
                Symbol::Semi,
                Tree::leaf(AstType::Return, None).with_child(tree),
                next,
            ),
            fail => fail,
        }
    }
}

/// expression `;`.
pub open spec fn expression_statement(ts: Seq<TokenView>, i: int) -> Outcome {
    match expression(ts, i) {
        Outcome::Done { tree, next } => closed_by(
            ts,
            Symbol::Semi,
            Tree::leaf(AstType::ExpressionStatement, None).with_child(tree),
            next,
        ),
        fail => fail,
    }
}

/// statement: `if`, `while`, `return`, a block, or an expression statement,
/// told apart by the token at index `i`.
pub open spec fn statement(ts: Seq<TokenView>, i: int) -> Outcome
    decreases ts.len() - i, 1int,
{
    match kind_at(ts, i) {
        Some(TokenType::KeyWord(KeyWord::If)) => if_statement(ts, i),
        Some(TokenType::KeyWord(KeyWord::While)) => while_statement(ts, i),
        Some(TokenType::KeyWord(KeyWord::Return)) => return_statement(ts, i),
        Some(TokenType::Symbol(Symbol::LeftCurly)) => block_rest(
            ts,
            i + 1,
            Tree::leaf(AstType::Block, None),
        ),
        _ => expression_statement(ts, i),
    }
}

/// `if` `(` expression `)` statement, and `else` statement if `else`
/// follows; `if` is at index `i`. An `else` belongs to the nearest `if`.
pub open spec fn if_statement(ts: Seq<TokenView>, i: int) -> Outcome
    decreases ts.len() - i, 0int,
{
    match condition(ts, i + 1) {
        Outcome::Done { tree: cond, next } => if moved(ts, i, next) {
            match statement(ts, next) {
                Outcome::Done { tree: then, next: after } => {
                    let node = Tree::leaf(AstType::If, None).with_child(cond).with_child(then);
                    if moved(ts, i, after) && is_at(
                        ts,
                        after,
                        TokenType::KeyWord(KeyWord::Else),
                    ) {
                        match statement(ts, after + 1) {
                            Outcome::Done { tree: other, next: end } => Outcome::Done {
                                tree: node.with_child(other),
                                next: end,
                            },
                            fail => fail,
                        }
                    } else {
                        Outcome::Done { tree: node, next: after }
                    }
                },
                fail => fail,
            }
        } else {
            Outcome::Done { tree: cond, next }
        },
        fail => fail,
    }
}

/// `while` `(` expression `)` statement; `while` is at index `i`.
pub open spec fn while_statement(ts: Seq<TokenView>, i: int) -> Outcome
    decreases ts.len() - i, 0int,
{
    match condition(ts, i + 1) {
        Outcome::Done { tree: cond, next } => if moved(ts, i, next) {
            match statement(ts, next) {
                Outcome::Done { tree: body, next: end } => Outcome::Done {
                    tree: Tree::leaf(AstType::While, None).with_child(cond).with_child(body),
                    next: end,
                },
                fail => fail,
            }
        } else {
            Outcome::Done { tree: cond, next }
        },
        fail => fail,
    }
}

/// What follows `{` and the statements already in `block`: any number of
/// statements, each added to `block`, then `}`.
pub open spec fn block_rest(ts: Seq<TokenView>, i: int, block: Tree) -> Outcome
    decreases ts.len() - i, 2int,
{
    if symbol_at(ts, i, Symbol::RightCurly) {
        Outcome::Done { tree: block, next: i + 1 }
    } else if kind_at(ts, i) is None {
        Outcome::Fail { expected: TokenType::Symbol(Symbol::RightCurly), at: i }
    } else {
        match statement(ts, i) {
            Outcome::Done { tree, next } => if moved(ts, i, next) {
                block_rest(ts, next, block.with_child(tree))
            } else {
                Outcome::Done { tree, next }
            },
            fail => fail,
        }
    }
}

/// parameter: a type and a name.
pub open spec fn parameter(ts: Seq<TokenView>, i: int) -> Outcome {
    match type_at(ts, i) {
        Some(k) => if is_at(ts, i + 1, TokenType::Var) {
            Outcome::Done {
                tree: Tree::leaf(AstType::Parameter, Some(AttributeView::Type(k))).with_child(
                    literal(AstType::Identifier, ts, i + 1),
                ),
                next: i + 2,
            }
        } else {
            Outcome::Fail { expected: TokenType::Var, at: i + 1 }
        },
        None => Outcome::Fail { expected: TokenType::KeyWord(KeyWord::Int), at: i },
    }
}

/// What follows the parameters already in `list`: any number of times `,`
/// and one more parameter, then `)`.
pub open spec fn parameters_rest(ts: Seq<TokenView>, i: int, list: Tree) -> Outcome
    decreases ts.len() - i,
{
    if symbol_at(ts, i, Symbol::Comma) {
        match parameter(ts, i + 1) {
            Outcome::Done { tree, next } => parameters_rest(ts, next, list.with_child(tree)),
            fail => fail,
        }
    } else {
        closed_by(ts, Symbol::RightParen, list, i)
    }
}

/// What follows the `(` of a function definition: `)`, or parameters
/// separated by `,` and then `)`.
pub open spec fn parameters(ts: Seq<TokenView>, i: int) -> Outcome {
    let list = Tree::leaf(AstType::Parameters, None);
    if symbol_at(ts, i, Symbol::RightParen) {
        Outcome::Done { tree: list, next: i + 1 }
    } else {
        match parameter(ts, i) {
            Outcome::Done { tree, next } => parameters_rest(ts, next, list.with_child(tree)),
            fail => fail,
        }
    }
}

/// What follows the name and the `(` of a function definition: the
/// parameters and the body, a block. Both are added to `node`.
pub open spec fn function_rest(ts: Seq<TokenView>, i: int, node: Tree) -> Outcome {
    match parameters(ts, i) {
        Outcome::Done { tree: list, next } => if symbol_at(ts, next, Symbol::LeftCurly) {
            match block_rest(ts, next + 1, Tree::leaf(AstType::Block, None)) {
                Outcome::Done { tree: body, next: end } => Outcome::Done {
                    tree: node.with_child(list).with_child(body),
                    next: end,
                },
                fail => fail,
            }
        } else {
            Outcome::Fail { expected: TokenType::Symbol(Symbol::LeftCurly), at: next }
        },
        fail => fail,
    }
}

/// declaration: a type and a name; then, if `(` follows, a function
/// definition; else a variable declaration, with an initializer if `=`
/// follows, closed by `;`.
pub open spec fn declaration(ts: Seq<TokenView>, i: int) -> Outcome {
    match type_at(ts, i) {
        Some(k) => if is_at(ts, i + 1, TokenType::Var) {
            let name = literal(AstType::Identifier, ts, i + 1);
            let of_type = Some(AttributeView::Type(k));
            if symbol_at(ts, i + 2, Symbol::LeftParen) {
                function_rest(ts, i + 3, Tree::leaf(AstType::Function, of_type).with_child(name))
            } else if is_at(ts, i + 2, TokenType::Operator(Operator::Assign)) {
                match expression(ts, i + 3) {
                    Outcome::Done { tree, next } => closed_by(
                        ts,
                        Symbol::Semi,
                        Tree::leaf(AstType::Declaration, of_type).with_child(name).with_child(
                            tree,
                        ),
                        next,
                    ),
                    fail => fail,
                }
            } else {
                closed_by(
                    ts,
                    Symbol::Semi,
                    Tree::leaf(AstType::Declaration, of_type).with_child(name),
                    i + 2,
                )
            }
        } else {
            Outcome::Fail { expected: TokenType::Var, at: i + 1 }
        },
        None => Outcome::Fail { expected: TokenType::KeyWord(KeyWord::Int), at: i },
    }
}

/// How reading a program ends.
pub struct ProgramOutcome {
    /// The root, with every declaration that was read whole.
    pub root: Tree,
    /// Where reading ended: the length of the sequence, or the index at
    /// which the expected token was missing.
    pub end: int,
    /// The kind of token that was missing, if reading failed.
    pub expected: Option<TokenType>,
}

/// program: declarations up to the end of the sequence, each added to
/// `root`. Reading stops at the first declaration that fails; the
/// declarations before it stay in the root.
pub open spec fn program_rest(ts: Seq<TokenView>, i: int, root: Tree) -> ProgramOutcome
    decreases ts.len() - i,
{
    if kind_at(ts, i) is None {
        ProgramOutcome { root, end: i, expected: None }
    } else {
        match declaration(ts, i) {
            Outcome::Done { tree, next } => if moved(ts, i, next) {
                program_rest(ts, next, root.with_child(tree))
            } else {
                ProgramOutcome { root, end: i, expected: None }
            },
            Outcome::Fail { expected, at } => ProgramOutcome {
                root,
                end: at,
                expected: Some(expected),
            },
        }
    }
}

/// The program that a whole token sequence holds.
pub open spec fn program(ts: Seq<TokenView>) -> ProgramOutcome {
    program_rest(ts, 0, Tree::leaf(AstType::Program, None))
}

} // verus!

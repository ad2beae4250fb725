//! A tree keeps its source: written out in order, a tree that the grammar
//! reads from a run of tokens is that run of tokens, less the parentheses.
//!
//! Parentheses group, and leave no node; every other token of the source
//! has its place in the tree: as the kind of a node, as an attribute, or
//! between two children.

use crate::parser::ast::{AstType, AttributeView, Tree};
use crate::parser::grammar::{
    assignment, binary, binary_node, binary_rest, block_rest, condition, declaration, expression,
    expression_statement, function_rest, if_statement, infix_at, kind_at, lexeme_at, literal,
    operand, parameter, parameters, parameters_rest, prefix_at, primary, program, program_rest,
    return_statement, statement, type_at, unary, while_statement, Outcome, LEVELS,
};
use crate::parser::laws::{
    in_order, lemma_assignment, lemma_binary, lemma_binary_rest, lemma_block_rest,
    lemma_condition, lemma_declaration, lemma_expression, lemma_function_rest, lemma_operand,
    lemma_parameters_rest, lemma_primary, lemma_program, lemma_program_rest, lemma_statement,
    lemma_unary,
};
use crate::token::{KeyWord, Operator, Symbol, TokenType, TokenView};
use vstd::prelude::*;

verus! {

/// A token without its position: its kind, and its lexeme if it is an
/// identifier or a number.
pub struct Word {
    pub kind: TokenType,
    pub text: Seq<char>,
}

/// The word of a kind that carries no lexeme.
pub open spec fn mark(kind: TokenType) -> Word {
    Word { kind, text: Seq::empty() }
}

/// The word of the token at index `k`.
pub open spec fn word_at(ts: Seq<TokenView>, k: int) -> Word {
    if ts[k].kind.has_text() {
        Word { kind: ts[k].kind, text: lexeme_at(ts, k) }
    } else {
        mark(ts[k].kind)
    }
}

/// Whether `kind` is `(` or `)`.
pub open spec fn parenthesis(kind: TokenType) -> bool {
    kind == TokenType::Symbol(Symbol::LeftParen) || kind == TokenType::Symbol(Symbol::RightParen)
}

/// The token at index `k` as it shows in a tree: its word, or nothing for
/// a parenthesis.
pub open spec fn shown(ts: Seq<TokenView>, k: int) -> Seq<Word> {
    if parenthesis(ts[k].kind) {
        Seq::empty()
    } else {
        seq![word_at(ts, k)]
    }
}

/// The words of the tokens from index `i` up to index `j`, less the
/// parentheses.
pub open spec fn plain(ts: Seq<TokenView>, i: int, j: int) -> Seq<Word>
    decreases j - i,
{
    if 0 <= i < j <= ts.len() {
        plain(ts, i, j - 1) + shown(ts, j - 1)
    } else {
        Seq::empty()
    }
}

/// The words that a node puts before all its children.
pub open spec fn opening(t: Tree) -> Seq<Word> {
    match (t.kind, t.attribute) {
        (AstType::Identifier, Some(AttributeView::Literal(text))) => seq![
            Word { kind: TokenType::Var, text },
        ],
        (AstType::Number, Some(AttributeView::Literal(text))) => seq![
            Word { kind: TokenType::Number, text },
        ],
        (AstType::Unary, Some(AttributeView::Operator(op))) => seq![
            mark(TokenType::Operator(op)),
        ],
        (AstType::Declaration, Some(AttributeView::Type(k))) => seq![mark(TokenType::KeyWord(k))],
        (AstType::Function, Some(AttributeView::Type(k))) => seq![mark(TokenType::KeyWord(k))],
        (AstType::Parameter, Some(AttributeView::Type(k))) => seq![mark(TokenType::KeyWord(k))],
        (AstType::Block, _) => seq![mark(TokenType::Symbol(Symbol::LeftCurly))],
        (AstType::If, _) => seq![mark(TokenType::KeyWord(KeyWord::If))],
        (AstType::While, _) => seq![mark(TokenType::KeyWord(KeyWord::While))],
        (AstType::Return, _) => seq![mark(TokenType::KeyWord(KeyWord::Return))],
        _ => Seq::empty(),
    }
}

/// The words that a node of kind `kind` with attribute `attribute` puts
/// before its child at index `k`: the operator between two operands, `=`
/// before an initializer, `else` before the third child of an `if`, `,`
/// between parameters.
pub open spec fn before(kind: AstType, attribute: Option<AttributeView>, k: int) -> Seq<Word> {
    match (kind, attribute) {
        (AstType::Binary, Some(AttributeView::Operator(op))) => if k == 1 {
            seq![mark(TokenType::Operator(op))]
        } else {
            Seq::empty()
        },
        (AstType::Assign, _) => if k == 1 {
            seq![mark(TokenType::Operator(Operator::Assign))]
        } else {
            Seq::empty()
        },
        (AstType::Declaration, _) => if k == 1 {
            seq![mark(TokenType::Operator(Operator::Assign))]
        } else {
            Seq::empty()
        },
        (AstType::If, _) => if k == 2 {
            seq![mark(TokenType::KeyWord(KeyWord::Else))]
        } else {
            Seq::empty()
        },
        (AstType::Parameters, _) => if k >= 1 {
            seq![mark(TokenType::Symbol(Symbol::Comma))]
        } else {
            Seq::empty()
        },
        _ => Seq::empty(),
    }
}

/// The words that a node puts after all its children.
pub open spec fn closing(t: Tree) -> Seq<Word> {
    match t.kind {
        AstType::Block => seq![mark(TokenType::Symbol(Symbol::RightCurly))],
        AstType::Return | AstType::ExpressionStatement | AstType::Declaration => seq![
            mark(TokenType::Symbol(Symbol::Semi)),
        ],
        _ => Seq::empty(),
    }
}

/// The first `n` children of a node written out, each after the words that
/// the node puts before it.
pub open spec fn written_children(t: Tree, n: int) -> Seq<Word>
    decreases t, n,
{
    if 0 < n <= t.children.len() {
        written_children(t, n - 1) + before(t.kind, t.attribute, n - 1) + written(
            t.children[n - 1],
        )
    } else {
        Seq::empty()
    }
}

/// All children of a node written out.
pub open spec fn inner(t: Tree) -> Seq<Word> {
    written_children(t, t.children.len() as int)
}

/// A tree written out: the words in the order of the source, without
/// parentheses.
pub open spec fn written(t: Tree) -> Seq<Word>
    decreases t, t.children.len() + 1,
{
    opening(t) + written_children(t, t.children.len() as int) + closing(t)
}

/// Words of adjoining runs of tokens join.
pub proof fn lemma_plain_split(ts: Seq<TokenView>, i: int, j: int, k: int)
    requires
        0 <= i <= j <= k <= ts.len(),
    ensures
        plain(ts, i, k) == plain(ts, i, j) + plain(ts, j, k),
    decreases k - j,
{
    if j < k {
        lemma_plain_split(ts, i, j, k - 1);
        assert(plain(ts, i, k) =~= plain(ts, i, j) + plain(ts, j, k));
    } else {
        assert(plain(ts, i, k) =~= plain(ts, i, j) + plain(ts, j, k));
    }
}

/// The words of one token.
pub proof fn lemma_plain_one(ts: Seq<TokenView>, i: int)
    requires
        0 <= i < ts.len(),
    ensures
        plain(ts, i, i + 1) == shown(ts, i),
{
    assert(plain(ts, i, i) =~= Seq::empty());
    assert(plain(ts, i, i + 1) =~= shown(ts, i));
}

/// The words of a token and of the run after it.
pub proof fn lemma_plain_first(ts: Seq<TokenView>, i: int, j: int)
    requires
        0 <= i < j <= ts.len(),
    ensures
        plain(ts, i, j) == shown(ts, i) + plain(ts, i + 1, j),
{
    lemma_plain_split(ts, i, i + 1, j);
    lemma_plain_one(ts, i);
}

/// A child added to a node is written after the children the node had.
pub proof fn lemma_inner_with_child(t: Tree, c: Tree)
    ensures
        inner(t.with_child(c)) == inner(t) + before(t.kind, t.attribute, t.children.len() as int)
            + written(c),
{
    let u = t.with_child(c);
    lemma_written_children_prefix(t, u, t.children.len() as int);
    assert(u.children[t.children.len() as int] == c);
}

proof fn lemma_written_children_prefix(t: Tree, u: Tree, n: int)
    requires
        t.kind == u.kind,
        t.attribute == u.attribute,
        0 <= n <= t.children.len() <= u.children.len(),
        forall|k: int| 0 <= k < n ==> t.children[k] == u.children[k],
    ensures
        written_children(t, n) == written_children(u, n),
    decreases n,
{
    if n > 0 {
        lemma_written_children_prefix(t, u, n - 1);
    }
}

/// A node without children is written as what it puts first and last.
pub proof fn lemma_written_leaf(kind: AstType, attribute: Option<AttributeView>)
    ensures
        inner(Tree::leaf(kind, attribute)) == Seq::<Word>::empty(),
{
}

/// Whether the tree of `outcome`, read from index `i`, written out, is the
/// tokens it was read from, less the parentheses.
pub open spec fn keeps_source(ts: Seq<TokenView>, i: int, outcome: Outcome) -> bool {
    outcome matches Outcome::Done { tree, next } ==> written(tree) == plain(ts, i, next)
}

/// Whether the tree of `outcome`, the rest of an operation read from index
/// `i` after the operand `left`, written out, is `left` written out and
/// then the tokens that were read.
pub open spec fn extends_source(ts: Seq<TokenView>, i: int, left: Tree, outcome: Outcome) -> bool {
    outcome matches Outcome::Done { tree, next } ==> written(tree) == written(left) + plain(
        ts,
        i,
        next,
    )
}

proof fn lemma_written_primary(ts: Seq<TokenView>, i: int)
    requires
        0 <= i <= ts.len(),
    ensures
        keeps_source(ts, i, primary(ts, i)),
    decreases ts.len() - i, 0int,
{
    lemma_primary(ts, i);
    match primary(ts, i) {
        Outcome::Done { tree, next } => {
            lemma_plain_first(ts, i, next);
            if kind_at(ts, i) == Some(TokenType::Symbol(Symbol::LeftParen)) {
                lemma_written_expression(ts, i + 1);
                lemma_expression(ts, i + 1);
                assert(plain(ts, i + 1, next) =~= plain(ts, i + 1, next - 1));
                assert(written(tree) =~= plain(ts, i, next));
            } else {
                assert(plain(ts, i + 1, next) =~= Seq::empty());
                assert(written(tree) =~= plain(ts, i, next));
            }
        },
        _ => {},
    }
}

proof fn lemma_written_unary(ts: Seq<TokenView>, i: int)
    requires
        0 <= i <= ts.len(),
    ensures
        keeps_source(ts, i, unary(ts, i)),
    decreases ts.len() - i, 1int,
{
    match prefix_at(ts, i) {
        Some(op) => {
            lemma_written_unary(ts, i + 1);
            lemma_unary(ts, i + 1);
            match unary(ts, i + 1) {
                Outcome::Done { tree, next } => {
                    let node = Tree::leaf(AstType::Unary, Some(AttributeView::Operator(op)));
                    lemma_inner_with_child(node, tree);
                    lemma_plain_first(ts, i, next);
                    assert(written(node.with_child(tree)) =~= plain(ts, i, next));
                },
                _ => {},
            }
        },
        None => {
            lemma_written_primary(ts, i);
        },
    }
}

proof fn lemma_written_operand(ts: Seq<TokenView>, i: int, level: nat)
    requires
        0 <= i <= ts.len(),
    ensures
        keeps_source(ts, i, operand(ts, i, level)),
    decreases ts.len() - i, 2 * level + 2,
{
    if level == 0 {
        lemma_written_unary(ts, i);
    } else {
        lemma_written_binary(ts, i, (level - 1) as nat);
    }
}

proof fn lemma_written_binary(ts: Seq<TokenView>, i: int, level: nat)
    requires
        0 <= i <= ts.len(),
    ensures
        keeps_source(ts, i, binary(ts, i, level)),
    decreases ts.len() - i, 2 * level + 3,
{
    lemma_written_operand(ts, i, level);
    lemma_operand(ts, i, level);
    match operand(ts, i, level) {
        Outcome::Done { tree, next } => {
            lemma_written_binary_rest(ts, next, tree, level);
            lemma_binary_rest(ts, next, tree, level);
            match binary_rest(ts, next, tree, level) {
                Outcome::Done { tree: whole, next: end } => {
                    lemma_plain_split(ts, i, next, end);
                },
                _ => {},
            }
        },
        _ => {},
    }
}

proof fn lemma_written_binary_rest(ts: Seq<TokenView>, i: int, left: Tree, level: nat)
    requires
        0 <= i <= ts.len(),
    ensures
        extends_source(ts, i, left, binary_rest(ts, i, left, level)),
    decreases ts.len() - i, 0int,
{
    match infix_at(ts, i, level) {
        Some(op) => {
            lemma_written_operand(ts, i + 1, level);
            lemma_operand(ts, i + 1, level);
            match operand(ts, i + 1, level) {
                Outcome::Done { tree, next } => {
                    let joined = binary_node(op, left, tree);
                    let node = Tree::leaf(AstType::Binary, Some(AttributeView::Operator(op)));
                    lemma_inner_with_child(node, left);
                    lemma_inner_with_child(node.with_child(left), tree);
                    lemma_plain_first(ts, i, next);
                    assert(written(joined) =~= written(left) + plain(ts, i, next));
                    lemma_written_binary_rest(ts, next, joined, level);
                    lemma_binary_rest(ts, next, joined, level);
                    match binary_rest(ts, next, joined, level) {
                        Outcome::Done { tree: whole, next: end } => {
                            lemma_plain_split(ts, i, next, end);
                            assert(written(whole) =~= written(left) + plain(ts, i, end));
                        },
                        _ => {},
                    }
                },
                _ => {},
            }
        },
        None => {
            assert(plain(ts, i, i) =~= Seq::empty());
            assert(written(left) =~= written(left) + plain(ts, i, i));
        },
    }
}

proof fn lemma_written_assignment(ts: Seq<TokenView>, i: int)
    requires
        0 <= i <= ts.len(),
    ensures
        keeps_source(ts, i, assignment(ts, i)),
    decreases ts.len() - i, 2 * LEVELS + 3,
{
    lemma_written_binary(ts, i, (LEVELS - 1) as nat);
    lemma_binary(ts, i, (LEVELS - 1) as nat);
    match binary(ts, i, (LEVELS - 1) as nat) {
        Outcome::Done { tree, next } => {
            if kind_at(ts, next) == Some(TokenType::Operator(Operator::Assign)) {
                lemma_written_assignment(ts, next + 1);
                lemma_assignment(ts, next + 1);
                match assignment(ts, next + 1) {
                    Outcome::Done { tree: value, next: end } => {
                        let node = Tree::leaf(
                            AstType::Assign,
                            Some(AttributeView::Operator(Operator::Assign)),
                        );
                        lemma_inner_with_child(node, tree);
                        lemma_inner_with_child(node.with_child(tree), value);
                        lemma_plain_split(ts, i, next, end);
                        lemma_plain_first(ts, next, end);
                        assert(written(node.with_child(tree).with_child(value)) =~= plain(
                            ts,
                            i,
                            end,
                        ));
                    },
                    _ => {},
                }
            }
        },
        _ => {},
    }
}

/// An expression keeps its source: written out, its tree is the tokens it
/// was read from, less the parentheses.
pub proof fn lemma_written_expression(ts: Seq<TokenView>, i: int)
    requires
        0 <= i <= ts.len(),
    ensures
        keeps_source(ts, i, expression(ts, i)),
    decreases ts.len() - i, 2 * LEVELS + 4,
{
    lemma_written_assignment(ts, i);
}

/// Whether the tree of `outcome`, the rest of a list read from index `i`
/// into the node `list`, is `list` with more children, and these written
/// out, with `last` after them, are the tokens that were read.
pub open spec fn fills_source(
    ts: Seq<TokenView>,
    i: int,
    list: Tree,
    last: Seq<Word>,
    outcome: Outcome,
) -> bool {
    outcome matches Outcome::Done { tree, next } ==> {
        &&& tree.kind == list.kind
        &&& tree.attribute == list.attribute
        &&& list.children.len() <= tree.children.len()
        &&& inner(tree) + last == inner(list) + plain(ts, i, next)
    }
}

proof fn lemma_written_condition(ts: Seq<TokenView>, i: int)
    requires
        0 <= i <= ts.len(),
    ensures
        keeps_source(ts, i, condition(ts, i)),
{
    lemma_condition(ts, i);
    match condition(ts, i) {
        Outcome::Done { tree, next } => {
            lemma_written_expression(ts, i + 1);
            lemma_expression(ts, i + 1);
            lemma_plain_first(ts, i, next);
            assert(plain(ts, i + 1, next) =~= plain(ts, i + 1, next - 1));
        },
        _ => {},
    }
}

proof fn lemma_written_return(ts: Seq<TokenView>, i: int)
    requires
        0 <= i < ts.len(),
        kind_at(ts, i) == Some(TokenType::KeyWord(KeyWord::Return)),
    ensures
        keeps_source(ts, i, return_statement(ts, i)),
{
    let node = Tree::leaf(AstType::Return, None);
    if kind_at(ts, i + 1) == Some(TokenType::Symbol(Symbol::Semi)) {
        lemma_plain_first(ts, i, i + 2);
        lemma_plain_one(ts, i + 1);
        assert(written(node) =~= plain(ts, i, i + 2));
    } else {
        lemma_written_expression(ts, i + 1);
        lemma_expression(ts, i + 1);
        match expression(ts, i + 1) {
            Outcome::Done { tree: value, next: end } => {
                if kind_at(ts, end) == Some(TokenType::Symbol(Symbol::Semi)) {
                    lemma_inner_with_child(node, value);
                    lemma_plain_first(ts, i, end + 1);
                    assert(plain(ts, i + 1, end + 1) =~= plain(ts, i + 1, end) + shown(ts, end));
                    assert(written(node.with_child(value)) =~= plain(ts, i, end + 1));
                }
            },
            _ => {},
        }
    }
}

proof fn lemma_written_expression_statement(ts: Seq<TokenView>, i: int)
    requires
        0 <= i <= ts.len(),
    ensures
        keeps_source(ts, i, expression_statement(ts, i)),
{
    lemma_written_expression(ts, i);
    lemma_expression(ts, i);
    match expression(ts, i) {
        Outcome::Done { tree: value, next: end } => {
            let node = Tree::leaf(AstType::ExpressionStatement, None);
            lemma_inner_with_child(node, value);
            if kind_at(ts, end) == Some(TokenType::Symbol(Symbol::Semi)) {
                assert(plain(ts, i, end + 1) =~= plain(ts, i, end) + shown(ts, end));
                assert(written(node.with_child(value)) =~= plain(ts, i, end + 1));
            }
        },
        _ => {},
    }
}

/// A statement keeps its source: written out, its tree is the tokens it
/// was read from, less the parentheses.
pub proof fn lemma_written_statement(ts: Seq<TokenView>, i: int)
    requires
        0 <= i <= ts.len(),
    ensures
        keeps_source(ts, i, statement(ts, i)),
    decreases ts.len() - i, 1int,
{
    match kind_at(ts, i) {
        Some(TokenType::KeyWord(KeyWord::If)) => {
            lemma_written_if(ts, i);
        },
        Some(TokenType::KeyWord(KeyWord::While)) => {
            lemma_written_while(ts, i);
        },
        Some(TokenType::KeyWord(KeyWord::Return)) => {
            lemma_written_return(ts, i);
        },
        Some(TokenType::Symbol(Symbol::LeftCurly)) => {
            let block = Tree::leaf(AstType::Block, None);
            lemma_written_block_rest(ts, i + 1, block);
            lemma_block_rest(ts, i + 1, block);
            match block_rest(ts, i + 1, block) {
                Outcome::Done { tree, next } => {
                    lemma_plain_first(ts, i, next);
                    assert(written(tree) =~= plain(ts, i, next));
                },
                _ => {},
            }
        },
        _ => {
            lemma_written_expression_statement(ts, i);
        },
    }
}

proof fn lemma_written_if(ts: Seq<TokenView>, i: int)
    requires
        0 <= i < ts.len(),
        kind_at(ts, i) == Some(TokenType::KeyWord(KeyWord::If)),
    ensures
        keeps_source(ts, i, if_statement(ts, i)),
    decreases ts.len() - i, 0int,
{
    lemma_written_condition(ts, i + 1);
    lemma_condition(ts, i + 1);
    match condition(ts, i + 1) {
        Outcome::Done { tree: cond, next } => {
            lemma_written_statement(ts, next);
            lemma_statement(ts, next);
            match statement(ts, next) {
                Outcome::Done { tree: then, next: after } => {
                    let node = Tree::leaf(AstType::If, None);
                    let both = node.with_child(cond).with_child(then);
                    lemma_inner_with_child(node, cond);
                    lemma_inner_with_child(node.with_child(cond), then);
                    lemma_plain_first(ts, i, after);
                    lemma_plain_split(ts, i + 1, next, after);
                    assert(written(both) =~= plain(ts, i, after));
                    if kind_at(ts, after) == Some(TokenType::KeyWord(KeyWord::Else)) {
                        lemma_written_statement(ts, after + 1);
                        lemma_statement(ts, after + 1);
                        match statement(ts, after + 1) {
                            Outcome::Done { tree: other, next: end } => {
                                lemma_inner_with_child(both, other);
                                lemma_plain_split(ts, i, after, end);
                                lemma_plain_first(ts, after, end);
                                assert(written(both.with_child(other)) =~= plain(ts, i, end));
                            },
                            _ => {},
                        }
                    }
                },
                _ => {},
            }
        },
        _ => {},
    }
}

proof fn lemma_written_while(ts: Seq<TokenView>, i: int)
    requires
        0 <= i < ts.len(),
        kind_at(ts, i) == Some(TokenType::KeyWord(KeyWord::While)),
    ensures
        keeps_source(ts, i, while_statement(ts, i)),
    decreases ts.len() - i, 0int,
{
    lemma_written_condition(ts, i + 1);
    lemma_condition(ts, i + 1);
    match condition(ts, i + 1) {
        Outcome::Done { tree: cond, next } => {
            lemma_written_statement(ts, next);
            lemma_statement(ts, next);
            match statement(ts, next) {
                Outcome::Done { tree: body, next: end } => {
                    let node = Tree::leaf(AstType::While, None);
                    lemma_inner_with_child(node, cond);
                    lemma_inner_with_child(node.with_child(cond), body);
                    lemma_plain_first(ts, i, end);
                    lemma_plain_split(ts, i + 1, next, end);
                    assert(written(node.with_child(cond).with_child(body)) =~= plain(ts, i, end));
                },
                _ => {},
            }
        },
        _ => {},
    }
}

proof fn lemma_written_block_rest(ts: Seq<TokenView>, i: int, block: Tree)
    requires
        0 <= i <= ts.len(),
        block.kind == AstType::Block,
    ensures
        fills_source(
            ts,
            i,
            block,
            seq![mark(TokenType::Symbol(Symbol::RightCurly))],
            block_rest(ts, i, block),
        ),
    decreases ts.len() - i, 2int,
{
    let last = seq![mark(TokenType::Symbol(Symbol::RightCurly))];
    if kind_at(ts, i) == Some(TokenType::Symbol(Symbol::RightCurly)) {
        lemma_plain_one(ts, i);
    } else if kind_at(ts, i) is Some {
        lemma_written_statement(ts, i);
        lemma_statement(ts, i);
        match statement(ts, i) {
            Outcome::Done { tree, next } => {
                let more = block.with_child(tree);
                lemma_inner_with_child(block, tree);
                lemma_written_block_rest(ts, next, more);
                lemma_block_rest(ts, next, more);
                match block_rest(ts, next, more) {
                    Outcome::Done { tree: whole, next: end } => {
                        lemma_plain_split(ts, i, next, end);
                        assert(inner(whole) + last =~= inner(block) + plain(ts, i, end));
                    },
                    _ => {},
                }
            },
            _ => {},
        }
    }
}

proof fn lemma_written_parameter(ts: Seq<TokenView>, i: int)
    requires
        0 <= i <= ts.len(),
    ensures
        keeps_source(ts, i, parameter(ts, i)),
{
    match parameter(ts, i) {
        Outcome::Done { tree, next } => {
            let k = type_at(ts, i)->0;
            let node = Tree::leaf(AstType::Parameter, Some(AttributeView::Type(k)));
            let name = literal(AstType::Identifier, ts, i + 1);
            lemma_inner_with_child(node, name);
            lemma_plain_first(ts, i, next);
            lemma_plain_one(ts, i + 1);
            assert(written(name) =~= plain(ts, i + 1, i + 2));
            assert(written(tree) =~= plain(ts, i, next));
        },
        _ => {},
    }
}

proof fn lemma_written_parameters_rest(ts: Seq<TokenView>, i: int, list: Tree)
    requires
        0 <= i <= ts.len(),
        list.kind == AstType::Parameters,
        list.children.len() >= 1,
    ensures
        fills_source(ts, i, list, Seq::empty(), parameters_rest(ts, i, list)),
    decreases ts.len() - i,
{
    let last = Seq::<Word>::empty();
    if kind_at(ts, i) == Some(TokenType::Symbol(Symbol::Comma)) {
        lemma_written_parameter(ts, i + 1);
        match parameter(ts, i + 1) {
            Outcome::Done { tree, next } => {
                let more = list.with_child(tree);
                lemma_inner_with_child(list, tree);
                lemma_written_parameters_rest(ts, next, more);
                lemma_parameters_rest(ts, next, more);
                match parameters_rest(ts, next, more) {
                    Outcome::Done { tree: whole, next: end } => {
                        lemma_plain_split(ts, i, next, end);
                        lemma_plain_first(ts, i, next);
                        assert(inner(whole) + last =~= inner(list) + plain(ts, i, end));
                    },
                    _ => {},
                }
            },
            _ => {},
        }
    } else if kind_at(ts, i) == Some(TokenType::Symbol(Symbol::RightParen)) {
        lemma_plain_one(ts, i);
        assert(inner(list) + last =~= inner(list) + plain(ts, i, i + 1));
    }
}

proof fn lemma_written_parameters(ts: Seq<TokenView>, i: int)
    requires
        0 <= i <= ts.len(),
    ensures
        keeps_source(ts, i, parameters(ts, i)),
{
    let list = Tree::leaf(AstType::Parameters, None);
    if kind_at(ts, i) == Some(TokenType::Symbol(Symbol::RightParen)) {
        lemma_plain_one(ts, i);
        assert(written(list) =~= plain(ts, i, i + 1));
    } else {
        lemma_written_parameter(ts, i);
        match parameter(ts, i) {
            Outcome::Done { tree, next } => {
                let one = list.with_child(tree);
                lemma_inner_with_child(list, tree);
                lemma_written_parameters_rest(ts, next, one);
                lemma_parameters_rest(ts, next, one);
                match parameters_rest(ts, next, one) {
                    Outcome::Done { tree: whole, next: end } => {
                        lemma_plain_split(ts, i, next, end);
                        assert(written(whole) =~= plain(ts, i, end));
                    },
                    _ => {},
                }
            },
            _ => {},
        }
    }
}

proof fn lemma_written_function_rest(ts: Seq<TokenView>, i: int, node: Tree)
    requires
        0 <= i <= ts.len(),
        node.kind == AstType::Function,
    ensures
        fills_source(ts, i, node, Seq::empty(), function_rest(ts, i, node)),
{
    lemma_written_parameters(ts, i);
    lemma_function_rest(ts, i, node);
    match parameters(ts, i) {
        Outcome::Done { tree: list, next: brace } => {
            if kind_at(ts, brace) == Some(TokenType::Symbol(Symbol::LeftCurly)) {
                let block = Tree::leaf(AstType::Block, None);
                lemma_written_block_rest(ts, brace + 1, block);
                lemma_block_rest(ts, brace + 1, block);
                match block_rest(ts, brace + 1, block) {
                    Outcome::Done { tree: body, next: end } => {
                        lemma_inner_with_child(node, list);
                        lemma_inner_with_child(node.with_child(list), body);
                        lemma_plain_first(ts, brace, end);
                        assert(written(body) =~= plain(ts, brace, end));
                        assert(i <= brace) by {
                            lemma_progress_parameters(ts, i);
                        }
                        lemma_plain_split(ts, i, brace, end);
                        assert(inner(node.with_child(list).with_child(body)) + Seq::<Word>::empty()
                            =~= inner(node) + plain(ts, i, end));
                    },
                    _ => {},
                }
            }
        },
        _ => {},
    }
}

proof fn lemma_progress_parameters(ts: Seq<TokenView>, i: int)
    requires
        0 <= i <= ts.len(),
    ensures
        in_order(ts, i, parameters(ts, i)),
{
    match parameter(ts, i) {
        Outcome::Done { tree, next } => {
            lemma_parameters_rest(
                ts,
                next,
                Tree::leaf(AstType::Parameters, None).with_child(tree),
            );
        },
        _ => {},
    }
}

proof fn lemma_written_name(ts: Seq<TokenView>, i: int)
    requires
        0 <= i < ts.len(),
        kind_at(ts, i) == Some(TokenType::Var),
    ensures
        written(literal(AstType::Identifier, ts, i)) == plain(ts, i, i + 1),
{
    lemma_plain_one(ts, i);
    assert(written(literal(AstType::Identifier, ts, i)) =~= plain(ts, i, i + 1));
}

/// A declaration keeps its source: written out, its tree is the tokens it
/// was read from, less the parentheses.
pub proof fn lemma_written_declaration(ts: Seq<TokenView>, i: int)
    requires
        0 <= i <= ts.len(),
    ensures
        keeps_source(ts, i, declaration(ts, i)),
{
    lemma_declaration(ts, i);
    match declaration(ts, i) {
        Outcome::Done { tree, next } => {
            let k = type_at(ts, i)->0;
            let of_type = Some(AttributeView::Type(k));
            let name = literal(AstType::Identifier, ts, i + 1);
            lemma_written_name(ts, i + 1);
            lemma_plain_one(ts, i);
            lemma_plain_split(ts, i, i + 1, i + 2);
            if kind_at(ts, i + 2) == Some(TokenType::Symbol(Symbol::LeftParen)) {
                let head = Tree::leaf(AstType::Function, of_type);
                lemma_inner_with_child(head, name);
                lemma_written_function_rest(ts, i + 3, head.with_child(name));
                lemma_function_rest(ts, i + 3, head.with_child(name));
                lemma_plain_one(ts, i + 2);
                lemma_plain_split(ts, i, i + 2, i + 3);
                lemma_plain_split(ts, i, i + 3, next);
                assert(written(tree) =~= plain(ts, i, next));
            } else if kind_at(ts, i + 2) == Some(TokenType::Operator(Operator::Assign)) {
                let head = Tree::leaf(AstType::Declaration, of_type);
                lemma_inner_with_child(head, name);
                lemma_written_expression(ts, i + 3);
                lemma_expression(ts, i + 3);
                match expression(ts, i + 3) {
                    Outcome::Done { tree: value, next: end } => {
                        lemma_inner_with_child(head.with_child(name), value);
                        lemma_plain_one(ts, i + 2);
                        lemma_plain_split(ts, i, i + 2, i + 3);
                        lemma_plain_split(ts, i, i + 3, end);
                        assert(plain(ts, i, next) =~= plain(ts, i, end) + shown(ts, end));
                        assert(written(tree) =~= plain(ts, i, next));
                    },
                    _ => {},
                }
            } else {
                let head = Tree::leaf(AstType::Declaration, of_type);
                lemma_inner_with_child(head, name);
                assert(plain(ts, i, next) =~= plain(ts, i, i + 2) + shown(ts, i + 2));
                assert(written(tree) =~= plain(ts, i, next));
            }
        },
        _ => {},
    }
}

/// Reading a program adds to the root only what the tokens hold: whether or
/// not reading fails, the children that the root gains, written out, are
/// the tokens from index `i` up to the end of the last declaration that was
/// read whole; that is the end of the tokens where reading does not fail.
pub proof fn lemma_written_program_rest(ts: Seq<TokenView>, i: int, root: Tree) -> (read: int)
    requires
        0 <= i <= ts.len(),
        root.kind == AstType::Program,
    ensures
        i <= read <= program_rest(ts, i, root).end <= ts.len(),
        program_rest(ts, i, root).expected is None ==> read == ts.len(),
        inner(program_rest(ts, i, root).root) == inner(root) + plain(ts, i, read),
    decreases ts.len() - i,
{
    lemma_program_rest(ts, i, root);
    if kind_at(ts, i) is Some {
        lemma_declaration(ts, i);
        lemma_written_declaration(ts, i);
        match declaration(ts, i) {
            Outcome::Done { tree, next } => {
                let more = root.with_child(tree);
                lemma_inner_with_child(root, tree);
                let read = lemma_written_program_rest(ts, next, more);
                lemma_plain_split(ts, i, next, read);
                assert(inner(program_rest(ts, i, root).root) =~= inner(root) + plain(ts, i, read));
                read
            },
            _ => {
                assert(inner(root) =~= inner(root) + plain(ts, i, i));
                i
            },
        }
    } else {
        assert(inner(root) =~= inner(root) + plain(ts, i, i));
        i
    }
}

/// A program keeps its source. Where a whole token sequence is read without
/// failure, the tree written out is the token sequence, less the
/// parentheses: every token is in the tree, in the order of the source, and
/// the tree holds nothing else.
pub proof fn lemma_written_program(ts: Seq<TokenView>)
    requires
        program(ts).expected is None,
    ensures
        written(program(ts).root) == plain(ts, 0, ts.len() as int),
{
    let root = Tree::leaf(AstType::Program, None);
    let read = lemma_written_program_rest(ts, 0, root);
    lemma_program(ts);
    assert(written(program(ts).root) =~= plain(ts, 0, ts.len() as int));
}

} // verus!

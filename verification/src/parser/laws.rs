//! What follows from the grammar, for every token sequence.

use crate::parser::ast::{AstType, AttributeView, Tree};
use crate::parser::grammar::{
    assignment, binary, binary_node, binary_rest, block_rest, condition, declaration, expression,
    function_rest, if_statement, infix_at, literal, moved, operand, parameter, parameters,
    parameters_rest, primary, program, program_rest, statement, type_at, unary, while_statement,
    Outcome, LEVELS,
};
use crate::token::TokenView;
use vstd::prelude::*;

verus! {

/// Whether `outcome`, read from index `i`, is in order: a tree covers at
/// least one token and ends inside the sequence; a failure is at `i` or
/// after it, at a token or at the end of the sequence.
pub open spec fn in_order(ts: Seq<TokenView>, i: int, outcome: Outcome) -> bool {
    match outcome {
        Outcome::Done { tree, next } => moved(ts, i, next),
        Outcome::Fail { expected, at } => i <= at <= ts.len(),
    }
}

/// Whether `outcome`, the rest of a list read from index `i`, is in order:
/// it ends at `i` or after it, inside the sequence.
pub open spec fn rest_in_order(ts: Seq<TokenView>, i: int, outcome: Outcome) -> bool {
    match outcome {
        Outcome::Done { tree, next } => i <= next <= ts.len(),
        Outcome::Fail { expected, at } => i <= at <= ts.len(),
    }
}

/// A primary is read in order.
pub proof fn lemma_primary(ts: Seq<TokenView>, i: int)
    requires
        0 <= i <= ts.len(),
    ensures
        in_order(ts, i, primary(ts, i)),
    decreases ts.len() - i, 0int,
{
    if i < ts.len() {
        lemma_expression(ts, i + 1);
    }
}

/// A unary is read in order.
pub proof fn lemma_unary(ts: Seq<TokenView>, i: int)
    requires
        0 <= i <= ts.len(),
    ensures
        in_order(ts, i, unary(ts, i)),
    decreases ts.len() - i, 1int,
{
    if i < ts.len() {
        lemma_unary(ts, i + 1);
    }
    lemma_primary(ts, i);
}

/// An operand is read in order.
pub proof fn lemma_operand(ts: Seq<TokenView>, i: int, level: nat)
    requires
        0 <= i <= ts.len(),
    ensures
        in_order(ts, i, operand(ts, i, level)),
    decreases ts.len() - i, 2 * level + 2,
{
    if level == 0 {
        lemma_unary(ts, i);
    } else {
        lemma_binary(ts, i, (level - 1) as nat);
    }
}

/// A binary operation is read in order.
pub proof fn lemma_binary(ts: Seq<TokenView>, i: int, level: nat)
    requires
        0 <= i <= ts.len(),
    ensures
        in_order(ts, i, binary(ts, i, level)),
    decreases ts.len() - i, 2 * level + 3,
{
    lemma_operand(ts, i, level);
    match operand(ts, i, level) {
        Outcome::Done { tree, next } => {
            lemma_binary_rest(ts, next, tree, level);
        },
        _ => {},
    }
}

/// What follows an operand ends at or after the index it is read from.
pub proof fn lemma_binary_rest(ts: Seq<TokenView>, i: int, left: Tree, level: nat)
    requires
        0 <= i <= ts.len(),
    ensures
        rest_in_order(ts, i, binary_rest(ts, i, left, level)),
    decreases ts.len() - i, 0int,
{
    if i < ts.len() {
        lemma_operand(ts, i + 1, level);
        match operand(ts, i + 1, level) {
            Outcome::Done { tree, next } => {
                match infix_at(ts, i, level) {
                    Some(op) => {
                        lemma_binary_rest(
                            ts,
                            next,
                            binary_node(op, left, tree),
                            level,
                        );
                    },
                    None => {},
                }
            },
            _ => {},
        }
    }
}

/// An assignment is read in order.
pub proof fn lemma_assignment(ts: Seq<TokenView>, i: int)
    requires
        0 <= i <= ts.len(),
    ensures
        in_order(ts, i, assignment(ts, i)),
    decreases ts.len() - i, 2 * LEVELS + 3,
{
    lemma_binary(ts, i, (LEVELS - 1) as nat);
    match binary(ts, i, (LEVELS - 1) as nat) {
        Outcome::Done { tree, next } => {
            if next < ts.len() {
                lemma_assignment(ts, next + 1);
            }
        },
        _ => {},
    }
}

/// An expression that is read covers at least one token and ends inside
/// the sequence; one that fails, fails at a token it did not skip.
pub proof fn lemma_expression(ts: Seq<TokenView>, i: int)
    requires
        0 <= i <= ts.len(),
    ensures
        in_order(ts, i, expression(ts, i)),
    decreases ts.len() - i, 2 * LEVELS + 4,
{
    lemma_assignment(ts, i);
}

/// A condition is read in order.
pub proof fn lemma_condition(ts: Seq<TokenView>, i: int)
    requires
        0 <= i <= ts.len(),
    ensures
        in_order(ts, i, condition(ts, i)),
{
    if i < ts.len() {
        lemma_expression(ts, i + 1);
    }
}

/// A statement that is read covers at least one token and ends inside the
/// sequence; one that fails, fails at a token it did not skip.
pub proof fn lemma_statement(ts: Seq<TokenView>, i: int)
    requires
        0 <= i <= ts.len(),
    ensures
        in_order(ts, i, statement(ts, i)),
    decreases ts.len() - i, 1int,
{
    lemma_expression(ts, i);
    if i < ts.len() {
        lemma_if_statement(ts, i);
        lemma_while_statement(ts, i);
        lemma_expression(ts, i + 1);
        lemma_block_rest(ts, i + 1, Tree::leaf(AstType::Block, None));
    }
}

/// An `if` is read in order.
pub proof fn lemma_if_statement(ts: Seq<TokenView>, i: int)
    requires
        0 <= i < ts.len(),
    ensures
        in_order(ts, i, if_statement(ts, i)),
    decreases ts.len() - i, 0int,
{
    lemma_condition(ts, i + 1);
    match condition(ts, i + 1) {
        Outcome::Done { tree, next } => {
            lemma_statement(ts, next);
            match statement(ts, next) {
                Outcome::Done { tree: then, next: after } => {
                    if after < ts.len() {
                        lemma_statement(ts, after + 1);
                    }
                },
                _ => {},
            }
        },
        _ => {},
    }
}

/// A `while` is read in order.
pub proof fn lemma_while_statement(ts: Seq<TokenView>, i: int)
    requires
        0 <= i < ts.len(),
    ensures
        in_order(ts, i, while_statement(ts, i)),
    decreases ts.len() - i, 0int,
{
    lemma_condition(ts, i + 1);
    match condition(ts, i + 1) {
        Outcome::Done { tree, next } => {
            lemma_statement(ts, next);
        },
        _ => {},
    }
}

/// The rest of a block is read in order: it covers at least its `}`.
pub proof fn lemma_block_rest(ts: Seq<TokenView>, i: int, block: Tree)
    requires
        0 <= i <= ts.len(),
    ensures
        in_order(ts, i, block_rest(ts, i, block)),
    decreases ts.len() - i, 2int,
{
    if i < ts.len() {
        lemma_statement(ts, i);
        match statement(ts, i) {
            Outcome::Done { tree, next } => {
                lemma_block_rest(ts, next, block.with_child(tree));
            },
            _ => {},
        }
    }
}

/// The rest of a parameter list is read in order: it covers at least its
/// `)`.
pub proof fn lemma_parameters_rest(ts: Seq<TokenView>, i: int, list: Tree)
    requires
        0 <= i <= ts.len(),
    ensures
        in_order(ts, i, parameters_rest(ts, i, list)),
    decreases ts.len() - i,
{
    if i < ts.len() {
        match parameter(ts, i + 1) {
            Outcome::Done { tree, next } => {
                lemma_parameters_rest(ts, next, list.with_child(tree));
            },
            _ => {},
        }
    }
}

/// The rest of a function definition is read in order.
pub proof fn lemma_function_rest(ts: Seq<TokenView>, i: int, node: Tree)
    requires
        0 <= i <= ts.len(),
    ensures
        in_order(ts, i, function_rest(ts, i, node)),
{
    match parameter(ts, i) {
        Outcome::Done { tree, next } => {
            lemma_parameters_rest(
                ts,
                next,
                Tree::leaf(AstType::Parameters, None).with_child(tree),
            );
        },
        _ => {},
    }
    match parameters(ts, i) {
        Outcome::Done { tree, next } => {
            if next < ts.len() {
                lemma_block_rest(ts, next + 1, Tree::leaf(AstType::Block, None));
            }
        },
        _ => {},
    }
}

/// A declaration that is read covers at least one token and ends inside
/// the sequence; one that fails, fails at a token it did not skip.
pub proof fn lemma_declaration(ts: Seq<TokenView>, i: int)
    requires
        0 <= i <= ts.len(),
    ensures
        in_order(ts, i, declaration(ts, i)),
{
    if i + 2 < ts.len() {
        lemma_expression(ts, i + 3);
        match type_at(ts, i) {
            Some(k) => {
                lemma_function_rest(
                    ts,
                    i + 3,
                    Tree::leaf(
                        AstType::Function,
                        Some(AttributeView::Type(k)),
                    ).with_child(literal(AstType::Identifier, ts, i + 1)),
                );
            },
            None => {},
        }
    }
}

/// A program is read to the end or to its first failure. Read to the end,
/// every token has been used and the root has gained one child for each
/// declaration; stopped by a failure, reading ends at the token that did
/// not fit, which it did not skip. Either way the root stays a root and
/// keeps the children it had, in their order.
pub proof fn lemma_program_rest(ts: Seq<TokenView>, i: int, root: Tree)
    requires
        0 <= i <= ts.len(),
    ensures
        program_rest(ts, i, root).expected is None ==> program_rest(ts, i, root).end == ts.len(),
        i <= program_rest(ts, i, root).end <= ts.len(),
        program_rest(ts, i, root).root.kind == root.kind,
        program_rest(ts, i, root).root.attribute == root.attribute,
        root.children.is_prefix_of(program_rest(ts, i, root).root.children),
    decreases ts.len() - i,
{
    if i < ts.len() {
        lemma_declaration(ts, i);
        match declaration(ts, i) {
            Outcome::Done { tree, next } => {
                lemma_program_rest(ts, next, root.with_child(tree));
                assert(root.children.is_prefix_of(root.with_child(tree).children));
            },
            _ => {},
        }
    }
}

/// The tree of a whole token sequence is rooted at a `Program` node; where
/// no token is amiss, every token has been read.
pub proof fn lemma_program(ts: Seq<TokenView>)
    ensures
        program(ts).root.kind == AstType::Program,
        program(ts).root.attribute is None,
        program(ts).expected is None ==> program(ts).end == ts.len(),
        0 <= program(ts).end <= ts.len(),
{
    lemma_program_rest(ts, 0, Tree::leaf(AstType::Program, None));
}

} // verus!

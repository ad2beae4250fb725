//! The syntax tree: nodes that own their children, in source order.

use crate::token::{KeyWord, Operator};
use vstd::prelude::*;

verus! {

/// What a node of the syntax tree stands for.
#[derive(Debug, Clone, Copy, PartialEq, Eq, Structural)]
pub enum AstType {
    /// The root; its children are the top-level declarations.
    Program,
    /// A variable declaration: the declared type as attribute; the name and,
    /// if there is one, the initializer as children.
    Declaration,
    /// A function definition: the return type as attribute; the name, the
    /// parameters and the body as children.
    Function,
    /// The parameter list of a function; one child for each parameter.
    Parameters,
    /// A parameter: its type as attribute, its name as child.
    Parameter,
    /// A block; one child for each statement.
    Block,
    /// The condition, the statement run when it holds and, if there is one,
    /// the statement run otherwise.
    If,
    /// The condition and the body.
    While,
    /// The returned expression, if there is one.
    Return,
    /// An expression used as a statement; the expression is its child.
    ExpressionStatement,
    /// The target and the assigned value.
    Assign,
    /// A binary operation: the operator as attribute, the operands as
    /// children.
    Binary,
    /// A prefix operation: the operator as attribute, the operand as child.
    Unary,
    /// A name; the name is its attribute.
    Identifier,
    /// A number literal; its digits are its attribute.
    Number,
}

impl AstType {
    /// The tag of this kind of node, as characters.
    pub open spec fn name(self) -> Seq<char> {
        match self {
            AstType::Program => "program"@,
            AstType::Declaration => "declaration"@,
            AstType::Function => "function"@,
            AstType::Parameters => "parameters"@,
            AstType::Parameter => "parameter"@,
            AstType::Block => "block"@,
            AstType::If => "if"@,
            AstType::While => "while"@,
            AstType::Return => "return"@,
            AstType::ExpressionStatement => "expression"@,
            AstType::Assign => "assign"@,
            AstType::Binary => "binary"@,
            AstType::Unary => "unary"@,
            AstType::Identifier => "identifier"@,
            AstType::Number => "number"@,
        }
    }

    /// The tag of this kind of node.
    pub fn tag(&self) -> (r: &'static str)
        ensures
            r@ == self.name(),
    {
        match self {
            AstType::Program => "program",
            AstType::Declaration => "declaration",
            AstType::Function => "function",
            AstType::Parameters => "parameters",
            AstType::Parameter => "parameter",
            AstType::Block => "block",
            AstType::If => "if",
            AstType::While => "while",
            AstType::Return => "return",
            AstType::ExpressionStatement => "expression",
            AstType::Assign => "assign",
            AstType::Binary => "binary",
            AstType::Unary => "unary",
            AstType::Identifier => "identifier",
            AstType::Number => "number",
        }
    }
}

/// What a node carries besides its children.
#[derive(Debug)]
pub enum Attribute {
    /// The lexeme of an identifier or of a number literal.
    Literal(String),
    /// The operator of an operation.
    Operator(Operator),
    /// The declared type: `int`, `char`, `float` or `void`.
    Type(KeyWord),
}

/// Mathematical value of an [`Attribute`].
pub enum AttributeView {
    Literal(Seq<char>),
    Operator(Operator),
    Type(KeyWord),
}

impl View for Attribute {
    type V = AttributeView;

    open spec fn view(&self) -> AttributeView {
        match self {
            Attribute::Literal(s) => AttributeView::Literal(s@),
            Attribute::Operator(op) => AttributeView::Operator(*op),
            Attribute::Type(k) => AttributeView::Type(*k),
        }
    }
}

/// Mathematical value of an optional attribute.
pub open spec fn attribute_view(a: Option<Attribute>) -> Option<AttributeView> {
    match a {
        Some(x) => Some(x@),
        None => None,
    }
}

/// Mathematical value of an [`AstNode`]: a finite tree.
pub struct Tree {
    pub kind: AstType,
    pub attribute: Option<AttributeView>,
    pub children: Seq<Tree>,
}

impl Tree {
    /// A node without children.
    pub open spec fn leaf(kind: AstType, attribute: Option<AttributeView>) -> Tree {
        Tree { kind, attribute, children: Seq::empty() }
    }

    /// This node with `child` added after its children.
    pub open spec fn with_child(self, child: Tree) -> Tree {
        Tree { kind: self.kind, attribute: self.attribute, children: self.children.push(child) }
    }
}

/// A node of the syntax tree. It owns its children; they are kept in the
/// order in which they were added, which is the order of the source.
#[derive(Debug)]
pub struct AstNode {
    ast_type: AstType,
    attribute: Option<Attribute>,
    children: Vec<AstNode>,
}

impl AstNode {
    /// The tree that this node is the root of.
    pub closed spec fn tree(&self) -> Tree
        decreases self,
    {
        Tree {
            kind: self.ast_type,
            attribute: attribute_view(self.attribute),
            children: self.children@.map_values(
                |c: AstNode|
                    if decreases_to!(self => c) {
                        c.tree()
                    } else {
                        arbitrary()
                    },
            ),
        }
    }
}

impl View for AstNode {
    type V = Tree;

    open spec fn view(&self) -> Tree {
        self.tree()
    }
}

impl AstNode {
    /// A node without children.
    pub fn new(ast_type: AstType, attribute: Option<Attribute>) -> (r: AstNode)
        ensures
            r@ == Tree::leaf(ast_type, attribute_view(attribute)),
    {
        let r = AstNode { ast_type, attribute, children: Vec::new() };
        assert(r@.children =~= Seq::empty());
        r
    }

    /// Adds `child` after the children of this node.
    pub fn push(&mut self, child: AstNode)
        ensures
            final(self)@ == old(self)@.with_child(child@),
    {
        self.children.push(child);
        assert(self@.children =~= old(self)@.children.push(child@));
    }

    /// What this node stands for.
    pub fn ast_type(&self) -> (r: AstType)
        ensures
            r == self@.kind,
    {
        self.ast_type
    }

    /// What this node carries besides its children.
    pub fn attribute(&self) -> (r: &Option<Attribute>)
        ensures
            attribute_view(*r) == self@.attribute,
    {
        &self.attribute
    }

    /// The number of children.
    pub fn len(&self) -> (r: usize)
        ensures
            r == self@.children.len(),
    {
        self.children.len()
    }

    /// The child at index `i`, counted from 0 in source order, if there is
    /// one.
    pub fn child(&self, i: usize) -> (r: Option<&AstNode>)
        ensures
            match r {
                Some(c) => i < self@.children.len() && c@ == self@.children[i as int],
                None => i >= self@.children.len(),
            },
    {
        if i < self.children.len() {
            Some(&self.children[i])
        } else {
            None
        }
    }
}

} // verus!

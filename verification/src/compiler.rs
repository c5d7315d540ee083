//! A compiler for arithmetic: formulas over numbers, comparisons and
//! assignments are split into tokens, parsed into trees, and turned
//! first into commands of a stack machine and then into assembly lines.

use vstd::prelude::*;

pub mod intermediate_code_generator;
pub mod lexer;
pub mod native_code_generator;
pub mod parser;

pub use intermediate_code_generator::generate_intermediate_code;
pub use lexer::lexing;
pub use native_code_generator::generate_native_code;
pub use parser::parsing;

verus! {

/// The class of a character of the input.
#[derive(Debug, Clone, Copy, PartialEq, Eq, Structural)]
pub enum LetterKind {
    LtNum,
    LtSpace,
    LtOperator,
    LtComparisonOperator,
    LtParenthesis,
    LtSymbol,
    LtAlphabet,
}

/// What the lexer is in the middle of.
#[derive(Debug, Clone, Copy, PartialEq, Eq, Structural)]
pub enum LexerCondition {
    CondCompletion,
    CondMiddleOfNumber,
    CondMiddleOfComparisonOperator,
    CondMiddleOfVariable,
}

/// The kind of a token.
#[derive(Debug, Clone, Copy, PartialEq, Eq, Structural)]
pub enum TokenKind {
    TkNum,
    TkOperator,
    TkComparisonOperator,
    TkParenthesis,
    TkSymbol,
    TkVariable,
}

/// A token: its kind and its text.
#[derive(Debug)]
pub struct Token {
    pub kind: TokenKind,
    pub val: String,
}

/// The mathematical content of a [`Token`].
pub struct TokenView {
    pub kind: TokenKind,
    pub val: Seq<char>,
}

impl View for Token {
    type V = TokenView;

    open spec fn view(&self) -> TokenView {
        TokenView { kind: self.kind, val: self.val@ }
    }
}

/// The views of a list of tokens.
pub open spec fn tokens_view(tokens: Seq<Token>) -> Seq<TokenView> {
    tokens.map_values(|t: Token| t@)
}

/// The kind of a node of a syntax tree.
#[derive(Debug, Clone, Copy, PartialEq, Eq, Structural)]
pub enum NodeKind {
    NdNum,
    NdOperator,
    NdComparisonOperator,
    NdAssignOperator,
    NdVariable,
    NdReturn,
}

/// A node of a syntax tree: its text, its kind and up to two children.
#[derive(Debug)]
pub struct Node {
    pub val: String,
    pub kind: NodeKind,
    pub left: Option<Box<Node>>,
    pub right: Option<Box<Node>>,
}

/// The mathematical content of a [`Node`].
pub struct NodeView {
    pub val: Seq<char>,
    pub kind: NodeKind,
    pub left: Option<Box<NodeView>>,
    pub right: Option<Box<NodeView>>,
}

/// The content of an optional child.
pub open spec fn child_view(child: Option<Box<Node>>) -> Option<Box<NodeView>>
    decreases child,
{
    match child {
        None => None,
        Some(n) => Some(Box::new(node_view(*n))),
    }
}

/// The content of a node.
pub open spec fn node_view(n: Node) -> NodeView
    decreases n,
{
    NodeView {
        val: n.val@,
        kind: n.kind,
        left: child_view(n.left),
        right: child_view(n.right),
    }
}

impl View for Node {
    type V = NodeView;

    open spec fn view(&self) -> NodeView {
        node_view(*self)
    }
}

} // verus!

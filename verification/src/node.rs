use vstd::prelude::*;

use crate::token::{Token, TokenType, TokenView};
use crate::types::{Primitive, Type};

verus! {

/// The kinds of syntax-tree node.
#[derive(PartialEq, Eq, Structural, Copy, Clone, Debug)]
pub enum ASTNodeType {
    Identifier,
    Literal,
    Pair,
    Application,
    Assignment,
    Abstraction,
    Module,
    Match,
}

/// A node of the syntax tree. Its children are indices into the tree's arena.
#[derive(Debug)]
pub struct ASTNode {
    pub t: ASTNodeType,
    /// The token an identifier or a literal was made from.
    pub info: Option<Token>,
    pub children: Vec<usize>,
    /// A type written by the programmer, such as the `Int` of `\x :: Int. x`.
    pub type_: Option<Type>,
    pub line: usize,
    pub col: usize,
    /// An application written with `$`.
    pub wait_for_args: bool,
}

/// The mathematical value of a node.
pub struct NodeView {
    pub t: ASTNodeType,
    pub info: Option<TokenView>,
    pub children: Seq<usize>,
    pub type_: Option<Type>,
    pub line: usize,
    pub col: usize,
    pub wait_for_args: bool,
}

impl View for ASTNode {
    type V = NodeView;

    open spec fn view(&self) -> NodeView {
        NodeView {
            t: self.t,
            info: match self.info {
                Some(tk) => Some(tk@),
                None => None,
            },
            children: self.children@,
            type_: self.type_,
            line: self.line,
            col: self.col,
            wait_for_args: self.wait_for_args,
        }
    }
}

/// The token types a literal node can carry.
pub open spec fn is_lit_tt(tt: TokenType) -> bool {
    tt == TokenType::IntLit || tt == TokenType::FloatLit || tt == TokenType::BoolLit || tt
        == TokenType::CharLit
}

/// The text of a node: its token's text, or nothing for a node made from no token.
pub open spec fn node_value(n: NodeView) -> Seq<char> {
    match n.info {
        Some(tk) => tk.value,
        None => Seq::empty(),
    }
}

/// The type of a literal, from the kind of its token.
pub open spec fn lit_type_of(tt: TokenType) -> Type {
    if tt == TokenType::IntLit {
        Type::Primitive(Primitive::Int64)
    } else if tt == TokenType::FloatLit {
        Type::Primitive(Primitive::Float64)
    } else if tt == TokenType::BoolLit {
        Type::Primitive(Primitive::Bool)
    } else {
        Type::Primitive(Primitive::Char)
    }
}

impl ASTNode {
    /// The text of the node's token, or the empty string for a node made from no token.
    pub fn get_value(&self) -> (s: String)
        ensures
            s@ == node_value(self@),
    {
        match &self.info {
            Some(tk) => tk.value.clone(),
            None => String::new(),
        }
    }

    /// The type of a literal.
    pub fn get_lit_type(&self) -> (ty: Type)
        requires
            self@.info matches Some(tk) && is_lit_tt(tk.tt),
        ensures
            ty == lit_type_of(self@.info->0.tt),
    {
        let tt = match &self.info {
            Some(tk) => tk.tt,
            None => TokenType::EOF,
        };
        match tt {
            TokenType::IntLit => Type::Primitive(Primitive::Int64),
            TokenType::FloatLit => Type::Primitive(Primitive::Float64),
            TokenType::BoolLit => Type::Primitive(Primitive::Bool),
            _ => Type::char(),
        }
    }
}

} // verus!

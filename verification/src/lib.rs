//! Front end of a small functional language: tokens, an arena-allocated
//! syntax tree, and the expression parser that builds it.

pub mod lexer;
pub mod text;
pub mod token;
pub mod types;
pub mod node;
pub mod ast;
pub mod parsing;
pub mod output;

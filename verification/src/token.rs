use vstd::prelude::*;

verus! {

/// The kinds of token the lexer produces.
#[derive(PartialEq, Eq, Structural, Copy, Clone, Debug)]
pub enum TokenType {
    Id,
    UppercaseId,
    IntLit,
    FloatLit,
    BoolLit,
    CharLit,
    StringLit,
    Lambda,
    Dot,
    Assignment,
    Comma,
    DoubleColon,
    RArrow,
    LParen,
    RParen,
    LBrackets,
    RBrackets,
    LBrace,
    RBrace,
    Bar,
    Dollar,
    Match,
    Newline,
    EOF,
}

/// A token: its kind, its text and where it starts in the source.
#[derive(Debug)]
pub struct Token {
    pub tt: TokenType,
    pub value: String,
    pub line: usize,
    pub col: usize,
}

/// The mathematical value of a token.
pub struct TokenView {
    pub tt: TokenType,
    pub value: Seq<char>,
    pub line: usize,
    pub col: usize,
}

impl View for Token {
    type V = TokenView;

    open spec fn view(&self) -> TokenView {
        TokenView { tt: self.tt, value: self.value@, line: self.line, col: self.col }
    }
}

impl Clone for Token {
    fn clone(&self) -> (res: Self)
        ensures
            res == *self,
    {
        Token { tt: self.tt, value: self.value.clone(), line: self.line, col: self.col }
    }
}

/// Characters that make up operator identifiers such as `+` or `==`.
pub open spec fn is_op_char(c: char) -> bool {
    c == '+' || c == '-' || c == '*' || c == '/' || c == '<' || c == '>' || c == '=' || c == '!'
        || c == '&' || c == '|' || c == '%' || c == '^' || c == '~' || c == '@' || c == '?'
        || c == ':'
}

pub fn op_char(c: char) -> (b: bool)
    ensures
        b == is_op_char(c),
{
    c == '+' || c == '-' || c == '*' || c == '/' || c == '<' || c == '>' || c == '=' || c == '!'
        || c == '&' || c == '|' || c == '%' || c == '^' || c == '~' || c == '@' || c == '?'
        || c == ':'
}

impl TokenView {
    /// An identifier made of operator characters, used between its two operands.
    pub open spec fn is_infix_id(self) -> bool {
        self.tt == TokenType::Id && self.value.len() > 0 && is_op_char(self.value[0])
    }
}

impl Token {
    pub fn is_infix_id(&self) -> (b: bool)
        ensures
            b == self@.is_infix_id(),
    {
        if self.tt != TokenType::Id {
            return false;
        }
        let s = self.value.as_str();
        if s.unicode_len() == 0 {
            return false;
        }
        op_char(s.get_char(0))
    }
}

} // verus!

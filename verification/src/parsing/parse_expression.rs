use vstd::prelude::*;

use super::{
    adv, drop_names, lemma_pattern_names_frame, pattern_names, perr, pinv, ErrKindView, PView, Parser, ParserError,
    ParserErrorKind, ParserErrorView,
};
use crate::ast::{
    cons_name, grows, inner_view, leaf_view, lemma_scan_frame, nil_name, sp_scan,
    ASTStringListScanResult, AST,
};
use crate::output::{lemma_string_text_frame, string_text};
use crate::node::{is_lit_tt, ASTNodeType, NodeView};
use crate::text::{char_to_string, string_chars};
use crate::token::{Token, TokenType, TokenView};
use crate::types::{lookup_type, Primitive, Type, TypeTable};

verus! {

/// The state the parser works on: the position of the next token, the names in scope,
/// and the nodes of the tree being built.
pub struct PS {
    pub pos: int,
    pub bound: Seq<Seq<char>>,
    pub nodes: Seq<NodeView>,
}

/// What parsing from a state gives: a new state and a result, an error, or an abort
/// (where the grammar has no way on and no diagnosis; the parsing functions report it
/// as `ParserErrorKind::Unparsable`).
pub enum Outcome<T> {
    Done(PS, T),
    Fail(ParserErrorView),
    Abort,
}

pub open spec fn st(p: PView, nodes: Seq<NodeView>) -> PS {
    PS { pos: p.pos, bound: p.bound, nodes }
}

/// The parse moved forward and stayed within the tokens.
pub open spec fn progress(toks: Seq<TokenView>, a: PS, b: PS) -> bool {
    a.pos < b.pos <= toks.len()
}

pub open spec fn step(toks: Seq<TokenView>, s: PS) -> PS {
    PS { pos: adv(toks, s.pos), ..s }
}

pub open spec fn push(s: PS, n: NodeView) -> PS {
    PS { nodes: s.nodes.push(n), ..s }
}

pub open spec fn line_at(toks: Seq<TokenView>, s: PS) -> usize {
    toks[s.pos].line
}

pub open spec fn col_at(toks: Seq<TokenView>, s: PS) -> usize {
    toks[s.pos].col
}

pub open spec fn fail_at<T>(toks: Seq<TokenView>, s: PS, k: ErrKindView) -> Outcome<T> {
    Outcome::Fail(perr(toks, s.pos, k))
}

pub open spec fn id_tok(name: Seq<char>, line: usize, col: usize) -> TokenView {
    TokenView { tt: TokenType::Id, value: name, line, col }
}

pub open spec fn list_name() -> Seq<char> {
    seq!['L', 'i', 's', 't']
}

pub open spec fn string_name() -> Seq<char> {
    seq!['S', 't', 'r', 'i', 'n', 'g']
}

/// What parsing needs to know of the types in scope: whether `List` is defined, and
/// what is wrong with `String` for string literals, if anything.
pub struct TEnv {
    pub list_defined: bool,
    pub string_err: Option<ErrKindView>,
}

pub open spec fn tenv(table: Seq<(Seq<char>, Type)>) -> TEnv {
    TEnv {
        list_defined: lookup_type(table, list_name()) is Some,
        string_err: string_type_error(table),
    }
}

/// The list syntaxes may be used: `Cons` and `Nil` are in scope and `List` is defined.
pub open spec fn may_use_list(bound: Seq<Seq<char>>, tt: TEnv) -> bool {
    bound.contains(cons_name()) && bound.contains(nil_name()) && tt.list_defined
}

pub open spec fn prim_named(name: Seq<char>) -> Option<Primitive> {
    if name == seq!['I', 'n', 't'] {
        Some(Primitive::Int64)
    } else if name == seq!['F', 'l', 'o', 'a', 't'] {
        Some(Primitive::Float64)
    } else if name == seq!['B', 'o', 'o', 'l'] {
        Some(Primitive::Bool)
    } else if name == seq!['C', 'h', 'a', 'r'] {
        Some(Primitive::Char)
    } else {
        None
    }
}

/// The tokens that start a primary expression with parts of its own: a match, an
/// abstraction, a list, an expression in parentheses or after `$`.
pub open spec fn starts_nested(tt: TokenType) -> bool {
    tt == TokenType::Match || tt == TokenType::Lambda || tt == TokenType::LBrackets || tt
        == TokenType::LParen || tt == TokenType::Dollar
}

pub open spec fn is_terminator(tt: TokenType) -> bool {
    tt == TokenType::RParen || tt == TokenType::EOF || tt == TokenType::Newline || tt
        == TokenType::DoubleColon || tt == TokenType::LBrace || tt == TokenType::RBrackets || tt
        == TokenType::Comma
}

// ---------------------------------------------------------------- types

/// type := atom [`->` type]
pub open spec fn sp_type(toks: Seq<TokenView>, s: PS) -> Outcome<Type>
    decreases toks.len() - s.pos, 1nat,
{
    match sp_type_atom(toks, s) {
        Outcome::Done(s1, a) => if toks[s1.pos].tt == TokenType::RArrow {
            let s2 = step(toks, s1);
            if progress(toks, s, s2) {
                match sp_type(toks, s2) {
                    Outcome::Done(s3, b) => Outcome::Done(s3, Type::Function(Box::new(a), Box::new(b))),
                    Outcome::Fail(e) => Outcome::Fail(e),
                    Outcome::Abort => Outcome::Abort,
                }
            } else {
                Outcome::Abort
            }
        } else {
            Outcome::Done(s1, a)
        },
        Outcome::Fail(e) => Outcome::Fail(e),
        Outcome::Abort => Outcome::Abort,
    }
}

/// atom := `Int` | `Float` | `Bool` | `Char` | `(` type `)`
pub open spec fn sp_type_atom(toks: Seq<TokenView>, s: PS) -> Outcome<Type>
    decreases toks.len() - s.pos, 0nat,
{
    let t = toks[s.pos];
    let s1 = step(toks, s);
    if t.tt == TokenType::UppercaseId {
        match prim_named(t.value) {
            Some(p) => Outcome::Done(s1, Type::Primitive(p)),
            None => fail_at(toks, s1, ErrKindView::UnknownType(t.value)),
        }
    } else if t.tt == TokenType::LParen {
        if progress(toks, s, s1) {
            match sp_type(toks, s1) {
                Outcome::Done(s2, ty) => if toks[s2.pos].tt == TokenType::RParen {
                    Outcome::Done(step(toks, s2), ty)
                } else {
                    fail_at(
                        toks,
                        s2,
                        ErrKindView::Expected(TokenType::RParen, toks[s2.pos].tt, toks[s2.pos].value),
                    )
                },
                Outcome::Fail(e) => Outcome::Fail(e),
                Outcome::Abort => Outcome::Abort,
            }
        } else {
            Outcome::Abort
        }
    } else {
        fail_at(toks, s1, ErrKindView::Expected(TokenType::UppercaseId, t.tt, t.value))
    }
}


// ---------------------------------------------------------------- abstraction arguments

/// arg := primary [`,` arg | `::` type | `)`]
pub open spec fn sp_abstr_var(toks: Seq<TokenView>, s: PS) -> Outcome<usize>
    decreases toks.len() - s.pos, 1nat,
{
    match sp_abstr_var_primary(toks, s) {
        Outcome::Done(s1, left) => {
            let t = toks[s1.pos];
            if t.tt == TokenType::Comma {
                let s2 = step(toks, s1);
                if progress(toks, s, s2) {
                    match sp_abstr_var(toks, s2) {
                        Outcome::Done(s3, right) => Outcome::Done(
                            push(
                                s3,
                                inner_view(
                                    ASTNodeType::Pair,
                                    seq![left, right],
                                    line_at(toks, s3),
                                    col_at(toks, s3),
                                    false,
                                ),
                            ),
                            s3.nodes.len() as usize,
                        ),
                        Outcome::Fail(e) => Outcome::Fail(e),
                        Outcome::Abort => Outcome::Abort,
                    }
                } else {
                    Outcome::Abort
                }
            } else if t.tt == TokenType::DoubleColon {
                let s2 = step(toks, s1);
                match sp_type(toks, PS { nodes: seq![], ..s2 }) {
                    Outcome::Done(s3, ty) => Outcome::Done(
                        PS {
                            pos: s3.pos,
                            bound: s3.bound,
                            nodes: s2.nodes.update(
                                left as int,
                                NodeView { type_: Some(ty), ..s2.nodes[left as int] },
                            ),
                        },
                        left,
                    ),
                    Outcome::Fail(e) => Outcome::Fail(e),
                    Outcome::Abort => Outcome::Abort,
                }
            } else if t.tt == TokenType::RParen {
                Outcome::Done(step(toks, s1), left)
            } else {
                Outcome::Done(s1, left)
            }
        },
        Outcome::Fail(e) => Outcome::Fail(e),
        Outcome::Abort => Outcome::Abort,
    }
}

/// primary := identifier | `(` arg
pub open spec fn sp_abstr_var_primary(toks: Seq<TokenView>, s: PS) -> Outcome<usize>
    decreases toks.len() - s.pos, 0nat,
{
    let t = toks[s.pos];
    let s1 = step(toks, s);
    if t.tt == TokenType::Id {
        Outcome::Done(
            push(s1, leaf_view(ASTNodeType::Identifier, t, line_at(toks, s1), col_at(toks, s1))),
            s1.nodes.len() as usize,
        )
    } else if t.tt == TokenType::LParen {
        if progress(toks, s, s1) {
            sp_abstr_var(toks, s1)
        } else {
            Outcome::Abort
        }
    } else {
        fail_at(toks, s1, ErrKindView::ExpectedLambdaIdentifier)
    }
}

/// The arguments of an abstraction, up to its `.` (or the `=` of an assignment).
pub open spec fn sp_abs_args(toks: Seq<TokenView>, is_assign: bool, s: PS, args: Seq<usize>) -> Outcome<Seq<usize>>
    decreases toks.len() - s.pos,
{
    let t = toks[s.pos];
    if t.tt == TokenType::Id || t.tt == TokenType::LParen {
        match sp_abstr_var(toks, s) {
            Outcome::Done(s1, a) => if progress(toks, s, s1) {
                sp_abs_args(toks, is_assign, s1, args.push(a))
            } else {
                Outcome::Abort
            },
            Outcome::Fail(e) => Outcome::Fail(e),
            Outcome::Abort => Outcome::Abort,
        }
    } else if (t.tt == TokenType::Dot && !is_assign) || (t.tt == TokenType::Assignment && is_assign) {
        Outcome::Done(s, args)
    } else {
        fail_at(toks, s, ErrKindView::UnexpectedLambdaArgument(t.value))
    }
}

/// The names all of `args` bind, in order.
pub open spec fn names_all(nodes: Seq<NodeView>, args: Seq<usize>) -> Seq<Seq<char>>
    decreases args.len(),
{
    if args.len() == 0 {
        seq![]
    } else {
        names_all(nodes, args.drop_last()) + pattern_names(nodes, args.last() as int)
    }
}

/// Wraps `e` in abstractions over `args[i - 1]`, ..., `args[0]`, innermost first, taking
/// each argument's names out of scope in turn; `absts` gathers the abstractions made.
pub open spec fn sp_wrap(
    toks: Seq<TokenView>,
    s: PS,
    e: usize,
    args: Seq<usize>,
    i: int,
    absts: Seq<usize>,
) -> (PS, usize, Seq<usize>)
    decreases i,
{
    if i <= 0 {
        (s, e, absts)
    } else {
        let arg = args[i - 1];
        let s1 = push(
            s,
            inner_view(ASTNodeType::Abstraction, seq![arg, e], line_at(toks, s), col_at(toks, s), false),
        );
        let e1 = s.nodes.len() as usize;
        let s2 = PS {
            bound: drop_names(s1.bound, pattern_names(s1.nodes, arg as int).len() as int),
            ..s1
        };
        sp_wrap(toks, s2, e1, args, i - 1, absts.push(e1))
    }
}

// ---------------------------------------------------------------- lists and strings

/// Conses `exps[i - 1]`, ..., `exps[0]` onto the list `acc`.
pub open spec fn sp_list_fold(s: PS, acc: usize, exps: Seq<usize>, i: int, line: usize, col: usize) -> (PS, usize)
    decreases i,
{
    if i <= 0 {
        (s, acc)
    } else {
        let s1 = push(s, leaf_view(ASTNodeType::Identifier, id_tok(cons_name(), line, col), line, col));
        let cons = s.nodes.len() as usize;
        let s2 = push(s1, inner_view(ASTNodeType::Application, seq![cons, exps[i - 1]], line, col, true));
        let app = s1.nodes.len() as usize;
        let s3 = push(s2, inner_view(ASTNodeType::Application, seq![app, acc], line, col, true));
        sp_list_fold(s3, s2.nodes.len() as usize, exps, i - 1, line, col)
    }
}

pub open spec fn char_tok(c: char, line: usize, col: usize) -> TokenView {
    TokenView { tt: TokenType::CharLit, value: seq![c], line, col }
}

/// Conses the characters `chars[i - 1]`, ..., `chars[0]` onto the list `acc`.
pub open spec fn sp_str_fold(s: PS, acc: usize, chars: Seq<char>, i: int, line: usize, col: usize) -> (PS, usize)
    decreases i,
{
    if i <= 0 {
        (s, acc)
    } else {
        let s1 = push(s, leaf_view(ASTNodeType::Identifier, id_tok(cons_name(), line, col), line, col));
        let cons = s.nodes.len() as usize;
        let s2 = push(s1, leaf_view(ASTNodeType::Literal, char_tok(chars[i - 1], line, col), line, col));
        let ch = s1.nodes.len() as usize;
        let s3 = push(s2, inner_view(ASTNodeType::Application, seq![cons, ch], line, col, true));
        let app = s2.nodes.len() as usize;
        let s4 = push(s3, inner_view(ASTNodeType::Application, seq![app, acc], line, col, true));
        sp_str_fold(s4, s3.nodes.len() as usize, chars, i - 1, line, col)
    }
}

/// What is wrong with the type `String` for string literals, if anything: it must be
/// an alias to `List Char`.
pub open spec fn string_type_error(table: Seq<(Seq<char>, Type)>) -> Option<ErrKindView> {
    match lookup_type(table, string_name()) {
        Some(Type::Alias(_, alias)) => match *alias {
            Type::Union(name, args) => if name@ != list_name() {
                Some(ErrKindView::StringTypeMalformed)
            } else if args@.len() == 1 && args@[0] == Type::Primitive(Primitive::Char) {
                None
            } else {
                Some(ErrKindView::StringTypeMalformed)
            },
            _ => Some(ErrKindView::StringTypeMalformed),
        },
        Some(_) => Some(ErrKindView::StringTypeMalformed),
        None => Some(ErrKindView::StringTypeMissing),
    }
}

/// A string literal as the list of its characters.
pub open spec fn sp_string_list(
    toks: Seq<TokenView>,
    tt: TEnv,
    s: PS,
    value: Seq<char>,
    line: usize,
    col: usize,
) -> Outcome<usize> {
    match tt.string_err {
        Some(k) => fail_at(toks, s, k),
        None => if !may_use_list(s.bound, tt) {
            fail_at(toks, s, ErrKindView::ListConstructorsMissing)
        } else {
            let s1 = push(s, leaf_view(ASTNodeType::Identifier, id_tok(nil_name(), line, col), line, col));
            let (s2, r) = sp_str_fold(s1, s.nodes.len() as usize, value, value.len() as int, line, col);
            Outcome::Done(s2, r)
        },
    }
}

// ---------------------------------------------------------------- match patterns

/// atom := identifier | constructor | literal
pub open spec fn sp_pat_atom(toks: Seq<TokenView>, s: PS) -> Outcome<usize> {
    let t = toks[s.pos];
    let s1 = step(toks, s);
    if t.tt == TokenType::Id {
        Outcome::Done(
            push(s1, leaf_view(ASTNodeType::Identifier, t, line_at(toks, s1), col_at(toks, s1))),
            s1.nodes.len() as usize,
        )
    } else if t.tt == TokenType::UppercaseId {
        if !s.bound.contains(t.value) {
            fail_at(toks, s1, ErrKindView::UnboundIdentifier(t.value))
        } else {
            Outcome::Done(
                push(s1, leaf_view(ASTNodeType::Identifier, t, line_at(toks, s1), col_at(toks, s1))),
                s1.nodes.len() as usize,
            )
        }
    } else if is_lit_tt(t.tt) {
        Outcome::Done(
            push(s1, leaf_view(ASTNodeType::Literal, t, line_at(toks, s1), col_at(toks, s1))),
            s1.nodes.len() as usize,
        )
    } else {
        fail_at(toks, s1, ErrKindView::Expected(TokenType::Id, t.tt, t.value))
    }
}

pub open spec fn starts_atom(tt: TokenType) -> bool {
    tt == TokenType::Id || tt == TokenType::UppercaseId || is_lit_tt(tt)
}

/// Applies the pattern `left` to the atoms that follow.
pub open spec fn sp_pat_loop(toks: Seq<TokenView>, s: PS, left: usize) -> Outcome<usize>
    decreases toks.len() - s.pos,
{
    if starts_atom(toks[s.pos].tt) {
        match sp_pat_atom(toks, s) {
            Outcome::Done(s1, a) => {
                let s2 = push(
                    s1,
                    inner_view(ASTNodeType::Application, seq![left, a], line_at(toks, s1), col_at(toks, s1), false),
                );
                if progress(toks, s, s2) {
                    sp_pat_loop(toks, s2, s1.nodes.len() as usize)
                } else {
                    Outcome::Abort
                }
            },
            Outcome::Fail(e) => Outcome::Fail(e),
            Outcome::Abort => Outcome::Abort,
        }
    } else {
        Outcome::Done(s, left)
    }
}

/// pattern := atom atom*
pub open spec fn sp_pattern(toks: Seq<TokenView>, s: PS) -> Outcome<usize> {
    match sp_pat_atom(toks, s) {
        Outcome::Done(s1, a) => sp_pat_loop(toks, s1, a),
        Outcome::Fail(e) => Outcome::Fail(e),
        Outcome::Abort => Outcome::Abort,
    }
}

// ---------------------------------------------------------------- expressions

/// expression := primary, followed by applications, `$` applications and infix operators
pub open spec fn sp_expression(toks: Seq<TokenView>, tt: TEnv, s: PS) -> Outcome<usize>
    decreases toks.len() - s.pos, 4nat,
{
    match sp_primary(toks, tt, s) {
        Outcome::Done(s1, left) => if progress(toks, s, s1) {
            sp_expr_loop(toks, tt, s1, left)
        } else {
            Outcome::Abort
        },
        Outcome::Fail(e) => Outcome::Fail(e),
        Outcome::Abort => Outcome::Abort,
    }
}

/// What follows the expression `left`, up to a token that ends the expression.
pub open spec fn sp_expr_loop(toks: Seq<TokenView>, tt: TEnv, s: PS, left: usize) -> Outcome<usize>
    decreases toks.len() - s.pos, 3nat,
{
    let line = line_at(toks, s);
    let col = col_at(toks, s);
    let tk = toks[s.pos];
    if tk.tt == TokenType::LParen {
        let s1 = step(toks, s);
        if !progress(toks, s, s1) {
            Outcome::Abort
        } else {
            match sp_expression(toks, tt, s1) {
                Outcome::Done(s2, right) => if toks[s2.pos].tt == TokenType::RParen {
                    let s3 = push(
                        step(toks, s2),
                        inner_view(ASTNodeType::Application, seq![left, right], line, col, false),
                    );
                    if progress(toks, s, s3) {
                        sp_expr_loop(toks, tt, s3, s2.nodes.len() as usize)
                    } else {
                        Outcome::Abort
                    }
                } else {
                    fail_at(toks, s2, ErrKindView::ExpectedClosingParenthesis(tk.tt, tk.value))
                },
                Outcome::Fail(e) => Outcome::Fail(e),
                Outcome::Abort => Outcome::Abort,
            }
        }
    } else if tk.tt == TokenType::Dollar {
        let s1 = step(toks, s);
        if !progress(toks, s, s1) {
            Outcome::Abort
        } else {
            match sp_expression(toks, tt, s1) {
                Outcome::Done(s2, right) => if toks[s2.pos].tt == TokenType::RParen {
                    fail_at(toks, s2, ErrKindView::UnexpectedClosingParenthesis)
                } else {
                    let s3 = push(
                        s2,
                        inner_view(ASTNodeType::Application, seq![left, right], line, col, true),
                    );
                    if progress(toks, s, s3) {
                        sp_expr_loop(toks, tt, s3, s2.nodes.len() as usize)
                    } else {
                        Outcome::Abort
                    }
                },
                Outcome::Fail(e) => Outcome::Fail(e),
                Outcome::Abort => Outcome::Abort,
            }
        }
    } else if is_terminator(tk.tt) {
        Outcome::Done(s, left)
    } else if tk.tt == TokenType::Lambda {
        let s1 = step(toks, s);
        if !progress(toks, s, s1) {
            Outcome::Abort
        } else {
            match sp_abstraction(toks, tt, false, s1) {
                Outcome::Done(s2, _) => if progress(toks, s, s2) {
                    sp_expr_loop(toks, tt, s2, left)
                } else {
                    Outcome::Abort
                },
                Outcome::Fail(e) => Outcome::Fail(e),
                Outcome::Abort => Outcome::Abort,
            }
        }
    } else if tk.tt == TokenType::Match {
        let s1 = step(toks, s);
        if !progress(toks, s, s1) {
            Outcome::Abort
        } else {
            match sp_match(toks, tt, s1) {
                Outcome::Done(s2, m) => {
                    let s3 = push(
                        s2,
                        inner_view(ASTNodeType::Application, seq![left, m], line, col, false),
                    );
                    if progress(toks, s, s3) {
                        sp_expr_loop(toks, tt, s3, s2.nodes.len() as usize)
                    } else {
                        Outcome::Abort
                    }
                },
                Outcome::Fail(e) => Outcome::Fail(e),
                Outcome::Abort => Outcome::Abort,
            }
        }
    } else if is_lit_tt(tk.tt) || tk.tt == TokenType::StringLit {
        match sp_primary(toks, tt, s) {
            Outcome::Done(s1, right) => {
                let s2 = push(
                    s1,
                    inner_view(ASTNodeType::Application, seq![left, right], line, col, false),
                );
                if progress(toks, s, s2) {
                    sp_expr_loop(toks, tt, s2, s1.nodes.len() as usize)
                } else {
                    Outcome::Abort
                }
            },
            Outcome::Fail(e) => Outcome::Fail(e),
            Outcome::Abort => Outcome::Abort,
        }
    } else if tk.tt == TokenType::Id || tk.tt == TokenType::UppercaseId {
        if tk.is_infix_id() {
            match sp_primary(toks, tt, s) {
                Outcome::Done(s1, id_node) => if !progress(toks, s, s1) {
                    Outcome::Abort
                } else {
                    match sp_expression(toks, tt, s1) {
                        Outcome::Done(s2, right) => {
                            let s3 = push(
                                s2,
                                inner_view(ASTNodeType::Application, seq![id_node, left], line, col, false),
                            );
                            let a1 = s2.nodes.len() as usize;
                            let s4 = push(
                                s3,
                                inner_view(ASTNodeType::Application, seq![a1, right], line, col, false),
                            );
                            if progress(toks, s, s4) {
                                sp_expr_loop(toks, tt, s4, s3.nodes.len() as usize)
                            } else {
                                Outcome::Abort
                            }
                        },
                        Outcome::Fail(e) => Outcome::Fail(e),
                        Outcome::Abort => Outcome::Abort,
                    }
                },
                Outcome::Fail(e) => Outcome::Fail(e),
                Outcome::Abort => Outcome::Abort,
            }
        } else {
            match sp_primary(toks, tt, s) {
                Outcome::Done(s1, id_node) => {
                    let s2 = push(
                        s1,
                        inner_view(ASTNodeType::Application, seq![left, id_node], line, col, false),
                    );
                    if progress(toks, s, s2) {
                        sp_expr_loop(toks, tt, s2, s1.nodes.len() as usize)
                    } else {
                        Outcome::Abort
                    }
                },
                Outcome::Fail(e) => Outcome::Fail(e),
                Outcome::Abort => Outcome::Abort,
            }
        }
    } else {
        fail_at(toks, s, ErrKindView::UnexpectedTokenInExpression(tk.tt, tk.value))
    }
}

/// primary := identifier | literal | string | `match` ... | `\` abstraction | `[` ... `]`
///          | `(` expression [`,` expression] `)` | `$` expression
pub open spec fn sp_primary(toks: Seq<TokenView>, tt: TEnv, s: PS) -> Outcome<usize>
    decreases toks.len() - s.pos, 2nat,
{
    let line = line_at(toks, s);
    let col = col_at(toks, s);
    let t = toks[s.pos];
    let s1 = step(toks, s);
    if t.tt == TokenType::Id || t.tt == TokenType::UppercaseId {
        if !s.bound.contains(t.value) {
            fail_at(toks, s1, ErrKindView::UnboundIdentifier(t.value))
        } else {
            Outcome::Done(
                push(s1, leaf_view(ASTNodeType::Identifier, t, line, col)),
                s1.nodes.len() as usize,
            )
        }
    } else if t.tt == TokenType::StringLit {
        sp_string_list(toks, tt, s1, t.value, line, col)
    } else if is_lit_tt(t.tt) {
        Outcome::Done(push(s1, leaf_view(ASTNodeType::Literal, t, line, col)), s1.nodes.len() as usize)
    } else if t.tt == TokenType::Match {
        if progress(toks, s, s1) {
            sp_match(toks, tt, s1)
        } else {
            Outcome::Abort
        }
    } else if t.tt == TokenType::Lambda {
        let s2 = step(toks, s1);
        if progress(toks, s, s2) {
            match sp_abstraction(toks, tt, false, s2) {
                Outcome::Done(s3, r) => Outcome::Done(s3, r.0),
                Outcome::Fail(e) => Outcome::Fail(e),
                Outcome::Abort => Outcome::Abort,
            }
        } else {
            Outcome::Abort
        }
    } else if t.tt == TokenType::LBrackets {
        if progress(toks, s, s1) {
            match sp_list_elems(toks, tt, s1, seq![]) {
                Outcome::Done(s2, exps) => if !may_use_list(s2.bound, tt) {
                    fail_at(toks, s2, ErrKindView::ListSyntaxUnavailable)
                } else {
                    let s3 = push(
                        s2,
                        leaf_view(ASTNodeType::Identifier, id_tok(nil_name(), line, col), line, col),
                    );
                    let (s4, r) = sp_list_fold(s3, s2.nodes.len() as usize, exps, exps.len() as int, line, col);
                    Outcome::Done(s4, r)
                },
                Outcome::Fail(e) => Outcome::Fail(e),
                Outcome::Abort => Outcome::Abort,
            }
        } else {
            Outcome::Abort
        }
    } else if t.tt == TokenType::LParen || t.tt == TokenType::Dollar {
        if progress(toks, s, s1) {
            match sp_expression(toks, tt, s1) {
                Outcome::Done(s2, e) => {
                    let nt = toks[s2.pos].tt;
                    if nt == TokenType::RParen {
                        Outcome::Done(step(toks, s2), e)
                    } else if nt == TokenType::Comma {
                        let s3 = step(toks, s2);
                        if progress(toks, s, s3) {
                            match sp_expression(toks, tt, s3) {
                                Outcome::Done(s4, r) => {
                                    let s5 = push(
                                        s4,
                                        inner_view(ASTNodeType::Pair, seq![e, r], line, col, false),
                                    );
                                    Outcome::Done(step(toks, s5), s4.nodes.len() as usize)
                                },
                                Outcome::Fail(e) => Outcome::Fail(e),
                                Outcome::Abort => Outcome::Abort,
                            }
                        } else {
                            Outcome::Abort
                        }
                    } else {
                        Outcome::Abort
                    }
                },
                Outcome::Fail(e) => Outcome::Fail(e),
                Outcome::Abort => Outcome::Abort,
            }
        } else {
            Outcome::Abort
        }
    } else {
        fail_at(toks, s1, ErrKindView::UnexpectedTokenInPrimary(t.tt, t.value))
    }
}

/// The elements of a list literal, after its `[`, up to and including its `]`.
pub open spec fn sp_list_elems(
    toks: Seq<TokenView>,
    tt: TEnv,
    s: PS,
    acc: Seq<usize>,
) -> Outcome<Seq<usize>>
    decreases toks.len() - s.pos, 5nat,
{
    match sp_expression(toks, tt, s) {
        Outcome::Done(s1, e) => {
            let t = toks[s1.pos];
            let s2 = step(toks, s1);
            if t.tt == TokenType::RBrackets {
                Outcome::Done(s2, acc.push(e))
            } else if t.tt == TokenType::Comma {
                if progress(toks, s, s2) {
                    sp_list_elems(toks, tt, s2, acc.push(e))
                } else {
                    Outcome::Abort
                }
            } else {
                Outcome::Abort
            }
        },
        Outcome::Fail(e) => Outcome::Fail(e),
        Outcome::Abort => Outcome::Abort,
    }
}

/// An abstraction after its `\` (or an assignment's arguments after its name):
/// arguments, `.` (or `=`), the body.
pub open spec fn sp_abstraction(
    toks: Seq<TokenView>,
    tt: TEnv,
    is_assign: bool,
    s: PS,
) -> Outcome<(usize, Seq<usize>)>
    decreases toks.len() - s.pos, 0nat,
{
    match sp_abs_args(toks, is_assign, s, seq![]) {
        Outcome::Done(s1, args) => {
            let s2 = step(toks, s1);
            let s3 = PS { bound: s2.bound + names_all(s2.nodes, args), ..s2 };
            if progress(toks, s, s3) {
                match sp_expression(toks, tt, s3) {
                    Outcome::Done(s4, e) => {
                        let w = sp_wrap(toks, s4, e, args, args.len() as int, seq![]);
                        Outcome::Done(w.0, (w.1, w.2))
                    },
                    Outcome::Fail(e) => Outcome::Fail(e),
                    Outcome::Abort => Outcome::Abort,
                }
            } else {
                Outcome::Abort
            }
        },
        Outcome::Fail(e) => Outcome::Fail(e),
        Outcome::Abort => Outcome::Abort,
    }
}

/// A match after its `match`: the matched expression, `{`, then cases.
pub open spec fn sp_match(toks: Seq<TokenView>, tt: TEnv, s: PS) -> Outcome<usize>
    decreases toks.len() - s.pos, 5nat,
{
    let line = line_at(toks, s);
    let col = col_at(toks, s);
    match sp_expression(toks, tt, s) {
        Outcome::Done(s1, u) => if toks[s1.pos].tt != TokenType::LBrace {
            fail_at(
                toks,
                s1,
                ErrKindView::Expected(TokenType::LBrace, toks[s1.pos].tt, toks[s1.pos].value),
            )
        } else {
            let s2 = step(toks, s1);
            if progress(toks, s, s2) {
                finish_match(sp_match_cases(toks, tt, s2, seq![u]), line, col)
            } else {
                Outcome::Abort
            }
        },
        Outcome::Fail(e) => Outcome::Fail(e),
        Outcome::Abort => Outcome::Abort,
    }
}

/// The match node made of the parsed cases.
pub open spec fn finish_match(o: Outcome<Seq<usize>>, line: usize, col: usize) -> Outcome<usize> {
    match o {
        Outcome::Done(s3, kids) => Outcome::Done(
            push(s3, inner_view(ASTNodeType::Match, kids, line, col, false)),
            s3.nodes.len() as usize,
        ),
        Outcome::Fail(e) => Outcome::Fail(e),
        Outcome::Abort => Outcome::Abort,
    }
}

/// The cases of a match: `| pattern -> expression` lines, up to and including its `}`.
pub open spec fn sp_match_cases(
    toks: Seq<TokenView>,
    tt: TEnv,
    s: PS,
    kids: Seq<usize>,
) -> Outcome<Seq<usize>>
    decreases toks.len() - s.pos, 0nat,
{
    let t = toks[s.pos];
    if t.tt == TokenType::Newline {
        let s1 = step(toks, s);
        if progress(toks, s, s1) {
            sp_match_cases(toks, tt, s1, kids)
        } else {
            Outcome::Abort
        }
    } else if t.tt == TokenType::RBrace {
        Outcome::Done(step(toks, s), kids)
    } else if t.tt == TokenType::Bar {
        let s1 = step(toks, s);
        match sp_pattern(toks, s1) {
            Outcome::Done(s2, p) => if toks[s2.pos].tt != TokenType::RArrow {
                fail_at(
                    toks,
                    s2,
                    ErrKindView::Expected(TokenType::RArrow, toks[s2.pos].tt, toks[s2.pos].value),
                )
            } else {
                let s3 = step(toks, s2);
                let s4 = PS { bound: s3.bound + pattern_names(s3.nodes, p as int), ..s3 };
                if progress(toks, s, s4) {
                    match sp_expression(toks, tt, s4) {
                        Outcome::Done(s5, e) => {
                            let s6 = PS {
                                bound: drop_names(
                                    s5.bound,
                                    pattern_names(s5.nodes, p as int).len() as int,
                                ),
                                ..s5
                            };
                            if progress(toks, s, s6) {
                                sp_match_cases(toks, tt, s6, kids.push(p).push(e))
                            } else {
                                Outcome::Abort
                            }
                        },
                        Outcome::Fail(e) => Outcome::Fail(e),
                        Outcome::Abort => Outcome::Abort,
                    }
                } else {
                    Outcome::Abort
                }
            },
            Outcome::Fail(e) => Outcome::Fail(e),
            Outcome::Abort => Outcome::Abort,
        }
    } else {
        fail_at(toks, s, ErrKindView::Expected(TokenType::RBrace, t.tt, t.value))
    }
}

/// Like `outcome_is`, for a result that is a sequence of nodes.
pub open spec fn seq_outcome_is(
    o: Outcome<Seq<usize>>,
    res: Result<Vec<usize>, ParserError>,
    p: PView,
    nodes: Seq<NodeView>,
) -> bool {
    match o {
        Outcome::Done(s, r) => res matches Ok(v) && v@ == r && p.pos == s.pos && p.bound == s.bound
            && nodes == s.nodes,
        Outcome::Fail(e) => res matches Err(er) && er@ == e,
        Outcome::Abort => res matches Err(er) && er@.kind == ErrKindView::Unparsable,
    }
}

/// Like `outcome_is`, for an abstraction: the outermost node and all those made.
pub open spec fn abs_outcome_is(
    o: Outcome<(usize, Seq<usize>)>,
    res: Result<(usize, Vec<usize>), ParserError>,
    p: PView,
    nodes: Seq<NodeView>,
) -> bool {
    match o {
        Outcome::Done(s, r) => res matches Ok(v) && v.0 == r.0 && v.1@ == r.1 && p.pos == s.pos
            && p.bound == s.bound && nodes == s.nodes,
        Outcome::Fail(e) => res matches Err(er) && er@ == e,
        Outcome::Abort => res matches Err(er) && er@.kind == ErrKindView::Unparsable,
    }
}

/// The nodes `v` are nodes of the arena, and no modules.
pub open spec fn valid_nodes(v: Seq<usize>, nodes: Seq<NodeView>) -> bool {
    forall|j: int|
        0 <= j < v.len() ==> #[trigger] v[j] < nodes.len() && nodes[v[j] as int].t
            != ASTNodeType::Module
}

/// The outcome `o` is what a call returned, leaving the parser at `p` and the tree at `nodes`.
pub open spec fn outcome_is<T>(o: Outcome<T>, res: Result<T, ParserError>, p: PView, nodes: Seq<NodeView>) -> bool {
    match o {
        Outcome::Done(s, r) => res == Ok::<T, ParserError>(r) && p.pos == s.pos && p.bound == s.bound
            && nodes == s.nodes,
        Outcome::Fail(e) => res matches Err(er) && er@ == e,
        Outcome::Abort => res matches Err(er) && er@.kind == ErrKindView::Unparsable,
    }
}

fn prim_of_name(name: &String) -> (r: Option<Primitive>)
    ensures
        r == prim_named(name@),
{
    let int_name = String::from_str("Int");
    let float_name = String::from_str("Float");
    let bool_name = String::from_str("Bool");
    let char_name = String::from_str("Char");
    proof {
        reveal_strlit("Int");
        reveal_strlit("Float");
        reveal_strlit("Bool");
        reveal_strlit("Char");
        assert(int_name@ =~= seq!['I', 'n', 't']);
        assert(float_name@ =~= seq!['F', 'l', 'o', 'a', 't']);
        assert(bool_name@ =~= seq!['B', 'o', 'o', 'l']);
        assert(char_name@ =~= seq!['C', 'h', 'a', 'r']);
    }
    if *name == int_name {
        Some(Primitive::Int64)
    } else if *name == float_name {
        Some(Primitive::Float64)
    } else if *name == bool_name {
        Some(Primitive::Bool)
    } else if *name == char_name {
        Some(Primitive::Char)
    } else {
        None
    }
}

impl Parser {
    /// Parses a type: `Int`, `Float`, `Bool`, `Char`, a type in parentheses, or
    /// `a -> b`.
    pub fn parse_type_expression(&mut self) -> (res: Result<Type, ParserError>)
        requires
            pinv(old(self)@),
        ensures
            pinv(final(self)@),
            final(self)@.toks == old(self)@.toks,
            final(self)@.bound == old(self)@.bound,
            outcome_is(sp_type(old(self)@.toks, st(old(self)@, seq![])), res, final(self)@, seq![]),
            res is Ok ==> old(self)@.pos < final(self)@.pos,
        decreases old(self)@.toks.len() - old(self)@.pos, 1nat,
    {
        let a = match self.parse_type_atom() {
            Ok(a) => a,
            Err(e) => return Err(e),
        };
        let t = self.peek();
        if t.tt == TokenType::RArrow {
            self.advance();
            let b = match self.parse_type_expression() {
                Ok(b) => b,
                Err(e) => return Err(e),
            };
            Ok(Type::Function(Box::new(a), Box::new(b)))
        } else {
            Ok(a)
        }
    }

    fn parse_type_atom(&mut self) -> (res: Result<Type, ParserError>)
        requires
            pinv(old(self)@),
        ensures
            pinv(final(self)@),
            final(self)@.toks == old(self)@.toks,
            final(self)@.bound == old(self)@.bound,
            outcome_is(sp_type_atom(old(self)@.toks, st(old(self)@, seq![])), res, final(self)@, seq![]),
            res is Ok ==> old(self)@.pos < final(self)@.pos,
        decreases old(self)@.toks.len() - old(self)@.pos, 0nat,
    {
        let t = self.consume();
        if t.tt == TokenType::UppercaseId {
            match prim_of_name(&t.value) {
                Some(p) => Ok(Type::Primitive(p)),
                None => Err(self.parse_error(ParserErrorKind::UnknownType(t.value))),
            }
        } else if t.tt == TokenType::LParen {
            let ty = match self.parse_type_expression() {
                Ok(ty) => ty,
                Err(e) => return Err(e),
            };
            let c = self.peek();
            if c.tt == TokenType::RParen {
                self.advance();
                Ok(ty)
            } else {
                Err(self.parse_error(ParserErrorKind::Expected(TokenType::RParen, c.tt, c.value)))
            }
        } else {
            Err(self.parse_error(ParserErrorKind::Expected(TokenType::UppercaseId, t.tt, t.value)))
        }
    }
}


impl Parser {
    fn parse_abstr_var(&mut self, ast: &mut AST, type_table: &TypeTable) -> (res: Result<
        usize,
        ParserError,
    >)
        requires
            pinv(old(self)@),
            old(ast).wf(),
        ensures
            pinv(final(self)@),
            final(self)@.toks == old(self)@.toks,
            final(self)@.bound == old(self)@.bound,
            final(ast).wf(),
            grows(old(ast)@, final(ast)@),
            outcome_is(
                sp_abstr_var(old(self)@.toks, st(old(self)@, old(ast)@)),
                res,
                final(self)@,
                final(ast)@,
            ),
            res matches Ok(r) ==> old(self)@.pos < final(self)@.pos && old(ast)@.len() <= r
                < final(ast)@.len() && final(ast)@[r as int].t != ASTNodeType::Module,
        decreases old(self)@.toks.len() - old(self)@.pos, 1nat,
    {
        let left = match self.parse_abstr_var_primary(ast, type_table) {
            Ok(l) => l,
            Err(e) => return Err(e),
        };
        let t = self.peek();
        match t.tt {
            TokenType::Comma => {
                self.advance();
                let right = match self.parse_abstr_var(ast, type_table) {
                    Ok(r) => r,
                    Err(e) => return Err(e),
                };
                let line = self.line();
                let col = self.col();
                Ok(ast.add_pair(left, right, line, col))
            },
            TokenType::DoubleColon => {
                self.advance();
                let type_ = match self.parse_type_expression() {
                    Ok(ty) => ty,
                    Err(e) => return Err(e),
                };
                ast.set_type(left, type_);
                Ok(left)
            },
            TokenType::RParen => {
                self.advance();
                Ok(left)
            },
            _ => Ok(left),
        }
    }

    fn parse_abstr_var_primary(&mut self, ast: &mut AST, type_table: &TypeTable) -> (res: Result<
        usize,
        ParserError,
    >)
        requires
            pinv(old(self)@),
            old(ast).wf(),
        ensures
            pinv(final(self)@),
            final(self)@.toks == old(self)@.toks,
            final(self)@.bound == old(self)@.bound,
            final(ast).wf(),
            grows(old(ast)@, final(ast)@),
            outcome_is(
                sp_abstr_var_primary(old(self)@.toks, st(old(self)@, old(ast)@)),
                res,
                final(self)@,
                final(ast)@,
            ),
            res matches Ok(r) ==> old(self)@.pos < final(self)@.pos && old(ast)@.len() <= r
                < final(ast)@.len() && final(ast)@[r as int].t != ASTNodeType::Module,
        decreases old(self)@.toks.len() - old(self)@.pos, 0nat,
    {
        let t = self.consume();
        match t.tt {
            TokenType::Id => {
                let line = self.line();
                let col = self.col();
                Ok(ast.add_id(t, line, col))
            },
            TokenType::LParen => self.parse_abstr_var(ast, type_table),
            _ => Err(self.parse_error(ParserErrorKind::ExpectedLambdaIdentifier)),
        }
    }
}


fn lit_tt(tt: TokenType) -> (b: bool)
    ensures
        b == is_lit_tt(tt),
{
    tt == TokenType::IntLit || tt == TokenType::FloatLit || tt == TokenType::BoolLit || tt
        == TokenType::CharLit
}

impl Parser {
    fn parse_pat_atom(&mut self, ast: &mut AST) -> (res: Result<usize, ParserError>)
        requires
            pinv(old(self)@),
            old(ast).wf(),
        ensures
            pinv(final(self)@),
            final(self)@.toks == old(self)@.toks,
            final(self)@.bound == old(self)@.bound,
            final(ast).wf(),
            grows(old(ast)@, final(ast)@),
            outcome_is(sp_pat_atom(old(self)@.toks, st(old(self)@, old(ast)@)), res, final(self)@, final(ast)@),
            res matches Ok(r) ==> old(self)@.pos < final(self)@.pos && old(ast)@.len() <= r
                < final(ast)@.len() && final(ast)@[r as int].t != ASTNodeType::Module,
    {
        let t = self.consume();
        let line = self.line();
        let col = self.col();
        if t.tt == TokenType::Id {
            Ok(ast.add_id(t, line, col))
        } else if t.tt == TokenType::UppercaseId {
            if !self.is_bound(&t.value) {
                return Err(self.parse_error(ParserErrorKind::UnboundIdentifier(t.value)));
            }
            Ok(ast.add_id(t, line, col))
        } else if lit_tt(t.tt) {
            Ok(ast.add_lit(t, line, col))
        } else {
            Err(self.parse_error(ParserErrorKind::Expected(TokenType::Id, t.tt, t.value)))
        }
    }

    /// Parses a match pattern: a constructor, variable or literal applied to further
    /// ones, as in `Cons x xs`.
    fn parse_pattern(&mut self, ast: &mut AST) -> (res: Result<usize, ParserError>)
        requires
            pinv(old(self)@),
            old(ast).wf(),
        ensures
            pinv(final(self)@),
            final(self)@.toks == old(self)@.toks,
            final(self)@.bound == old(self)@.bound,
            final(ast).wf(),
            grows(old(ast)@, final(ast)@),
            outcome_is(sp_pattern(old(self)@.toks, st(old(self)@, old(ast)@)), res, final(self)@, final(ast)@),
            res matches Ok(r) ==> old(self)@.pos < final(self)@.pos && old(ast)@.len() <= r
                < final(ast)@.len() && final(ast)@[r as int].t != ASTNodeType::Module,
    {
        let ghost target = sp_pattern(old(self)@.toks, st(old(self)@, old(ast)@));
        let mut left = match self.parse_pat_atom(ast) {
            Ok(a) => a,
            Err(e) => return Err(e),
        };
        loop
            invariant
                pinv(self@),
                self@.toks == old(self)@.toks,
                ast.wf(),
                grows(old(ast)@, ast@),
                old(self)@.pos < self@.pos,
                old(ast)@.len() <= left < ast@.len(),
                ast@[left as int].t != ASTNodeType::Module,
                target == sp_pattern(old(self)@.toks, st(old(self)@, old(ast)@)),
                target == sp_pat_loop(self@.toks, st(self@, ast@), left),
                self@.bound == old(self)@.bound,
            decreases self@.toks.len() - self@.pos,
        {
            let t = self.peek();
            if t.tt == TokenType::Id || t.tt == TokenType::UppercaseId || lit_tt(t.tt) {
                let a = match self.parse_pat_atom(ast) {
                    Ok(a) => a,
                    Err(e) => return Err(e),
                };
                let line = self.line();
                let col = self.col();
                left = ast.add_app(left, a, line, col, false);
            } else {
                return Ok(left);
            }
        }
    }

    /// Whether `Cons` and `Nil` are in scope and `List` is defined, as the list
    /// syntaxes need.
    pub fn may_we_use_list(&self, type_table: &TypeTable) -> (b: bool)
        ensures
            b == may_use_list(self@.bound, tenv(type_table@)),
    {
        let cons = String::from_str("Cons");
        let nil = String::from_str("Nil");
        let list = String::from_str("List");
        proof {
            reveal_strlit("Cons");
            reveal_strlit("Nil");
            reveal_strlit("List");
            assert(cons@ =~= cons_name());
            assert(nil@ =~= nil_name());
            assert(list@ =~= list_name());
        }
        self.is_bound(&cons) && self.is_bound(&nil) && type_table.contains_key(&list)
    }

    /// Turns a string literal into the list of its characters, built with `Cons` and
    /// `Nil`; the type `String` must be an alias to `List Char`.
    pub fn string_to_char_list(
        &mut self,
        t: Token,
        line: usize,
        col: usize,
        ast: &mut AST,
        type_table: &TypeTable,
    ) -> (res: Result<usize, ParserError>)
        requires
            pinv(old(self)@),
            old(ast).wf(),
        ensures
            final(self)@ == old(self)@,
            final(ast).wf(),
            grows(old(ast)@, final(ast)@),
            outcome_is(
                sp_string_list(old(self)@.toks, tenv(type_table@), st(old(self)@, old(ast)@), t@.value, line, col),
                res,
                final(self)@,
                final(ast)@,
            ),
            res matches Ok(r) ==> old(ast)@.len() <= r < final(ast)@.len() && final(ast)@[r as int].t
                != ASTNodeType::Module,
            res matches Ok(r) ==> sp_scan(final(ast)@, r as int) == (if t@.value.len() == 0 {
                ASTStringListScanResult::ListMaybeString
            } else {
                ASTStringListScanResult::ListAndString
            }),
            res matches Ok(r) ==> string_text(final(ast)@, r as int) == t@.value,
            res is Err ==> final(ast)@ == old(ast)@,
    {
        let string_s = String::from_str("String");
        let list_name_s = String::from_str("List");
        proof {
            reveal_strlit("String");
            reveal_strlit("List");
            assert(string_s@ =~= string_name());
            assert(list_name_s@ =~= list_name());
        }
        match type_table.get(&string_s) {
            Some(Type::Alias(_, alias)) => {
                match &**alias {
                    Type::Union(name, args) => {
                        if !(*name == list_name_s) {
                            return Err(self.parse_error(ParserErrorKind::StringTypeMalformed));
                        }
                        if !(args.len() == 1 && matches!(args[0], Type::Primitive(Primitive::Char))) {
                            return Err(self.parse_error(ParserErrorKind::StringTypeMalformed));
                        }
                    },
                    _ => return Err(self.parse_error(ParserErrorKind::StringTypeMalformed)),
                }
            },
            Some(_) => return Err(self.parse_error(ParserErrorKind::StringTypeMalformed)),
            None => return Err(self.parse_error(ParserErrorKind::StringTypeMissing)),
        }
        if !self.may_we_use_list(type_table) {
            return Err(self.parse_error(ParserErrorKind::ListConstructorsMissing));
        }
        let nil_tok = Token { tt: TokenType::Id, value: String::from_str("Nil"), line, col };
        let cons_token = Token { tt: TokenType::Id, value: String::from_str("Cons"), line, col };
        proof {
            reveal_strlit("Nil");
            reveal_strlit("Cons");
            assert(nil_tok.value@ =~= nil_name());
            assert(cons_token.value@ =~= cons_name());
            assert(nil_tok@ == id_tok(nil_name(), line, col));
            assert(cons_token@ == id_tok(cons_name(), line, col));
        }
        let ghost s1 = st(self@, ast@);
        let mut acc = ast.add_id(nil_tok, line, col);
        let chars = string_chars(&t.value);
        let ghost target = sp_str_fold(st(self@, ast@), acc, chars@, chars@.len() as int, line, col);
        let mut i = chars.len();
        while i > 0
            invariant
                pinv(self@),
                self@ == old(self)@,
                ast.wf(),
                grows(old(ast)@, ast@),
                i <= chars@.len(),
                old(ast)@.len() <= acc < ast@.len(),
                ast@[acc as int].t != ASTNodeType::Module,
                cons_token@ == id_tok(cons_name(), line, col),
                target == sp_str_fold(st(self@, ast@), acc, chars@, i as int, line, col),
                sp_scan(ast@, acc as int) == (if i == chars@.len() {
                    ASTStringListScanResult::ListMaybeString
                } else {
                    ASTStringListScanResult::ListAndString
                }),
                string_text(ast@, acc as int) == chars@.subrange(i as int, chars@.len() as int),
            decreases i,
        {
            let ghost a0 = ast@;
            let ghost acc0 = acc;
            let c = chars[i - 1];
            let cons_node = ast.add_id(cons_token.clone(), line, col);
            let ch = Token { tt: TokenType::CharLit, value: char_to_string(c), line, col };
            assert(ch@ == char_tok(c, line, col));
            let char_node = ast.add_lit(ch, line, col);
            let app_node = ast.add_app(cons_node, char_node, line, col, true);
            acc = ast.add_app(app_node, acc, line, col, true);
            proof {
                assert(grows(a0, ast@));
                lemma_scan_frame(a0, ast@, acc0 as int);
                lemma_string_text_frame(a0, ast@, acc0 as int);
                assert(ast@[cons_node as int].t == ASTNodeType::Identifier);
                assert(crate::ast::sp_app_head(ast@, cons_node as int) == cons_node);
                assert(chars@.subrange(i - 1, chars@.len() as int) =~= seq![c]
                    + chars@.subrange(i as int, chars@.len() as int));
            }
            i = i - 1;
        }
        assert(chars@.subrange(0, chars@.len() as int) =~= chars@);
        Ok(acc)
    }
}


/// The names all of `args` bind do not change as the arena grows.
proof fn lemma_names_all_frame(a: Seq<NodeView>, b: Seq<NodeView>, args: Seq<usize>)
    requires
        crate::ast::wf_nodes(a),
        grows(a, b),
        valid_nodes(args, a),
    ensures
        names_all(b, args) == names_all(a, args),
    decreases args.len(),
{
    if args.len() > 0 {
        assert(valid_nodes(args.drop_last(), a)) by {
            assert forall|j: int| 0 <= j < args.drop_last().len() implies #[trigger] args.drop_last()[j]
                < a.len() && a[args.drop_last()[j] as int].t != ASTNodeType::Module by {
                assert(args.drop_last()[j] == args[j]);
            }
        }
        lemma_names_all_frame(a, b, args.drop_last());
        assert(args.last() == args[args.len() - 1]);
        lemma_pattern_names_frame(a, b, args.last() as int);
    }
}

/// Taking out the names just brought in gives back the scope before them.
proof fn lemma_drop_appended(bound: Seq<Seq<char>>, names: Seq<Seq<char>>)
    ensures
        drop_names(bound + names, names.len() as int) == bound,
{
    assert((bound + names).subrange(0, bound.len() as int) =~= bound);
}

impl Parser {
    /// The arguments of an abstraction, up to (not including) its `.`, or its `=` for
    /// an assignment.
    fn parse_abs_args(&mut self, ast: &mut AST, is_assign: bool, type_table: &TypeTable) -> (res: Result<
        Vec<usize>,
        ParserError,
    >)
        requires
            pinv(old(self)@),
            old(ast).wf(),
        ensures
            pinv(final(self)@),
            final(self)@.toks == old(self)@.toks,
            final(self)@.bound == old(self)@.bound,
            final(ast).wf(),
            grows(old(ast)@, final(ast)@),
            seq_outcome_is(
                sp_abs_args(old(self)@.toks, is_assign, st(old(self)@, old(ast)@), seq![]),
                res,
                final(self)@,
                final(ast)@,
            ),
            res matches Ok(v) ==> old(self)@.pos <= final(self)@.pos && valid_nodes(v@, final(ast)@),
    {
        let ghost toks = old(self)@.toks;
        let ghost target = sp_abs_args(toks, is_assign, st(old(self)@, old(ast)@), seq![]);
        let mut args: Vec<usize> = Vec::new();
        loop
            invariant
                pinv(self@),
                self@.toks == toks,
                toks == old(self)@.toks,
                ast.wf(),
                grows(old(ast)@, ast@),
                old(self)@.pos <= self@.pos,
                valid_nodes(args@, ast@),
                target == sp_abs_args(toks, is_assign, st(old(self)@, old(ast)@), seq![]),
                target == sp_abs_args(toks, is_assign, st(self@, ast@), args@),
                self@.bound == old(self)@.bound,
            decreases self@.toks.len() - self@.pos,
        {
            let t = self.peek();
            if t.tt == TokenType::Id || t.tt == TokenType::LParen {
                let a = match self.parse_abstr_var(ast, type_table) {
                    Ok(a) => a,
                    Err(e) => return Err(e),
                };
                args.push(a);
            } else if (t.tt == TokenType::Dot && !is_assign) || (t.tt == TokenType::Assignment
                && is_assign) {
                return Ok(args);
            } else {
                return Err(self.parse_error(ParserErrorKind::UnexpectedLambdaArgument(t.value)));
            }
        }
    }

    /// The elements of a list literal, after its `[`, up to and including its `]`.
    fn parse_list_elems(&mut self, ast: &mut AST, type_table: &TypeTable) -> (res: Result<
        Vec<usize>,
        ParserError,
    >)
        requires
            pinv(old(self)@),
            old(ast).wf(),
        ensures
            pinv(final(self)@),
            final(self)@.toks == old(self)@.toks,
            res is Ok ==> final(self)@.bound == old(self)@.bound,
            final(ast).wf(),
            grows(old(ast)@, final(ast)@),
            seq_outcome_is(
                sp_list_elems(old(self)@.toks, tenv(type_table@), st(old(self)@, old(ast)@), seq![]),
                res,
                final(self)@,
                final(ast)@,
            ),
            res matches Ok(v) ==> old(self)@.pos < final(self)@.pos && valid_nodes(v@, final(ast)@),
        decreases old(self)@.toks.len() - old(self)@.pos, 5nat,
    {
        let ghost toks = old(self)@.toks;
        let ghost tt = tenv(type_table@);
        let ghost target = sp_list_elems(toks, tt, st(old(self)@, old(ast)@), seq![]);
        let mut exp_vec: Vec<usize> = Vec::new();
        loop
            invariant
                pinv(self@),
                self@.toks == toks,
                toks == old(self)@.toks,
                tt == tenv(type_table@),
                ast.wf(),
                grows(old(ast)@, ast@),
                old(self)@.pos <= self@.pos,
                exp_vec@.len() > 0 ==> old(self)@.pos < self@.pos,
                valid_nodes(exp_vec@, ast@),
                target == sp_list_elems(toks, tt, st(old(self)@, old(ast)@), seq![]),
                target == sp_list_elems(toks, tt, st(self@, ast@), exp_vec@),
                self@.bound == old(self)@.bound,
            decreases self@.toks.len() - self@.pos,
        {
            let exp = match self.parse_expression(ast, type_table) {
                Ok(e) => e,
                Err(e) => return Err(e),
            };
            exp_vec.push(exp);
            let c = self.consume();
            if c.tt == TokenType::RBrackets {
                return Ok(exp_vec);
            } else if c.tt == TokenType::Comma {
            } else {
                return Err(self.parse_error(ParserErrorKind::Unparsable));
            }
        }
    }

    /// Parses an abstraction after its `\` (or an assignment after its name): the
    /// arguments, the `.` (or `=`), and the body. Returns the outermost abstraction
    /// (the body itself when there is no argument) and all abstractions made, innermost
    /// first.
    pub fn parse_abstraction(&mut self, ast: &mut AST, is_assign: bool, type_table: &TypeTable) -> (res:
        Result<(usize, Vec<usize>), ParserError>)
        requires
            pinv(old(self)@),
            old(ast).wf(),
        ensures
            pinv(final(self)@),
            final(self)@.toks == old(self)@.toks,
            res is Ok ==> final(self)@.bound == old(self)@.bound,
            final(ast).wf(),
            grows(old(ast)@, final(ast)@),
            abs_outcome_is(
                sp_abstraction(old(self)@.toks, tenv(type_table@), is_assign, st(old(self)@, old(ast)@)),
                res,
                final(self)@,
                final(ast)@,
            ),
            res matches Ok(v) ==> old(self)@.pos < final(self)@.pos && old(ast)@.len() <= v.0
                < final(ast)@.len() && final(ast)@[v.0 as int].t != ASTNodeType::Module,
        decreases old(self)@.toks.len() - old(self)@.pos, 0nat,
    {
        let ghost toks = old(self)@.toks;
        let ghost tt = tenv(type_table@);
        let args = match self.parse_abs_args(ast, is_assign, type_table) {
            Ok(a) => a,
            Err(e) => return Err(e),
        };
        let ghost s1 = st(self@, ast@);
        self.consume();
        let ghost b0 = self@.bound;
        let mut k: usize = 0;
        while k < args.len()
            invariant
                pinv(self@),
                self@.toks == toks,
                self@.pos == adv(toks, s1.pos),
                ast@ == s1.nodes,
                ast.wf(),
                k <= args@.len(),
                valid_nodes(args@, ast@),
                self@.bound == b0 + names_all(ast@, args@.take(k as int)),
            decreases args@.len() - k,
        {
            assert(args@.take(k + 1).drop_last() =~= args@.take(k as int));
            self.bind_node(ast, args[k]);
            k = k + 1;
            assert(self@.bound =~= b0 + names_all(ast@, args@.take(k as int)));
        }
        assert(args@.take(args@.len() as int) =~= args@);
        let e = match self.parse_expression(ast, type_table) {
            Ok(e) => e,
            Err(e) => return Err(e),
        };
        proof {
            lemma_names_all_frame(s1.nodes, ast@, args@);
        }
        let ghost s4 = st(self@, ast@);
        let line = self.line();
        let col = self.col();
        let mut expr = e;
        let mut absts: Vec<usize> = Vec::new();
        let mut i = args.len();
        assert(absts@ =~= Seq::<usize>::empty());
        while i > 0
            invariant
                pinv(self@),
                self@.toks == toks,
                self@.pos == s4.pos,
                line == line_at(toks, s4),
                col == col_at(toks, s4),
                ast.wf(),
                grows(old(ast)@, ast@),
                i <= args@.len(),
                valid_nodes(args@, ast@),
                old(ast)@.len() <= expr < ast@.len(),
                ast@[expr as int].t != ASTNodeType::Module,
                sp_wrap(toks, st(self@, ast@), expr, args@, i as int, absts@) == sp_wrap(
                    toks,
                    s4,
                    e,
                    args@,
                    args@.len() as int,
                    seq![],
                ),
                self@.bound == b0 + names_all(ast@, args@.take(i as int)),
            decreases i,
        {
            let arg = args[i - 1];
            let ghost before = ast@;
            expr = ast.add_abstraction(arg, expr, line, col);
            absts.push(expr);
            proof {
                lemma_names_all_frame(before, ast@, args@.take(i as int));
                assert(args@.take(i as int).drop_last() =~= args@.take(i - 1));
                lemma_drop_appended(
                    b0 + names_all(ast@, args@.take(i - 1)),
                    pattern_names(ast@, arg as int),
                );
                assert(b0 + names_all(ast@, args@.take(i as int)) =~= b0 + names_all(
                    ast@,
                    args@.take(i - 1),
                ) + pattern_names(ast@, arg as int));
            }
            self.unbind_node(ast, arg);
            i = i - 1;
        }
        assert(args@.take(0) =~= Seq::<usize>::empty());
        assert(self@.bound =~= b0);
        Ok((expr, absts))
    }

    /// Parses a match after its `match`: the matched expression, `{`, then cases
    /// `| pattern -> expression` on lines of their own, up to `}`.
    #[verifier::rlimit(40)]
    fn parse_match(&mut self, ast: &mut AST, type_table: &TypeTable) -> (res: Result<
        usize,
        ParserError,
    >)
        requires
            pinv(old(self)@),
            old(ast).wf(),
        ensures
            pinv(final(self)@),
            final(self)@.toks == old(self)@.toks,
            res is Ok ==> final(self)@.bound == old(self)@.bound,
            final(ast).wf(),
            grows(old(ast)@, final(ast)@),
            outcome_is(
                sp_match(old(self)@.toks, tenv(type_table@), st(old(self)@, old(ast)@)),
                res,
                final(self)@,
                final(ast)@,
            ),
            res matches Ok(r) ==> old(self)@.pos < final(self)@.pos && old(ast)@.len() <= r
                < final(ast)@.len() && final(ast)@[r as int].t != ASTNodeType::Module,
        decreases old(self)@.toks.len() - old(self)@.pos, 5nat,
    {
        let ghost toks = old(self)@.toks;
        let ghost tt = tenv(type_table@);
        let ghost target = sp_match(toks, tt, st(old(self)@, old(ast)@));
        let line = self.line();
        let col = self.col();
        let u = match self.parse_expression(ast, type_table) {
            Ok(u) => u,
            Err(e) => return Err(e),
        };
        let t = self.peek();
        if t.tt != TokenType::LBrace {
            return Err(self.parse_error(ParserErrorKind::Expected(TokenType::LBrace, t.tt, t.value)));
        }
        self.advance();
        let mut kids: Vec<usize> = Vec::new();
        kids.push(u);
        assert(kids@ =~= seq![u]);
        loop
            invariant
                pinv(self@),
                self@.toks == toks,
                toks == old(self)@.toks,
                tt == tenv(type_table@),
                ast.wf(),
                grows(old(ast)@, ast@),
                old(self)@.pos < self@.pos,
                valid_nodes(kids@, ast@),
                kids@.len() % 2 == 1,
                target == sp_match(toks, tt, st(old(self)@, old(ast)@)),
                target == finish_match(sp_match_cases(toks, tt, st(self@, ast@), kids@), line, col),
                self@.bound == old(self)@.bound,
            decreases self@.toks.len() - self@.pos,
        {
            let t = self.peek();
            if t.tt == TokenType::Newline {
                self.advance();
            } else if t.tt == TokenType::RBrace {
                self.advance();
                return Ok(ast.add_match(kids, line, col));
            } else if t.tt == TokenType::Bar {
                self.advance();
                let p = match self.parse_pattern(ast) {
                    Ok(p) => p,
                    Err(e) => return Err(e),
                };
                let a = self.peek();
                if a.tt != TokenType::RArrow {
                    return Err(self.parse_error(ParserErrorKind::Expected(TokenType::RArrow, a.tt, a.value)));
                }
                self.advance();
                let ghost nodes_p = ast@;
                let ghost bound_p = self@.bound;
                self.bind_node(ast, p);
                let e = match self.parse_expression(ast, type_table) {
                    Ok(e) => e,
                    Err(e) => return Err(e),
                };
                proof {
                    lemma_pattern_names_frame(nodes_p, ast@, p as int);
                }
                self.unbind_node(ast, p);
                proof {
                    lemma_drop_appended(bound_p, pattern_names(nodes_p, p as int));
                }
                kids.push(p);
                kids.push(e);
            } else {
                return Err(self.parse_error(ParserErrorKind::Expected(TokenType::RBrace, t.tt, t.value)));
            }
        }
    }

    /// Parses a primary expression: an identifier in scope, a literal, a string (as a
    /// list of characters), a match, an abstraction, a list `[a, b]`, or an expression
    /// (or pair) in parentheses or after `$`.
    #[verifier::rlimit(40)]
    fn parse_expr_primary(&mut self, ast: &mut AST, type_table: &TypeTable) -> (res: Result<
        usize,
        ParserError,
    >)
        requires
            pinv(old(self)@),
            old(ast).wf(),
        ensures
            pinv(final(self)@),
            final(self)@.toks == old(self)@.toks,
            res is Ok ==> final(self)@.bound == old(self)@.bound,
            final(ast).wf(),
            grows(old(ast)@, final(ast)@),
            outcome_is(
                sp_primary(old(self)@.toks, tenv(type_table@), st(old(self)@, old(ast)@)),
                res,
                final(self)@,
                final(ast)@,
            ),
            res matches Ok(r) ==> old(self)@.pos < final(self)@.pos && old(ast)@.len() <= r
                < final(ast)@.len() && final(ast)@[r as int].t != ASTNodeType::Module,
            res matches Ok(r) ==> (old(self)@.toks[old(self)@.pos].tt == TokenType::LBrackets
                ==> sp_scan(final(ast)@, r as int) != ASTStringListScanResult::NotList),
            res is Err && !starts_nested(old(self)@.toks[old(self)@.pos].tt) ==> final(ast)@ == old(
                ast,
            )@,
            is_lit_tt(old(self)@.toks[old(self)@.pos].tt) ==> res == Ok::<usize, ParserError>(
                old(ast)@.len() as usize,
            ) && final(ast)@ == old(ast)@.push(
                leaf_view(
                    ASTNodeType::Literal,
                    old(self)@.toks[old(self)@.pos],
                    old(self)@.toks[old(self)@.pos].line,
                    old(self)@.toks[old(self)@.pos].col,
                ),
            ),
            (old(self)@.toks[old(self)@.pos].tt == TokenType::Id || old(self)@.toks[old(
                self,
            )@.pos].tt == TokenType::UppercaseId) ==> (res is Ok) == old(self)@.bound.contains(
                old(self)@.toks[old(self)@.pos].value,
            ) && (res is Ok ==> res == Ok::<usize, ParserError>(old(ast)@.len() as usize)
                && final(ast)@ == old(ast)@.push(
                leaf_view(
                    ASTNodeType::Identifier,
                    old(self)@.toks[old(self)@.pos],
                    old(self)@.toks[old(self)@.pos].line,
                    old(self)@.toks[old(self)@.pos].col,
                ),
            )),
        decreases old(self)@.toks.len() - old(self)@.pos, 2nat,
    {
        let ghost toks = old(self)@.toks;
        let ghost tt = tenv(type_table@);
        let line = self.line();
        let col = self.col();
        let t = self.consume();
        match t.tt {
            TokenType::Id | TokenType::UppercaseId => {
                if !self.is_bound(&t.value) {
                    return Err(self.parse_error(ParserErrorKind::UnboundIdentifier(t.value)));
                }
                Ok(ast.add_id(t, line, col))
            },
            TokenType::StringLit => self.string_to_char_list(t, line, col, ast, type_table),
            TokenType::IntLit | TokenType::FloatLit | TokenType::BoolLit | TokenType::CharLit => {
                Ok(ast.add_lit(t, line, col))
            },
            TokenType::Match => self.parse_match(ast, type_table),
            TokenType::Lambda => {
                self.advance();
                match self.parse_abstraction(ast, false, type_table) {
                    Ok(r) => Ok(r.0),
                    Err(e) => Err(e),
                }
            },
            TokenType::LBrackets => {
                let exp_vec = match self.parse_list_elems(ast, type_table) {
                    Ok(v) => v,
                    Err(e) => return Err(e),
                };
                if !self.may_we_use_list(type_table) {
                    return Err(self.parse_error(ParserErrorKind::ListSyntaxUnavailable));
                }
                let nil_tok = Token { tt: TokenType::Id, value: String::from_str("Nil"), line, col };
                let cons_token = Token { tt: TokenType::Id, value: String::from_str("Cons"), line, col };
                proof {
                    reveal_strlit("Nil");
                    reveal_strlit("Cons");
                    assert(nil_tok.value@ =~= nil_name());
                    assert(cons_token.value@ =~= cons_name());
                    assert(nil_tok@ == id_tok(nil_name(), line, col));
                    assert(cons_token@ == id_tok(cons_name(), line, col));
                }
                let mut arg = ast.add_id(nil_tok, line, col);
                let ghost s3 = st(self@, ast@);
                let ghost fold_target = sp_list_fold(s3, arg, exp_vec@, exp_vec@.len() as int, line, col);
                let mut i = exp_vec.len();
                while i > 0
                    invariant
                        pinv(self@),
                        self@.toks == toks,
                        self@.pos == s3.pos,
                        self@.bound == s3.bound,
                        ast.wf(),
                        grows(old(ast)@, ast@),
                        i <= exp_vec@.len(),
                        valid_nodes(exp_vec@, ast@),
                        old(ast)@.len() <= arg < ast@.len(),
                        ast@[arg as int].t != ASTNodeType::Module,
                        cons_token@ == id_tok(cons_name(), line, col),
                        fold_target == sp_list_fold(st(self@, ast@), arg, exp_vec@, i as int, line, col),
                        sp_scan(ast@, arg as int) != ASTStringListScanResult::NotList,
                    decreases i,
                {
                    let ghost a0 = ast@;
                    let ghost arg0 = arg;
                    let cons_node = ast.add_id(cons_token.clone(), line, col);
                    let app = ast.add_app(cons_node, exp_vec[i - 1], line, col, true);
                    arg = ast.add_app(app, arg, line, col, true);
                    proof {
                        assert(grows(a0, ast@));
                        lemma_scan_frame(a0, ast@, arg0 as int);
                        assert(crate::ast::sp_app_head(ast@, cons_node as int) == cons_node);
                    }
                    i = i - 1;
                }
                Ok(arg)
            },
            TokenType::LParen | TokenType::Dollar => {
                let mut exp = match self.parse_expression(ast, type_table) {
                    Ok(e) => e,
                    Err(e) => return Err(e),
                };
                let nt = self.peek();
                if nt.tt == TokenType::RParen {
                } else if nt.tt == TokenType::Comma {
                    self.advance();
                    let right = match self.parse_expression(ast, type_table) {
                        Ok(r) => r,
                        Err(e) => return Err(e),
                    };
                    exp = ast.add_pair(exp, right, line, col);
                } else {
                    return Err(self.parse_error(ParserErrorKind::Unparsable));
                }
                self.advance();
                Ok(exp)
            },
            _ => Err(self.parse_error(ParserErrorKind::UnexpectedTokenInPrimary(t.tt, t.value))),
        }
    }

    /// Parses an expression: a primary expression applied to what follows it, up to a
    /// token that ends expressions (`)`, `]`, `,`, `::`, `{`, a new line, the end).
    pub fn parse_expression(&mut self, ast: &mut AST, type_table: &TypeTable) -> (res: Result<
        usize,
        ParserError,
    >)
        requires
            pinv(old(self)@),
            old(ast).wf(),
        ensures
            pinv(final(self)@),
            final(self)@.toks == old(self)@.toks,
            res is Ok ==> final(self)@.bound == old(self)@.bound,
            res is Ok ==> is_terminator(final(self)@.toks[final(self)@.pos].tt),
            final(ast).wf(),
            grows(old(ast)@, final(ast)@),
            outcome_is(
                sp_expression(old(self)@.toks, tenv(type_table@), st(old(self)@, old(ast)@)),
                res,
                final(self)@,
                final(ast)@,
            ),
            res matches Ok(r) ==> old(self)@.pos < final(self)@.pos && old(ast)@.len() <= r
                < final(ast)@.len() && final(ast)@[r as int].t != ASTNodeType::Module,
        decreases old(self)@.toks.len() - old(self)@.pos, 4nat,
    {
        let ghost toks = old(self)@.toks;
        let ghost tt = tenv(type_table@);
        let ghost target = sp_expression(toks, tt, st(old(self)@, old(ast)@));
        let mut left = match self.parse_expr_primary(ast, type_table) {
            Ok(l) => l,
            Err(e) => return Err(e),
        };
        loop
            invariant
                pinv(self@),
                self@.toks == toks,
                toks == old(self)@.toks,
                tt == tenv(type_table@),
                ast.wf(),
                grows(old(ast)@, ast@),
                old(self)@.pos < self@.pos,
                old(ast)@.len() <= left < ast@.len(),
                ast@[left as int].t != ASTNodeType::Module,
                target == sp_expression(toks, tt, st(old(self)@, old(ast)@)),
                target == sp_expr_loop(toks, tt, st(self@, ast@), left),
                self@.bound == old(self)@.bound,
            decreases self@.toks.len() - self@.pos,
        {
            let line = self.line();
            let col = self.col();
            let tk = self.peek();
            match tk.tt {
                TokenType::LParen => {
                    self.advance();
                    let right = match self.parse_expression(ast, type_table) {
                        Ok(r) => r,
                        Err(e) => return Err(e),
                    };
                    let c = self.peek();
                    if c.tt == TokenType::RParen {
                        self.advance();
                    } else {
                        return Err(self.parse_error(
                            ParserErrorKind::ExpectedClosingParenthesis(tk.tt, tk.value),
                        ));
                    }
                    left = ast.add_app(left, right, line, col, false);
                },
                TokenType::Dollar => {
                    self.advance();
                    let right = match self.parse_expression(ast, type_table) {
                        Ok(r) => r,
                        Err(e) => return Err(e),
                    };
                    let c = self.peek();
                    if c.tt == TokenType::RParen {
                        return Err(self.parse_error(ParserErrorKind::UnexpectedClosingParenthesis));
                    }
                    left = ast.add_app(left, right, line, col, true);
                },
                TokenType::RParen
                | TokenType::EOF
                | TokenType::Newline
                | TokenType::DoubleColon
                | TokenType::LBrace
                | TokenType::RBrackets
                | TokenType::Comma => {
                    return Ok(left);
                },
                TokenType::Lambda => {
                    self.advance();
                    match self.parse_abstraction(ast, false, type_table) {
                        Ok(_) => {},
                        Err(e) => return Err(e),
                    }
                },
                TokenType::Match => {
                    self.advance();
                    let match_ = match self.parse_match(ast, type_table) {
                        Ok(m) => m,
                        Err(e) => return Err(e),
                    };
                    left = ast.add_app(left, match_, line, col, false);
                },
                TokenType::FloatLit
                | TokenType::CharLit
                | TokenType::IntLit
                | TokenType::BoolLit
                | TokenType::StringLit => {
                    let right = match self.parse_expr_primary(ast, type_table) {
                        Ok(r) => r,
                        Err(e) => return Err(e),
                    };
                    left = ast.add_app(left, right, line, col, false);
                },
                TokenType::Id | TokenType::UppercaseId => {
                    if tk.is_infix_id() {
                        let id_node = match self.parse_expr_primary(ast, type_table) {
                            Ok(r) => r,
                            Err(e) => return Err(e),
                        };
                        let right = match self.parse_expression(ast, type_table) {
                            Ok(r) => r,
                            Err(e) => return Err(e),
                        };
                        left = ast.add_app(id_node, left, line, col, false);
                        left = ast.add_app(left, right, line, col, false);
                    } else {
                        let id_node = match self.parse_expr_primary(ast, type_table) {
                            Ok(r) => r,
                            Err(e) => return Err(e),
                        };
                        left = ast.add_app(left, id_node, line, col, false);
                    }
                },
                _ => {
                    return Err(self.parse_error(
                        ParserErrorKind::UnexpectedTokenInExpression(tk.tt, tk.value),
                    ));
                },
            }
        }
    }
}

} // verus!

use vstd::prelude::*;

use super::parse_expression::{
    col_at, is_terminator, line_at, progress, push, sp_abstr_var, sp_abstr_var_primary,
    sp_expr_loop, sp_expression, sp_match, sp_primary, sp_type, step, Outcome, TEnv, PS,
};
use super::pattern_names;
use crate::ast::{grows, inner_view};
use crate::node::NodeView;
use crate::node::{is_lit_tt, ASTNodeType};
use crate::token::{TokenType, TokenView};

verus! {

/// The loop over what follows an expression only ends at a token that ends expressions.
pub proof fn lemma_loop_ends_at_terminator(toks: Seq<TokenView>, tt: TEnv, s: PS, left: usize)
    ensures
        sp_expr_loop(toks, tt, s, left) matches Outcome::Done(s2, _) ==> is_terminator(
            toks[s2.pos].tt,
        ),
    decreases toks.len() - s.pos,
{
    let line = line_at(toks, s);
    let col = col_at(toks, s);
    let tk = toks[s.pos];
    if tk.tt == TokenType::LParen {
        let s1 = step(toks, s);
        if progress(toks, s, s1) {
            if let Outcome::Done(s2, right) = sp_expression(toks, tt, s1) {
                if toks[s2.pos].tt == TokenType::RParen {
                    let s3 = push(
                        step(toks, s2),
                        inner_view(ASTNodeType::Application, seq![left, right], line, col, false),
                    );
                    if progress(toks, s, s3) {
                        lemma_loop_ends_at_terminator(toks, tt, s3, s2.nodes.len() as usize);
                    }
                }
            }
        }
    } else if tk.tt == TokenType::Dollar {
        let s1 = step(toks, s);
        if progress(toks, s, s1) {
            if let Outcome::Done(s2, right) = sp_expression(toks, tt, s1) {
                let s3 = push(
                    s2,
                    inner_view(ASTNodeType::Application, seq![left, right], line, col, true),
                );
                if progress(toks, s, s3) {
                    lemma_loop_ends_at_terminator(toks, tt, s3, s2.nodes.len() as usize);
                }
            }
        }
    } else if is_terminator(tk.tt) {
    } else if tk.tt == TokenType::Lambda {
        let s1 = step(toks, s);
        if progress(toks, s, s1) {
            if let Outcome::Done(s2, _) = super::parse_expression::sp_abstraction(toks, tt, false, s1) {
                if progress(toks, s, s2) {
                    lemma_loop_ends_at_terminator(toks, tt, s2, left);
                }
            }
        }
    } else if tk.tt == TokenType::Match {
        let s1 = step(toks, s);
        if progress(toks, s, s1) {
            if let Outcome::Done(s2, m) = sp_match(toks, tt, s1) {
                let s3 = push(
                    s2,
                    inner_view(ASTNodeType::Application, seq![left, m], line, col, false),
                );
                if progress(toks, s, s3) {
                    lemma_loop_ends_at_terminator(toks, tt, s3, s2.nodes.len() as usize);
                }
            }
        }
    } else if is_lit_tt(tk.tt) || tk.tt == TokenType::StringLit {
        if let Outcome::Done(s1, right) = sp_primary(toks, tt, s) {
            let s2 = push(
                s1,
                inner_view(ASTNodeType::Application, seq![left, right], line, col, false),
            );
            if progress(toks, s, s2) {
                lemma_loop_ends_at_terminator(toks, tt, s2, s1.nodes.len() as usize);
            }
        }
    } else if tk.tt == TokenType::Id || tk.tt == TokenType::UppercaseId {
        if tk.is_infix_id() {
            if let Outcome::Done(s1, id_node) = sp_primary(toks, tt, s) {
                if progress(toks, s, s1) {
                    if let Outcome::Done(s2, right) = sp_expression(toks, tt, s1) {
                        let s3 = push(
                            s2,
                            inner_view(ASTNodeType::Application, seq![id_node, left], line, col, false),
                        );
                        let a1 = s2.nodes.len() as usize;
                        let s4 = push(
                            s3,
                            inner_view(ASTNodeType::Application, seq![a1, right], line, col, false),
                        );
                        if progress(toks, s, s4) {
                            lemma_loop_ends_at_terminator(toks, tt, s4, s3.nodes.len() as usize);
                        }
                    }
                }
            }
        } else {
            if let Outcome::Done(s1, id_node) = sp_primary(toks, tt, s) {
                let s2 = push(
                    s1,
                    inner_view(ASTNodeType::Application, seq![left, id_node], line, col, false),
                );
                if progress(toks, s, s2) {
                    lemma_loop_ends_at_terminator(toks, tt, s2, s1.nodes.len() as usize);
                }
            }
        }
    }
}

/// An expression always ends just before a token that ends expressions: `)`, `]`, `,`,
/// `::`, `{`, a new line, or the end of the input.
pub proof fn law_expression_ends_at_terminator(toks: Seq<TokenView>, tt: TEnv, s: PS)
    ensures
        sp_expression(toks, tt, s) matches Outcome::Done(s2, _) ==> is_terminator(toks[s2.pos].tt),
{
    if let Outcome::Done(s1, left) = sp_primary(toks, tt, s) {
        lemma_loop_ends_at_terminator(toks, tt, s1, left);
    }
}

/// An infix operator takes all that follows it, up to the end of the expression, as its
/// right operand: `left op rest` is parsed as the application of `op` to `left`, applied
/// to the parse of the whole of `rest`; the expression ends there.
pub proof fn law_infix_operand_is_rest(toks: Seq<TokenView>, tt: TEnv, s: PS, left: usize)
    requires
        0 <= s.pos < toks.len(),
        toks[s.pos].is_infix_id(),
        s.nodes.len() <= usize::MAX,
    ensures
        sp_expr_loop(toks, tt, s, left) matches Outcome::Done(s2, r) ==> s2.nodes.len() <= usize::MAX
            ==> {
            &&& sp_primary(toks, tt, s) matches Outcome::Done(s1, op)
            &&& op == s.nodes.len()
            &&& sp_expression(toks, tt, s1) matches Outcome::Done(s3, right)
            &&& s2.pos == s3.pos
            &&& s2.nodes[r as int].t == ASTNodeType::Application
            &&& s2.nodes[r as int].children.len() == 2
            &&& s2.nodes[r as int].children[1] == right
            &&& s2.nodes[s2.nodes[r as int].children[0] as int].t == ASTNodeType::Application
            &&& s2.nodes[s2.nodes[r as int].children[0] as int].children == seq![op, left]
        },
{
    let line = line_at(toks, s);
    let col = col_at(toks, s);
    if let Outcome::Done(s1, id_node) = sp_primary(toks, tt, s) {
        if progress(toks, s, s1) {
            if let Outcome::Done(s2, right) = sp_expression(toks, tt, s1) {
                law_expression_ends_at_terminator(toks, tt, s1);
                let s3 = push(
                    s2,
                    inner_view(ASTNodeType::Application, seq![id_node, left], line, col, false),
                );
                let a1 = s2.nodes.len() as usize;
                let s4 = push(
                    s3,
                    inner_view(ASTNodeType::Application, seq![a1, right], line, col, false),
                );
                assert(sp_expr_loop(toks, tt, s4, s3.nodes.len() as usize) == Outcome::Done(
                    s4,
                    s3.nodes.len() as usize,
                ));
                assert(s4.nodes[s3.nodes.len() as int] == inner_view(
                    ASTNodeType::Application,
                    seq![a1, right],
                    line,
                    col,
                    false,
                ));
                if s4.nodes.len() <= usize::MAX {
                    assert(s4.nodes[a1 as int] == inner_view(
                        ASTNodeType::Application,
                        seq![id_node, left],
                        line,
                        col,
                        false,
                    ));
                }
            }
        }
    }
}

/// `left $ rest` applies `left` to the parse of the whole of `rest`, marked as written
/// with `$`; the expression ends there.
pub proof fn law_dollar_argument_is_rest(toks: Seq<TokenView>, tt: TEnv, s: PS, left: usize)
    requires
        0 <= s.pos < toks.len(),
        toks[s.pos].tt == TokenType::Dollar,
    ensures
        sp_expr_loop(toks, tt, s, left) matches Outcome::Done(s2, r) ==> s2.nodes.len() <= usize::MAX
            ==> {
            &&& sp_expression(toks, tt, step(toks, s)) matches Outcome::Done(s3, right)
            &&& s2.pos == s3.pos
            &&& s2.nodes[r as int] == inner_view(
                ASTNodeType::Application,
                seq![left, right],
                toks[s.pos].line,
                toks[s.pos].col,
                true,
            )
        },
{
    let s1 = step(toks, s);
    if progress(toks, s, s1) {
        if let Outcome::Done(s2, right) = sp_expression(toks, tt, s1) {
            law_expression_ends_at_terminator(toks, tt, s1);
            if toks[s2.pos].tt != TokenType::RParen {
                let s3 = push(
                    s2,
                    inner_view(
                        ASTNodeType::Application,
                        seq![left, right],
                        line_at(toks, s),
                        col_at(toks, s),
                        true,
                    ),
                );
                assert(sp_expr_loop(toks, tt, s3, s2.nodes.len() as usize) == Outcome::Done(
                    s3,
                    s2.nodes.len() as usize,
                ));
            }
        }
    }
}

/// `left match ...` applies `left` to the match; when the match ends the expression,
/// that application is the result.
pub proof fn law_match_argument(toks: Seq<TokenView>, tt: TEnv, s: PS, left: usize)
    requires
        0 <= s.pos < toks.len(),
        toks[s.pos].tt == TokenType::Match,
    ensures
        sp_expr_loop(toks, tt, s, left) matches Outcome::Done(s2, r) ==> s2.nodes.len() <= usize::MAX
            ==> {
            &&& sp_match(toks, tt, step(toks, s)) matches Outcome::Done(s3, m)
            &&& is_terminator(toks[s3.pos].tt) ==> s2.pos == s3.pos && s2.nodes[r as int]
                == inner_view(
                ASTNodeType::Application,
                seq![left, m],
                toks[s.pos].line,
                toks[s.pos].col,
                false,
            )
        },
{
    let s1 = step(toks, s);
    if progress(toks, s, s1) {
        if let Outcome::Done(s2, m) = sp_match(toks, tt, s1) {
            if is_terminator(toks[s2.pos].tt) {
                let s3 = push(
                    s2,
                    inner_view(
                        ASTNodeType::Application,
                        seq![left, m],
                        line_at(toks, s),
                        col_at(toks, s),
                        false,
                    ),
                );
                assert(sp_expr_loop(toks, tt, s3, s2.nodes.len() as usize) == Outcome::Done(
                    s3,
                    s2.nodes.len() as usize,
                ));
            }
        }
    }
}

/// An argument parsed from `s` is a new node, no module, and the nodes that were there
/// before stay as they were.
pub proof fn lemma_abstr_var_grows(toks: Seq<TokenView>, s: PS)
    ensures
        sp_abstr_var(toks, s) matches Outcome::Done(s2, r) ==> s2.nodes.len() <= usize::MAX ==> grows(
            s.nodes,
            s2.nodes,
        ) && s.nodes.len() <= r < s2.nodes.len() && s2.nodes[r as int].t != ASTNodeType::Module,
    decreases toks.len() - s.pos, 1nat,
{
    lemma_abstr_var_primary_grows(toks, s);
    if let Outcome::Done(s1, left) = sp_abstr_var_primary(toks, s) {
        let t = toks[s1.pos];
        if t.tt == TokenType::Comma {
            let s2 = step(toks, s1);
            if progress(toks, s, s2) {
                lemma_abstr_var_grows(toks, s2);
            }
        } else if t.tt == TokenType::DoubleColon {
            let s2 = step(toks, s1);
            if let Outcome::Done(s3, ty) = sp_type(toks, PS { nodes: seq![], ..s2 }) {
                let nodes = s2.nodes.update(
                    left as int,
                    NodeView { type_: Some(ty), ..s2.nodes[left as int] },
                );
                if nodes.len() <= usize::MAX {
                    assert(s.nodes.len() <= left < nodes.len());
                    assert(nodes[left as int].t == s1.nodes[left as int].t);
                    assert forall|i: int| 0 <= i < s.nodes.len() implies #[trigger] nodes[i]
                        == s.nodes[i] by {
                        assert(i != left);
                        assert(s1.nodes[i] == s.nodes[i]);
                    }
                }
            }
        }
    }
}

/// Like `lemma_abstr_var_grows`, for an identifier or a bracketed argument.
pub proof fn lemma_abstr_var_primary_grows(toks: Seq<TokenView>, s: PS)
    ensures
        sp_abstr_var_primary(toks, s) matches Outcome::Done(s2, r) ==> s2.nodes.len() <= usize::MAX ==> grows(
            s.nodes,
            s2.nodes,
        ) && s.nodes.len() <= r < s2.nodes.len() && s2.nodes[r as int].t != ASTNodeType::Module,
    decreases toks.len() - s.pos, 0nat,
{
    let s1 = step(toks, s);
    if toks[s.pos].tt == TokenType::LParen && progress(toks, s, s1) {
        lemma_abstr_var_grows(toks, s1);
    }
}

/// A bracketed argument `(p, q)` becomes a pair whose first part is the argument parsed
/// from `p` and whose second part is the argument parsed from `q`; the names it binds
/// are those of `p`, then those of `q`.
pub proof fn law_pair_argument(toks: Seq<TokenView>, s: PS)
    requires
        s.nodes.len() <= usize::MAX,
    ensures
        sp_abstr_var(toks, s) matches Outcome::Done(s2, r) ==> s2.nodes.len() <= usize::MAX
            ==> (sp_abstr_var_primary(toks, s) matches Outcome::Done(s1, p) ==> (toks[s1.pos].tt
            == TokenType::Comma ==> {
            &&& sp_abstr_var(toks, step(toks, s1)) matches Outcome::Done(s3, q)
            &&& s2.nodes[r as int].t == ASTNodeType::Pair
            &&& s2.nodes[r as int].children == seq![p, q]
            &&& pattern_names(s2.nodes, r as int) == pattern_names(s2.nodes, p as int)
                + pattern_names(s2.nodes, q as int)
        })),
{
    lemma_abstr_var_primary_grows(toks, s);
    if let Outcome::Done(s1, p) = sp_abstr_var_primary(toks, s) {
        if toks[s1.pos].tt == TokenType::Comma {
            let sc = step(toks, s1);
            if progress(toks, s, sc) {
                lemma_abstr_var_grows(toks, sc);
                if let Outcome::Done(s3, q) = sp_abstr_var(toks, sc) {
                    let r = s3.nodes.len();
                    let s2 = push(
                        s3,
                        inner_view(
                            ASTNodeType::Pair,
                            seq![p, q],
                            toks[s3.pos].line,
                            toks[s3.pos].col,
                            false,
                        ),
                    );
                    if s2.nodes.len() <= usize::MAX {
                        assert(s2.nodes[r as int].children == seq![p, q]);
                        assert(s2.nodes[p as int] == s3.nodes[p as int]);
                        assert(s2.nodes[q as int] == s3.nodes[q as int]);
                        assert(s2.nodes[p as int].t != ASTNodeType::Module);
                        assert(s2.nodes[q as int].t != ASTNodeType::Module);
                    }
                }
            }
        }
    }
}

} // verus!

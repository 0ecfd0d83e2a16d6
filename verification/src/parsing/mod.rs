use vstd::prelude::*;

use crate::ast::{child_ok, cons_name, grows, inner_view, leaf_view, nil_name, rank, shape_ok, AST};
use crate::lexer::{lex, sp_lex};
use crate::node::{ASTNodeType, NodeView};
use crate::token::{Token, TokenType, TokenView};
use crate::types::{Primitive, Type, TypeTable};
use crate::types::lookup_type;
use parse_expression::{
    fail_at, list_name, string_type_error, progress, sp_abstraction, sp_expression, st, step, string_name,
    tenv, Outcome, TEnv, PS,
};

pub mod parse_expression;
pub mod laws;

verus! {

/// What went wrong in parsing.
#[derive(Debug)]
pub enum ParserErrorKind {
    /// A token that cannot stand among the arguments of an abstraction.
    UnexpectedLambdaArgument(String),
    /// An abstraction's argument is neither an identifier nor a parenthesised argument.
    ExpectedLambdaIdentifier,
    /// `String` is bound to a type other than an alias to `List Char`.
    StringTypeMalformed,
    /// A string literal where no type `String` is defined.
    StringTypeMissing,
    /// A string literal where `Cons` or `Nil` is not bound, or `List` not defined.
    ListConstructorsMissing,
    UnboundIdentifier(String),
    /// `[...]` where `Cons` or `Nil` is not bound, or `List` not defined.
    ListSyntaxUnavailable,
    UnexpectedTokenInPrimary(TokenType, String),
    /// An argument in parentheses that is not closed; holds the opening token.
    ExpectedClosingParenthesis(TokenType, String),
    /// A `)` right after an argument given with `$`.
    UnexpectedClosingParenthesis,
    UnexpectedTokenInExpression(TokenType, String),
    UnknownType(String),
    /// A token of the first kind was expected; the token found is given.
    Expected(TokenType, TokenType, String),
    /// Input that parsing cannot go on with and has no diagnosis for: an element of a
    /// list literal, or an expression in parentheses, followed by something other than
    /// `]`, `)` or `,`.
    Unparsable,
}

/// A parse error, at the line and column of the token the parser had reached.
#[derive(Debug)]
pub struct ParserError {
    pub kind: ParserErrorKind,
    pub line: usize,
    pub col: usize,
}

pub enum ErrKindView {
    UnexpectedLambdaArgument(Seq<char>),
    ExpectedLambdaIdentifier,
    StringTypeMalformed,
    StringTypeMissing,
    ListConstructorsMissing,
    UnboundIdentifier(Seq<char>),
    ListSyntaxUnavailable,
    UnexpectedTokenInPrimary(TokenType, Seq<char>),
    ExpectedClosingParenthesis(TokenType, Seq<char>),
    UnexpectedClosingParenthesis,
    UnexpectedTokenInExpression(TokenType, Seq<char>),
    UnknownType(Seq<char>),
    Expected(TokenType, TokenType, Seq<char>),
    Unparsable,
}

pub struct ParserErrorView {
    pub kind: ErrKindView,
    pub line: usize,
    pub col: usize,
}

impl View for ParserErrorKind {
    type V = ErrKindView;

    open spec fn view(&self) -> ErrKindView {
        match self {
            ParserErrorKind::UnexpectedLambdaArgument(s) => ErrKindView::UnexpectedLambdaArgument(
                s@,
            ),
            ParserErrorKind::ExpectedLambdaIdentifier => ErrKindView::ExpectedLambdaIdentifier,
            ParserErrorKind::StringTypeMalformed => ErrKindView::StringTypeMalformed,
            ParserErrorKind::StringTypeMissing => ErrKindView::StringTypeMissing,
            ParserErrorKind::ListConstructorsMissing => ErrKindView::ListConstructorsMissing,
            ParserErrorKind::UnboundIdentifier(s) => ErrKindView::UnboundIdentifier(s@),
            ParserErrorKind::ListSyntaxUnavailable => ErrKindView::ListSyntaxUnavailable,
            ParserErrorKind::UnexpectedTokenInPrimary(t, s) => ErrKindView::UnexpectedTokenInPrimary(
                *t,
                s@,
            ),
            ParserErrorKind::ExpectedClosingParenthesis(t, s) =>
                ErrKindView::ExpectedClosingParenthesis(*t, s@),
            ParserErrorKind::UnexpectedClosingParenthesis =>
                ErrKindView::UnexpectedClosingParenthesis,
            ParserErrorKind::UnexpectedTokenInExpression(t, s) =>
                ErrKindView::UnexpectedTokenInExpression(*t, s@),
            ParserErrorKind::UnknownType(s) => ErrKindView::UnknownType(s@),
            ParserErrorKind::Expected(e, t, s) => ErrKindView::Expected(*e, *t, s@),
            ParserErrorKind::Unparsable => ErrKindView::Unparsable,
        }
    }
}

impl View for ParserError {
    type V = ParserErrorView;

    open spec fn view(&self) -> ParserErrorView {
        ParserErrorView { kind: self.kind@, line: self.line, col: self.col }
    }
}

/// A parser over a token sequence, with the identifiers in scope (innermost last).
pub struct Parser {
    tokens: Vec<Token>,
    pos: usize,
    bound: Vec<String>,
}

/// The parser's state: its tokens, the position of the next token, the names in scope.
pub struct PView {
    pub toks: Seq<TokenView>,
    pub pos: int,
    pub bound: Seq<Seq<char>>,
}

impl View for Parser {
    type V = PView;

    closed spec fn view(&self) -> PView {
        PView {
            toks: self.tokens@.map_values(|t: Token| t@),
            pos: self.pos as int,
            bound: self.bound@.map_values(|s: String| s@),
        }
    }
}

pub open spec fn toks_view(v: Seq<Token>) -> Seq<TokenView> {
    v.map_values(|t: Token| t@)
}

/// A token sequence that ends with its only end-of-input token.
pub open spec fn toks_ok(toks: Seq<TokenView>) -> bool {
    &&& toks.len() > 0
    &&& toks.last().tt == TokenType::EOF
    &&& forall|i: int| 0 <= i < toks.len() - 1 ==> (#[trigger] toks[i]).tt != TokenType::EOF
}

/// The parser's invariant: its position is on a token.
pub open spec fn pinv(p: PView) -> bool {
    &&& toks_ok(p.toks)
    &&& 0 <= p.pos < p.toks.len()
}

/// The position after consuming a token: the end-of-input token is never left.
pub open spec fn adv(toks: Seq<TokenView>, pos: int) -> int {
    if pos + 1 < toks.len() {
        pos + 1
    } else {
        pos
    }
}

/// An error reported at position `pos`.
pub open spec fn perr(toks: Seq<TokenView>, pos: int, kind: ErrKindView) -> ParserErrorView {
    ParserErrorView { kind, line: toks[pos].line, col: toks[pos].col }
}

/// The names an argument or a pattern binds: its lower-case identifiers, left to right.
pub open spec fn pattern_names(nodes: Seq<NodeView>, i: int) -> Seq<Seq<char>>
    decreases rank(nodes, i),
{
    let n = nodes[i];
    if n.t == ASTNodeType::Identifier {
        match n.info {
            Some(tk) => if tk.tt == TokenType::Id {
                seq![tk.value]
            } else {
                seq![]
            },
            None => seq![],
        }
    } else if n.t == ASTNodeType::Pair || n.t == ASTNodeType::Application {
        let a = n.children[0] as int;
        let b = n.children[1] as int;
        if 0 <= a && 0 <= b && rank(nodes, a) < rank(nodes, i) && rank(nodes, b) < rank(nodes, i) {
            pattern_names(nodes, a) + pattern_names(nodes, b)
        } else {
            seq![]
        }
    } else {
        seq![]
    }
}

/// `bound` without its last `k` names.
pub open spec fn drop_names(bound: Seq<Seq<char>>, k: int) -> Seq<Seq<char>> {
    if k <= bound.len() {
        bound.subrange(0, bound.len() - k)
    } else {
        seq![]
    }
}

/// The names an argument binds do not change as the arena grows.
pub proof fn lemma_pattern_names_frame(a: Seq<NodeView>, b: Seq<NodeView>, i: int)
    requires
        crate::ast::wf_nodes(a),
        grows(a, b),
        0 <= i < a.len(),
    ensures
        pattern_names(b, i) == pattern_names(a, i),
    decreases rank(a, i),
{
    assert(b[i] == a[i]);
    assert(crate::ast::shape_ok(a, i));
    let n = a[i];
    if n.t == ASTNodeType::Pair || n.t == ASTNodeType::Application {
        let x = n.children[0] as int;
        let y = n.children[1] as int;
        assert(child_ok(a, i, x));
        assert(child_ok(a, i, y));
        assert(b[x] == a[x]);
        assert(b[y] == a[y]);
        lemma_pattern_names_frame(a, b, x);
        lemma_pattern_names_frame(a, b, y);
    }
}

impl Parser {
    /// A parser over `tokens`, at its first token, with nothing in scope.
    pub fn new(tokens: Vec<Token>) -> (p: Parser)
        requires
            toks_ok(toks_view(tokens@)),
        ensures
            p@.toks == toks_view(tokens@),
            p@.pos == 0,
            p@.bound == Seq::<Seq<char>>::empty(),
            pinv(p@),
    {
        let p = Parser { tokens, pos: 0, bound: Vec::new() };
        assert(p@.bound =~= Seq::<Seq<char>>::empty());
        p
    }

    /// The next token.
    pub fn peek(&self) -> (t: Token)
        requires
            pinv(self@),
        ensures
            t@ == self@.toks[self@.pos],
    {
        self.tokens[self.pos].clone()
    }

    /// Moves past the next token, unless it ends the input.
    pub fn advance(&mut self)
        requires
            pinv(old(self)@),
        ensures
            final(self)@ == (PView { pos: adv(old(self)@.toks, old(self)@.pos), ..old(self)@ }),
    {
        if self.pos < self.tokens.len() - 1 {
            self.pos = self.pos + 1;
        }
    }

    /// The next token, which is moved past.
    pub fn consume(&mut self) -> (t: Token)
        requires
            pinv(old(self)@),
        ensures
            t@ == old(self)@.toks[old(self)@.pos],
            final(self)@ == (PView { pos: adv(old(self)@.toks, old(self)@.pos), ..old(self)@ }),
    {
        let t = self.peek();
        self.advance();
        t
    }

    /// The line of the next token.
    pub fn line(&self) -> (l: usize)
        requires
            pinv(self@),
        ensures
            l == self@.toks[self@.pos].line,
    {
        self.tokens[self.pos].line
    }

    /// The column of the next token.
    pub fn col(&self) -> (c: usize)
        requires
            pinv(self@),
        ensures
            c == self@.toks[self@.pos].col,
    {
        self.tokens[self.pos].col
    }

    /// An error at the next token.
    pub fn parse_error(&self, kind: ParserErrorKind) -> (e: ParserError)
        requires
            pinv(self@),
        ensures
            e@ == perr(self@.toks, self@.pos, kind@),
    {
        ParserError { kind, line: self.line(), col: self.col() }
    }

    /// Whether `name` is in scope.
    pub fn is_bound(&self, name: &String) -> (b: bool)
        ensures
            b == self@.bound.contains(name@),
    {
        let mut i: usize = 0;
        while i < self.bound.len()
            invariant
                i <= self.bound@.len(),
                forall|j: int| 0 <= j < i ==> self@.bound[j] != name@,
            decreases self.bound@.len() - i,
        {
            if self.bound[i] == *name {
                assert(self@.bound[i as int] == name@);
                return true;
            }
            i = i + 1;
        }
        false
    }

    /// Brings `name` into scope.
    pub fn bind_name(&mut self, name: String)
        ensures
            final(self)@ == (PView { bound: old(self)@.bound.push(name@), ..old(self)@ }),
    {
        self.bound.push(name);
        assert(self@.bound =~= old(self)@.bound.push(name@));
    }

    /// Brings the names of argument (or pattern) `arg` into scope.
    pub fn bind_node(&mut self, ast: &AST, arg: usize)
        requires
            ast.wf(),
            arg < ast@.len(),
        ensures
            final(self)@ == (PView {
                bound: old(self)@.bound + pattern_names(ast@, arg as int),
                ..old(self)@
            }),
        decreases rank(ast@, arg as int),
    {
        let n = ast.get(arg);
        proof {
            assert(shape_ok(ast@, arg as int));
        }
        match n.t {
            ASTNodeType::Identifier => {
                match &n.info {
                    Some(tk) => {
                        if tk.tt == TokenType::Id {
                            self.bind_name(tk.value.clone());
                            assert(self@.bound =~= old(self)@.bound + pattern_names(
                                ast@,
                                arg as int,
                            ));
                        } else {
                            assert(self@.bound =~= old(self)@.bound + pattern_names(
                                ast@,
                                arg as int,
                            ));
                        }
                    },
                    None => {},
                }
            },
            ASTNodeType::Pair | ASTNodeType::Application => {
                let a = n.children[0];
                let b = n.children[1];
                proof {
                    assert(child_ok(ast@, arg as int, ast@[arg as int].children[0] as int));
                    assert(child_ok(ast@, arg as int, ast@[arg as int].children[1] as int));
                }
                self.bind_node(ast, a);
                self.bind_node(ast, b);
                assert(self@.bound =~= old(self)@.bound + pattern_names(ast@, arg as int));
            },
            _ => {
                assert(self@.bound =~= old(self)@.bound + pattern_names(ast@, arg as int));
            },
        }
    }

    /// Takes the names of argument (or pattern) `arg` out of scope again.
    pub fn unbind_node(&mut self, ast: &AST, arg: usize)
        requires
            ast.wf(),
            arg < ast@.len(),
        ensures
            final(self)@ == (PView {
                bound: drop_names(old(self)@.bound, pattern_names(ast@, arg as int).len() as int),
                ..old(self)@
            }),
        decreases rank(ast@, arg as int),
    {
        let n = ast.get(arg);
        proof {
            assert(shape_ok(ast@, arg as int));
        }
        match n.t {
            ASTNodeType::Identifier => {
                match &n.info {
                    Some(tk) => {
                        if tk.tt == TokenType::Id {
                            self.bound.pop();
                        }
                    },
                    None => {},
                }
                assert(self@.bound =~= drop_names(
                    old(self)@.bound,
                    pattern_names(ast@, arg as int).len() as int,
                ));
            },
            ASTNodeType::Pair | ASTNodeType::Application => {
                let a = n.children[0];
                let b = n.children[1];
                proof {
                    assert(child_ok(ast@, arg as int, ast@[arg as int].children[0] as int));
                    assert(child_ok(ast@, arg as int, ast@[arg as int].children[1] as int));
                }
                self.unbind_node(ast, b);
                self.unbind_node(ast, a);
                assert(self@.bound =~= drop_names(
                    old(self)@.bound,
                    pattern_names(ast@, arg as int).len() as int,
                ));
            },
            _ => {
                assert(self@.bound =~= drop_names(
                    old(self)@.bound,
                    pattern_names(ast@, arg as int).len() as int,
                ));
            },
        }
    }
}


/// A parsed program: its tree, and the types in scope.
pub struct ParseResult {
    pub ast: AST,
    pub tm: TypeTable,
}

/// The names the prelude brings into scope: the list constructors and arithmetic.
pub open spec fn prelude_names() -> Seq<Seq<char>> {
    seq![nil_name(), cons_name(), seq!['+'], seq!['-'], seq!['*'], seq!['=', '=']]
}

/// The names in scope at the start: the prelude's, or none.
pub open spec fn start_names(with_prelude: bool) -> Seq<Seq<char>> {
    if with_prelude {
        prelude_names()
    } else {
        seq![]
    }
}

/// What parsing knows of the types in scope at the start: the prelude defines `List`,
/// and `String` as an alias to `List Char`; without it, no type is defined.
pub open spec fn start_env(with_prelude: bool) -> TEnv {
    if with_prelude {
        TEnv { list_defined: true, string_err: None }
    } else {
        TEnv { list_defined: false, string_err: Some(ErrKindView::StringTypeMissing) }
    }
}

/// The assignments of a module: lines `name arguments = expression`, each added to the
/// module `m`, its name in scope from its own body on; empty lines are skipped.
pub open spec fn sp_module_items(toks: Seq<TokenView>, te: TEnv, s: PS, m: usize) -> Outcome<()>
    decreases toks.len() - s.pos,
{
    let t = toks[s.pos];
    if t.tt == TokenType::Newline {
        let s1 = step(toks, s);
        if progress(toks, s, s1) {
            sp_module_items(toks, te, s1, m)
        } else {
            Outcome::Abort
        }
    } else if t.tt == TokenType::EOF {
        Outcome::Done(s, ())
    } else if t.tt != TokenType::Id {
        fail_at(toks, s, ErrKindView::Expected(TokenType::Id, t.tt, t.value))
    } else {
        let line = toks[s.pos].line;
        let col = toks[s.pos].col;
        let s1 = step(toks, s);
        let s2 = PS { bound: s1.bound.push(t.value), ..s1 };
        let s3 = PS { nodes: s2.nodes.push(leaf_view(ASTNodeType::Identifier, t, line, col)), ..s2 };
        let id = s2.nodes.len() as usize;
        match sp_abstraction(toks, te, true, s3) {
            Outcome::Done(s4, r) => {
                let a = s4.nodes.len() as usize;
                let n5 = s4.nodes.push(inner_view(ASTNodeType::Assignment, seq![id, r.0], line, col, false));
                let s6 = PS {
                    nodes: n5.update(
                        m as int,
                        NodeView { children: n5[m as int].children.push(a), ..n5[m as int] },
                    ),
                    ..s4
                };
                let nt = toks[s6.pos];
                if nt.tt != TokenType::Newline && nt.tt != TokenType::EOF {
                    fail_at(toks, s6, ErrKindView::Expected(TokenType::Newline, nt.tt, nt.value))
                } else if progress(toks, s, s6) {
                    sp_module_items(toks, te, s6, m)
                } else {
                    Outcome::Abort
                }
            },
            Outcome::Fail(e) => Outcome::Fail(e),
            Outcome::Abort => Outcome::Abort,
        }
    }
}

/// A module: a module node at the root, then its assignments.
pub open spec fn sp_module(toks: Seq<TokenView>, te: TEnv, s: PS) -> Outcome<()> {
    let line = toks[s.pos].line;
    let col = toks[s.pos].col;
    sp_module_items(
        toks,
        te,
        PS { nodes: s.nodes.push(inner_view(ASTNodeType::Module, seq![], line, col, false)), ..s },
        s.nodes.len() as usize,
    )
}

/// The state a parse of the tokens starts in.
pub open spec fn start_state(p: PView, with_prelude: bool) -> PS {
    PS { pos: p.pos, bound: p.bound + start_names(with_prelude), nodes: seq![] }
}

impl Parser {
    /// A parser over the tokens of `s`.
    pub fn from_string(s: String) -> (p: Parser)
        ensures
            p@.toks == sp_lex(s@, 0, 1, 1),
            p@.pos == 0,
            p@.bound == Seq::<Seq<char>>::empty(),
            pinv(p@),
    {
        Parser::new(lex(&s))
    }

    fn bind_str(&mut self, name: &str)
        ensures
            final(self)@ == (PView { bound: old(self)@.bound.push(name@), ..old(self)@ }),
    {
        self.bind_name(String::from_str(name));
    }

    /// Brings the prelude's names into scope and returns its types.
    fn load_prelude(&mut self) -> (tm: TypeTable)
        ensures
            final(self)@ == (PView { bound: old(self)@.bound + prelude_names(), ..old(self)@ }),
            tenv(tm@) == start_env(true),
    {
        self.bind_str("Nil");
        self.bind_str("Cons");
        self.bind_str("+");
        self.bind_str("-");
        self.bind_str("*");
        self.bind_str("==");
        proof {
            reveal_strlit("Nil");
            reveal_strlit("Cons");
            reveal_strlit("+");
            reveal_strlit("-");
            reveal_strlit("*");
            reveal_strlit("==");
            assert("Nil"@ =~= nil_name());
            assert("Cons"@ =~= cons_name());
            assert("+"@ =~= seq!['+']);
            assert("-"@ =~= seq!['-']);
            assert("*"@ =~= seq!['*']);
            assert("=="@ =~= seq!['=', '=']);
            assert(self@.bound =~= old(self)@.bound + prelude_names());
        }
        let mut tm = TypeTable::new();
        let mut list_args = Vec::new();
        list_args.push(Type::TypeVariable(String::from_str("a")));
        tm.insert(String::from_str("List"), Type::Union(String::from_str("List"), list_args));
        let mut char_args = Vec::new();
        char_args.push(Type::Primitive(Primitive::Char));
        let ghost ca = char_args@;
        tm.insert(
            String::from_str("String"),
            Type::Alias(
                String::from_str("String"),
                Box::new(Type::Union(String::from_str("List"), char_args)),
            ),
        );
        proof {
            reveal_strlit("List");
            reveal_strlit("String");
            assert(ca =~= seq![Type::Primitive(Primitive::Char)]);
            assert("List"@ =~= list_name());
            assert("String"@ =~= string_name());
            assert(string_name().len() != list_name().len());
            assert(tm@.last().0 == string_name());
            assert(tm@.drop_last().last().0 == list_name());
            assert(lookup_type(tm@.drop_last(), list_name()) is Some);
            assert(lookup_type(tm@, list_name()) is Some);
            assert(string_type_error(tm@) is None);
            assert(tenv(tm@) == start_env(true));
        }
        tm
    }

    fn start_types(&mut self, with_prelude: bool) -> (tm: TypeTable)
        ensures
            final(self)@ == (PView { bound: old(self)@.bound + start_names(with_prelude), ..old(self)@ }),
            tenv(tm@) == start_env(with_prelude),
    {
        if with_prelude {
            self.load_prelude()
        } else {
            assert(old(self)@.bound + start_names(with_prelude) =~= old(self)@.bound);
            let tm = TypeTable::new();
            assert(tenv(tm@) == start_env(false));
            tm
        }
    }

    /// Parses an expression on its own, in the prelude's scope or in an empty one; the
    /// tree's root is the expression.
    pub fn parse_tl_expression(&mut self, with_prelude: bool) -> (res: Result<ParseResult, ParserError>)
        requires
            pinv(old(self)@),
        ensures
            pinv(final(self)@),
            final(self)@.toks == old(self)@.toks,
            match sp_expression(old(self)@.toks, start_env(with_prelude), start_state(old(self)@, with_prelude)) {
                Outcome::Done(s, r) => res matches Ok(pr) && pr.ast@ == s.nodes && pr.ast.root_index() == r
                    && pr.ast.wf() && tenv(pr.tm@) == start_env(with_prelude) && final(self)@.pos == s.pos
                    && final(self)@.bound == s.bound,
                Outcome::Fail(e) => res matches Err(er) && er@ == e,
                Outcome::Abort => res matches Err(er) && er@.kind == ErrKindView::Unparsable,
            },
    {
        let tm = self.start_types(with_prelude);
        let mut ast = AST::new();
        let e = match self.parse_expression(&mut ast, &tm) {
            Ok(e) => e,
            Err(e) => return Err(e),
        };
        ast.set_root(e);
        Ok(ParseResult { ast, tm })
    }

    /// Parses a module, in the prelude's scope or in an empty one; the tree's root is
    /// the module, at index 0.
    pub fn parse_module(&mut self, with_prelude: bool) -> (res: Result<ParseResult, ParserError>)
        requires
            pinv(old(self)@),
        ensures
            pinv(final(self)@),
            final(self)@.toks == old(self)@.toks,
            match sp_module(old(self)@.toks, start_env(with_prelude), start_state(old(self)@, with_prelude)) {
                Outcome::Done(s, _) => res matches Ok(pr) && pr.ast@ == s.nodes && pr.ast.root_index() == 0
                    && pr.ast.wf() && tenv(pr.tm@) == start_env(with_prelude) && final(self)@.pos == s.pos
                    && final(self)@.bound == s.bound,
                Outcome::Fail(e) => res matches Err(er) && er@ == e,
                Outcome::Abort => res matches Err(er) && er@.kind == ErrKindView::Unparsable,
            },
    {
        let ghost toks = old(self)@.toks;
        let ghost te = start_env(with_prelude);
        let ghost target = sp_module(toks, te, start_state(old(self)@, with_prelude));
        let tm = self.start_types(with_prelude);
        let mut ast = AST::new();
        let line = self.line();
        let col = self.col();
        let m = ast.add_module(line, col);
        loop
            invariant
                pinv(self@),
                self@.toks == toks,
                toks == old(self)@.toks,
                te == start_env(with_prelude),
                tenv(tm@) == te,
                ast.wf(),
                m == 0,
                ast@.len() > 0,
                ast@[0].t == ASTNodeType::Module,
                target == sp_module(toks, te, start_state(old(self)@, with_prelude)),
                target == sp_module_items(toks, te, st(self@, ast@), 0),
            decreases self@.toks.len() - self@.pos,
        {
            let t = self.peek();
            if t.tt == TokenType::Newline {
                self.advance();
            } else if t.tt == TokenType::EOF {
                ast.set_root(m);
                return Ok(ParseResult { ast, tm });
            } else if t.tt != TokenType::Id {
                return Err(self.parse_error(ParserErrorKind::Expected(TokenType::Id, t.tt, t.value)));
            } else {
                let line = self.line();
                let col = self.col();
                let t = self.consume();
                self.bind_name(t.value.clone());
                let id = ast.add_id(t, line, col);
                let e = match self.parse_abstraction(&mut ast, true, &tm) {
                    Ok(r) => r.0,
                    Err(e) => return Err(e),
                };
                let a = ast.add_assignment(id, e, line, col);
                ast.add_to_module(m, a);
                let nt = self.peek();
                if nt.tt != TokenType::Newline && nt.tt != TokenType::EOF {
                    return Err(self.parse_error(
                        ParserErrorKind::Expected(TokenType::Newline, nt.tt, nt.value),
                    ));
                }
            }
        }
    }
}

} // verus!

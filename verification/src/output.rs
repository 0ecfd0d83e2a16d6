use vstd::prelude::*;

use crate::ast::{child_ok, grows, rank, shape_ok, sp_scan, wf_nodes, ASTStringListScanResult, AST};
use crate::node::{node_value, ASTNode, ASTNodeType, NodeView};
use crate::token::TokenType;
use crate::types::{Primitive, Type};

verus! {

// ---------------------------------------------------------------- types as text

pub open spec fn prim_text(p: Primitive) -> Seq<char> {
    match p {
        Primitive::Int64 => "Int"@,
        Primitive::Float64 => "Float"@,
        Primitive::Bool => "Bool"@,
        Primitive::Char => "Char"@,
    }
}

pub open spec fn parens(s: Seq<char>) -> Seq<char> {
    "("@ + s + ")"@
}

pub open spec fn wrap_if(b: bool, s: Seq<char>) -> Seq<char> {
    if b {
        parens(s)
    } else {
        s
    }
}

/// A type argument is bracketed when it is itself built from other types.
pub open spec fn type_needs_parens(t: Type) -> bool {
    match t {
        Type::Function(_, _) => true,
        Type::Union(_, args) => args@.len() > 0,
        _ => false,
    }
}

/// A type as it is written: `Int`, `a -> b`, `List Char`, or the name of an alias or a
/// type variable.
pub open spec fn type_text(t: Type) -> Seq<char>
    decreases t, 0int,
{
    match t {
        Type::Primitive(p) => prim_text(p),
        Type::Function(a, b) => wrap_if(*a is Function, type_text(*a)) + " -> "@ + type_text(*b),
        Type::Union(name, args) => name@ + type_args_text(args@, 0),
        Type::Alias(name, _) => name@,
        Type::TypeVariable(name) => name@,
    }
}

/// The arguments `args[i..]` of a type constructor, each after a space.
pub open spec fn type_args_text(args: Seq<Type>, i: int) -> Seq<char>
    decreases args, args.len() - i,
{
    if 0 <= i < args.len() {
        " "@ + wrap_if(type_needs_parens(args[i]), type_text(args[i])) + type_args_text(args, i + 1)
    } else {
        seq![]
    }
}

// ---------------------------------------------------------------- expressions as text

/// `c` lies below `e` in the arena's order, so that recursion on it ends.
pub open spec fn below(nodes: Seq<NodeView>, e: int, c: int) -> bool {
    0 <= c && rank(nodes, c) < rank(nodes, e)
}

/// A literal as it is written: a character between single quotes, others as they are.
pub open spec fn lit_text(n: NodeView) -> Seq<char> {
    if n.info matches Some(tk) && tk.tt == TokenType::CharLit {
        "'"@ + node_value(n) + "'"@
    } else {
        node_value(n)
    }
}

/// `text`, with the node's type after it when types are shown and it has one.
pub open spec fn with_type(n: NodeView, text: Seq<char>, show_types: bool) -> Seq<char> {
    if show_types && n.type_ is Some {
        parens(text + " :: "@ + type_text(n.type_->0))
    } else {
        text
    }
}

/// The characters of a list of character literals, in order.
pub open spec fn string_text(nodes: Seq<NodeView>, e: int) -> Seq<char>
    decreases rank(nodes, e),
{
    let n = nodes[e];
    let lhs = n.children[0] as int;
    let rhs = n.children[1] as int;
    if n.t == ASTNodeType::Application && nodes[lhs].t == ASTNodeType::Application && below(
        nodes,
        e,
        rhs,
    ) {
        node_value(nodes[nodes[lhs].children[1] as int]) + string_text(nodes, rhs)
    } else {
        seq![]
    }
}

/// A list that scans as a string is written as a string literal of its characters.
pub proof fn law_string_list_prints_as_string(
    nodes: Seq<NodeView>,
    e: int,
    show_types: bool,
    paren: bool,
)
    requires
        0 <= e < nodes.len(),
        sp_scan(nodes, e) == ASTStringListScanResult::ListAndString,
    ensures
        sugar(nodes, e, show_types, paren) == "\""@ + string_text(nodes, e) + "\""@,
{
    assert(nodes[e].t == ASTNodeType::Application);
}

/// The characters of a list do not change as the arena grows.
pub proof fn lemma_string_text_frame(a: Seq<NodeView>, b: Seq<NodeView>, e: int)
    requires
        wf_nodes(a),
        grows(a, b),
        0 <= e < a.len(),
    ensures
        string_text(b, e) == string_text(a, e),
    decreases rank(a, e),
{
    assert(b[e] == a[e]);
    assert(shape_ok(a, e));
    if a[e].t == ASTNodeType::Application {
        let lhs = a[e].children[0] as int;
        let rhs = a[e].children[1] as int;
        assert(child_ok(a, e, lhs));
        assert(child_ok(a, e, rhs));
        assert(b[lhs] == a[lhs]);
        assert(shape_ok(a, lhs));
        if a[lhs].t == ASTNodeType::Application {
            let x = a[lhs].children[1] as int;
            assert(child_ok(a, lhs, x));
            assert(b[x] == a[x]);
        }
        lemma_string_text_frame(a, b, rhs);
    }
}

/// An expression as text: lists of characters as strings, other lists between square
/// brackets, applications by juxtaposition. With `paren`, an application, an
/// abstraction or a match is put between brackets.
pub open spec fn sugar(nodes: Seq<NodeView>, e: int, show_types: bool, paren: bool) -> Seq<char>
    decreases rank(nodes, e), 1int, 0int,
{
    let n = nodes[e];
    let c0 = n.children[0] as int;
    let c1 = n.children[1] as int;
    match n.t {
        ASTNodeType::Identifier => with_type(n, node_value(n), show_types),
        ASTNodeType::Literal => with_type(n, lit_text(n), show_types),
        ASTNodeType::Application => {
            let sc = sp_scan(nodes, e);
            if sc == ASTStringListScanResult::ListAndString {
                "\""@ + string_text(nodes, e) + "\""@
            } else if sc == ASTStringListScanResult::ListNotString {
                "["@ + list_text(nodes, e, show_types) + "]"@
            } else if below(nodes, e, c0) && below(nodes, e, c1) {
                wrap_if(
                    paren,
                    sugar(nodes, c0, show_types, nodes[c0].t != ASTNodeType::Application) + " "@
                        + sugar(nodes, c1, show_types, true),
                )
            } else {
                seq![]
            }
        },
        ASTNodeType::Pair => if below(nodes, e, c0) && below(nodes, e, c1) {
            parens(sugar(nodes, c0, show_types, false) + ", "@ + sugar(nodes, c1, show_types, false))
        } else {
            seq![]
        },
        ASTNodeType::Abstraction => if below(nodes, e, c0) && below(nodes, e, c1) {
            wrap_if(
                paren,
                "\\"@ + sugar(nodes, c0, show_types, false) + ". "@ + sugar(
                    nodes,
                    c1,
                    show_types,
                    false,
                ),
            )
        } else {
            seq![]
        },
        ASTNodeType::Assignment => if below(nodes, e, c0) && below(nodes, e, c1) {
            sugar(nodes, c0, show_types, false) + " = "@ + sugar(nodes, c1, show_types, false)
        } else {
            seq![]
        },
        ASTNodeType::Module => items_text(nodes, e, show_types, 0),
        ASTNodeType::Match => if below(nodes, e, c0) {
            wrap_if(
                paren,
                "match "@ + sugar(nodes, c0, show_types, false) + " {"@ + cases_text(
                    nodes,
                    e,
                    show_types,
                    1,
                ) + "\n}"@,
            )
        } else {
            seq![]
        },
    }
}

/// The elements of a list, separated by commas.
pub open spec fn list_text(nodes: Seq<NodeView>, e: int, show_types: bool) -> Seq<char>
    decreases rank(nodes, e), 0int, 0int,
{
    let n = nodes[e];
    let lhs = n.children[0] as int;
    let rhs = n.children[1] as int;
    let elem = nodes[lhs].children[1] as int;
    if n.t == ASTNodeType::Application && below(nodes, e, lhs) && below(nodes, lhs, elem) && below(
        nodes,
        e,
        rhs,
    ) {
        sugar(nodes, elem, show_types, false) + if nodes[rhs].t == ASTNodeType::Application {
            ", "@ + list_text(nodes, rhs, show_types)
        } else {
            seq![]
        }
    } else {
        seq![]
    }
}

/// The assignments of a module from the `k`-th on, each on a line of its own.
pub open spec fn items_text(nodes: Seq<NodeView>, e: int, show_types: bool, k: int) -> Seq<char>
    decreases rank(nodes, e), 0int, nodes[e].children.len() - k,
{
    let kids = nodes[e].children;
    if 0 <= k < kids.len() {
        let c = kids[k] as int;
        (if below(nodes, e, c) {
            sugar(nodes, c, show_types, false)
        } else {
            seq![]
        }) + "\n"@ + items_text(nodes, e, show_types, k + 1)
    } else {
        seq![]
    }
}

/// The cases of a match from the child `k` on, one per line.
pub open spec fn cases_text(nodes: Seq<NodeView>, e: int, show_types: bool, k: int) -> Seq<char>
    decreases rank(nodes, e), 0int, nodes[e].children.len() - k,
{
    let kids = nodes[e].children;
    if 0 <= k && k + 1 < kids.len() {
        let p = kids[k] as int;
        let x = kids[k + 1] as int;
        if below(nodes, e, p) && below(nodes, e, x) {
            "\n| "@ + sugar(nodes, p, show_types, false) + " -> "@ + sugar(nodes, x, show_types, false)
                + cases_text(nodes, e, show_types, k + 2)
        } else {
            seq![]
        }
    } else {
        seq![]
    }
}

// ---------------------------------------------------------------- writing text

fn put(out: &mut String, s: &str)
    ensures
        final(out)@ == old(out)@ + s@,
{
    out.append(s);
}

/// Writes a type.
pub fn write_type(out: &mut String, t: &Type)
    ensures
        final(out)@ == old(out)@ + type_text(*t),
    decreases t,
{
    match t {
        Type::Primitive(p) => match p {
            Primitive::Int64 => put(out, "Int"),
            Primitive::Float64 => put(out, "Float"),
            Primitive::Bool => put(out, "Bool"),
            Primitive::Char => put(out, "Char"),
        },
        Type::Function(a, b) => {
            let ghost o = out@;
            let bracket = match &**a {
                Type::Function(_, _) => true,
                _ => false,
            };
            if bracket {
                put(out, "(");
                write_type(out, a);
                put(out, ")");
            } else {
                write_type(out, a);
            }
            put(out, " -> ");
            write_type(out, b);
            assert(out@ =~= o + type_text(*t));
        },
        Type::Union(name, args) => {
            let ghost o = out@;
            out.append(name.as_str());
            let mut k: usize = 0;
            while k < args.len()
                invariant
                    k <= args@.len(),
                    *t == Type::Union(*name, *args),
                    out@ + type_args_text(args@, k as int) == o + name@ + type_args_text(args@, 0),
                decreases args@.len() - k,
            {
                let ghost before = out@;
                let bracket = match &args[k] {
                    Type::Function(_, _) => true,
                    Type::Union(_, xs) => xs.len() > 0,
                    _ => false,
                };
                put(out, " ");
                proof {
                    assert(decreases_to!(*t => (*t)->Union_1));
                    assert(decreases_to!(*args => args@));
                    assert(decreases_to!(args@ => args@[k as int]));
                }
                if bracket {
                    put(out, "(");
                    write_type(out, &args[k]);
                    put(out, ")");
                } else {
                    write_type(out, &args[k]);
                }
                assert(out@ + type_args_text(args@, k + 1) =~= before + type_args_text(
                    args@,
                    k as int,
                ));
                k = k + 1;
            }
            assert(out@ =~= o + type_text(*t));
        },
        Type::Alias(name, _) => out.append(name.as_str()),
        Type::TypeVariable(name) => out.append(name.as_str()),
    }
}

/// The text of an identifier or a literal, before any type.
pub open spec fn leaf_text(n: NodeView) -> Seq<char> {
    if n.t == ASTNodeType::Literal {
        lit_text(n)
    } else {
        node_value(n)
    }
}

fn write_leaf(out: &mut String, n: &ASTNode, show_types: bool)
    ensures
        final(out)@ == old(out)@ + with_type(n@, leaf_text(n@), show_types),
{
    let ghost o = out@;
    let typed = show_types && n.type_.is_some();
    let quoted = n.t == ASTNodeType::Literal && match &n.info {
        Some(tk) => tk.tt == TokenType::CharLit,
        None => false,
    };
    if typed {
        put(out, "(");
    }
    if quoted {
        put(out, "'");
    }
    let v = n.get_value();
    out.append(v.as_str());
    if quoted {
        put(out, "'");
    }
    if typed {
        put(out, " :: ");
        match &n.type_ {
            Some(ty) => write_type(out, ty),
            None => {},
        }
        put(out, ")");
    }
    assert(out@ =~= o + with_type(n@, leaf_text(n@), show_types));
}

impl AST {
    /// Writes the characters of a list of character literals.
    fn write_string_body(&self, out: &mut String, e: usize)
        requires
            self.wf(),
            e < self@.len(),
            sp_scan(self@, e as int) == ASTStringListScanResult::ListAndString || sp_scan(
                self@,
                e as int,
            ) == ASTStringListScanResult::ListMaybeString,
        ensures
            final(out)@ == old(out)@ + string_text(self@, e as int),
        decreases rank(self@, e as int),
    {
        let ghost o = out@;
        let n = self.get(e);
        proof {
            assert(shape_ok(self@, e as int));
        }
        if n.t == ASTNodeType::Application {
            let lhs = n.children[0];
            let rhs = n.children[1];
            proof {
                assert(child_ok(self@, e as int, lhs as int));
                assert(child_ok(self@, e as int, rhs as int));
                assert(shape_ok(self@, lhs as int));
            }
            let elem = self.get(lhs).children[1];
            let v = self.get(elem).get_value();
            out.append(v.as_str());
            self.write_string_body(out, rhs);
            assert(out@ =~= o + string_text(self@, e as int));
        } else {
            assert(out@ =~= o + string_text(self@, e as int));
        }
    }

    /// Writes the elements of a list, separated by commas.
    fn write_list_body(&self, out: &mut String, e: usize, show_types: bool)
        requires
            self.wf(),
            e < self@.len(),
            sp_scan(self@, e as int) == ASTStringListScanResult::ListAndString || sp_scan(
                self@,
                e as int,
            ) == ASTStringListScanResult::ListNotString,
        ensures
            final(out)@ == old(out)@ + list_text(self@, e as int, show_types),
        decreases rank(self@, e as int), 0int, 0int,
    {
        let ghost o = out@;
        let n = self.get(e);
        proof {
            assert(shape_ok(self@, e as int));
        }
        let lhs = n.children[0];
        let rhs = n.children[1];
        proof {
            assert(child_ok(self@, e as int, lhs as int));
            assert(child_ok(self@, e as int, rhs as int));
            assert(shape_ok(self@, lhs as int));
        }
        let elem = self.get(lhs).children[1];
        proof {
            assert(child_ok(self@, lhs as int, elem as int));
            assert(shape_ok(self@, rhs as int));
        }
        self.write_sugar(out, elem, show_types, false);
        if self.get(rhs).t == ASTNodeType::Application {
            put(out, ", ");
            self.write_list_body(out, rhs, show_types);
        }
        assert(out@ =~= o + list_text(self@, e as int, show_types));
    }

    /// Writes an application: a list, a string, or a function and its argument.
    #[verifier::spinoff_prover]
    fn write_app(&self, out: &mut String, e: usize, show_types: bool, paren: bool)
        requires
            self.wf(),
            e < self@.len(),
            self@[e as int].t == ASTNodeType::Application,
        ensures
            final(out)@ == old(out)@ + sugar(self@, e as int, show_types, paren),
        decreases rank(self@, e as int), 1int, 0int,
    {
        let ghost o = out@;
        let sc = self.list_string_scan(e);
        if sc == ASTStringListScanResult::ListAndString {
            assert(sugar(self@, e as int, show_types, paren) == "\""@ + string_text(self@, e as int)
                + "\""@);
            put(out, "\"");
            self.write_string_body(out, e);
            put(out, "\"");
            assert(out@ =~= o + sugar(self@, e as int, show_types, paren));
        } else if sc == ASTStringListScanResult::ListNotString {
            assert(sugar(self@, e as int, show_types, paren) == "["@ + list_text(
                self@,
                e as int,
                show_types,
            ) + "]"@);
            put(out, "[");
            self.write_list_body(out, e, show_types);
            put(out, "]");
            assert(out@ =~= o + sugar(self@, e as int, show_types, paren));
        } else {
            let n = self.get(e);
            proof {
                assert(shape_ok(self@, e as int));
            }
            let f = n.children[0];
            let a = n.children[1];
            proof {
                assert(child_ok(self@, e as int, f as int));
                assert(child_ok(self@, e as int, a as int));
            }
            let fp = self.get(f).t != ASTNodeType::Application;
            assert(sugar(self@, e as int, show_types, paren) == wrap_if(
                paren,
                sugar(self@, f as int, show_types, fp) + " "@ + sugar(self@, a as int, show_types, true),
            ));
            let mut inner = String::new();
            self.write_sugar(&mut inner, f, show_types, fp);
            put(&mut inner, " ");
            self.write_sugar(&mut inner, a, show_types, true);
            if paren {
                put(out, "(");
                out.append(inner.as_str());
                put(out, ")");
            } else {
                out.append(inner.as_str());
            }
            assert(out@ =~= o + sugar(self@, e as int, show_types, paren));
        }
    }

    /// Writes the assignments of a module, one per line.
    fn write_items(&self, out: &mut String, e: usize, show_types: bool)
        requires
            self.wf(),
            e < self@.len(),
            self@[e as int].t == ASTNodeType::Module,
        ensures
            final(out)@ == old(out)@ + items_text(self@, e as int, show_types, 0),
        decreases rank(self@, e as int), 1int, 0int,
    {
        let ghost o = out@;
        let kids = &self.get(e).children;
        let mut k: usize = 0;
        while k < kids.len()
            invariant
                self.wf(),
                e < self@.len(),
                kids@ == self@[e as int].children,
                self@[e as int].t == ASTNodeType::Module,
                k <= kids@.len(),
                out@ + items_text(self@, e as int, show_types, k as int) == o + items_text(
                    self@,
                    e as int,
                    show_types,
                    0,
                ),
            decreases kids@.len() - k,
        {
            let ghost before = out@;
            let c = kids[k];
            proof {
                assert(child_ok(self@, e as int, c as int));
            }
            self.write_sugar(out, c, show_types, false);
            put(out, "\n");
            assert(out@ + items_text(self@, e as int, show_types, k + 1) =~= before + items_text(
                self@,
                e as int,
                show_types,
                k as int,
            ));
            k = k + 1;
        }
        assert(out@ =~= o + items_text(self@, e as int, show_types, 0));
    }

    /// Writes a match with its cases.
    fn write_match(&self, out: &mut String, e: usize, show_types: bool, paren: bool)
        requires
            self.wf(),
            e < self@.len(),
            self@[e as int].t == ASTNodeType::Match,
        ensures
            final(out)@ == old(out)@ + sugar(self@, e as int, show_types, paren),
        decreases rank(self@, e as int), 1int, 0int,
    {
        let ghost o = out@;
        proof {
            assert(shape_ok(self@, e as int));
        }
        let kids = &self.get(e).children;
        let u = kids[0];
        proof {
            assert(child_ok(self@, e as int, u as int));
        }
        if paren {
            put(out, "(");
        }
        put(out, "match ");
        self.write_sugar(out, u, show_types, false);
        put(out, " {");
        let ghost mid = out@;
        let mut k: usize = 1;
        while k < kids.len() && k + 1 < kids.len()
            invariant
                self.wf(),
                e < self@.len(),
                kids@ == self@[e as int].children,
                self@[e as int].t == ASTNodeType::Match,
                1 <= k,
                out@ + cases_text(self@, e as int, show_types, k as int) == mid + cases_text(
                    self@,
                    e as int,
                    show_types,
                    1,
                ),
            decreases kids@.len() - k,
        {
            let ghost before = out@;
            let p = kids[k];
            let x = kids[k + 1];
            proof {
                assert(child_ok(self@, e as int, p as int));
                assert(child_ok(self@, e as int, x as int));
            }
            put(out, "\n| ");
            self.write_sugar(out, p, show_types, false);
            put(out, " -> ");
            self.write_sugar(out, x, show_types, false);
            assert(out@ + cases_text(self@, e as int, show_types, k + 2) =~= before + cases_text(
                self@,
                e as int,
                show_types,
                k as int,
            ));
            k = k + 2;
        }
        put(out, "\n}");
        if paren {
            put(out, ")");
        }
        assert(out@ =~= o + sugar(self@, e as int, show_types, paren));
    }

    /// Writes a pair, an abstraction or an assignment: two children with text around.
    #[verifier::spinoff_prover]
    fn write_binary(&self, out: &mut String, e: usize, show_types: bool, paren: bool)
        requires
            self.wf(),
            e < self@.len(),
            self@[e as int].t == ASTNodeType::Pair || self@[e as int].t == ASTNodeType::Abstraction
                || self@[e as int].t == ASTNodeType::Assignment,
        ensures
            final(out)@ == old(out)@ + sugar(self@, e as int, show_types, paren),
        decreases rank(self@, e as int), 1int, 0int,
    {
        let ghost o = out@;
        let n = self.get(e);
        proof {
            assert(shape_ok(self@, e as int));
        }
        let l = n.children[0];
        let r = n.children[1];
        proof {
            assert(child_ok(self@, e as int, l as int));
            assert(child_ok(self@, e as int, r as int));
        }
        let mut left = String::new();
        self.write_sugar(&mut left, l, show_types, false);
        let mut right = String::new();
        self.write_sugar(&mut right, r, show_types, false);
        match n.t {
            ASTNodeType::Pair => {
                assert(sugar(self@, e as int, show_types, paren) == parens(left@ + ", "@ + right@));
                put(out, "(");
                out.append(left.as_str());
                put(out, ", ");
                out.append(right.as_str());
                put(out, ")");
            },
            ASTNodeType::Abstraction => {
                assert(sugar(self@, e as int, show_types, paren) == wrap_if(
                    paren,
                    "\\"@ + left@ + ". "@ + right@,
                ));
                if paren {
                    put(out, "(");
                }
                put(out, "\\");
                out.append(left.as_str());
                put(out, ". ");
                out.append(right.as_str());
                if paren {
                    put(out, ")");
                }
            },
            _ => {
                assert(sugar(self@, e as int, show_types, paren) == left@ + " = "@ + right@);
                out.append(left.as_str());
                put(out, " = ");
                out.append(right.as_str());
            },
        }
        assert(out@ =~= o + sugar(self@, e as int, show_types, paren));
    }

    /// Writes an expression; see `sugar`.
    fn write_sugar(&self, out: &mut String, e: usize, show_types: bool, paren: bool)
        requires
            self.wf(),
            e < self@.len(),
        ensures
            final(out)@ == old(out)@ + sugar(self@, e as int, show_types, paren),
        decreases rank(self@, e as int), 2int, 0int,
    {
        let n = self.get(e);
        match n.t {
            ASTNodeType::Identifier | ASTNodeType::Literal => {
                write_leaf(out, n, show_types);
            },
            ASTNodeType::Application => {
                self.write_app(out, e, show_types, paren);
            },
            ASTNodeType::Module => {
                self.write_items(out, e, show_types);
            },
            ASTNodeType::Match => {
                self.write_match(out, e, show_types, paren);
            },
            _ => {
                self.write_binary(out, e, show_types, paren);
            },
        }
    }

    /// An expression as text: lists of characters as string literals, other lists in
    /// square brackets, and, with `show_types`, each recorded type after its node.
    pub fn to_string_sugar(&self, expr: usize, show_types: bool) -> (s: String)
        requires
            self.wf(),
            expr < self@.len(),
        ensures
            s@ == sugar(self@, expr as int, show_types, false),
    {
        let mut out = String::new();
        self.write_sugar(&mut out, expr, show_types, false);
        assert(out@ =~= sugar(self@, expr as int, show_types, false));
        out
    }
}

/// A redex and what it reduces to: an expression of one tree, and another tree whose
/// root is the result.
pub struct RCPair {
    pub from: usize,
    pub to: AST,
}

/// The text `{:?}` gives for a node.
pub uninterp spec fn node_debug_text(n: NodeView) -> Seq<char>;

/// The lines of the arena's first `k` nodes, each as `{:?}` writes it.
pub open spec fn debug_lines(nodes: Seq<NodeView>, k: int) -> Seq<char>
    decreases k,
{
    if k <= 0 {
        seq![]
    } else {
        debug_lines(nodes, k - 1) + node_debug_text(nodes[k - 1]) + "\n"@
    }
}

/// `format!("{:?}", n)`: the derived `Debug` text of a node. The contract names the
/// text and says only that it depends on the node alone.
#[verifier::external_body]
fn debug_node(n: &ASTNode) -> (s: String)
    ensures
        s@ == node_debug_text(n@),
{
    format!("{:?}", n)
}

impl AST {
    /// A reduction as text: the redex, an arrow, and the tree it reduces to.
    pub fn rc_to_str(&self, rc: &RCPair) -> (s: String)
        requires
            self.wf(),
            rc.from < self@.len(),
            rc.to.wf(),
            rc.to.root_index() < rc.to@.len(),
        ensures
            s@ == sugar(self@, rc.from as int, false, false) + " -> "@ + sugar(
                rc.to@,
                rc.to.root_index() as int,
                false,
                false,
            ),
    {
        let mut s = self.to_string_sugar(rc.from, false);
        put(&mut s, " -> ");
        let r = rc.to.to_string_sugar(rc.to.get_root(), false);
        s.append(r.as_str());
        s
    }

    /// Every node of the arena in order, one per line, as `{:?}` writes it.
    pub fn print_vec_string(&self) -> (s: String)
        ensures
            s@ == debug_lines(self@, self@.len() as int),
    {
        let mut s = String::new();
        let mut i: usize = 0;
        while i < self.len()
            invariant
                i <= self@.len(),
                s@ == debug_lines(self@, i as int),
            decreases self@.len() - i,
        {
            let line = debug_node(self.get(i));
            s.append(line.as_str());
            put(&mut s, "\n");
            i = i + 1;
        }
        s
    }
}

} // verus!

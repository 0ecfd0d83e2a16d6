use vstd::prelude::*;

use crate::node::{is_lit_tt, lit_type_of, node_value, ASTNode, ASTNodeType, NodeView};
use crate::token::{Token, TokenType, TokenView};
use crate::types::{Primitive, Type};

verus! {

/// What a scan finds of an expression: a list of characters (a string), a list of
/// something else, a list that may be either (the empty list), or no list at all.
#[derive(Eq, PartialEq, Structural, Copy, Clone, Debug)]
pub enum ASTStringListScanResult {
    ListAndString,
    ListNotString,
    ListMaybeString,
    NotList,
}

/// A syntax tree held in an arena: nodes refer to their children by index.
pub struct AST {
    vec: Vec<ASTNode>,
    pub root: usize,
}

impl View for AST {
    type V = Seq<NodeView>;

    closed spec fn view(&self) -> Seq<NodeView> {
        self.vec@.map_values(|n: ASTNode| n@)
    }
}

/// `c`, the child of node `i`, is a node of the arena that is no module; below a node
/// other than a module it comes earlier in the arena.
pub open spec fn child_ok(nodes: Seq<NodeView>, i: int, c: int) -> bool {
    &&& 0 <= c < nodes.len()
    &&& nodes[c].t != ASTNodeType::Module
    &&& nodes[i].t != ASTNodeType::Module ==> c < i
}

/// Node `i` has the children and token that its kind asks for.
pub open spec fn shape_ok(nodes: Seq<NodeView>, i: int) -> bool {
    let n = nodes[i];
    match n.t {
        ASTNodeType::Identifier => n.info matches Some(tk) && (tk.tt == TokenType::Id || tk.tt
            == TokenType::UppercaseId) && n.children.len() == 0,
        ASTNodeType::Literal => n.info matches Some(tk) && is_lit_tt(tk.tt) && n.children.len()
            == 0,
        ASTNodeType::Pair | ASTNodeType::Application | ASTNodeType::Abstraction => n.children.len()
            == 2,
        ASTNodeType::Assignment => n.children.len() == 2 && 0 <= n.children[0] < nodes.len()
            && nodes[n.children[0] as int].t == ASTNodeType::Identifier,
        ASTNodeType::Match => n.children.len() % 2 == 1,
        ASTNodeType::Module => forall|j: int|
            0 <= j < n.children.len() ==> 0 <= #[trigger] n.children[j] < nodes.len()
                && nodes[n.children[j] as int].t == ASTNodeType::Assignment,
    }
}

/// A well-formed arena: every child reference is sound and every node has its shape.
/// Following children from any node always ends, since they descend in the arena
/// (a module's children are no modules, and come below the end of the arena).
pub open spec fn wf_nodes(nodes: Seq<NodeView>) -> bool {
    &&& forall|i: int, j: int|
        0 <= i < nodes.len() && 0 <= j < nodes[i].children.len() ==> child_ok(
            nodes,
            i,
            #[trigger] nodes[i].children[j] as int,
        )
    &&& forall|i: int| 0 <= i < nodes.len() ==> #[trigger] shape_ok(nodes, i)
}

/// `b` extends the arena `a`: its first nodes are those of `a`.
pub open spec fn grows(a: Seq<NodeView>, b: Seq<NodeView>) -> bool {
    &&& a.len() <= b.len()
    &&& forall|i: int| 0 <= i < a.len() ==> #[trigger] b[i] == a[i]
}

/// The measure that descends along children in a well-formed arena.
pub open spec fn rank(nodes: Seq<NodeView>, i: int) -> int {
    if nodes[i].t == ASTNodeType::Module {
        nodes.len() as int
    } else {
        i
    }
}

pub open spec fn leaf_view(t: ASTNodeType, tk: TokenView, line: usize, col: usize) -> NodeView {
    NodeView {
        t,
        info: Some(tk),
        children: seq![],
        type_: None,
        line,
        col,
        wait_for_args: false,
    }
}

pub open spec fn inner_view(
    t: ASTNodeType,
    children: Seq<usize>,
    line: usize,
    col: usize,
    wait_for_args: bool,
) -> NodeView {
    NodeView { t, info: None, children, type_: None, line, col, wait_for_args }
}

/// The name an assignment binds.
pub open spec fn assignee_name(nodes: Seq<NodeView>, a: int) -> Seq<char> {
    node_value(nodes[nodes[a].children[0] as int])
}

/// The first of the assignments `kids` that binds `name`.
pub open spec fn find_assign(nodes: Seq<NodeView>, kids: Seq<usize>, name: Seq<char>) -> Option<
    usize,
>
    decreases kids.len(),
{
    if kids.len() == 0 {
        None
    } else if assignee_name(nodes, kids[0] as int) == name {
        Some(kids[0])
    } else {
        find_assign(nodes, kids.drop_first(), name)
    }
}

pub open spec fn nil_name() -> Seq<char> {
    seq!['N', 'i', 'l']
}

pub open spec fn cons_name() -> Seq<char> {
    seq!['C', 'o', 'n', 's']
}

pub open spec fn main_name() -> Seq<char> {
    seq!['m', 'a', 'i', 'n']
}

/// Whether two expressions are the same: identifiers and literals by their text, other
/// nodes by their kind and by their children pairwise, as far as both have children.
pub open spec fn sp_eq(n1: Seq<NodeView>, n2: Seq<NodeView>, e1: int, e2: int) -> bool
    decreases rank(n1, e1), n1[e1].children.len() + 1,
{
    let a = n1[e1];
    let b = n2[e2];
    if (a.t == ASTNodeType::Identifier && b.t == ASTNodeType::Identifier) || (a.t
        == ASTNodeType::Literal && b.t == ASTNodeType::Literal) {
        node_value(a) == node_value(b)
    } else if a.t != b.t {
        false
    } else {
        sp_eq_from(n1, n2, e1, e2, 0)
    }
}

/// The children of `e1` and `e2` from the `k`-th on are pairwise the same.
pub open spec fn sp_eq_from(n1: Seq<NodeView>, n2: Seq<NodeView>, e1: int, e2: int, k: int) -> bool
    decreases rank(n1, e1), n1[e1].children.len() - k,
{
    let a = n1[e1];
    let b = n2[e2];
    if k < 0 || k >= a.children.len() || k >= b.children.len() {
        true
    } else {
        let c1 = a.children[k] as int;
        let c2 = b.children[k] as int;
        (if 0 <= c1 && rank(n1, c1) < rank(n1, e1) {
            sp_eq(n1, n2, c1, c2)
        } else {
            false
        }) && sp_eq_from(n1, n2, e1, e2, k + 1)
    }
}

/// The head of an application spine: follow the function side while it is an application.
pub open spec fn sp_app_head(nodes: Seq<NodeView>, e: int) -> int
    decreases rank(nodes, e),
{
    if nodes[e].t == ASTNodeType::Application {
        let f = nodes[e].children[0] as int;
        if 0 <= f && rank(nodes, f) < rank(nodes, e) {
            sp_app_head(nodes, f)
        } else {
            e
        }
    } else {
        e
    }
}

/// Whether an expression is built from `Cons` and `Nil`, and if so whether its
/// elements are character literals.
pub open spec fn sp_scan(nodes: Seq<NodeView>, e: int) -> ASTStringListScanResult
    decreases rank(nodes, e),
{
    let n = nodes[e];
    if n.t == ASTNodeType::Identifier {
        if node_value(n) == nil_name() {
            ASTStringListScanResult::ListMaybeString
        } else {
            ASTStringListScanResult::NotList
        }
    } else if n.t == ASTNodeType::Application {
        let lhs = n.children[0] as int;
        let rhs = n.children[1] as int;
        if !(0 <= rhs && rank(nodes, rhs) < rank(nodes, e)) {
            ASTStringListScanResult::NotList
        } else {
            let r = sp_scan(nodes, rhs);
            if r == ASTStringListScanResult::NotList {
                ASTStringListScanResult::NotList
            } else if nodes[lhs].t == ASTNodeType::Application {
                let ll = nodes[lhs].children[0] as int;
                let lr = nodes[lhs].children[1] as int;
                if node_value(nodes[sp_app_head(nodes, ll)]) != cons_name() {
                    ASTStringListScanResult::NotList
                } else if r == ASTStringListScanResult::ListNotString {
                    ASTStringListScanResult::ListNotString
                } else if nodes[lr].t == ASTNodeType::Literal && lit_type_of(
                    nodes[lr].info->0.tt,
                ) == Type::Primitive(Primitive::Char) {
                    ASTStringListScanResult::ListAndString
                } else {
                    ASTStringListScanResult::ListNotString
                }
            } else {
                ASTStringListScanResult::NotList
            }
        }
    } else {
        ASTStringListScanResult::NotList
    }
}

/// `e` is a list built with `Cons` and `Nil`: `Nil`, or an application of an
/// application headed by `Cons` to a list.
pub open spec fn cons_list(nodes: Seq<NodeView>, e: int) -> bool
    decreases rank(nodes, e),
{
    let n = nodes[e];
    let lhs = n.children[0] as int;
    let rhs = n.children[1] as int;
    if n.t == ASTNodeType::Identifier {
        node_value(n) == nil_name()
    } else if n.t == ASTNodeType::Application && nodes[lhs].t == ASTNodeType::Application && 0
        <= rhs && rank(nodes, rhs) < rank(nodes, e) {
        node_value(nodes[sp_app_head(nodes, nodes[lhs].children[0] as int)]) == cons_name()
            && cons_list(nodes, rhs)
    } else {
        false
    }
}

/// A character literal.
pub open spec fn is_char_lit(n: NodeView) -> bool {
    n.t == ASTNodeType::Literal && lit_type_of(n.info->0.tt) == Type::Primitive(Primitive::Char)
}

/// Every element of the list `e` is a character literal.
pub open spec fn all_chars(nodes: Seq<NodeView>, e: int) -> bool
    decreases rank(nodes, e),
{
    let n = nodes[e];
    let lhs = n.children[0] as int;
    let rhs = n.children[1] as int;
    if n.t == ASTNodeType::Application && 0 <= rhs && rank(nodes, rhs) < rank(nodes, e) {
        is_char_lit(nodes[nodes[lhs].children[1] as int]) && all_chars(nodes, rhs)
    } else {
        true
    }
}

/// What the scan finds: a list exactly when the expression is built with `Cons` and
/// `Nil`; a list that may be a string exactly when it is `Nil`; a string exactly when it
/// is a list of at least one element, all of them character literals.
pub proof fn law_scan_characterization(nodes: Seq<NodeView>, e: int)
    requires
        wf_nodes(nodes),
        0 <= e < nodes.len(),
    ensures
        (sp_scan(nodes, e) != ASTStringListScanResult::NotList) == cons_list(nodes, e),
        (sp_scan(nodes, e) == ASTStringListScanResult::ListMaybeString) == (cons_list(nodes, e)
            && nodes[e].t == ASTNodeType::Identifier),
        (sp_scan(nodes, e) == ASTStringListScanResult::ListAndString) == (cons_list(nodes, e)
            && nodes[e].t == ASTNodeType::Application && all_chars(nodes, e)),
    decreases rank(nodes, e),
{
    assert(shape_ok(nodes, e));
    if nodes[e].t == ASTNodeType::Application {
        let rhs = nodes[e].children[1] as int;
        assert(child_ok(nodes, e, rhs));
        law_scan_characterization(nodes, rhs);
    }
}

/// The table entries of the assignments `kids`: each one's name and index, in order.
pub open spec fn assign_entries(nodes: Seq<NodeView>, kids: Seq<usize>) -> Seq<(Seq<char>, usize)> {
    Seq::new(kids.len(), |k: int| (assignee_name(nodes, kids[k] as int), kids[k]))
}

/// The position of the first of `kids` that binds `name`, or `kids.len()` if none does.
proof fn lemma_find_assign(nodes: Seq<NodeView>, kids: Seq<usize>, name: Seq<char>) -> (k: int)
    ensures
        0 <= k <= kids.len(),
        forall|j: int| 0 <= j < k ==> assignee_name(nodes, #[trigger] kids[j] as int) != name,
        k < kids.len() ==> assignee_name(nodes, kids[k] as int) == name && find_assign(
            nodes,
            kids,
            name,
        ) == Some(kids[k]),
        k == kids.len() ==> find_assign(nodes, kids, name) is None,
    decreases kids.len(),
{
    if kids.len() == 0 {
        0
    } else if assignee_name(nodes, kids[0] as int) == name {
        0
    } else {
        let k = lemma_find_assign(nodes, kids.drop_first(), name);
        assert forall|j: int| 0 <= j < k + 1 implies assignee_name(
            nodes,
            #[trigger] kids[j] as int,
        ) != name by {
            if j > 0 {
                assert(kids[j] == kids.drop_first()[j - 1]);
            }
        }
        k + 1
    }
}

/// The position of the last entry for `name`, or -1 if there is none.
proof fn lemma_lookup_last(entries: Seq<(Seq<char>, usize)>, name: Seq<char>) -> (k: int)
    ensures
        -1 <= k < entries.len(),
        forall|j: int| k < j < entries.len() ==> (#[trigger] entries[j]).0 != name,
        k >= 0 ==> entries[k].0 == name && lookup_last(entries, name) == Some(entries[k].1),
        k == -1 ==> lookup_last(entries, name) is None,
    decreases entries.len(),
{
    if entries.len() == 0 {
        -1
    } else if entries.last().0 == name {
        entries.len() - 1
    } else {
        let k = lemma_lookup_last(entries.drop_last(), name);
        assert forall|j: int| k < j < entries.len() implies (#[trigger] entries[j]).0 != name by {
            if j < entries.len() - 1 {
                assert(entries[j] == entries.drop_last()[j]);
            }
        }
        k
    }
}

/// The last entry for a name exists exactly when a first one does, and they are the same
/// entry when the name occurs once.
proof fn lemma_entries_agree(nodes: Seq<NodeView>, kids: Seq<usize>, name: Seq<char>)
    ensures
        (lookup_last(assign_entries(nodes, kids), name) is Some) == (find_assign(
            nodes,
            kids,
            name,
        ) is Some),
        (forall|i: int, j: int|
            0 <= i < j < kids.len() && #[trigger] assignee_name(nodes, kids[i] as int) == name
                ==> #[trigger] assignee_name(nodes, kids[j] as int) != name) ==> lookup_last(
            assign_entries(nodes, kids),
            name,
        ) == find_assign(nodes, kids, name),
{
    let entries = assign_entries(nodes, kids);
    let k1 = lemma_find_assign(nodes, kids, name);
    let k2 = lemma_lookup_last(entries, name);
    if k1 < kids.len() {
        assert(entries[k1].0 == name);
        assert(k1 <= k2);
    }
    if k2 >= 0 {
        assert(assignee_name(nodes, kids[k2] as int) == name);
        assert(k1 <= k2);
    }
    if (forall|i: int, j: int|
        0 <= i < j < kids.len() && #[trigger] assignee_name(nodes, kids[i] as int) == name
            ==> #[trigger] assignee_name(nodes, kids[j] as int) != name) {
        if k1 < kids.len() {
            if k1 < k2 {
                assert(assignee_name(nodes, kids[k1] as int) == name);
                assert(assignee_name(nodes, kids[k2] as int) == name);
            }
            assert(k1 == k2);
        }
    }
}

/// A name to assignment index table, as `get_assigns_map` builds it: one entry per
/// name, in the order the names first occur; a name that is bound twice holds its last
/// binding.
pub struct AssignsMap {
    entries: Vec<(String, usize)>,
}

/// The position of the last entry for `name` in `t`, or -1 if there is none.
pub open spec fn table_find(t: Seq<(Seq<char>, usize)>, name: Seq<char>) -> int
    decreases t.len(),
{
    if t.len() == 0 {
        -1
    } else if t.last().0 == name {
        t.len() - 1
    } else {
        table_find(t.drop_last(), name)
    }
}

/// `t` with `name` bound to `a`: its entry replaced if it has one, else a new entry at
/// the end.
pub open spec fn table_insert(t: Seq<(Seq<char>, usize)>, name: Seq<char>, a: usize) -> Seq<
    (Seq<char>, usize),
> {
    let i = table_find(t, name);
    if i >= 0 {
        t.update(i, (name, a))
    } else {
        t.push((name, a))
    }
}

/// The table of the assignments `kids`, inserted in order.
pub open spec fn assign_table(nodes: Seq<NodeView>, kids: Seq<usize>) -> Seq<(Seq<char>, usize)>
    decreases kids.len(),
{
    if kids.len() == 0 {
        seq![]
    } else {
        table_insert(
            assign_table(nodes, kids.drop_last()),
            assignee_name(nodes, kids.last() as int),
            kids.last(),
        )
    }
}

/// The names the assignments `kids` bind, in order.
pub open spec fn assign_names(nodes: Seq<NodeView>, kids: Seq<usize>) -> Seq<Seq<char>> {
    Seq::new(kids.len(), |k: int| assignee_name(nodes, kids[k] as int))
}

/// The names of a table's entries.
pub open spec fn table_keys(t: Seq<(Seq<char>, usize)>) -> Seq<Seq<char>> {
    Seq::new(t.len(), |i: int| t[i].0)
}

proof fn lemma_table_find(t: Seq<(Seq<char>, usize)>, name: Seq<char>)
    ensures
        -1 <= table_find(t, name) < t.len(),
        table_find(t, name) >= 0 ==> t[table_find(t, name)].0 == name && lookup_last(t, name)
            == Some(t[table_find(t, name)].1),
        table_find(t, name) == -1 ==> lookup_last(t, name) is None && forall|j: int|
            0 <= j < t.len() ==> (#[trigger] t[j]).0 != name,
    decreases t.len(),
{
    if t.len() > 0 && t.last().0 != name {
        lemma_table_find(t.drop_last(), name);
        if table_find(t, name) == -1 {
            assert forall|j: int| 0 <= j < t.len() implies (#[trigger] t[j]).0 != name by {
                if j < t.len() - 1 {
                    assert(t[j] == t.drop_last()[j]);
                }
            }
        }
    }
}

/// Changing the index of an entry for one name leaves the lookup of every other name
/// as it was.
proof fn lemma_lookup_update(t: Seq<(Seq<char>, usize)>, i: int, a: usize, name: Seq<char>)
    requires
        0 <= i < t.len(),
        t[i].0 != name,
    ensures
        lookup_last(t.update(i, (t[i].0, a)), name) == lookup_last(t, name),
    decreases t.len(),
{
    let u = t.update(i, (t[i].0, a));
    if i < t.len() - 1 {
        assert(u.drop_last() =~= t.drop_last().update(i, (t[i].0, a)));
        lemma_lookup_update(t.drop_last(), i, a, name);
    } else {
        assert(u.drop_last() =~= t.drop_last());
    }
}

/// A module's table holds each assigned name once, looks a name up as the list of all
/// assignments would (finding the last binding), and so has one entry per distinct name.
pub proof fn law_assign_table(nodes: Seq<NodeView>, kids: Seq<usize>)
    ensures
        table_keys(assign_table(nodes, kids)).no_duplicates(),
        forall|name: Seq<char>|
            #[trigger] lookup_last(assign_table(nodes, kids), name) == lookup_last(
                assign_entries(nodes, kids),
                name,
            ),
        table_keys(assign_table(nodes, kids)).to_set() == assign_names(nodes, kids).to_set(),
        assign_table(nodes, kids).len() == assign_names(nodes, kids).to_set().len(),
    decreases kids.len(),
{
    let t = assign_table(nodes, kids);
    let es = assign_entries(nodes, kids);
    if kids.len() == 0 {
        assert(table_keys(t) =~= Seq::<Seq<char>>::empty());
        assert(assign_names(nodes, kids) =~= Seq::<Seq<char>>::empty());
        assert(table_keys(t).to_set() =~= Set::<Seq<char>>::empty());
        assert(assign_names(nodes, kids).to_set() =~= Set::<Seq<char>>::empty());
    } else {
        let rest = kids.drop_last();
        law_assign_table(nodes, rest);
        let t0 = assign_table(nodes, rest);
        let n = assignee_name(nodes, kids.last() as int);
        let a = kids.last();
        assert(es.drop_last() =~= assign_entries(nodes, rest));
        assert(es.last() == (n, a));
        lemma_table_find(t0, n);
        let i = table_find(t0, n);
        assert forall|name: Seq<char>| #[trigger] lookup_last(t, name) == lookup_last(es, name) by {
            if name == n {
                lemma_table_find(t, n);
                let j = table_find(t, n);
                if i >= 0 {
                    assert(t[i] == (n, a));
                    if j != i {
                        assert(j >= 0);
                        assert(t[j] == t0[j]);
                        assert(table_keys(t0)[i] == table_keys(t0)[j]);
                    }
                } else {
                    assert(t[t0.len() as int] == (n, a));
                }
            } else {
                if i >= 0 {
                    assert(t0[i].0 == n);
                    lemma_lookup_update(t0, i, a, name);
                    assert(t0.update(i, (t0[i].0, a)) == t);
                } else {
                    assert(t.drop_last() =~= t0);
                }
                assert(lookup_last(t0, name) == lookup_last(es.drop_last(), name));
            }
        }
        if i >= 0 {
            assert(table_keys(t) =~= table_keys(t0));
        } else {
            assert(table_keys(t) =~= table_keys(t0).push(n));
            assert forall|j: int| 0 <= j < t0.len() implies table_keys(t0)[j] != n by {
                assert(t0[j].0 != n);
            }
        }
        assert(assign_names(nodes, kids) =~= assign_names(nodes, rest).push(n));
        assert(table_keys(t).to_set() =~= assign_names(nodes, kids).to_set()) by {
            assert forall|x: Seq<char>| table_keys(t).to_set().contains(x) <==> assign_names(
                nodes,
                kids,
            ).to_set().contains(x) by {
                if i >= 0 {
                    assert(table_keys(t0)[i] == n);
                    assert(table_keys(t0).contains(n));
                    assert(table_keys(t0).to_set().contains(n));
                }
                assign_names(nodes, rest).lemma_push_to_set_commute(n);
                if i < 0 {
                    table_keys(t0).lemma_push_to_set_commute(n);
                }
            }
        }
        table_keys(t).unique_seq_to_set();
    }
}

/// A module's assignment table has an entry for a name exactly when the module has an
/// assignment to it. The table holds the last such assignment and `get_assign_to` finds
/// the first, so the two agree on a name that the module binds once.
pub proof fn law_assigns_map_agrees(nodes: Seq<NodeView>, kids: Seq<usize>, name: Seq<char>)
    ensures
        (lookup_last(assign_table(nodes, kids), name) is Some) == (find_assign(
            nodes,
            kids,
            name,
        ) is Some),
        (forall|i: int, j: int|
            0 <= i < j < kids.len() && #[trigger] assignee_name(nodes, kids[i] as int) == name
                ==> #[trigger] assignee_name(nodes, kids[j] as int) != name) ==> lookup_last(
            assign_table(nodes, kids),
            name,
        ) == find_assign(nodes, kids, name),
{
    law_assign_table(nodes, kids);
    assert(lookup_last(assign_table(nodes, kids), name) == lookup_last(
        assign_entries(nodes, kids),
        name,
    ));
    lemma_entries_agree(nodes, kids, name);
}

/// The index that the last entry for `name` holds.
pub open spec fn lookup_last(entries: Seq<(Seq<char>, usize)>, name: Seq<char>) -> Option<usize>
    decreases entries.len(),
{
    if entries.len() == 0 {
        None
    } else if entries.last().0 == name {
        Some(entries.last().1)
    } else {
        lookup_last(entries.drop_last(), name)
    }
}

impl View for AssignsMap {
    type V = Seq<(Seq<char>, usize)>;

    closed spec fn view(&self) -> Seq<(Seq<char>, usize)> {
        self.entries@.map_values(|e: (String, usize)| (e.0@, e.1))
    }
}

impl AssignsMap {
    pub fn get(&self, name: &String) -> (r: Option<usize>)
        ensures
            r == lookup_last(self@, name@),
    {
        let mut i = self.entries.len();
        assert(self@.subrange(0, i as int) =~= self@);
        while i > 0
            invariant
                i <= self.entries.len(),
                lookup_last(self@, name@) == lookup_last(self@.subrange(0, i as int), name@),
            decreases i,
        {
            assert(self@.subrange(0, i as int).drop_last() =~= self@.subrange(0, i - 1));
            if self.entries[i - 1].0 == *name {
                return Some(self.entries[i - 1].1);
            }
            i = i - 1;
        }
        None
    }

    pub fn len(&self) -> (n: usize)
        ensures
            n == self@.len(),
    {
        self.entries.len()
    }

    /// Binds `name` to `a`, replacing its entry if it has one.
    fn insert(&mut self, name: String, a: usize)
        ensures
            final(self)@ == table_insert(old(self)@, name@, a),
    {
        let mut i = self.entries.len();
        assert(self@.subrange(0, i as int) =~= self@);
        while i > 0
            invariant
                i <= self.entries.len(),
                self@ == old(self)@,
                table_find(self@, name@) == table_find(self@.subrange(0, i as int), name@),
            decreases i,
        {
            assert(self@.subrange(0, i as int).drop_last() =~= self@.subrange(0, i - 1));
            if self.entries[i - 1].0 == name {
                let ghost nv = name@;
                self.entries.set(i - 1, (name, a));
                assert(self@ =~= table_insert(old(self)@, nv, a));
                return;
            }
            i = i - 1;
        }
        let ghost nv = name@;
        self.entries.push((name, a));
        assert(self@ =~= table_insert(old(self)@, nv, a));
    }
}


impl AST {
    /// The index of the root expression.
    pub closed spec fn root_index(&self) -> usize {
        self.root
    }

    pub open spec fn wf(&self) -> bool {
        wf_nodes(self@)
    }

    pub fn new() -> (ast: Self)
        ensures
            ast@ == Seq::<NodeView>::empty(),
            ast.root_index() == 0,
            ast.wf(),
    {
        let ast = AST { vec: Vec::new(), root: 0 };
        assert(ast@ =~= Seq::<NodeView>::empty());
        ast
    }

    /// Makes `r` the root expression.
    pub fn set_root(&mut self, r: usize)
        ensures
            final(self)@ == old(self)@,
            final(self).root_index() == r,
    {
        self.root = r;
    }

    pub fn len(&self) -> (n: usize)
        ensures
            n == self@.len(),
    {
        self.vec.len()
    }

    /// The index of the root expression.
    pub fn get_root(&self) -> (r: usize)
        ensures
            r == self.root_index(),
    {
        self.root
    }

    #[inline(always)]
    pub fn get(&self, i: usize) -> (n: &ASTNode)
        requires
            i < self@.len(),
        ensures
            n@ == self@[i as int],
    {
        &self.vec[i]
    }

    fn push_node(&mut self, n: ASTNode) -> (i: usize)
        ensures
            i == old(self)@.len(),
            final(self)@ == old(self)@.push(n@),
            final(self).root_index() == old(self).root_index(),
    {
        let i = self.vec.len();
        self.vec.push(n);
        assert(self@ =~= old(self)@.push(n@));
        i
    }

    /// Adds an identifier made from token `t`.
    pub fn add_id(&mut self, t: Token, line: usize, col: usize) -> (i: usize)
        requires
            old(self).wf(),
            t.tt == TokenType::Id || t.tt == TokenType::UppercaseId,
        ensures
            i == old(self)@.len(),
            final(self)@ == old(self)@.push(leaf_view(ASTNodeType::Identifier, t@, line, col)),
            final(self).root_index() == old(self).root_index(),
            final(self).wf(),
    {
        let ghost tv = t@;
        let n = ASTNode {
            t: ASTNodeType::Identifier,
            info: Some(t),
            children: Vec::new(),
            type_: None,
            line,
            col,
            wait_for_args: false,
        };
        assert(n@ =~= leaf_view(ASTNodeType::Identifier, tv, line, col));
        let i = self.push_node(n);
        proof {
            lemma_push_wf(old(self)@, leaf_view(ASTNodeType::Identifier, tv, line, col));
        }
        i
    }

    /// Adds a literal made from token `t`.
    pub fn add_lit(&mut self, t: Token, line: usize, col: usize) -> (i: usize)
        requires
            old(self).wf(),
            is_lit_tt(t.tt),
        ensures
            i == old(self)@.len(),
            final(self)@ == old(self)@.push(leaf_view(ASTNodeType::Literal, t@, line, col)),
            final(self).root_index() == old(self).root_index(),
            final(self).wf(),
    {
        let ghost tv = t@;
        let n = ASTNode {
            t: ASTNodeType::Literal,
            info: Some(t),
            children: Vec::new(),
            type_: None,
            line,
            col,
            wait_for_args: false,
        };
        assert(n@ =~= leaf_view(ASTNodeType::Literal, tv, line, col));
        let i = self.push_node(n);
        proof {
            lemma_push_wf(old(self)@, leaf_view(ASTNodeType::Literal, tv, line, col));
        }
        i
    }

    fn add_binary(
        &mut self,
        t: ASTNodeType,
        a: usize,
        b: usize,
        line: usize,
        col: usize,
        wait_for_args: bool,
    ) -> (i: usize)
        requires
            old(self).wf(),
            t == ASTNodeType::Pair || t == ASTNodeType::Application || t
                == ASTNodeType::Abstraction || (t == ASTNodeType::Assignment && old(
                self,
            )@[a as int].t == ASTNodeType::Identifier),
            a < old(self)@.len(),
            b < old(self)@.len(),
            old(self)@[a as int].t != ASTNodeType::Module,
            old(self)@[b as int].t != ASTNodeType::Module,
        ensures
            i == old(self)@.len(),
            final(self)@ == old(self)@.push(inner_view(t, seq![a, b], line, col, wait_for_args)),
            final(self).root_index() == old(self).root_index(),
            final(self).wf(),
    {
        let mut children = Vec::new();
        children.push(a);
        children.push(b);
        assert(children@ =~= seq![a, b]);
        let n = ASTNode { t, info: None, children, type_: None, line, col, wait_for_args };
        assert(n@ =~= inner_view(t, seq![a, b], line, col, wait_for_args));
        let i = self.push_node(n);
        proof {
            lemma_push_wf(old(self)@, inner_view(t, seq![a, b], line, col, wait_for_args));
        }
        i
    }

    /// Adds the application of `f` to `a`; `wait_for_args` records an application
    /// written with `$`.
    pub fn add_app(&mut self, f: usize, a: usize, line: usize, col: usize, wait_for_args: bool) -> (i:
        usize)
        requires
            old(self).wf(),
            f < old(self)@.len(),
            a < old(self)@.len(),
            old(self)@[f as int].t != ASTNodeType::Module,
            old(self)@[a as int].t != ASTNodeType::Module,
        ensures
            i == old(self)@.len(),
            final(self)@ == old(self)@.push(
                inner_view(ASTNodeType::Application, seq![f, a], line, col, wait_for_args),
            ),
            final(self).root_index() == old(self).root_index(),
            final(self).wf(),
    {
        self.add_binary(ASTNodeType::Application, f, a, line, col, wait_for_args)
    }

    /// Adds the pair `(l, r)`.
    pub fn add_pair(&mut self, l: usize, r: usize, line: usize, col: usize) -> (i: usize)
        requires
            old(self).wf(),
            l < old(self)@.len(),
            r < old(self)@.len(),
            old(self)@[l as int].t != ASTNodeType::Module,
            old(self)@[r as int].t != ASTNodeType::Module,
        ensures
            i == old(self)@.len(),
            final(self)@ == old(self)@.push(
                inner_view(ASTNodeType::Pair, seq![l, r], line, col, false),
            ),
            final(self).root_index() == old(self).root_index(),
            final(self).wf(),
    {
        self.add_binary(ASTNodeType::Pair, l, r, line, col, false)
    }

    /// Adds the abstraction of `expr` over the argument `var`.
    pub fn add_abstraction(&mut self, var: usize, expr: usize, line: usize, col: usize) -> (i:
        usize)
        requires
            old(self).wf(),
            var < old(self)@.len(),
            expr < old(self)@.len(),
            old(self)@[var as int].t != ASTNodeType::Module,
            old(self)@[expr as int].t != ASTNodeType::Module,
        ensures
            i == old(self)@.len(),
            final(self)@ == old(self)@.push(
                inner_view(ASTNodeType::Abstraction, seq![var, expr], line, col, false),
            ),
            final(self).root_index() == old(self).root_index(),
            final(self).wf(),
    {
        self.add_binary(ASTNodeType::Abstraction, var, expr, line, col, false)
    }

    /// Adds the assignment of `expr` to the identifier `id`.
    pub fn add_assignment(&mut self, id: usize, expr: usize, line: usize, col: usize) -> (i:
        usize)
        requires
            old(self).wf(),
            id < old(self)@.len(),
            expr < old(self)@.len(),
            old(self)@[id as int].t == ASTNodeType::Identifier,
            old(self)@[expr as int].t != ASTNodeType::Module,
        ensures
            i == old(self)@.len(),
            final(self)@ == old(self)@.push(
                inner_view(ASTNodeType::Assignment, seq![id, expr], line, col, false),
            ),
            final(self).root_index() == old(self).root_index(),
            final(self).wf(),
    {
        self.add_binary(ASTNodeType::Assignment, id, expr, line, col, false)
    }

    /// Adds a match: the matched expression, then patterns and their expressions in turn.
    pub fn add_match(&mut self, children: Vec<usize>, line: usize, col: usize) -> (i: usize)
        requires
            old(self).wf(),
            children@.len() % 2 == 1,
            forall|j: int|
                0 <= j < children@.len() ==> #[trigger] children@[j] < old(self)@.len() && old(
                    self,
                )@[children@[j] as int].t != ASTNodeType::Module,
        ensures
            i == old(self)@.len(),
            final(self)@ == old(self)@.push(
                inner_view(ASTNodeType::Match, children@, line, col, false),
            ),
            final(self).root_index() == old(self).root_index(),
            final(self).wf(),
    {
        let ghost cs = children@;
        let n = ASTNode {
            t: ASTNodeType::Match,
            info: None,
            children,
            type_: None,
            line,
            col,
            wait_for_args: false,
        };
        assert(n@ =~= inner_view(ASTNodeType::Match, cs, line, col, false));
        let i = self.push_node(n);
        proof {
            lemma_push_wf(old(self)@, inner_view(ASTNodeType::Match, cs, line, col, false));
        }
        i
    }

    /// Adds a module with no assignments yet.
    pub fn add_module(&mut self, line: usize, col: usize) -> (i: usize)
        requires
            old(self).wf(),
        ensures
            i == old(self)@.len(),
            final(self)@ == old(self)@.push(
                inner_view(ASTNodeType::Module, seq![], line, col, false),
            ),
            final(self).root_index() == old(self).root_index(),
            final(self).wf(),
    {
        let n = ASTNode {
            t: ASTNodeType::Module,
            info: None,
            children: Vec::new(),
            type_: None,
            line,
            col,
            wait_for_args: false,
        };
        assert(n@ =~= inner_view(ASTNodeType::Module, seq![], line, col, false));
        let i = self.push_node(n);
        proof {
            lemma_push_wf(old(self)@, inner_view(ASTNodeType::Module, seq![], line, col, false));
        }
        i
    }

    /// Appends the assignment `a` to the module `m`.
    pub fn add_to_module(&mut self, m: usize, a: usize)
        requires
            old(self).wf(),
            m < old(self)@.len(),
            a < old(self)@.len(),
            old(self)@[m as int].t == ASTNodeType::Module,
            old(self)@[a as int].t == ASTNodeType::Assignment,
        ensures
            final(self)@ == old(self)@.update(
                m as int,
                NodeView { children: old(self)@[m as int].children.push(a), ..old(self)@[m as int] },
            ),
            final(self).root_index() == old(self).root_index(),
            final(self).wf(),
    {
        self.vec[m].children.push(a);
        let ghost nv = NodeView { children: old(self)@[m as int].children.push(a), ..old(self)@[m as int] };
        assert(self@ =~= old(self)@.update(m as int, nv));
        proof {
            let o = old(self)@;
            let nw = self@;
            assert forall|i: int, j: int|
                0 <= i < nw.len() && 0 <= j < nw[i].children.len() implies child_ok(
                nw,
                i,
                #[trigger] nw[i].children[j] as int,
            ) by {
                if i != m {
                    assert(child_ok(o, i, o[i].children[j] as int));
                } else if j < o[i].children.len() {
                    assert(child_ok(o, i, o[i].children[j] as int));
                }
            }
            assert forall|i: int| 0 <= i < nw.len() implies #[trigger] shape_ok(nw, i) by {
                assert(shape_ok(o, i));
                if i != m {
                    if o[i].t == ASTNodeType::Assignment {
                        assert(child_ok(o, i, o[i].children[0] as int));
                    }
                }
            }
        }
    }

    /// Records the type written for node `i`.
    pub fn set_type(&mut self, i: usize, ty: Type)
        requires
            i < old(self)@.len(),
        ensures
            final(self)@ == old(self)@.update(
                i as int,
                NodeView { type_: Some(ty), ..old(self)@[i as int] },
            ),
            final(self).root_index() == old(self).root_index(),
            old(self).wf() ==> final(self).wf(),
    {
        let ghost tyv = ty;
        self.vec[i].type_ = Some(ty);
        let ghost nv = NodeView { type_: Some(tyv), ..old(self)@[i as int] };
        assert(self@ =~= old(self)@.update(i as int, nv));
        proof {
            let o = old(self)@;
            let nw = self@;
            if wf_nodes(o) {
                assert forall|k: int, j: int|
                    0 <= k < nw.len() && 0 <= j < nw[k].children.len() implies child_ok(
                    nw,
                    k,
                    #[trigger] nw[k].children[j] as int,
                ) by {
                    assert(child_ok(o, k, o[k].children[j] as int));
                }
                assert forall|k: int| 0 <= k < nw.len() implies #[trigger] shape_ok(nw, k) by {
                    assert(shape_ok(o, k));
                    if o[k].t == ASTNodeType::Assignment {
                        assert(child_ok(o, k, o[k].children[0] as int));
                    }
                    if o[k].t == ASTNodeType::Module {
                        assert forall|j: int| 0 <= j < nw[k].children.len() implies 0 <= #[trigger] nw[k].children[j] < nw.len()
                            && nw[nw[k].children[j] as int].t == ASTNodeType::Assignment by {
                            assert(0 <= o[k].children[j] < o.len());
                        }
                    }
                }
            }
        }
    }
}


/// A node made by `add_pair`, `add_app`, `add_abstraction` or `add_assignment` stands at
/// the index the builder returns, with the kind asked for and its two children in the
/// order given: so `get_first` and `get_second`, `get_func` and `get_arg`,
/// `get_abstr_var` and `get_abstr_expr`, or `get_assign_exp` on it give back the nodes it
/// was made from.
pub proof fn law_built_node_children(
    nodes: Seq<NodeView>,
    t: ASTNodeType,
    a: usize,
    b: usize,
    line: usize,
    col: usize,
    wait_for_args: bool,
)
    ensures
        ({
            let n = nodes.push(inner_view(t, seq![a, b], line, col, wait_for_args))[nodes.len() as int];
            &&& n.t == t
            &&& n.children.len() == 2
            &&& n.children[0] == a
            &&& n.children[1] == b
        }),
{
}

/// Children from the `k`-th on that compare equal, compare equal one by one.
proof fn lemma_eq_from_children(n1: Seq<NodeView>, n2: Seq<NodeView>, e1: int, e2: int, k: int)
    requires
        wf_nodes(n1),
        0 <= e1 < n1.len(),
        0 <= k,
        sp_eq_from(n1, n2, e1, e2, k),
    ensures
        forall|j: int|
            k <= j < n1[e1].children.len() && j < n2[e2].children.len() ==> sp_eq(
                n1,
                n2,
                #[trigger] n1[e1].children[j] as int,
                n2[e2].children[j] as int,
            ),
    decreases n1[e1].children.len() - k,
{
    if k < n1[e1].children.len() && k < n2[e2].children.len() {
        assert(child_ok(n1, e1, n1[e1].children[k] as int));
        lemma_eq_from_children(n1, n2, e1, e2, k + 1);
    }
}

/// Expressions that compare equal are of the same kind, and their children compare
/// equal pairwise, as far as both have children. Two identifiers, or two literals,
/// compare equal exactly when their texts are the same: so expressions that differ in
/// one identifier, such as `+ 1 2` and `* 1 2`, are not equal.
pub proof fn law_eq_sound(n1: Seq<NodeView>, n2: Seq<NodeView>, e1: int, e2: int)
    requires
        wf_nodes(n1),
        wf_nodes(n2),
        0 <= e1 < n1.len(),
        0 <= e2 < n2.len(),
    ensures
        sp_eq(n1, n2, e1, e2) ==> n1[e1].t == n2[e2].t,
        sp_eq(n1, n2, e1, e2) ==> forall|j: int|
            0 <= j < n1[e1].children.len() && j < n2[e2].children.len() ==> sp_eq(
                n1,
                n2,
                #[trigger] n1[e1].children[j] as int,
                n2[e2].children[j] as int,
            ),
        n1[e1].t == n2[e2].t && (n1[e1].t == ASTNodeType::Identifier || n1[e1].t
            == ASTNodeType::Literal) ==> (sp_eq(n1, n2, e1, e2) == (node_value(n1[e1])
            == node_value(n2[e2]))),
{
    if sp_eq(n1, n2, e1, e2) && n1[e1].t == n2[e2].t && n1[e1].t != ASTNodeType::Identifier
        && n1[e1].t != ASTNodeType::Literal {
        lemma_eq_from_children(n1, n2, e1, e2, 0);
    }
    if sp_eq(n1, n2, e1, e2) && (n1[e1].t == ASTNodeType::Identifier || n1[e1].t
        == ASTNodeType::Literal) {
        assert(shape_ok(n1, e1));
        assert(shape_ok(n2, e2));
    }
}

/// Every expression is the same as itself.
pub proof fn law_eq_reflexive(nodes: Seq<NodeView>, e: int)
    requires
        wf_nodes(nodes),
        0 <= e < nodes.len(),
    ensures
        sp_eq(nodes, nodes, e, e),
    decreases rank(nodes, e), nodes[e].children.len() + 1,
{
    lemma_eq_from_reflexive(nodes, e, 0);
}

proof fn lemma_eq_from_reflexive(nodes: Seq<NodeView>, e: int, k: int)
    requires
        wf_nodes(nodes),
        0 <= e < nodes.len(),
        0 <= k,
    ensures
        sp_eq_from(nodes, nodes, e, e, k),
    decreases rank(nodes, e), nodes[e].children.len() - k,
{
    if k < nodes[e].children.len() {
        let c = nodes[e].children[k] as int;
        assert(child_ok(nodes, e, c));
        law_eq_reflexive(nodes, c);
        lemma_eq_from_reflexive(nodes, e, k + 1);
    }
}

/// Comparing two expressions gives the same answer either way round.
pub proof fn law_eq_symmetric(n1: Seq<NodeView>, n2: Seq<NodeView>, e1: int, e2: int)
    requires
        wf_nodes(n1),
        wf_nodes(n2),
        0 <= e1 < n1.len(),
        0 <= e2 < n2.len(),
    ensures
        sp_eq(n1, n2, e1, e2) == sp_eq(n2, n1, e2, e1),
    decreases rank(n1, e1), n1[e1].children.len() + 1,
{
    lemma_eq_from_symmetric(n1, n2, e1, e2, 0);
}

proof fn lemma_eq_from_symmetric(n1: Seq<NodeView>, n2: Seq<NodeView>, e1: int, e2: int, k: int)
    requires
        wf_nodes(n1),
        wf_nodes(n2),
        0 <= e1 < n1.len(),
        0 <= e2 < n2.len(),
        0 <= k,
    ensures
        sp_eq_from(n1, n2, e1, e2, k) == sp_eq_from(n2, n1, e2, e1, k),
    decreases rank(n1, e1), n1[e1].children.len() - k,
{
    if k < n1[e1].children.len() && k < n2[e2].children.len() {
        let c1 = n1[e1].children[k] as int;
        let c2 = n2[e2].children[k] as int;
        assert(child_ok(n1, e1, c1));
        assert(child_ok(n2, e2, c2));
        law_eq_symmetric(n1, n2, c1, c2);
        lemma_eq_from_symmetric(n1, n2, e1, e2, k + 1);
    }
}

/// The head of an application spine is a node of the arena, and stays the same as the
/// arena grows.
pub proof fn lemma_app_head_frame(a: Seq<NodeView>, b: Seq<NodeView>, e: int)
    requires
        wf_nodes(a),
        grows(a, b),
        0 <= e < a.len(),
    ensures
        sp_app_head(b, e) == sp_app_head(a, e),
        0 <= sp_app_head(a, e) < a.len(),
    decreases rank(a, e),
{
    assert(b[e] == a[e]);
    if a[e].t == ASTNodeType::Application {
        assert(shape_ok(a, e));
        let f = a[e].children[0] as int;
        assert(child_ok(a, e, f));
        assert(b[f] == a[f]);
        lemma_app_head_frame(a, b, f);
    }
}

/// What a scan finds of an expression does not change as the arena grows.
pub proof fn lemma_scan_frame(a: Seq<NodeView>, b: Seq<NodeView>, e: int)
    requires
        wf_nodes(a),
        grows(a, b),
        0 <= e < a.len(),
    ensures
        sp_scan(b, e) == sp_scan(a, e),
    decreases rank(a, e),
{
    assert(b[e] == a[e]);
    assert(shape_ok(a, e));
    if a[e].t == ASTNodeType::Application {
        let lhs = a[e].children[0] as int;
        let rhs = a[e].children[1] as int;
        assert(child_ok(a, e, lhs));
        assert(child_ok(a, e, rhs));
        assert(b[lhs] == a[lhs]);
        assert(b[rhs] == a[rhs]);
        lemma_scan_frame(a, b, rhs);
        if a[lhs].t == ASTNodeType::Application {
            assert(shape_ok(a, lhs));
            let ll = a[lhs].children[0] as int;
            let lr = a[lhs].children[1] as int;
            assert(child_ok(a, lhs, ll));
            assert(child_ok(a, lhs, lr));
            assert(b[ll] == a[ll]);
            assert(b[lr] == a[lr]);
            lemma_app_head_frame(a, b, ll);
            let h = sp_app_head(a, ll);
            assert(b[h] == a[h]);
        }
    }
}

/// Appending a node whose children are sound keeps the arena well formed.
pub proof fn lemma_push_wf(nodes: Seq<NodeView>, n: NodeView)
    requires
        wf_nodes(nodes),
        forall|j: int|
            0 <= j < n.children.len() ==> child_ok(
                nodes.push(n),
                nodes.len() as int,
                #[trigger] n.children[j] as int,
            ),
        shape_ok(nodes.push(n), nodes.len() as int),
    ensures
        wf_nodes(nodes.push(n)),
{
    let nw = nodes.push(n);
    assert forall|i: int, j: int|
        0 <= i < nw.len() && 0 <= j < nw[i].children.len() implies child_ok(
        nw,
        i,
        #[trigger] nw[i].children[j] as int,
    ) by {
        if i < nodes.len() {
            assert(child_ok(nodes, i, nodes[i].children[j] as int));
        }
    }
    assert forall|i: int| 0 <= i < nw.len() implies #[trigger] shape_ok(nw, i) by {
        if i < nodes.len() {
            assert(shape_ok(nodes, i));
            if nodes[i].t == ASTNodeType::Assignment {
                assert(child_ok(nodes, i, nodes[i].children[0] as int));
            }
            if nodes[i].t == ASTNodeType::Module {
                assert forall|j: int| 0 <= j < nw[i].children.len() implies 0 <= #[trigger] nw[i].children[j] < nw.len()
                    && nw[nw[i].children[j] as int].t == ASTNodeType::Assignment by {
                    assert(0 <= nodes[i].children[j] < nodes.len());
                }
            }
        }
    }
}


impl AST {
    pub fn get_first(&self, p: usize) -> (c: usize)
        requires
            p < self@.len(),
            self@[p as int].t == ASTNodeType::Pair,
            self@[p as int].children.len() >= 1,
        ensures
            c == self@[p as int].children[0],
    {
        self.get(p).children[0]
    }

    pub fn get_second(&self, p: usize) -> (c: usize)
        requires
            p < self@.len(),
            self@[p as int].t == ASTNodeType::Pair,
            self@[p as int].children.len() >= 2,
        ensures
            c == self@[p as int].children[1],
    {
        self.get(p).children[1]
    }

    pub fn get_abstr_var(&self, abst: usize) -> (c: usize)
        requires
            abst < self@.len(),
            self@[abst as int].t == ASTNodeType::Abstraction,
            self@[abst as int].children.len() >= 1,
        ensures
            c == self@[abst as int].children[0],
    {
        self.vec[abst].children[0]
    }

    pub fn get_abstr_expr(&self, abst: usize) -> (c: usize)
        requires
            abst < self@.len(),
            self@[abst as int].t == ASTNodeType::Abstraction,
            self@[abst as int].children.len() >= 2,
        ensures
            c == self@[abst as int].children[1],
    {
        self.vec[abst].children[1]
    }

    pub fn get_func(&self, app: usize) -> (c: usize)
        requires
            app < self@.len(),
            self@[app as int].t == ASTNodeType::Application,
            self@[app as int].children.len() >= 1,
        ensures
            c == self@[app as int].children[0],
    {
        self.vec[app].children[0]
    }

    pub fn get_arg(&self, app: usize) -> (c: usize)
        requires
            app < self@.len(),
            self@[app as int].t == ASTNodeType::Application,
            self@[app as int].children.len() >= 2,
        ensures
            c == self@[app as int].children[1],
    {
        self.vec[app].children[1]
    }

    pub fn get_assign_exp(&self, assign: usize) -> (c: usize)
        requires
            assign < self@.len(),
            self@[assign as int].t == ASTNodeType::Assignment,
            self@[assign as int].children.len() >= 2,
        ensures
            c == self@[assign as int].children[1],
    {
        self.vec[assign].children[1]
    }

    /// The name that an assignment binds.
    pub fn get_assignee(&self, assign: usize) -> (s: String)
        requires
            self.wf(),
            assign < self@.len(),
            self@[assign as int].t == ASTNodeType::Assignment,
        ensures
            s@ == assignee_name(self@, assign as int),
    {
        proof {
            assert(shape_ok(self@, assign as int));
        }
        self.get(self.vec[assign].children[0]).get_value()
    }

    /// The names the assignments of a module bind, in order: the text of the first child
    /// of each child of `module`.
    pub fn get_assignee_names(&self, module: usize) -> (names: Vec<String>)
        requires
            self.wf(),
            module < self@.len(),
            forall|k: int|
                0 <= k < self@[module as int].children.len() ==> self@[#[trigger] self@[module as int].children[k] as int].children.len()
                    > 0,
        ensures
            names@.len() == self@[module as int].children.len(),
            forall|k: int|
                0 <= k < names@.len() ==> #[trigger] names@[k]@ == assignee_name(
                    self@,
                    self@[module as int].children[k] as int,
                ),
    {
        let ghost kids = self@[module as int].children;
        let mut names: Vec<String> = Vec::new();
        let assigns = &self.vec[module].children;
        let mut k: usize = 0;
        while k < assigns.len()
            invariant
                self.wf(),
                module < self@.len(),
                assigns@ == kids,
                kids == self@[module as int].children,
                forall|q: int|
                    0 <= q < kids.len() ==> self@[#[trigger] kids[q] as int].children.len() > 0,
                k <= kids.len(),
                names@.len() == k,
                forall|q: int|
                    0 <= q < k ==> #[trigger] names@[q]@ == assignee_name(self@, kids[q] as int),
            decreases kids.len() - k,
        {
            proof {
                assert(child_ok(self@, module as int, kids[k as int] as int));
                assert(self@[kids[k as int] as int].children.len() > 0);
                assert(child_ok(self@, kids[k as int] as int, self@[kids[k as int] as int].children[0] as int));
            }
            let assign = self.get(assigns[k]);
            let id = self.get(assign.children[0]);
            names.push(id.get_value());
            k = k + 1;
        }
        names
    }

    /// The main assignment of a module (the assignment, not its expression).
    pub fn get_main(&self, module: usize) -> (r: Option<usize>)
        requires
            self.wf(),
            module < self@.len(),
            self@[module as int].t == ASTNodeType::Module,
        ensures
            r == find_assign(self@, self@[module as int].children, main_name()),
    {
        let name = String::from_str("main");
        proof {
            reveal_strlit("main");
            assert(name@ =~= main_name());
        }
        self.get_assign_to(module, name)
    }

    /// The first assignment of a module that binds `name`.
    pub fn get_assign_to(&self, module: usize, name: String) -> (r: Option<usize>)
        requires
            self.wf(),
            module < self@.len(),
            self@[module as int].t == ASTNodeType::Module,
        ensures
            r == find_assign(self@, self@[module as int].children, name@),
    {
        let ghost kids = self@[module as int].children;
        let assigns = &self.vec[module].children;
        let mut k: usize = 0;
        assert(kids.skip(0) =~= kids);
        while k < assigns.len()
            invariant
                self.wf(),
                module < self@.len(),
                assigns@ == kids,
                kids == self@[module as int].children,
                self@[module as int].t == ASTNodeType::Module,
                k <= kids.len(),
                find_assign(self@, kids, name@) == find_assign(self@, kids.skip(k as int), name@),
            decreases kids.len() - k,
        {
            proof {
                assert(shape_ok(self@, module as int));
                assert(0 <= kids[k as int] < self@.len());
                assert(shape_ok(self@, kids[k as int] as int));
                assert(kids.skip(k as int).drop_first() =~= kids.skip(k + 1));
            }
            let assign = self.get(assigns[k]);
            let id = self.get(assign.children[0]);
            if id.get_value() == name {
                return Some(assigns[k]);
            }
            k = k + 1;
        }
        None
    }

    /// The assignments of a module by name; a name bound twice maps to its last binding.
    pub fn get_assigns_map(&self, module: usize) -> (m: AssignsMap)
        requires
            self.wf(),
            module < self@.len(),
            self@[module as int].t == ASTNodeType::Module,
        ensures
            m@ == assign_table(self@, self@[module as int].children),
            m@.len() == assign_names(self@, self@[module as int].children).to_set().len(),
    {
        let ghost kids = self@[module as int].children;
        let mut m = AssignsMap { entries: Vec::new() };
        assert(m@ =~= assign_table(self@, kids.take(0)));
        let assigns = &self.vec[module].children;
        let mut k: usize = 0;
        while k < assigns.len()
            invariant
                self.wf(),
                module < self@.len(),
                assigns@ == kids,
                kids == self@[module as int].children,
                self@[module as int].t == ASTNodeType::Module,
                k <= kids.len(),
                m@ == assign_table(self@, kids.take(k as int)),
            decreases kids.len() - k,
        {
            proof {
                assert(shape_ok(self@, module as int));
                assert(0 <= kids[k as int] < self@.len());
                assert(shape_ok(self@, kids[k as int] as int));
                assert(kids.take(k + 1).drop_last() =~= kids.take(k as int));
            }
            let a = assigns[k];
            let assign = self.get(a);
            let id = self.get(assign.children[0]);
            m.insert(id.get_value(), a);
            k = k + 1;
        }
        proof {
            assert(kids.take(kids.len() as int) =~= kids);
            law_assign_table(self@, kids);
        }
        m
    }

    pub fn get_match_unpack_pattern(&self, match_: usize) -> (c: usize)
        requires
            match_ < self@.len(),
            self@[match_ as int].t == ASTNodeType::Match,
            self@[match_ as int].children.len() > 1,
        ensures
            c == self@[match_ as int].children[0],
    {
        self.vec[match_].children[0]
    }

    /// The cases of a match, each a pattern with its expression.
    pub fn get_match_cases(&self, match_: usize) -> (cases: Vec<(usize, usize)>)
        requires
            match_ < self@.len(),
            self@[match_ as int].t == ASTNodeType::Match,
            self@[match_ as int].children.len() >= 1,
            (self@[match_ as int].children.len() - 1) % 2 == 0,
        ensures
            cases@.len() == (self@[match_ as int].children.len() - 1) / 2,
            forall|i: int|
                0 <= i < cases@.len() ==> #[trigger] cases@[i] == (
                    self@[match_ as int].children[2 * i + 1],
                    self@[match_ as int].children[2 * i + 2],
                ),
    {
        let kids = &self.vec[match_].children;
        let n = (kids.len() - 1) / 2;
        let mut cases = Vec::new();
        let mut i: usize = 0;
        assert(2 * n + 1 <= kids@.len() && kids@.len() <= 2 * n + 2) by (nonlinear_arith)
            requires
                n == (kids@.len() - 1) / 2,
                kids@.len() >= 1,
        ;
        while i < n
            invariant
                2 * n + 1 <= kids@.len(),
                kids@.len() <= usize::MAX,
                kids@ == self@[match_ as int].children,
                kids@.len() >= 1,
                n == (kids@.len() - 1) / 2,
                i <= n,
                cases@.len() == i,
                forall|q: int|
                    0 <= q < i ==> #[trigger] cases@[q] == (kids@[2 * q + 1], kids@[2 * q + 2]),
            decreases n - i,
        {
            let j: usize = i + i;
            cases.push((kids[j + 1], kids[j + 2]));
            i = i + 1;
        }
        cases
    }

    /// Whether two expressions of this tree are the same.
    pub fn expr_eq(&self, expr1: usize, expr2: usize) -> (b: bool)
        requires
            self.wf(),
            expr1 < self@.len(),
            expr2 < self@.len(),
        ensures
            b == sp_eq(self@, self@, expr1 as int, expr2 as int),
    {
        AST::eq(&self, &self, expr1, expr2)
    }

    /// Whether expression `expr1` of `ast1` is the same as expression `expr2` of `ast2`.
    pub fn eq(ast1: &AST, ast2: &AST, expr1: usize, expr2: usize) -> (b: bool)
        requires
            ast1.wf(),
            ast2.wf(),
            expr1 < ast1@.len(),
            expr2 < ast2@.len(),
        ensures
            b == sp_eq(ast1@, ast2@, expr1 as int, expr2 as int),
        decreases rank(ast1@, expr1 as int),
    {
        let n1 = ast1.get(expr1);
        let n2 = ast2.get(expr2);
        match (n1.t, n2.t) {
            (ASTNodeType::Identifier, ASTNodeType::Identifier)
            | (ASTNodeType::Literal, ASTNodeType::Literal) => n1.get_value() == n2.get_value(),
            (a, b) => {
                if a != b {
                    return false;
                }
                let len = if n1.children.len() < n2.children.len() {
                    n1.children.len()
                } else {
                    n2.children.len()
                };
                let mut k: usize = 0;
                assert(sp_eq(ast1@, ast2@, expr1 as int, expr2 as int) == sp_eq_from(
                    ast1@,
                    ast2@,
                    expr1 as int,
                    expr2 as int,
                    0,
                ));
                while k < len
                    invariant
                        ast1.wf(),
                        ast2.wf(),
                        expr1 < ast1@.len(),
                        expr2 < ast2@.len(),
                        n1@ == ast1@[expr1 as int],
                        n2@ == ast2@[expr2 as int],
                        len <= n1@.children.len(),
                        len <= n2@.children.len(),
                        len == n1@.children.len() || len == n2@.children.len(),
                        k <= len,
                        sp_eq(ast1@, ast2@, expr1 as int, expr2 as int) == sp_eq_from(
                            ast1@,
                            ast2@,
                            expr1 as int,
                            expr2 as int,
                            0,
                        ),
                        sp_eq_from(ast1@, ast2@, expr1 as int, expr2 as int, 0) == sp_eq_from(
                            ast1@,
                            ast2@,
                            expr1 as int,
                            expr2 as int,
                            k as int,
                        ),
                    decreases len - k,
                {
                    let c1 = n1.children[k];
                    let c2 = n2.children[k];
                    proof {
                        assert(child_ok(ast1@, expr1 as int, n1@.children[k as int] as int));
                        assert(child_ok(ast2@, expr2 as int, n2@.children[k as int] as int));
                    }
                    if !AST::eq(ast1, ast2, c1, c2) {
                        assert(!sp_eq_from(ast1@, ast2@, expr1 as int, expr2 as int, k as int));
                        return false;
                    }
                    k = k + 1;
                }
                true
            },
        }
    }

    /// Whether `expr` is a list built from `Cons` and `Nil`, and whether of characters.
    pub fn list_string_scan(&self, expr: usize) -> (r: ASTStringListScanResult)
        requires
            self.wf(),
            expr < self@.len(),
        ensures
            r == sp_scan(self@, expr as int),
        decreases rank(self@, expr as int),
    {
        let n = self.get(expr);
        proof {
            assert(shape_ok(self@, expr as int));
        }
        match n.t {
            ASTNodeType::Identifier => {
                let nil = String::from_str("Nil");
                proof {
                    reveal_strlit("Nil");
                    assert(nil@ =~= nil_name());
                }
                if n.get_value() == nil {
                    ASTStringListScanResult::ListMaybeString
                } else {
                    ASTStringListScanResult::NotList
                }
            },
            ASTNodeType::Application => {
                let lhs = self.get_func(expr);
                let rhs = self.get_arg(expr);
                proof {
                    assert(child_ok(self@, expr as int, self@[expr as int].children[0] as int));
                    assert(child_ok(self@, expr as int, self@[expr as int].children[1] as int));
                }
                let rhs_result = self.list_string_scan(rhs);
                if rhs_result == ASTStringListScanResult::NotList {
                    return ASTStringListScanResult::NotList;
                }
                proof {
                    assert(shape_ok(self@, lhs as int));
                }
                match self.get(lhs).t {
                    ASTNodeType::Application => {
                        let lhs_lhs = self.get_func(lhs);
                        let lhs_rhs = self.get_arg(lhs);
                        proof {
                            assert(child_ok(self@, lhs as int, self@[lhs as int].children[0] as int));
                            assert(child_ok(self@, lhs as int, self@[lhs as int].children[1] as int));
                        }
                        let head = self.get_app_head(lhs_lhs);
                        let cons = String::from_str("Cons");
                        proof {
                            reveal_strlit("Cons");
                            assert(cons@ =~= cons_name());
                        }
                        if !(self.get(head).get_value() == cons) {
                            return ASTStringListScanResult::NotList;
                        }
                        if rhs_result == ASTStringListScanResult::ListNotString {
                            ASTStringListScanResult::ListNotString
                        } else {
                            proof {
                                assert(shape_ok(self@, lhs_rhs as int));
                            }
                            match self.get(lhs_rhs).t {
                                ASTNodeType::Literal => match self.get(lhs_rhs).get_lit_type() {
                                    Type::Primitive(Primitive::Char) => {
                                        ASTStringListScanResult::ListAndString
                                    },
                                    _ => ASTStringListScanResult::ListNotString,
                                },
                                _ => ASTStringListScanResult::ListNotString,
                            }
                        }
                    },
                    _ => ASTStringListScanResult::NotList,
                }
            },
            _ => ASTStringListScanResult::NotList,
        }
    }

    /// The head of the application spine of `expr`.
    pub fn get_app_head(&self, expr: usize) -> (h: usize)
        requires
            self.wf(),
            expr < self@.len(),
        ensures
            h == sp_app_head(self@, expr as int),
            h < self@.len(),
            self@[h as int].t != ASTNodeType::Application,
        decreases rank(self@, expr as int),
    {
        proof {
            assert(shape_ok(self@, expr as int));
        }
        match self.get(expr).t {
            ASTNodeType::Application => {
                proof {
                    assert(child_ok(self@, expr as int, self@[expr as int].children[0] as int));
                }
                self.get_app_head(self.get_func(expr))
            },
            _ => expr,
        }
    }
}

} // verus!

//! Java syntax trees as plain values: the nodes of a tree in source order, each
//! with its depth.
use crate::lists::first_where;
use crate::text::same;
use vstd::prelude::*;

verus! {

/// One node of a syntax tree.
#[derive(Debug)]
pub struct SyntaxNode {
    /// What the grammar calls the node.
    pub kind: String,
    /// The field of its parent that the node fills.
    pub field: Option<String>,
    /// Whether a rule of the grammar gives the node its name.
    pub named: bool,
    /// Whether the node holds a syntax error.
    pub broken: bool,
    /// How many nodes the node is under.
    pub depth: u32,
    pub text: Option<String>,
    /// The row of its first character, the first row being zero.
    pub row: u32,
    pub end_row: u32,
}

/// The content of a [`SyntaxNode`].
#[verifier::ext_equal]
pub struct SyntaxNodeView {
    pub kind: Seq<char>,
    pub field: Option<Seq<char>>,
    pub named: bool,
    pub broken: bool,
    pub depth: u32,
    pub text: Option<Seq<char>>,
    pub row: u32,
    pub end_row: u32,
}

impl DeepView for SyntaxNode {
    type V = SyntaxNodeView;

    open spec fn deep_view(&self) -> SyntaxNodeView {
        SyntaxNodeView {
            kind: self.kind.deep_view(),
            field: self.field.deep_view(),
            named: self.named,
            broken: self.broken,
            depth: self.depth,
            text: self.text.deep_view(),
            row: self.row,
            end_row: self.end_row,
        }
    }
}

impl Clone for SyntaxNode {
    fn clone(&self) -> (r: Self)
        ensures
            r.deep_view() == self.deep_view(),
    {
        SyntaxNode {
            kind: self.kind.clone(),
            field: self.field.clone(),
            named: self.named,
            broken: self.broken,
            depth: self.depth,
            text: self.text.clone(),
            row: self.row,
            end_row: self.end_row,
        }
    }
}

#[verifier::external_type_specification]
#[verifier::external_body]
pub struct ExParser(tree_sitter::Parser);

#[verifier::external_type_specification]
#[verifier::external_body]
pub struct ExTree(tree_sitter::Tree);

#[verifier::external_type_specification]
#[verifier::external_body]
pub struct ExLanguageError(tree_sitter::LanguageError);

/// Whether a parser has been given the Java grammar.
pub uninterp spec fn reads_java(p: tree_sitter::Parser) -> bool;

/// The nodes of a tree in source order, a node before the nodes under it.
pub uninterp spec fn tree_nodes(t: tree_sitter::Tree) -> Seq<SyntaxNodeView>;

/// The text that a tree was made from.
pub uninterp spec fn source_of(t: tree_sitter::Tree) -> Seq<char>;

/// The nodes of the tree that the Java grammar gives a text.
pub uninterp spec fn java_nodes(src: Seq<char>) -> Seq<SyntaxNodeView>;

/// `tree_sitter::Parser::set_language` gives the parser the grammar. It refuses a
/// grammar that cannot parse or whose version lies outside the range it reads; the Java
/// grammar can, and its version lies within.
#[verifier::external_body]
pub(crate) fn load_grammar() -> (r: Result<tree_sitter::Parser, tree_sitter::LanguageError>)
    ensures
        r is Ok,
        r matches Ok(p) ==> reads_java(p),
{
    let mut p = tree_sitter::Parser::new();
    p.set_language(&tree_sitter_java::LANGUAGE.into())?;
    Ok(p)
}

/// `tree_sitter::Parser::parse`, without an earlier tree to start from, makes the
/// tree of the text. It makes none only for a parser without a grammar; the parser keeps
/// its grammar.
#[verifier::external_body]
pub(crate) fn parse_java(p: &mut tree_sitter::Parser, src: &str) -> (r: Option<tree_sitter::Tree>)
    requires
        reads_java(*old(p)),
    ensures
        reads_java(*final(p)),
        r is Some,
        r matches Some(t) ==> java_nodes(src@) == tree_nodes(t) && source_of(t) == src@,
{
    p.parse(src, None)
}

/// `tree_sitter::Node::descendant_count` counts the nodes of the tree, its root
/// among them.
#[verifier::external_body]
fn node_count(t: &tree_sitter::Tree) -> (r: usize)
    ensures
        r == tree_nodes(*t).len(),
{
    t.root_node().descendant_count()
}

/// `tree_sitter::TreeCursor::goto_descendant` moves to the node with the given place
/// in source order.
#[verifier::external_body]
fn node_at(t: &tree_sitter::Tree, src: &str, i: usize) -> (r: SyntaxNode)
    requires
        i < tree_nodes(*t).len(),
        source_of(*t) == src@,
    ensures
        r.deep_view() == tree_nodes(*t)[i as int],
{
    let mut c = t.walk();
    c.goto_descendant(i);
    let n = c.node();
    SyntaxNode {
        kind: n.kind().to_string(),
        field: c.field_name().map(|f| f.to_string()),
        named: n.is_named(),
        broken: n.has_error(),
        depth: c.depth(),
        text: n.utf8_text(src.as_bytes()).ok().map(|t| t.to_string()),
        row: n.start_position().row as u32,
        end_row: n.end_position().row as u32,
    }
}

/// The nodes of a tree in source order.
pub(crate) fn nodes_of(t: &tree_sitter::Tree, src: &str) -> (r: Vec<SyntaxNode>)
    requires
        source_of(*t) == src@,
    ensures
        r.deep_view() == tree_nodes(*t),
{
    let n: usize = node_count(t);
    let mut out: Vec<SyntaxNode> = Vec::new();
    let ghost all = tree_nodes(*t);
    let mut i: usize = 0;
    while i < n
        invariant
            i <= n,
            n == all.len(),
            all == tree_nodes(*t),
            source_of(*t) == src@,
            out.deep_view() == all.take(i as int),
        decreases n - i,
    {
        let ghost before = out.deep_view();
        out.push(node_at(t, src, i));
        assert(out.deep_view() =~= before.push(all[i as int]));
        i += 1;
        assert(all.take(i as int) =~= before.push(all[i - 1]));
    }
    assert(all.take(i as int) =~= all);
    out
}

// ---------------------------------------------------------------------------
// Moving in a tree

/// The first place at or after `j` that is not under a node of depth `d`.
pub open spec fn end_from(ns: Seq<SyntaxNodeView>, d: u32, j: int) -> int
    decreases ns.len() - j,
{
    if j < 0 || j >= ns.len() || ns[j].depth <= d {
        j
    } else {
        end_from(ns, d, j + 1)
    }
}

/// Where the nodes under the node `i` end.
pub open spec fn end_of(ns: Seq<SyntaxNodeView>, i: int) -> int {
    end_from(ns, ns[i].depth, i + 1)
}

/// The children, at or after `j`, of a node of depth `d` that is before `j`.
pub open spec fn children_from(ns: Seq<SyntaxNodeView>, d: u32, j: int) -> Seq<int>
    decreases ns.len() - j,
{
    if j < 0 || j >= ns.len() || ns[j].depth <= d {
        Seq::empty()
    } else if ns[j].depth == d + 1 {
        seq![j] + children_from(ns, d, j + 1)
    } else {
        children_from(ns, d, j + 1)
    }
}

/// The children of the node `i`, in order.
pub open spec fn children_of(ns: Seq<SyntaxNodeView>, i: int) -> Seq<int> {
    children_from(ns, ns[i].depth, i + 1)
}

pub proof fn children_after(ns: Seq<SyntaxNodeView>, d: u32, j: int)
    ensures
        forall|k: int|
            0 <= k < children_from(ns, d, j).len() ==> j <= #[trigger] children_from(ns, d, j)[k]
                < ns.len(),
    decreases ns.len() - j,
{
    if j < 0 || j >= ns.len() || ns[j].depth <= d {
    } else {
        children_after(ns, d, j + 1);
        let rest = children_from(ns, d, j + 1);
        let all = children_from(ns, d, j);
        assert forall|k: int| 0 <= k < all.len() implies j <= #[trigger] all[k] < ns.len() by {
            if ns[j].depth == d + 1 {
                if k > 0 {
                    assert(all[k] == rest[k - 1]);
                }
            } else {
                assert(all[k] == rest[k]);
            }
        }
    }
}

pub proof fn end_from_bounds(ns: Seq<SyntaxNodeView>, d: u32, j: int)
    requires
        0 <= j <= ns.len(),
    ensures
        j <= end_from(ns, d, j) <= ns.len(),
    decreases ns.len() - j,
{
    if j < ns.len() && ns[j].depth > d {
        end_from_bounds(ns, d, j + 1);
    }
}

/// The sibling before the node of depth `d`, at or before `j`.
pub open spec fn before_from(ns: Seq<SyntaxNodeView>, d: u32, j: int) -> Option<int>
    decreases j + 1,
{
    if j < 0 || j >= ns.len() || ns[j].depth < d {
        None
    } else if ns[j].depth == d {
        Some(j)
    } else {
        before_from(ns, d, j - 1)
    }
}

/// The sibling just before the node `i`.
pub open spec fn prev_sibling_of(ns: Seq<SyntaxNodeView>, i: int) -> Option<int> {
    before_from(ns, ns[i].depth, i - 1)
}

pub proof fn before_from_bounds(ns: Seq<SyntaxNodeView>, d: u32, j: int)
    ensures
        before_from(ns, d, j) matches Some(k) ==> 0 <= k <= j && k < ns.len(),
    decreases j + 1,
{
    if j < 0 || j >= ns.len() || ns[j].depth <= d {
    } else {
        before_from_bounds(ns, d, j - 1);
    }
}

/// The first of the places whose node fills the field `f`.
pub open spec fn with_field(ns: Seq<SyntaxNodeView>, cs: Seq<int>, f: Seq<char>) -> Option<int> {
    first_where(cs, |c: int| ns[c].field == Some(f))
}

/// The child of the node `i` that fills the field `f`.
pub open spec fn child_with(ns: Seq<SyntaxNodeView>, i: int, f: Seq<char>) -> Option<int> {
    with_field(ns, children_of(ns, i), f)
}

pub proof fn first_where_member(cs: Seq<int>, p: spec_fn(int) -> bool)
    ensures
        first_where(cs, p) matches Some(x) ==> cs.contains(x) && p(x),
    decreases cs.len(),
{
    if cs.len() > 0 {
        if p(cs[0]) {
            assert(cs.contains(cs[0]));
        } else {
            first_where_member(cs.skip(1), p);
            if let Some(x) = first_where(cs.skip(1), p) {
                let k = choose|k: int| 0 <= k < cs.skip(1).len() && cs.skip(1)[k] == x;
                assert(cs[k + 1] == x);
            }
        }
    }
}

pub proof fn child_with_after(ns: Seq<SyntaxNodeView>, i: int, f: Seq<char>)
    ensures
        child_with(ns, i, f) matches Some(c) ==> i < c < ns.len(),
{
    let p = |c: int| ns[c].field == Some(f);
    first_where_member(children_of(ns, i), p);
    children_after(ns, ns[i].depth, i + 1);
}

/// The text of the child of the node `i` that fills the field `f`.
pub open spec fn field_text(ns: Seq<SyntaxNodeView>, i: int, f: Seq<char>) -> Option<Seq<char>> {
    match child_with(ns, i, f) {
        Some(c) => ns[c].text,
        None => None,
    }
}

pub open spec fn as_ints(s: Seq<usize>) -> Seq<int> {
    s.map_values(|x: usize| x as int)
}

/// The children of the node `i`.
pub fn children(ns: &Vec<SyntaxNode>, i: usize) -> (r: Vec<usize>)
    requires
        i < ns.len(),
    ensures
        as_ints(r@) == children_of(ns.deep_view(), i as int),
        forall|k: int| 0 <= k < r.len() ==> i < #[trigger] r@[k] < ns.len(),
{
    let ghost v = ns.deep_view();
    let d: u32 = ns[i].depth;
    let mut out: Vec<usize> = Vec::new();
    let mut j: usize = i + 1;
    assert(as_ints(out@) + children_from(v, d, j as int) =~= children_of(v, i as int));
    while j < ns.len() && ns[j].depth > d
        invariant
            i < j <= ns.len(),
            v == ns.deep_view(),
            d == v[i as int].depth,
            as_ints(out@) + children_from(v, d, j as int) == children_of(v, i as int),
            forall|k: int| 0 <= k < out.len() ==> i < #[trigger] out@[k] < ns.len(),
        decreases ns.len() - j,
    {
        let ghost before = out@;
        assert(v[j as int].depth == ns@[j as int].depth);
        if ns[j].depth == d + 1 {
            out.push(j);
            assert(as_ints(out@) =~= as_ints(before).push(j as int));
            assert(as_ints(out@) + children_from(v, d, j + 1) =~= as_ints(before) + (seq![j as int]
                + children_from(v, d, j + 1)));
        }
        j += 1;
    }
    assert(children_from(v, d, j as int) =~= Seq::<int>::empty()) by {
        if j < ns.len() {
            assert(v[j as int].depth == ns@[j as int].depth);
        }
    }
    assert(as_ints(out@) + Seq::<int>::empty() =~= as_ints(out@));
    out
}

/// Where the nodes under the node `i` end.
pub fn end_under(ns: &Vec<SyntaxNode>, i: usize) -> (r: usize)
    requires
        i < ns.len(),
    ensures
        r == end_of(ns.deep_view(), i as int),
        i < r <= ns.len(),
{
    let ghost v = ns.deep_view();
    let d: u32 = ns[i].depth;
    let mut j: usize = i + 1;
    while j < ns.len() && ns[j].depth > d
        invariant
            i < j <= ns.len(),
            v == ns.deep_view(),
            d == v[i as int].depth,
            end_from(v, d, i + 1) == end_from(v, d, j as int),
        decreases ns.len() - j,
    {
        assert(v[j as int].depth == ns@[j as int].depth);
        j += 1;
    }
    if j < ns.len() {
        assert(v[j as int].depth == ns@[j as int].depth);
    }
    j
}

/// The sibling just before the node `i`.
pub fn prev_sibling(ns: &Vec<SyntaxNode>, i: usize) -> (r: Option<usize>)
    requires
        i < ns.len(),
    ensures
        crate::text::as_pos(r) == prev_sibling_of(ns.deep_view(), i as int),
        r matches Some(k) ==> k < i,
{
    let ghost v = ns.deep_view();
    let d: u32 = ns[i].depth;
    let mut j: usize = i;
    while j > 0
        invariant
            j <= i < ns.len(),
            v == ns.deep_view(),
            d == v[i as int].depth,
            before_from(v, d, i - 1) == before_from(v, d, j - 1),
        decreases j,
    {
        assert(v[j - 1].depth == ns@[j - 1].depth);
        if ns[j - 1].depth < d {
            return None;
        }
        if ns[j - 1].depth == d {
            return Some(j - 1);
        }
        j -= 1;
    }
    None
}

/// The child of the node `i` that fills the field `f`.
pub fn child_by_field(ns: &Vec<SyntaxNode>, i: usize, f: &str) -> (r: Option<usize>)
    requires
        i < ns.len(),
    ensures
        crate::text::as_pos(r) == child_with(ns.deep_view(), i as int, f@),
        r matches Some(k) ==> i < k < ns.len(),
{
    let ghost v = ns.deep_view();
    let ghost p = |c: int| v[c].field == Some(f@);
    let cs = children(ns, i);
    let ghost all = children_of(v, i as int);
    let mut k: usize = 0;
    assert(all.skip(0) =~= all);
    while k < cs.len()
        invariant
            k <= cs.len(),
            v == ns.deep_view(),
            p == (|c: int| v[c].field == Some(f@)),
            as_ints(cs@) == all,
            all == children_of(v, i as int),
            forall|j: int| 0 <= j < cs.len() ==> i < #[trigger] cs@[j] < ns.len(),
            first_where(all, p) == first_where(all.skip(k as int), p),
        decreases cs.len() - k,
    {
        let c: usize = cs[k];
        assert(all[k as int] == c);
        assert(all.skip(k as int)[0] == c);
        assert(v[c as int].field == ns@[c as int].field.deep_view());
        match &ns[c].field {
            Some(x) => {
                if same(x.as_str(), f) {
                    assert(p(c as int));
                    return Some(c);
                }
            },
            None => {},
        }
        assert(!p(c as int));
        assert(all.skip(k as int).skip(1) =~= all.skip(k + 1));
        k += 1;
    }
    None
}

/// The text of the child of the node `i` that fills the field `f`.
pub fn text_of_field(ns: &Vec<SyntaxNode>, i: usize, f: &str) -> (r: Option<String>)
    requires
        i < ns.len(),
    ensures
        r.deep_view() == field_text(ns.deep_view(), i as int, f@),
{
    match child_by_field(ns, i, f) {
        Some(c) => {
            assert(ns.deep_view()[c as int].text == ns@[c as int].text.deep_view());
            ns[c].text.clone()
        },
        None => None,
    }
}

/// Whether the grammar calls the node `i` `kind`.
pub fn is_kind(ns: &Vec<SyntaxNode>, i: usize, kind: &str) -> (r: bool)
    requires
        i < ns.len(),
    ensures
        r == (ns.deep_view()[i as int].kind == kind@),
{
    assert(ns.deep_view()[i as int].kind == ns@[i as int].kind@);
    same(ns[i].kind.as_str(), kind)
}

} // verus!


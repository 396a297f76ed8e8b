//! Java source extraction via tree-sitter.
//!
//! Pulls out type/member declarations with their Javadoc and annotations, plus
//! a best-effort list of callee names per method body. Name resolution happens
//! later, where the whole project's symbol table exists.
use crate::extract::syntax::{
    as_ints, child_by_field, child_with, child_with_after, children, children_after, children_of,
    end_from_bounds, end_of, end_under, field_text, is_kind, java_nodes, load_grammar, nodes_of,
    parse_java, prev_sibling, prev_sibling_of, before_from_bounds, reads_java, text_of_field,
    SyntaxNode, SyntaxNodeView,
};
use crate::lists::{sort_unique, sorted_of, take_all, take_next};
use crate::split::{after_last, join, joined, tail_of, words, words_of};
use crate::store::model::{
    Annotation, AnnotationView, JavaFile, JavaFileView, RawSymbol, RawSymbolView, SymbolKind,
};
use crate::text::{
    after_prefix, contains_char, drop_while, only, owned, same, strip_prefix, trim, trim_end_of,
    trim_of, trim_prefixes, trimmed, trimmed_of, without_prefixes,
};
use crate::util::{clean_javadoc, javadoc};
use vstd::prelude::*;
use vstd::utf8::encode_utf8;

verus! {

/// A parser that reads Java.
pub struct JavaParser {
    inner: tree_sitter::Parser,
}

impl JavaParser {
    /// Whether the grammar is in place.
    pub closed spec fn ready(&self) -> bool {
        reads_java(self.inner)
    }
}

/// A parser with the Java grammar.
pub fn parser() -> (r: Result<JavaParser, String>)
    ensures
        r matches Ok(p) && p.ready(),
{
    match load_grammar() {
        Ok(inner) => Ok(JavaParser { inner }),
        Err(_) => Err(owned("loading tree-sitter-java grammar")),
    }
}

// ---------------------------------------------------------------------------
// Names and kinds

pub open spec fn declares_type(kind: Seq<char>) -> bool {
    ||| kind == "class_declaration"@
    ||| kind == "interface_declaration"@
    ||| kind == "enum_declaration"@
    ||| kind == "record_declaration"@
    ||| kind == "annotation_type_declaration"@
}

pub fn is_type_decl(kind: &str) -> (r: bool)
    ensures
        r == declares_type(kind@),
{
    same(kind, "class_declaration") || same(kind, "interface_declaration") || same(
        kind,
        "enum_declaration",
    ) || same(kind, "record_declaration") || same(kind, "annotation_type_declaration")
}

/// The kind of symbol that a declaration makes.
pub open spec fn symbol_kind(kind: Seq<char>) -> SymbolKind {
    if kind == "interface_declaration"@ {
        SymbolKind::Interface
    } else if kind == "enum_declaration"@ {
        SymbolKind::Enum
    } else if kind == "record_declaration"@ {
        SymbolKind::Record
    } else if kind == "annotation_type_declaration"@ {
        SymbolKind::Annotation
    } else {
        SymbolKind::Class
    }
}

pub fn type_kind(kind: &str) -> (r: SymbolKind)
    ensures
        r == symbol_kind(kind@),
{
    if same(kind, "interface_declaration") {
        SymbolKind::Interface
    } else if same(kind, "enum_declaration") {
        SymbolKind::Enum
    } else if same(kind, "record_declaration") {
        SymbolKind::Record
    } else if same(kind, "annotation_type_declaration") {
        SymbolKind::Annotation
    } else {
        SymbolKind::Class
    }
}

/// An annotation argument without the braces and quotes around it.
pub open spec fn bare_argument(raw: Seq<char>) -> Seq<char> {
    let t = trimmed(raw);
    let u = match after_prefix(t, "{"@) {
        Some(s) => drop_while(s, only('}')),
        None => t,
    };
    trimmed(trimmed_of(trimmed(u), '"'))
}

/// Strip surrounding quotes and braces from an annotation argument's raw text.
pub fn unquote(raw: &str) -> (r: String)
    ensures
        r@ == bare_argument(raw@),
{
    let t = trim(raw);
    let t = match strip_prefix(t, "{") {
        Some(s) => trim_end_of(s, '}'),
        None => t,
    };
    owned(trim(trim_of(trim(t), '"')))
}

/// What an import declaration brings in.
pub open spec fn imported(text: Seq<char>) -> Seq<char> {
    let t = trimmed(without_prefixes(text, "import"@));
    let u = trimmed(without_prefixes(t, "static"@));
    trimmed(drop_while(u, only(';')))
}

fn import_name(text: &str) -> (r: String)
    ensures
        r@ == imported(text@),
{
    let t = trim(trim_prefixes(text, "import"));
    let u = trim(trim_prefixes(t, "static"));
    owned(trim(trim_end_of(u, ';')))
}

/// The number of the line in the given row.
pub open spec fn line_at(row: u32) -> u32 {
    if row < u32::MAX {
        (row + 1) as u32
    } else {
        row
    }
}

fn line(row: u32) -> (r: u32)
    ensures
        r == line_at(row),
{
    if row < u32::MAX {
        row + 1
    } else {
        row
    }
}

// ---------------------------------------------------------------------------
// Documentation and modifiers

/// The comments just before the node `i`, in source order. Annotations sit in the
/// modifiers of the declaration, so only modifiers may stand between.
pub open spec fn comments_before(ns: Seq<SyntaxNodeView>, i: int) -> Seq<Seq<char>>
    decreases i,
{
    match prev_sibling_of(ns, i) {
        Some(p) => {
            proof {
                before_from_bounds(ns, ns[i].depth, i - 1);
            }
            if ns[p].kind == "block_comment"@ || ns[p].kind == "line_comment"@ {
                match ns[p].text {
                    Some(t) => comments_before(ns, p).push(t),
                    None => comments_before(ns, p),
                }
            } else if ns[p].kind == "modifiers"@ {
                comments_before(ns, p)
            } else {
                Seq::empty()
            }
        },
        None => Seq::empty(),
    }
}

/// What the comments before a declaration say.
pub open spec fn doc_before(ns: Seq<SyntaxNodeView>, i: int) -> Option<Seq<char>> {
    if comments_before(ns, i).len() == 0 {
        None
    } else {
        javadoc(joined(comments_before(ns, i), "\n"@))
    }
}

fn collect_comments(ns: &Vec<SyntaxNode>, i: usize) -> (r: Vec<String>)
    requires
        i < ns.len(),
    ensures
        r.deep_view() == comments_before(ns.deep_view(), i as int),
    decreases i,
{
    let ghost v = ns.deep_view();
    let empty: Vec<String> = Vec::new();
    assert(empty.deep_view() =~= Seq::empty());
    match prev_sibling(ns, i) {
        Some(p) => {
            if is_kind(ns, p, "block_comment") || is_kind(ns, p, "line_comment") {
                let mut before = collect_comments(ns, p);
                assert(v[p as int].text == ns@[p as int].text.deep_view());
                match &ns[p].text {
                    Some(t) => {
                        let ghost b = before.deep_view();
                        before.push(t.clone());
                        assert(before.deep_view() =~= b.push(t@));
                    },
                    None => {},
                }
                before
            } else if is_kind(ns, p, "modifiers") {
                collect_comments(ns, p)
            } else {
                empty
            }
        },
        None => empty,
    }
}

/// Javadoc or line comments immediately preceding a declaration. Legacy code in
/// scope uses both styles, and `//` comments there often carry the only
/// business description available, so we accept them too.
fn leading_doc(ns: &Vec<SyntaxNode>, i: usize) -> (r: Option<String>)
    requires
        i < ns.len(),
    ensures
        r.deep_view() == doc_before(ns.deep_view(), i as int),
{
    let collected = collect_comments(ns, i);
    if collected.len() == 0 {
        return None;
    }
    clean_javadoc(join(&collected, "\n").as_str())
}

/// The first of the places whose node is called `kind`.
pub open spec fn first_of_kind(ns: Seq<SyntaxNodeView>, cs: Seq<int>, kind: Seq<char>) -> Option<
    int,
> {
    crate::lists::first_where(cs, |c: int| ns[c].kind == kind)
}

fn find_kind(ns: &Vec<SyntaxNode>, cs: &Vec<usize>, kind: &str) -> (r: Option<usize>)
    requires
        forall|k: int| 0 <= k < cs.len() ==> #[trigger] cs@[k] < ns.len(),
    ensures
        crate::text::as_pos(r) == first_of_kind(ns.deep_view(), as_ints(cs@), kind@),
        r matches Some(c) ==> c < ns.len(),
{
    let ghost v = ns.deep_view();
    let ghost all = as_ints(cs@);
    let ghost p = |c: int| v[c].kind == kind@;
    let mut k: usize = 0;
    assert(all.skip(0) =~= all);
    while k < cs.len()
        invariant
            k <= cs.len(),
            v == ns.deep_view(),
            all == as_ints(cs@),
            p == (|c: int| v[c].kind == kind@),
            forall|j: int| 0 <= j < cs.len() ==> #[trigger] cs@[j] < ns.len(),
            crate::lists::first_where(all, p) == crate::lists::first_where(all.skip(k as int), p),
        decreases cs.len() - k,
    {
        let c: usize = cs[k];
        assert(all.skip(k as int)[0] == c);
        if is_kind(ns, c, kind) {
            assert(p(c as int));
            return Some(c);
        }
        assert(!p(c as int));
        assert(all.skip(k as int).skip(1) =~= all.skip(k + 1));
        k += 1;
    }
    None
}

/// The visibility that the modifiers of the node `i` give it.
pub open spec fn visibility_of(ns: Seq<SyntaxNodeView>, i: int) -> Option<Seq<char>> {
    match first_of_kind(ns, children_of(ns, i), "modifiers"@) {
        Some(m) => match ns[m].text {
            Some(t) => if words_of(t).contains("public"@) {
                Some("public"@)
            } else if words_of(t).contains("protected"@) {
                Some("protected"@)
            } else if words_of(t).contains("private"@) {
                Some("private"@)
            } else {
                Some("package"@)
            },
            None => None,
        },
        None => None,
    }
}

fn visibility(ns: &Vec<SyntaxNode>, i: usize) -> (r: Option<String>)
    requires
        i < ns.len(),
    ensures
        r.deep_view() == visibility_of(ns.deep_view(), i as int),
{
    let cs = children(ns, i);
    match find_kind(ns, &cs, "modifiers") {
        Some(m) => {
            assert(ns.deep_view()[m as int].text == ns@[m as int].text.deep_view());
            match &ns[m].text {
                Some(t) => {
                    let w = words(t.as_str());
                    if crate::lists::holds(&w, "public") {
                        Some(owned("public"))
                    } else if crate::lists::holds(&w, "protected") {
                        Some(owned("protected"))
                    } else if crate::lists::holds(&w, "private") {
                        Some(owned("private"))
                    } else {
                        Some(owned("package"))
                    }
                },
                None => None,
            }
        },
        None => None,
    }
}

/// Whether modifiers make a field a constant.
pub open spec fn constant_modifiers(n: SyntaxNodeView) -> bool {
    words_of(n.text->0).contains("static"@) && words_of(n.text->0).contains("final"@)
}

/// Whether the first modifiers of the node `i` that have a text make it a constant.
pub open spec fn is_constant(ns: Seq<SyntaxNodeView>, i: int) -> bool {
    match crate::lists::first_where(
        children_of(ns, i),
        |c: int| ns[c].kind == "modifiers"@ && ns[c].text is Some,
    ) {
        Some(m) => constant_modifiers(ns[m]),
        None => false,
    }
}

fn is_static_final(ns: &Vec<SyntaxNode>, i: usize) -> (r: bool)
    requires
        i < ns.len(),
    ensures
        r == is_constant(ns.deep_view(), i as int),
{
    let ghost v = ns.deep_view();
    let ghost all = children_of(v, i as int);
    let ghost p = |c: int| v[c].kind == "modifiers"@ && v[c].text is Some;
    let cs = children(ns, i);
    let mut k: usize = 0;
    assert(all.skip(0) =~= all);
    while k < cs.len()
        invariant
            k <= cs.len(),
            v == ns.deep_view(),
            all == as_ints(cs@),
            all == children_of(v, i as int),
            p == (|c: int| v[c].kind == "modifiers"@ && v[c].text is Some),
            forall|j: int| 0 <= j < cs.len() ==> i < #[trigger] cs@[j] < ns.len(),
            crate::lists::first_where(all, p) == crate::lists::first_where(all.skip(k as int), p),
        decreases cs.len() - k,
    {
        let c: usize = cs[k];
        assert(all.skip(k as int)[0] == c);
        assert(v[c as int].text == ns@[c as int].text.deep_view());
        if is_kind(ns, c, "modifiers") {
            match &ns[c].text {
                Some(t) => {
                    assert(p(c as int));
                    let w = words(t.as_str());
                    return crate::lists::holds(&w, "static") && crate::lists::holds(&w, "final");
                },
                None => {},
            }
        }
        assert(!p(c as int));
        assert(all.skip(k as int).skip(1) =~= all.skip(k + 1));
        k += 1;
    }
    false
}

// ---------------------------------------------------------------------------
// Supertypes and calls

/// The type names in the places `j..end`, generic arguments left out: a generic
/// argument is not a supertype. Of a qualified name the last segment counts, to
/// match how types are named elsewhere.
pub open spec fn type_names(ns: Seq<SyntaxNodeView>, j: int, end: int) -> Seq<Seq<char>>
    decreases
            (if j < end {
                end - j
            } else {
                0
            }),
{
    if j < 0 || j >= end || end > ns.len() {
        Seq::empty()
    } else {
        let after = end_of(ns, j);
        proof {
            end_from_bounds(ns, ns[j].depth, j + 1);
        }
        if ns[j].kind == "type_identifier"@ {
            match ns[j].text {
                Some(t) => seq![t] + type_names(ns, after, end),
                None => type_names(ns, after, end),
            }
        } else if ns[j].kind == "scoped_type_identifier"@ {
            match ns[j].text {
                Some(t) => seq![trimmed(tail_of(t, '.'))] + type_names(ns, after, end),
                None => type_names(ns, after, end),
            }
        } else if ns[j].kind == "type_arguments"@ {
            type_names(ns, after, end)
        } else {
            type_names(ns, j + 1, end)
        }
    }
}

/// Type identifiers under a node, ignoring generic arguments.
fn collect_type_names(ns: &Vec<SyntaxNode>, i: usize, out: &mut Vec<String>)
    requires
        i < ns.len(),
    ensures
        final(out).deep_view() == old(out).deep_view() + type_names(
            ns.deep_view(),
            i as int,
            end_of(ns.deep_view(), i as int),
        ),
{
    let ghost v = ns.deep_view();
    let ghost start = out.deep_view();
    let end: usize = end_under(ns, i);
    let mut j: usize = i;
    while j < end
        invariant
            v == ns.deep_view(),
            end <= ns.len(),
            start + type_names(v, i as int, end as int) == out.deep_view() + type_names(
                v,
                j as int,
                end as int,
            ),
        decreases
                (if j < end {
                    end - j
                } else {
                    0
                }),
    {
        let ghost before = out.deep_view();
        assert(v[j as int].text == ns@[j as int].text.deep_view());
        if is_kind(ns, j, "type_identifier") {
            let after: usize = end_under(ns, j);
            match &ns[j].text {
                Some(t) => {
                    out.push(t.clone());
                    assert(out.deep_view() =~= before.push(t@));
                    assert(before + (seq![t@] + type_names(v, after as int, end as int))
                        =~= before.push(t@) + type_names(v, after as int, end as int));
                },
                None => {},
            }
            j = after;
        } else if is_kind(ns, j, "scoped_type_identifier") {
            let after: usize = end_under(ns, j);
            match &ns[j].text {
                Some(t) => {
                    let last = owned(trim(after_last(t.as_str(), '.')));
                    let ghost x = last@;
                    out.push(last);
                    assert(out.deep_view() =~= before.push(x));
                    assert(before + (seq![x] + type_names(v, after as int, end as int))
                        =~= before.push(x) + type_names(v, after as int, end as int));
                },
                None => {},
            }
            j = after;
        } else if is_kind(ns, j, "type_arguments") {
            j = end_under(ns, j);
        } else {
            j += 1;
        }
    }
    assert(type_names(v, j as int, end as int) =~= Seq::empty());
    assert(out.deep_view() + Seq::<Seq<char>>::empty() =~= out.deep_view());
}

pub open spec fn is_super_clause(kind: Seq<char>) -> bool {
    kind == "superclass"@ || kind == "super_interfaces"@ || kind == "extends_interfaces"@
}

/// The names in the `extends` and `implements` clauses among the places `cs`.
pub open spec fn super_names(ns: Seq<SyntaxNodeView>, cs: Seq<int>) -> Seq<Seq<char>>
    decreases cs.len(),
{
    if cs.len() == 0 {
        Seq::empty()
    } else {
        let before = super_names(ns, cs.drop_last());
        let c = cs.last();
        if is_super_clause(ns[c].kind) {
            before + type_names(ns, c, end_of(ns, c))
        } else {
            before
        }
    }
}

/// Names in a type's `extends` and `implements` clauses, generics stripped, sorted
/// and each once.
fn supertypes_of(ns: &Vec<SyntaxNode>, i: usize) -> (r: Vec<String>)
    requires
        i < ns.len(),
    ensures
        r.deep_view() == sorted_of(
            super_names(ns.deep_view(), children_of(ns.deep_view(), i as int)),
        ),
{
    let ghost v = ns.deep_view();
    let ghost all = children_of(v, i as int);
    let cs = children(ns, i);
    let mut out: Vec<String> = Vec::new();
    let mut k: usize = 0;
    assert(out.deep_view() =~= super_names(v, all.take(0)));
    while k < cs.len()
        invariant
            k <= cs.len(),
            v == ns.deep_view(),
            all == as_ints(cs@),
            forall|j: int| 0 <= j < cs.len() ==> i < #[trigger] cs@[j] < ns.len(),
            out.deep_view() == super_names(v, all.take(k as int)),
        decreases cs.len() - k,
    {
        broadcast use take_next;

        let c: usize = cs[k];
        assert(all[k as int] == c);
        assert(all.take(k + 1).last() == c);
        if is_kind(ns, c, "superclass") || is_kind(ns, c, "super_interfaces") || is_kind(
            ns,
            c,
            "extends_interfaces",
        ) {
            collect_type_names(ns, c, &mut out);
        }
        k += 1;
    }
    broadcast use take_all;

    assert(all.take(k as int) == all);
    sort_unique(&out)
}

/// The name under which a call is recorded: with its receiver where that is short
/// and simple, so that the resolver can use field types, else the bare name.
pub open spec fn call_name(name: Seq<char>, object: Option<Seq<char>>) -> Seq<char> {
    match object {
        Some(o) => if encode_utf8(o).len() <= 64 && !o.contains('\n') && !o.contains('(') {
            o + "."@ + name
        } else {
            name
        },
        None => name,
    }
}

/// The calls in the places `from..j`.
pub open spec fn calls_in(ns: Seq<SyntaxNodeView>, from: int, j: int) -> Seq<Seq<char>>
    decreases j - from,
{
    if j <= from {
        Seq::empty()
    } else {
        let before = calls_in(ns, from, j - 1);
        if ns[j - 1].kind == "method_invocation"@ {
            match field_text(ns, j - 1, "name"@) {
                Some(name) => before.push(call_name(name, field_text(ns, j - 1, "object"@))),
                None => before,
            }
        } else {
            before
        }
    }
}

/// Collect callee names from a method body, sorted and each once.
fn collect_calls(ns: &Vec<SyntaxNode>, i: usize) -> (r: Vec<String>)
    requires
        i < ns.len(),
    ensures
        r.deep_view() == sorted_of(
            calls_in(ns.deep_view(), i as int, end_of(ns.deep_view(), i as int)),
        ),
{
    let ghost v = ns.deep_view();
    let end: usize = end_under(ns, i);
    let mut out: Vec<String> = Vec::new();
    let mut j: usize = i;
    assert(out.deep_view() =~= Seq::empty());
    while j < end
        invariant
            i <= j <= end <= ns.len(),
            v == ns.deep_view(),
            out.deep_view() == calls_in(v, i as int, j as int),
        decreases end - j,
    {
        let ghost before = out.deep_view();
        if is_kind(ns, j, "method_invocation") {
            match text_of_field(ns, j, "name") {
                Some(name) => {
                    let call = match text_of_field(ns, j, "object") {
                        Some(o) => {
                            if o.as_str().as_bytes().len() <= 64 && !contains_char(
                                o.as_str(),
                                '\n',
                            ) && !contains_char(o.as_str(), '(') {
                                let mut s = o;
                                s.append(".");
                                s.append(name.as_str());
                                s
                            } else {
                                name
                            }
                        },
                        None => name,
                    };
                    let ghost x = call@;
                    out.push(call);
                    assert(out.deep_view() =~= before.push(x));
                },
                None => {},
            }
        }
        j += 1;
    }
    sort_unique(&out)
}

// ---------------------------------------------------------------------------
// Annotations

pub open spec fn or(o: Option<Seq<char>>, d: Seq<char>) -> Seq<char> {
    match o {
        Some(s) => s,
        None => d,
    }
}

fn text_or(o: Option<String>, d: &str) -> (r: String)
    ensures
        r@ == or(o.deep_view(), d@),
{
    match o {
        Some(s) => s,
        None => owned(d),
    }
}

/// The arguments that the places `cs` of an argument list give. A positional
/// argument goes under `value`.
pub open spec fn arguments_in(ns: Seq<SyntaxNodeView>, cs: Seq<int>) -> Seq<(Seq<char>, Seq<char>)>
    decreases cs.len(),
{
    if cs.len() == 0 {
        Seq::empty()
    } else {
        let before = arguments_in(ns, cs.drop_last());
        let a = cs.last();
        let kind = ns[a].kind;
        if kind == "element_value_pair"@ {
            before.push(
                (
                    or(field_text(ns, a, "key"@), "value"@),
                    bare_argument(or(field_text(ns, a, "value"@), ""@)),
                ),
            )
        } else if kind == "("@ || kind == ")"@ || kind == ","@ || kind.len() == 0 {
            before
        } else {
            match ns[a].text {
                Some(t) => before.push(("value"@, bare_argument(t))),
                None => before,
            }
        }
    }
}

fn collect_arguments(ns: &Vec<SyntaxNode>, list: usize) -> (r: Vec<(String, String)>)
    requires
        list < ns.len(),
    ensures
        r.deep_view() == arguments_in(ns.deep_view(), children_of(ns.deep_view(), list as int)),
{
    let ghost v = ns.deep_view();
    let ghost all = children_of(v, list as int);
    let cs = children(ns, list);
    let mut args: Vec<(String, String)> = Vec::new();
    let mut k: usize = 0;
    assert(args.deep_view() =~= arguments_in(v, all.take(0)));
    while k < cs.len()
        invariant
            k <= cs.len(),
            v == ns.deep_view(),
            all == as_ints(cs@),
            forall|j: int| 0 <= j < cs.len() ==> list < #[trigger] cs@[j] < ns.len(),
            args.deep_view() == arguments_in(v, all.take(k as int)),
        decreases cs.len() - k,
    {
        broadcast use take_next;

        let a: usize = cs[k];
        let ghost before = args.deep_view();
        assert(all[k as int] == a);
        assert(all.take(k + 1).last() == a);
        assert(v[a as int].text == ns@[a as int].text.deep_view());
        assert(v[a as int].kind == ns@[a as int].kind@);
        if is_kind(ns, a, "element_value_pair") {
            let key = text_or(text_of_field(ns, a, "key"), "value");
            let value = unquote(text_or(text_of_field(ns, a, "value"), "").as_str());
            let ghost x = (key@, value@);
            args.push((key, value));
            assert(args.deep_view() =~= before.push(x));
        } else if is_kind(ns, a, "(") || is_kind(ns, a, ")") || is_kind(ns, a, ",")
            || ns[a].kind.as_str().is_empty() {
        } else {
            // Positional single argument: @X("v") / @X({"a","b"}).
            match &ns[a].text {
                Some(t) => {
                    let value = unquote(t.as_str());
                    let ghost x = ("value"@, value@);
                    args.push((owned("value"), value));
                    assert(args.deep_view() =~= before.push(x));
                },
                None => {},
            }
        }
        k += 1;
    }
    broadcast use take_all;

    assert(all.take(k as int) == all);
    args
}

/// The annotation at the node `m`, where there is one with a name.
pub open spec fn annotation_at(ns: Seq<SyntaxNodeView>, m: int) -> Option<AnnotationView> {
    if ns[m].kind == "marker_annotation"@ {
        match field_text(ns, m, "name"@) {
            Some(name) => Some(AnnotationView { name, args: Seq::empty() }),
            None => None,
        }
    } else if ns[m].kind == "annotation"@ {
        match field_text(ns, m, "name"@) {
            Some(name) => Some(
                AnnotationView {
                    name,
                    args: match child_with(ns, m, "arguments"@) {
                        Some(list) => arguments_in(ns, children_of(ns, list)),
                        None => Seq::empty(),
                    },
                },
            ),
            None => None,
        }
    } else {
        None
    }
}

fn read_annotation(ns: &Vec<SyntaxNode>, m: usize) -> (r: Option<Annotation>)
    requires
        m < ns.len(),
    ensures
        r.deep_view() == annotation_at(ns.deep_view(), m as int),
{
    let none: Vec<(String, String)> = Vec::new();
    assert(none.deep_view() =~= Seq::empty());
    if is_kind(ns, m, "marker_annotation") {
        match text_of_field(ns, m, "name") {
            Some(name) => Some(Annotation { name, args: none }),
            None => None,
        }
    } else if is_kind(ns, m, "annotation") {
        match text_of_field(ns, m, "name") {
            Some(name) => {
                let args = match child_by_field(ns, m, "arguments") {
                    Some(list) => collect_arguments(ns, list),
                    None => none,
                };
                Some(Annotation { name, args })
            },
            None => None,
        }
    } else {
        None
    }
}

/// The annotations at the places `cs`.
pub open spec fn annotations_at(ns: Seq<SyntaxNodeView>, cs: Seq<int>) -> Seq<AnnotationView> {
    crate::lists::pick(cs, |m: int| annotation_at(ns, m))
}

/// The annotations in the modifiers among the places `cs`.
pub open spec fn annotations_in(ns: Seq<SyntaxNodeView>, cs: Seq<int>) -> Seq<AnnotationView>
    decreases cs.len(),
{
    if cs.len() == 0 {
        Seq::empty()
    } else {
        let before = annotations_in(ns, cs.drop_last());
        if ns[cs.last()].kind == "modifiers"@ {
            before + annotations_at(ns, children_of(ns, cs.last()))
        } else {
            before
        }
    }
}

fn add_annotations(ns: &Vec<SyntaxNode>, m: usize, out: &mut Vec<Annotation>)
    requires
        m < ns.len(),
    ensures
        final(out).deep_view() == old(out).deep_view() + annotations_at(
            ns.deep_view(),
            children_of(ns.deep_view(), m as int),
        ),
{
    let ghost v = ns.deep_view();
    let ghost start = out.deep_view();
    let ghost all = children_of(v, m as int);
    let ghost f = |x: int| annotation_at(v, x);
    let cs = children(ns, m);
    let mut k: usize = 0;
    assert(start + crate::lists::pick(all.take(0), f) =~= start);
    while k < cs.len()
        invariant
            k <= cs.len(),
            v == ns.deep_view(),
            all == as_ints(cs@),
            f == (|x: int| annotation_at(v, x)),
            forall|j: int| 0 <= j < cs.len() ==> m < #[trigger] cs@[j] < ns.len(),
            out.deep_view() == start + crate::lists::pick(all.take(k as int), f),
        decreases cs.len() - k,
    {
        broadcast use take_next;

        let c: usize = cs[k];
        let ghost before = out.deep_view();
        assert(all[k as int] == c);
        assert(all.take(k + 1).last() == c);
        assert(f(c as int) == annotation_at(v, c as int));
        match read_annotation(ns, c) {
            Some(a) => {
                let ghost x = a.deep_view();
                out.push(a);
                assert(out.deep_view() =~= before.push(x));
                assert(start + crate::lists::pick(all.take(k as int), f).push(x) =~= before.push(
                    x,
                ));
            },
            None => {},
        }
        k += 1;
    }
    broadcast use take_all;

    assert(all.take(k as int) == all);
}

fn annotations(ns: &Vec<SyntaxNode>, i: usize) -> (r: Vec<Annotation>)
    requires
        i < ns.len(),
    ensures
        r.deep_view() == annotations_in(ns.deep_view(), children_of(ns.deep_view(), i as int)),
{
    let ghost v = ns.deep_view();
    let ghost all = children_of(v, i as int);
    let cs = children(ns, i);
    let mut out: Vec<Annotation> = Vec::new();
    let mut k: usize = 0;
    assert(out.deep_view() =~= annotations_in(v, all.take(0)));
    while k < cs.len()
        invariant
            k <= cs.len(),
            v == ns.deep_view(),
            all == as_ints(cs@),
            forall|j: int| 0 <= j < cs.len() ==> i < #[trigger] cs@[j] < ns.len(),
            out.deep_view() == annotations_in(v, all.take(k as int)),
        decreases cs.len() - k,
    {
        broadcast use take_next;

        let c: usize = cs[k];
        assert(all[k as int] == c);
        assert(all.take(k + 1).last() == c);
        if is_kind(ns, c, "modifiers") {
            add_annotations(ns, c, &mut out);
        }
        k += 1;
    }
    broadcast use take_all;

    assert(all.take(k as int) == all);
    out
}

// ---------------------------------------------------------------------------
// Members

/// The symbol of the method at the node `i`.
pub open spec fn method_symbol(
    ns: Seq<SyntaxNodeView>,
    i: int,
    name: Seq<char>,
    parent: usize,
    owner: Option<Seq<char>>,
) -> RawSymbolView {
    let params = or(field_text(ns, i, "parameters"@), "()"@);
    let ret = or(field_text(ns, i, "type"@), ""@);
    RawSymbolView {
        kind: SymbolKind::Method,
        name,
        fqn: match owner {
            Some(f) => Some(f + "#"@ + name),
            None => None,
        },
        signature: Some(
            if ret.len() == 0 {
                name + params
            } else {
                ret + " "@ + name + params
            },
        ),
        start_line: line_at(ns[i].row),
        end_line: line_at(ns[i].end_row),
        doc: doc_before(ns, i),
        visibility: visibility_of(ns, i),
        parent: Some(parent),
        annotations: annotations_in(ns, children_of(ns, i)),
        calls: match child_with(ns, i, "body"@) {
            Some(b) => sorted_of(calls_in(ns, b, end_of(ns, b))),
            None => Seq::empty(),
        },
        supertypes: Seq::empty(),
    }
}

/// `out` with the symbol of the method at the node `i`, where it has a name.
pub open spec fn with_method(
    ns: Seq<SyntaxNodeView>,
    i: int,
    parent: usize,
    owner: Option<Seq<char>>,
    out: Seq<RawSymbolView>,
) -> Seq<RawSymbolView> {
    match field_text(ns, i, "name"@) {
        Some(name) => out.push(method_symbol(ns, i, name, parent, owner)),
        None => out,
    }
}

/// `f`, `sep` and `name`, one after the other.
fn qualified(owner: &Option<String>, sep: &str, name: &str) -> (r: Option<String>)
    ensures
        r.deep_view() == (match owner.deep_view() {
            Some(f) => Some(f + sep@ + name@),
            None => None,
        }),
{
    match owner {
        Some(f) => {
            let mut s = f.clone();
            s.append(sep);
            s.append(name);
            Some(s)
        },
        None => None,
    }
}

fn no_texts() -> (r: Vec<String>)
    ensures
        r.deep_view() == Seq::<Seq<char>>::empty(),
{
    let r: Vec<String> = Vec::new();
    assert(r.deep_view() =~= Seq::<Seq<char>>::empty());
    r
}

fn walk_method(
    ns: &Vec<SyntaxNode>,
    i: usize,
    parent: usize,
    out: &mut Vec<RawSymbol>,
    owner_fqn: &Option<String>,
)
    requires
        i < ns.len(),
    ensures
        final(out).deep_view() == with_method(
            ns.deep_view(),
            i as int,
            parent,
            owner_fqn.deep_view(),
            old(out).deep_view(),
        ),
{
    let ghost v = ns.deep_view();
    let ghost before = out.deep_view();
    let name = match text_of_field(ns, i, "name") {
        Some(n) => n,
        None => {
            return;
        },
    };
    let params = text_or(text_of_field(ns, i, "parameters"), "()");
    let ret = text_or(text_of_field(ns, i, "type"), "");
    let mut signature = String::new();
    if !ret.as_str().is_empty() {
        signature.append(ret.as_str());
        signature.append(" ");
    }
    signature.append(name.as_str());
    signature.append(params.as_str());
    proof {
        reveal_strlit(" ");
        if ret@.len() == 0 {
            assert(signature@ =~= name@ + params@);
        } else {
            assert(signature@ =~= ret@ + " "@ + name@ + params@);
        }
    }
    let calls = match child_by_field(ns, i, "body") {
        Some(b) => collect_calls(ns, b),
        None => no_texts(),
    };
    let fqn = qualified(owner_fqn, "#", name.as_str());
    let ghost n = name@;
    assert(v[i as int].row == ns@[i as int].row && v[i as int].end_row == ns@[i as int].end_row);
    let sym = RawSymbol {
        kind: SymbolKind::Method,
        name,
        fqn,
        signature: Some(signature),
        start_line: line(ns[i].row),
        end_line: line(ns[i].end_row),
        doc: leading_doc(ns, i),
        visibility: visibility(ns, i),
        parent: Some(parent),
        annotations: annotations(ns, i),
        calls,
        supertypes: no_texts(),
    };
    let ghost x = sym.deep_view();
    assert(x =~= method_symbol(v, i as int, n, parent, owner_fqn.deep_view()));
    out.push(sym);
    assert(out.deep_view() =~= before.push(x));
}

/// The symbol of one declarator `d` of the field at the node `i`.
pub open spec fn field_symbol(
    ns: Seq<SyntaxNodeView>,
    i: int,
    d: int,
    name: Seq<char>,
    parent: usize,
    owner: Option<Seq<char>>,
) -> RawSymbolView {
    let ty = or(field_text(ns, i, "type"@), ""@);
    RawSymbolView {
        kind: if is_constant(ns, i) {
            SymbolKind::Constant
        } else {
            SymbolKind::Field
        },
        name,
        fqn: match owner {
            Some(f) => Some(f + "#"@ + name),
            None => None,
        },
        signature: Some(
            match field_text(ns, d, "value"@) {
                Some(v) => ty + " "@ + name + " = "@ + v,
                None => ty + " "@ + name,
            },
        ),
        start_line: line_at(ns[d].row),
        end_line: line_at(ns[d].end_row),
        doc: doc_before(ns, i),
        visibility: visibility_of(ns, i),
        parent: Some(parent),
        annotations: annotations_in(ns, children_of(ns, i)),
        calls: Seq::empty(),
        supertypes: Seq::empty(),
    }
}

/// `out` with the symbols of the declarators among the places `cs` of a field.
pub open spec fn with_fields(
    ns: Seq<SyntaxNodeView>,
    i: int,
    cs: Seq<int>,
    parent: usize,
    owner: Option<Seq<char>>,
    out: Seq<RawSymbolView>,
) -> Seq<RawSymbolView>
    decreases cs.len(),
{
    if cs.len() == 0 {
        out
    } else {
        let before = with_fields(ns, i, cs.drop_last(), parent, owner, out);
        let d = cs.last();
        if ns[d].kind == "variable_declarator"@ {
            match field_text(ns, d, "name"@) {
                Some(name) => before.push(field_symbol(ns, i, d, name, parent, owner)),
                None => before,
            }
        } else {
            before
        }
    }
}

/// A field declaration: one symbol for each declarator. `static final` fields are
/// the constant tables these projects use instead of enums, so they get their own
/// kind and are surfaced prominently.
fn walk_field(
    ns: &Vec<SyntaxNode>,
    i: usize,
    parent: usize,
    out: &mut Vec<RawSymbol>,
    owner_fqn: &Option<String>,
)
    requires
        i < ns.len(),
    ensures
        final(out).deep_view() == with_fields(
            ns.deep_view(),
            i as int,
            children_of(ns.deep_view(), i as int),
            parent,
            owner_fqn.deep_view(),
            old(out).deep_view(),
        ),
{
    let ghost v = ns.deep_view();
    let ghost start = out.deep_view();
    let ghost all = children_of(v, i as int);
    let ghost owner = owner_fqn.deep_view();
    let ty = text_or(text_of_field(ns, i, "type"), "");
    let kind = if is_static_final(ns, i) {
        SymbolKind::Constant
    } else {
        SymbolKind::Field
    };
    let doc = leading_doc(ns, i);
    let vis = visibility(ns, i);
    let annots = annotations(ns, i);
    let cs = children(ns, i);
    let mut k: usize = 0;
    assert(out.deep_view() =~= with_fields(v, i as int, all.take(0), parent, owner, start));
    while k < cs.len()
        invariant
            k <= cs.len(),
            v == ns.deep_view(),
            all == as_ints(cs@),
            owner == owner_fqn.deep_view(),
            forall|j: int| 0 <= j < cs.len() ==> i < #[trigger] cs@[j] < ns.len(),
            ty@ == or(field_text(v, i as int, "type"@), ""@),
            kind == (if is_constant(v, i as int) {
                SymbolKind::Constant
            } else {
                SymbolKind::Field
            }),
            doc.deep_view() == doc_before(v, i as int),
            vis.deep_view() == visibility_of(v, i as int),
            annots.deep_view() == annotations_in(v, children_of(v, i as int)),
            out.deep_view() == with_fields(v, i as int, all.take(k as int), parent, owner, start),
        decreases cs.len() - k,
    {
        broadcast use take_next;

        let d: usize = cs[k];
        let ghost before = out.deep_view();
        assert(all[k as int] == d);
        assert(all.take(k + 1).last() == d);
        if is_kind(ns, d, "variable_declarator") {
            match text_of_field(ns, d, "name") {
                Some(name) => {
                    let mut signature = ty.clone();
                    signature.append(" ");
                    signature.append(name.as_str());
                    match text_of_field(ns, d, "value") {
                        Some(init) => {
                            signature.append(" = ");
                            signature.append(init.as_str());
                        },
                        None => {},
                    }
                    let fqn = qualified(owner_fqn, "#", name.as_str());
                    let ghost n = name@;
                    assert(v[d as int].row == ns@[d as int].row);
                    assert(v[d as int].end_row == ns@[d as int].end_row);
                    let sym = RawSymbol {
                        kind,
                        name,
                        fqn,
                        signature: Some(signature),
                        start_line: line(ns[d].row),
                        end_line: line(ns[d].end_row),
                        doc: doc.clone(),
                        visibility: vis.clone(),
                        parent: Some(parent),
                        annotations: annots.clone(),
                        calls: no_texts(),
                        supertypes: no_texts(),
                    };
                    let ghost x = sym.deep_view();
                    assert(x =~= field_symbol(v, i as int, d as int, n, parent, owner));
                    out.push(sym);
                    assert(out.deep_view() =~= before.push(x));
                },
                None => {},
            }
        }
        k += 1;
    }
    broadcast use take_all;

    assert(all.take(k as int) == all);
}

/// The symbol of the enum constant at the node `m`.
pub open spec fn constant_symbol(
    ns: Seq<SyntaxNodeView>,
    m: int,
    name: Seq<char>,
    parent: usize,
    owner: Option<Seq<char>>,
) -> RawSymbolView {
    RawSymbolView {
        kind: SymbolKind::EnumMember,
        name,
        fqn: match owner {
            Some(f) => Some(f + "."@ + name),
            None => None,
        },
        signature: field_text(ns, m, "arguments"@),
        start_line: line_at(ns[m].row),
        end_line: line_at(ns[m].end_row),
        doc: doc_before(ns, m),
        visibility: None,
        parent: Some(parent),
        annotations: Seq::empty(),
        calls: Seq::empty(),
        supertypes: Seq::empty(),
    }
}

pub open spec fn with_constant(
    ns: Seq<SyntaxNodeView>,
    m: int,
    parent: usize,
    owner: Option<Seq<char>>,
    out: Seq<RawSymbolView>,
) -> Seq<RawSymbolView> {
    match field_text(ns, m, "name"@) {
        Some(name) => out.push(constant_symbol(ns, m, name, parent, owner)),
        None => out,
    }
}

fn walk_constant(
    ns: &Vec<SyntaxNode>,
    m: usize,
    parent: usize,
    out: &mut Vec<RawSymbol>,
    owner_fqn: &Option<String>,
)
    requires
        m < ns.len(),
    ensures
        final(out).deep_view() == with_constant(
            ns.deep_view(),
            m as int,
            parent,
            owner_fqn.deep_view(),
            old(out).deep_view(),
        ),
{
    let ghost v = ns.deep_view();
    let ghost before = out.deep_view();
    match text_of_field(ns, m, "name") {
        Some(name) => {
            let fqn = qualified(owner_fqn, ".", name.as_str());
            let ghost n = name@;
            let none: Vec<Annotation> = Vec::new();
            assert(none.deep_view() =~= Seq::empty());
            assert(v[m as int].row == ns@[m as int].row);
            assert(v[m as int].end_row == ns@[m as int].end_row);
            let sym = RawSymbol {
                kind: SymbolKind::EnumMember,
                name,
                fqn,
                signature: text_of_field(ns, m, "arguments"),
                start_line: line(ns[m].row),
                end_line: line(ns[m].end_row),
                doc: leading_doc(ns, m),
                visibility: None,
                parent: Some(parent),
                annotations: none,
                calls: no_texts(),
                supertypes: no_texts(),
            };
            let ghost x = sym.deep_view();
            assert(x =~= constant_symbol(v, m as int, n, parent, owner_fqn.deep_view()));
            out.push(sym);
            assert(out.deep_view() =~= before.push(x));
        },
        None => {},
    }
}

// ---------------------------------------------------------------------------
// Types

/// The qualified name of a type: nested types get an Outer.Inner name so they stay
/// distinguishable.
pub open spec fn type_fqn(
    name: Seq<char>,
    pkg: Option<Seq<char>>,
    outer: Option<Seq<char>>,
) -> Seq<char> {
    match outer {
        Some(o) => o + "."@ + name,
        None => match pkg {
            Some(p) => p + "."@ + name,
            None => name,
        },
    }
}

/// The qualified name of the symbol that is the parent.
pub open spec fn outer_fqn(parent: Option<usize>, out: Seq<RawSymbolView>) -> Option<Seq<char>> {
    match parent {
        Some(p) => if p < out.len() {
            out[p as int].fqn
        } else {
            None
        },
        None => None,
    }
}

/// The symbol of the type at the node `i`.
pub open spec fn type_symbol(
    ns: Seq<SyntaxNodeView>,
    i: int,
    name: Seq<char>,
    pkg: Option<Seq<char>>,
    parent: Option<usize>,
    out: Seq<RawSymbolView>,
) -> RawSymbolView {
    RawSymbolView {
        kind: symbol_kind(ns[i].kind),
        name,
        fqn: Some(type_fqn(name, pkg, outer_fqn(parent, out))),
        signature: match field_text(ns, i, "superclass"@) {
            Some(t) => Some(trimmed(t)),
            None => None,
        },
        start_line: line_at(ns[i].row),
        end_line: line_at(ns[i].end_row),
        doc: doc_before(ns, i),
        visibility: visibility_of(ns, i),
        parent,
        annotations: annotations_in(ns, children_of(ns, i)),
        calls: Seq::empty(),
        supertypes: sorted_of(super_names(ns, children_of(ns, i))),
    }
}

/// The node that holds the members of the type at the node `i`.
pub open spec fn body_of(ns: Seq<SyntaxNodeView>, i: int) -> Option<int> {
    match child_with(ns, i, "body"@) {
        Some(b) => Some(b),
        None => child_with(ns, i, "interface_body"@),
    }
}

/// `out` with the type at the node `i`, where it has a name, and everything nested
/// inside it.
pub open spec fn with_type(
    ns: Seq<SyntaxNodeView>,
    i: int,
    pkg: Option<Seq<char>>,
    parent: Option<usize>,
    out: Seq<RawSymbolView>,
) -> Seq<RawSymbolView>
    decreases ns.len() - i, 0int,
{
    match field_text(ns, i, "name"@) {
        Some(name) => {
            let sym = type_symbol(ns, i, name, pkg, parent, out);
            let with_self = out.push(sym);
            match body_of(ns, i) {
                Some(b) => {
                    proof {
                        child_with_after(ns, i, "body"@);
                        child_with_after(ns, i, "interface_body"@);
                    }
                    with_members(
                        ns,
                        b,
                        children_of(ns, b).len(),
                        true,
                        pkg,
                        out.len() as usize,
                        sym.fqn,
                        with_self,
                    )
                },
                None => with_self,
            }
        },
        None => out,
    }
}

/// `out` with the first `k` members in the body at the node `b`. The declarations of
/// an enum body stand in a node of their own, which holds no constants.
pub open spec fn with_members(
    ns: Seq<SyntaxNodeView>,
    b: int,
    k: nat,
    top: bool,
    pkg: Option<Seq<char>>,
    owner: usize,
    fqn: Option<Seq<char>>,
    out: Seq<RawSymbolView>,
) -> Seq<RawSymbolView>
    decreases ns.len() - b, k,
{
    if k == 0 || k > children_of(ns, b).len() {
        out
    } else {
        let before = with_members(ns, b, (k - 1) as nat, top, pkg, owner, fqn, out);
        let m = children_of(ns, b)[k - 1];
        let kind = ns[m].kind;
        proof {
            children_after(ns, ns[b].depth, b + 1);
        }
        if declares_type(kind) {
            with_type(ns, m, pkg, Some(owner), before)
        } else if kind == "method_declaration"@ || kind == "constructor_declaration"@ {
            with_method(ns, m, owner, fqn, before)
        } else if kind == "field_declaration"@ {
            with_fields(ns, m, children_of(ns, m), owner, fqn, before)
        } else if top && kind == "enum_body_declarations"@ {
            with_members(ns, m, children_of(ns, m).len(), false, pkg, owner, fqn, before)
        } else if top && kind == "enum_constant"@ {
            with_constant(ns, m, owner, fqn, before)
        } else {
            before
        }
    }
}

/// Record a type declaration and everything nested inside it.
fn walk_type(
    ns: &Vec<SyntaxNode>,
    i: usize,
    pkg: &Option<String>,
    parent: Option<usize>,
    out: &mut Vec<RawSymbol>,
)
    requires
        i < ns.len(),
    ensures
        final(out).deep_view() == with_type(
            ns.deep_view(),
            i as int,
            pkg.deep_view(),
            parent,
            old(out).deep_view(),
        ),
    decreases ns.len() - i, 0int,
{
    let ghost v = ns.deep_view();
    let ghost before = out.deep_view();
    let name = match text_of_field(ns, i, "name") {
        Some(n) => n,
        None => {
            return;
        },
    };
    let kind = type_kind(ns[i].kind.as_str());
    let supertypes = supertypes_of(ns, i);
    let outer: Option<String> = match parent {
        Some(p) => if p < out.len() {
            assert(before[p as int].fqn == out@[p as int].fqn.deep_view());
            out[p].fqn.clone()
        } else {
            None
        },
        None => None,
    };
    assert(outer.deep_view() == outer_fqn(parent, before));
    let fqn = match &outer {
        Some(_) => qualified(&outer, ".", name.as_str()),
        None => match pkg {
            Some(_) => qualified(pkg, ".", name.as_str()),
            None => Some(name.clone()),
        },
    };
    let signature = match text_of_field(ns, i, "superclass") {
        Some(t) => Some(owned(trim(t.as_str()))),
        None => None,
    };
    let ghost n = name@;
    let owner_fqn = fqn.clone();
    assert(v[i as int].row == ns@[i as int].row && v[i as int].end_row == ns@[i as int].end_row);
    assert(v[i as int].kind == ns@[i as int].kind@);
    let self_idx: usize = out.len();
    let sym = RawSymbol {
        kind,
        name,
        fqn,
        signature,
        start_line: line(ns[i].row),
        end_line: line(ns[i].end_row),
        doc: leading_doc(ns, i),
        visibility: visibility(ns, i),
        parent,
        annotations: annotations(ns, i),
        calls: no_texts(),
        supertypes,
    };
    let ghost x = sym.deep_view();
    assert(x =~= type_symbol(v, i as int, n, pkg.deep_view(), parent, before));
    out.push(sym);
    assert(out.deep_view() =~= before.push(x));
    let body = match child_by_field(ns, i, "body") {
        Some(b) => Some(b),
        None => child_by_field(ns, i, "interface_body"),
    };
    match body {
        Some(b) => {
            walk_members(ns, b, true, pkg, self_idx, &owner_fqn, out);
        },
        None => {},
    }
}

/// Record the members in a body.
fn walk_members(
    ns: &Vec<SyntaxNode>,
    b: usize,
    top: bool,
    pkg: &Option<String>,
    owner: usize,
    fqn: &Option<String>,
    out: &mut Vec<RawSymbol>,
)
    requires
        b < ns.len(),
    ensures
        final(out).deep_view() == with_members(
            ns.deep_view(),
            b as int,
            children_of(ns.deep_view(), b as int).len(),
            top,
            pkg.deep_view(),
            owner,
            fqn.deep_view(),
            old(out).deep_view(),
        ),
    decreases ns.len() - b, 1int,
{
    let ghost v = ns.deep_view();
    let ghost start = out.deep_view();
    let ghost all = children_of(v, b as int);
    let ghost p = pkg.deep_view();
    let ghost f = fqn.deep_view();
    let cs = children(ns, b);
    let mut k: usize = 0;
    while k < cs.len()
        invariant
            k <= cs.len(),
            b < ns.len(),
            v == ns.deep_view(),
            p == pkg.deep_view(),
            f == fqn.deep_view(),
            all == as_ints(cs@),
            all == children_of(v, b as int),
            forall|j: int| 0 <= j < cs.len() ==> b < #[trigger] cs@[j] < ns.len(),
            out.deep_view() == with_members(v, b as int, k as nat, top, p, owner, f, start),
        decreases cs.len() - k,
    {
        let m: usize = cs[k];
        assert(all[k as int] == m);
        assert(v[m as int].kind == ns@[m as int].kind@);
        if is_type_decl(ns[m].kind.as_str()) {
            walk_type(ns, m, pkg, Some(owner), out);
        } else if is_kind(ns, m, "method_declaration") || is_kind(
            ns,
            m,
            "constructor_declaration",
        ) {
            walk_method(ns, m, owner, out, fqn);
        } else if is_kind(ns, m, "field_declaration") {
            walk_field(ns, m, owner, out, fqn);
        } else if top && is_kind(ns, m, "enum_body_declarations") {
            walk_members(ns, m, false, pkg, owner, fqn, out);
        } else if top && is_kind(ns, m, "enum_constant") {
            walk_constant(ns, m, owner, out, fqn);
        }
        k += 1;
    }
}

// ---------------------------------------------------------------------------
// Files

/// The first named child of the node `c`.
pub open spec fn first_named(ns: Seq<SyntaxNodeView>, cs: Seq<int>) -> Option<int> {
    crate::lists::first_where(cs, |c: int| ns[c].named)
}

fn find_named(ns: &Vec<SyntaxNode>, i: usize) -> (r: Option<usize>)
    requires
        i < ns.len(),
    ensures
        crate::text::as_pos(r) == first_named(
            ns.deep_view(),
            children_of(ns.deep_view(), i as int),
        ),
        r matches Some(c) ==> c < ns.len(),
{
    let ghost v = ns.deep_view();
    let ghost all = children_of(v, i as int);
    let ghost p = |c: int| v[c].named;
    let cs = children(ns, i);
    let mut k: usize = 0;
    assert(all.skip(0) =~= all);
    while k < cs.len()
        invariant
            k <= cs.len(),
            v == ns.deep_view(),
            all == as_ints(cs@),
            all == children_of(v, i as int),
            p == (|c: int| v[c].named),
            forall|j: int| 0 <= j < cs.len() ==> i < #[trigger] cs@[j] < ns.len(),
            crate::lists::first_where(all, p) == crate::lists::first_where(all.skip(k as int), p),
        decreases cs.len() - k,
    {
        let c: usize = cs[k];
        assert(all.skip(k as int)[0] == c);
        assert(v[c as int].named == ns@[c as int].named);
        if ns[c].named {
            assert(p(c as int));
            return Some(c);
        }
        assert(!p(c as int));
        assert(all.skip(k as int).skip(1) =~= all.skip(k + 1));
        k += 1;
    }
    None
}

/// The package that the last package declaration among the places `cs` names.
pub open spec fn package_in(ns: Seq<SyntaxNodeView>, cs: Seq<int>) -> Option<Seq<char>>
    decreases cs.len(),
{
    if cs.len() == 0 {
        None
    } else if ns[cs.last()].kind == "package_declaration"@ {
        match first_named(ns, children_of(ns, cs.last())) {
            Some(n) => ns[n].text,
            None => None,
        }
    } else {
        package_in(ns, cs.drop_last())
    }
}

/// What the import declarations among the places `cs` bring in.
pub open spec fn imports_in(ns: Seq<SyntaxNodeView>, cs: Seq<int>) -> Seq<Seq<char>>
    decreases cs.len(),
{
    if cs.len() == 0 {
        Seq::empty()
    } else {
        let before = imports_in(ns, cs.drop_last());
        let n = ns[cs.last()];
        if n.kind == "import_declaration"@ && n.text is Some && imported(n.text->0).len() > 0 {
            before.push(imported(n.text->0))
        } else {
            before
        }
    }
}

/// The symbols of the types among the places `cs`.
pub open spec fn types_in(
    ns: Seq<SyntaxNodeView>,
    cs: Seq<int>,
    pkg: Option<Seq<char>>,
) -> Seq<RawSymbolView>
    decreases cs.len(),
{
    if cs.len() == 0 {
        Seq::empty()
    } else {
        let before = types_in(ns, cs.drop_last(), pkg);
        if declares_type(ns[cs.last()].kind) {
            with_type(ns, cs.last(), pkg, None, before)
        } else {
            before
        }
    }
}

/// What a file's nodes say.
pub open spec fn file_of(ns: Seq<SyntaxNodeView>) -> JavaFileView {
    if ns.len() == 0 {
        JavaFileView {
            package: None,
            imports: Seq::empty(),
            symbols: Seq::empty(),
            had_parse_error: false,
        }
    } else {
        let cs = children_of(ns, 0);
        JavaFileView {
            package: package_in(ns, cs),
            imports: imports_in(ns, cs),
            symbols: types_in(ns, cs, package_in(ns, cs)),
            had_parse_error: ns[0].broken,
        }
    }
}

/// What a file's nodes say: the package, the imports and the declarations.
pub fn from_nodes(ns: &Vec<SyntaxNode>) -> (r: JavaFile)
    ensures
        r.deep_view() == file_of(ns.deep_view()),
{
    let ghost v = ns.deep_view();
    let mut package: Option<String> = None;
    let mut imports: Vec<String> = Vec::new();
    let mut symbols: Vec<RawSymbol> = Vec::new();
    if ns.len() == 0 {
        let r = JavaFile { package, imports, symbols, had_parse_error: false };
        assert(r.deep_view() =~= file_of(v));
        return r;
    }
    let cs = children(ns, 0);
    let ghost all = children_of(v, 0);
    let mut k: usize = 0;
    assert(imports.deep_view() =~= imports_in(v, all.take(0)));
    while k < cs.len()
        invariant
            k <= cs.len(),
            v == ns.deep_view(),
            all == as_ints(cs@),
            forall|j: int| 0 <= j < cs.len() ==> 0 < #[trigger] cs@[j] < ns.len(),
            package.deep_view() == package_in(v, all.take(k as int)),
            imports.deep_view() == imports_in(v, all.take(k as int)),
        decreases cs.len() - k,
    {
        broadcast use take_next;

        let c: usize = cs[k];
        let ghost before = imports.deep_view();
        assert(all[k as int] == c);
        assert(all.take(k + 1).last() == c);
        assert(v[c as int].text == ns@[c as int].text.deep_view());
        proof {
            reveal_strlit("package_declaration");
            reveal_strlit("import_declaration");
            assert("package_declaration"@.len() != "import_declaration"@.len());
        }
        if is_kind(ns, c, "package_declaration") {
            package = match find_named(ns, c) {
                Some(n) => {
                    assert(v[n as int].text == ns@[n as int].text.deep_view());
                    ns[n].text.clone()
                },
                None => None,
            };
        } else if is_kind(ns, c, "import_declaration") {
            match &ns[c].text {
                Some(t) => {
                    let name = import_name(t.as_str());
                    if !name.as_str().is_empty() {
                        let ghost x = name@;
                        imports.push(name);
                        assert(imports.deep_view() =~= before.push(x));
                    }
                },
                None => {},
            }
        }
        k += 1;
    }
    broadcast use take_all;

    assert(all.take(k as int) == all);
    let mut n: usize = 0;
    assert(symbols.deep_view() =~= types_in(v, all.take(0), package.deep_view()));
    while n < cs.len()
        invariant
            n <= cs.len(),
            v == ns.deep_view(),
            all == as_ints(cs@),
            forall|j: int| 0 <= j < cs.len() ==> 0 < #[trigger] cs@[j] < ns.len(),
            symbols.deep_view() == types_in(v, all.take(n as int), package.deep_view()),
        decreases cs.len() - n,
    {
        broadcast use take_next;

        let c: usize = cs[n];
        assert(all[n as int] == c);
        assert(all.take(n + 1).last() == c);
        assert(v[c as int].kind == ns@[c as int].kind@);
        if is_type_decl(ns[c].kind.as_str()) {
            walk_type(ns, c, &package, None, &mut symbols);
        }
        n += 1;
    }
    assert(all.take(n as int) == all);
    assert(v[0].broken == ns@[0].broken);
    JavaFile { package, imports, symbols, had_parse_error: ns[0].broken }
}

/// What a Java source file declares.
pub fn extract(src: &str, parser: &mut JavaParser) -> (r: Result<JavaFile, String>)
    requires
        old(parser).ready(),
    ensures
        final(parser).ready(),
        r matches Ok(f) && f.deep_view() == file_of(java_nodes(src@)),
{
    match parse_java(&mut parser.inner, src) {
        Some(tree) => {
            let ns = nodes_of(&tree, src);
            Ok(from_nodes(&ns))
        },
        None => Err(owned("parsing java source")),
    }
}

// ---------------------------------------------------------------------------
// Laws

/// Whether every symbol with a parent stands behind it, the parent being a type.
pub open spec fn parents_first(out: Seq<RawSymbolView>) -> bool {
    forall|i: int|
        0 <= i < out.len() ==> match (#[trigger] out[i]).parent {
            Some(p) => p < i && is_owner(out, p),
            None => true,
        }
}

/// Whether the symbol at place `p` is a type.
pub open spec fn is_owner(out: Seq<RawSymbolView>, p: usize) -> bool {
    p < out.len() && match out[p as int].kind {
        SymbolKind::Method | SymbolKind::Field | SymbolKind::Constant
        | SymbolKind::EnumMember => false,
        _ => true,
    }
}

/// Whether `b` begins with `a`.
pub open spec fn extends(a: Seq<RawSymbolView>, b: Seq<RawSymbolView>) -> bool {
    a.len() <= b.len() && forall|i: int| 0 <= i < a.len() ==> #[trigger] b[i] == a[i]
}

proof fn pushed_first(out: Seq<RawSymbolView>, x: RawSymbolView)
    requires
        parents_first(out),
        x.parent matches Some(p) ==> is_owner(out, p),
    ensures
        parents_first(out.push(x)),
        extends(out, out.push(x)),
{
    let after = out.push(x);
    assert forall|i: int| 0 <= i < after.len() implies match (#[trigger] after[i]).parent {
        Some(p) => p < i && is_owner(after, p),
        None => true,
    } by {
        if i < out.len() {
            assert(after[i] == out[i]);
        }
        match after[i].parent {
            Some(p) => {
                assert(is_owner(out, p));
                assert(after[p as int] == out[p as int]);
            },
            None => {},
        }
    }
}

pub proof fn fields_grow(
    ns: Seq<SyntaxNodeView>,
    i: int,
    cs: Seq<int>,
    parent: usize,
    owner: Option<Seq<char>>,
    out: Seq<RawSymbolView>,
)
    ensures
        extends(out, with_fields(ns, i, cs, parent, owner, out)),
    decreases cs.len(),
{
    if cs.len() > 0 {
        fields_grow(ns, i, cs.drop_last(), parent, owner, out);
    }
}

pub proof fn type_grows(
    ns: Seq<SyntaxNodeView>,
    i: int,
    pkg: Option<Seq<char>>,
    parent: Option<usize>,
    out: Seq<RawSymbolView>,
)
    ensures
        extends(out, with_type(ns, i, pkg, parent, out)),
    decreases ns.len() - i, 0int,
{
    match field_text(ns, i, "name"@) {
        Some(name) => {
            let sym = type_symbol(ns, i, name, pkg, parent, out);
            let with_self = out.push(sym);
            match body_of(ns, i) {
                Some(b) => {
                    child_with_after(ns, i, "body"@);
                    child_with_after(ns, i, "interface_body"@);
                    let n = children_of(ns, b).len();
                    members_grow(ns, b, n, true, pkg, out.len() as usize, sym.fqn, with_self);
                    assert forall|j: int| 0 <= j < out.len() implies #[trigger] with_type(
                        ns,
                        i,
                        pkg,
                        parent,
                        out,
                    )[j] == out[j] by {
                        assert(with_self[j] == out[j]);
                    }
                },
                None => {},
            }
        },
        None => {},
    }
}

pub proof fn members_grow(
    ns: Seq<SyntaxNodeView>,
    b: int,
    k: nat,
    top: bool,
    pkg: Option<Seq<char>>,
    owner: usize,
    fqn: Option<Seq<char>>,
    out: Seq<RawSymbolView>,
)
    ensures
        extends(out, with_members(ns, b, k, top, pkg, owner, fqn, out)),
    decreases ns.len() - b, k,
{
    if !(k == 0 || k > children_of(ns, b).len()) {
        members_grow(ns, b, (k - 1) as nat, top, pkg, owner, fqn, out);
        let before = with_members(ns, b, (k - 1) as nat, top, pkg, owner, fqn, out);
        let m = children_of(ns, b)[k - 1];
        let kind = ns[m].kind;
        children_after(ns, ns[b].depth, b + 1);
        if declares_type(kind) {
            type_grows(ns, m, pkg, Some(owner), before);
        } else if kind == "field_declaration"@ {
            fields_grow(ns, m, children_of(ns, m), owner, fqn, before);
        } else if top && kind == "enum_body_declarations"@ {
            members_grow(ns, m, children_of(ns, m).len(), false, pkg, owner, fqn, before);
        }
        let after = with_members(ns, b, k, top, pkg, owner, fqn, out);
        assert(extends(before, after));
        assert forall|j: int| 0 <= j < out.len() implies #[trigger] after[j] == out[j] by {
            assert(before[j] == out[j]);
        }
    }
}

proof fn fields_first(
    ns: Seq<SyntaxNodeView>,
    i: int,
    cs: Seq<int>,
    parent: usize,
    owner: Option<Seq<char>>,
    out: Seq<RawSymbolView>,
)
    requires
        parents_first(out),
        is_owner(out, parent),
    ensures
        parents_first(with_fields(ns, i, cs, parent, owner, out)),
    decreases cs.len(),
{
    if cs.len() > 0 {
        fields_grow(ns, i, cs.drop_last(), parent, owner, out);
        fields_first(ns, i, cs.drop_last(), parent, owner, out);
        let before = with_fields(ns, i, cs.drop_last(), parent, owner, out);
        let d = cs.last();
        assert(before[parent as int] == out[parent as int]);
        match field_text(ns, d, "name"@) {
            Some(name) => pushed_first(before, field_symbol(ns, i, d, name, parent, owner)),
            None => {},
        }
    }
}

proof fn type_first(
    ns: Seq<SyntaxNodeView>,
    i: int,
    pkg: Option<Seq<char>>,
    parent: Option<usize>,
    out: Seq<RawSymbolView>,
)
    requires
        parents_first(out),
        parent matches Some(p) ==> is_owner(out, p),
        with_type(ns, i, pkg, parent, out).len() <= usize::MAX,
    ensures
        parents_first(with_type(ns, i, pkg, parent, out)),
    decreases ns.len() - i, 0int,
{
    type_grows(ns, i, pkg, parent, out);
    match field_text(ns, i, "name"@) {
        Some(name) => {
            let sym = type_symbol(ns, i, name, pkg, parent, out);
            let with_self = out.push(sym);
            pushed_first(out, sym);
            match body_of(ns, i) {
                Some(b) => {
                    child_with_after(ns, i, "body"@);
                    child_with_after(ns, i, "interface_body"@);
                    assert(with_self[out.len() as int] == sym);
                    members_first(
                        ns,
                        b,
                        children_of(ns, b).len(),
                        true,
                        pkg,
                        out.len() as usize,
                        sym.fqn,
                        with_self,
                    );
                },
                None => {},
            }
        },
        None => {},
    }
}

proof fn members_first(
    ns: Seq<SyntaxNodeView>,
    b: int,
    k: nat,
    top: bool,
    pkg: Option<Seq<char>>,
    owner: usize,
    fqn: Option<Seq<char>>,
    out: Seq<RawSymbolView>,
)
    requires
        parents_first(out),
        is_owner(out, owner),
        with_members(ns, b, k, top, pkg, owner, fqn, out).len() <= usize::MAX,
    ensures
        parents_first(with_members(ns, b, k, top, pkg, owner, fqn, out)),
    decreases ns.len() - b, k,
{
    if !(k == 0 || k > children_of(ns, b).len()) {
        let before = with_members(ns, b, (k - 1) as nat, top, pkg, owner, fqn, out);
        let m = children_of(ns, b)[k - 1];
        let kind = ns[m].kind;
        children_after(ns, ns[b].depth, b + 1);
        members_grow(ns, b, (k - 1) as nat, top, pkg, owner, fqn, out);
        if declares_type(kind) {
            type_grows(ns, m, pkg, Some(owner), before);
        } else if kind == "field_declaration"@ {
            fields_grow(ns, m, children_of(ns, m), owner, fqn, before);
        } else if top && kind == "enum_body_declarations"@ {
            members_grow(ns, m, children_of(ns, m).len(), false, pkg, owner, fqn, before);
        }
        members_first(ns, b, (k - 1) as nat, top, pkg, owner, fqn, out);
        assert(before[owner as int] == out[owner as int]);
        if declares_type(kind) {
            type_first(ns, m, pkg, Some(owner), before);
        } else if kind == "method_declaration"@ || kind == "constructor_declaration"@ {
            match field_text(ns, m, "name"@) {
                Some(name) => pushed_first(before, method_symbol(ns, m, name, owner, fqn)),
                None => {},
            }
        } else if kind == "field_declaration"@ {
            fields_first(ns, m, children_of(ns, m), owner, fqn, before);
        } else if top && kind == "enum_body_declarations"@ {
            members_first(ns, m, children_of(ns, m).len(), false, pkg, owner, fqn, before);
        } else if top && kind == "enum_constant"@ {
            match field_text(ns, m, "name"@) {
                Some(name) => pushed_first(before, constant_symbol(ns, m, name, owner, fqn)),
                None => {},
            }
        }
    }
}

proof fn types_first(ns: Seq<SyntaxNodeView>, cs: Seq<int>, pkg: Option<Seq<char>>)
    requires
        types_in(ns, cs, pkg).len() <= usize::MAX,
    ensures
        parents_first(types_in(ns, cs, pkg)),
    decreases cs.len(),
{
    if cs.len() > 0 {
        let before = types_in(ns, cs.drop_last(), pkg);
        if declares_type(ns[cs.last()].kind) {
            type_grows(ns, cs.last(), pkg, None, before);
            types_first(ns, cs.drop_last(), pkg);
            type_first(ns, cs.last(), pkg, None, before);
        } else {
            types_first(ns, cs.drop_last(), pkg);
        }
    }
}

/// A symbol is listed behind the type that it belongs to, so that the rows of a file can
/// be stored one after the other, each with its parent's row at hand.
pub proof fn parents_come_first(ns: Seq<SyntaxNodeView>)
    requires
        file_of(ns).symbols.len() <= usize::MAX,
    ensures
        parents_first(file_of(ns).symbols),
{
    if ns.len() > 0 {
        let cs = children_of(ns, 0);
        types_first(ns, cs, package_in(ns, cs));
    }
}

} // verus!

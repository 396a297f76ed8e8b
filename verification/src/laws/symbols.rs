//! Java sources: what their syntax nodes make known.
use crate::extract::java::{
    annotation_at, annotations_in, arguments_in, bare_argument, call_name, calls_in,
    comments_before, declares_type, doc_before, extends, field_symbol, file_of, imported,
    imports_in, is_constant, line_at, members_grow, method_symbol, package_in, super_names,
    symbol_kind, type_fqn, type_names, type_symbol, types_in, visibility_of, with_fields,
    with_members, with_type,
};
use crate::extract::syntax::{
    child_with, children_from, children_of, end_from, end_of, field_text, prev_sibling_of,
    SyntaxNodeView,
};
use crate::laws::basics::{
    concat_members, cuts_are_at_the_ends, drop_all, ends_of_texts, first_where_is_first,
    push_members, sorting_keeps_members, trimmed_is_core, trimmed_of_is_core,
};
use crate::laws::history::is_tight;
use crate::split::words_of;
use crate::store::model::{AnnotationView, RawSymbolView};
use crate::text::{drop_while, is_white, only};
use crate::util::javadoc;
use vstd::prelude::*;
use vstd::utf8::encode_utf8;

verus! {

// ---------------------------------------------------------------------------
// Nodes

/// Whether the node `c` lies under the node `i`: it stands behind it, and no node up to it is
/// as shallow as `i`.
pub open spec fn is_under(ns: Seq<SyntaxNodeView>, i: int, c: int) -> bool {
    i < c < ns.len() && forall|k: int| i < k <= c ==> (#[trigger] ns[k]).depth > ns[i].depth
}

/// A node's children are those that lie under it one level down, in order.
pub proof fn children_lie_one_level_down(ns: Seq<SyntaxNodeView>, i: int, c: int)
    requires
        0 <= i < ns.len(),
    ensures
        children_of(ns, i).contains(c) <==> is_under(ns, i, c) && ns[c].depth == ns[i].depth + 1,
        forall|a: int, b: int|
            0 <= a < b < children_of(ns, i).len() ==> #[trigger] children_of(ns, i)[a]
                < #[trigger] children_of(ns, i)[b],
{
    children_from_members(ns, i, i + 1, c);
}

proof fn children_from_members(ns: Seq<SyntaxNodeView>, i: int, j: int, c: int)
    requires
        0 <= i < j <= ns.len(),
    ensures
        children_from(ns, ns[i].depth, j).contains(c) <==> j <= c < ns.len() && ns[c].depth
            == ns[i].depth + 1 && forall|k: int|
            j <= k <= c ==> (#[trigger] ns[k]).depth > ns[i].depth,
        forall|a: int|
            0 <= a < children_from(ns, ns[i].depth, j).len() ==> j <= #[trigger] children_from(
                ns,
                ns[i].depth,
                j,
            )[a],
        forall|a: int, b: int|
            0 <= a < b < children_from(ns, ns[i].depth, j).len() ==> #[trigger] children_from(
                ns,
                ns[i].depth,
                j,
            )[a] < #[trigger] children_from(ns, ns[i].depth, j)[b],
    decreases ns.len() - j,
{
    let d = ns[i].depth;
    if j < ns.len() && ns[j].depth > d {
        children_from_members(ns, i, j + 1, c);
        let rest = children_from(ns, d, j + 1);
        if ns[j].depth == d + 1 {
            let all = seq![j] + rest;
            concat_members(seq![j], rest, c);
            assert(seq![j].contains(c) <==> c == j) by {
                assert(seq![j][0] == j);
            }
            assert forall|a: int, b: int| 0 <= a < b < all.len() implies #[trigger] all[a]
                < #[trigger] all[b] by {
                assert(all[b] == rest[b - 1]);
                if a > 0 {
                    assert(all[a] == rest[a - 1]);
                }
            }
            assert forall|a: int| 0 <= a < all.len() implies j <= #[trigger] all[a] by {
                if a > 0 {
                    assert(all[a] == rest[a - 1]);
                }
            }
        }
    } else if j < ns.len() {
        assert(ns[j].depth <= d);
    }
}

/// What lies under a node ends where the next one as shallow begins.
pub proof fn subtrees_end_at_the_next(ns: Seq<SyntaxNodeView>, i: int, c: int)
    requires
        0 <= i < ns.len(),
    ensures
        i < end_of(ns, i) <= ns.len(),
        i < c < end_of(ns, i) ==> is_under(ns, i, c),
        end_of(ns, i) < ns.len() ==> ns[end_of(ns, i)].depth <= ns[i].depth,
{
    end_is_exact(ns, i, i + 1);
}

proof fn end_is_exact(ns: Seq<SyntaxNodeView>, i: int, j: int)
    requires
        0 <= i < j <= ns.len(),
    ensures
        j <= end_from(ns, ns[i].depth, j) <= ns.len(),
        forall|k: int|
            j <= k < end_from(ns, ns[i].depth, j) ==> (#[trigger] ns[k]).depth > ns[i].depth,
        end_from(ns, ns[i].depth, j) < ns.len() ==> ns[end_from(ns, ns[i].depth, j)].depth
            <= ns[i].depth,
    decreases ns.len() - j,
{
    if j < ns.len() && ns[j].depth > ns[i].depth {
        end_is_exact(ns, i, j + 1);
    }
}

/// Whether the child at place `a` is the first that fills the field.
pub open spec fn is_field(ns: Seq<SyntaxNodeView>, i: int, a: int, f: Seq<char>) -> bool {
    let cs = children_of(ns, i);
    &&& 0 <= a < cs.len()
    &&& ns[cs[a]].field == Some(f)
    &&& forall|b: int| 0 <= b < a ==> ns[#[trigger] cs[b]].field != Some(f)
}

/// A field's text is that of the first child that fills it.
pub proof fn fields_are_children(ns: Seq<SyntaxNodeView>, i: int, a: int, f: Seq<char>)
    ensures
        is_field(ns, i, a, f) ==> child_with(ns, i, f) == Some(children_of(ns, i)[a]) && field_text(
            ns,
            i,
            f,
        ) == ns[children_of(ns, i)[a]].text,
        (forall|b: int|
            0 <= b < children_of(ns, i).len() ==> ns[#[trigger] children_of(ns, i)[b]].field
                != Some(f)) ==> field_text(ns, i, f) is None,
{
    let p = |c: int| ns[c].field == Some(f);
    let cs = children_of(ns, i);
    first_where_is_first(cs, p);
    if is_field(ns, i, a, f) {
        assert(p(cs[a]));
        assert forall|b: int| 0 <= b < a implies !p(#[trigger] cs[b]) by {}
    }
    if forall|b: int| 0 <= b < cs.len() ==> ns[#[trigger] cs[b]].field != Some(f) {
        assert forall|b: int| 0 <= b < cs.len() implies !p(#[trigger] cs[b]) by {}
    }
}

/// Lines are counted from one.
pub proof fn lines_count_from_one(row: u32)
    ensures
        row < u32::MAX ==> line_at(row) == row + 1,
{
}

// ---------------------------------------------------------------------------
// Kinds

proof fn kind_words()
    ensures
        "class_declaration"@ != "interface_declaration"@,
        "class_declaration"@ != "enum_declaration"@,
        "class_declaration"@ != "record_declaration"@,
        "class_declaration"@ != "annotation_type_declaration"@,
        "class_declaration"@ != "method_declaration"@,
        "class_declaration"@ != "constructor_declaration"@,
        "class_declaration"@ != "field_declaration"@,
        "class_declaration"@ != "enum_body_declarations"@,
        "class_declaration"@ != "enum_constant"@,
        "interface_declaration"@ != "enum_declaration"@,
        "interface_declaration"@ != "record_declaration"@,
        "interface_declaration"@ != "annotation_type_declaration"@,
        "interface_declaration"@ != "method_declaration"@,
        "interface_declaration"@ != "constructor_declaration"@,
        "interface_declaration"@ != "field_declaration"@,
        "interface_declaration"@ != "enum_body_declarations"@,
        "interface_declaration"@ != "enum_constant"@,
        "enum_declaration"@ != "record_declaration"@,
        "enum_declaration"@ != "annotation_type_declaration"@,
        "enum_declaration"@ != "method_declaration"@,
        "enum_declaration"@ != "constructor_declaration"@,
        "enum_declaration"@ != "field_declaration"@,
        "enum_declaration"@ != "enum_body_declarations"@,
        "enum_declaration"@ != "enum_constant"@,
        "record_declaration"@ != "annotation_type_declaration"@,
        "record_declaration"@ != "method_declaration"@,
        "record_declaration"@ != "constructor_declaration"@,
        "record_declaration"@ != "field_declaration"@,
        "record_declaration"@ != "enum_body_declarations"@,
        "record_declaration"@ != "enum_constant"@,
        "annotation_type_declaration"@ != "method_declaration"@,
        "annotation_type_declaration"@ != "constructor_declaration"@,
        "annotation_type_declaration"@ != "field_declaration"@,
        "annotation_type_declaration"@ != "enum_body_declarations"@,
        "annotation_type_declaration"@ != "enum_constant"@,
        "method_declaration"@ != "constructor_declaration"@,
        "method_declaration"@ != "field_declaration"@,
        "method_declaration"@ != "enum_body_declarations"@,
        "method_declaration"@ != "enum_constant"@,
        "constructor_declaration"@ != "field_declaration"@,
        "constructor_declaration"@ != "enum_body_declarations"@,
        "constructor_declaration"@ != "enum_constant"@,
        "field_declaration"@ != "enum_body_declarations"@,
        "field_declaration"@ != "enum_constant"@,
        "enum_body_declarations"@ != "enum_constant"@,

{
    reveal_strlit("class_declaration");
    reveal_strlit("interface_declaration");
    reveal_strlit("enum_declaration");
    reveal_strlit("record_declaration");
    reveal_strlit("annotation_type_declaration");
    reveal_strlit("method_declaration");
    reveal_strlit("constructor_declaration");
    reveal_strlit("field_declaration");
    reveal_strlit("enum_body_declarations");
    reveal_strlit("enum_constant");
    assert("class_declaration"@.len() == 17 && "class_declaration"@[0] == 'c');
    assert("interface_declaration"@.len() == 21 && "interface_declaration"@[0] == 'i');
    assert("enum_declaration"@.len() == 16 && "enum_declaration"@[0] == 'e');
    assert("record_declaration"@.len() == 18 && "record_declaration"@[0] == 'r');
    assert("annotation_type_declaration"@.len() == 27 && "annotation_type_declaration"@[0] == 'a');
    assert("method_declaration"@.len() == 18 && "method_declaration"@[0] == 'm');
    assert("constructor_declaration"@.len() == 23 && "constructor_declaration"@[0] == 'c');
    assert("field_declaration"@.len() == 17 && "field_declaration"@[0] == 'f');
    assert("enum_body_declarations"@.len() == 22 && "enum_body_declarations"@[0] == 'e');
    assert("enum_constant"@.len() == 13 && "enum_constant"@[0] == 'e');

    assert("class_declaration"@ != "field_declaration"@);
    assert("record_declaration"@ != "method_declaration"@);
}

/// Each declaration makes its kind of symbol.
pub proof fn declarations_make_their_kind(kind: Seq<char>)
    ensures
        declares_type(kind) <==> kind == "class_declaration"@ || kind == "interface_declaration"@
            || kind == "enum_declaration"@ || kind == "record_declaration"@ || kind
            == "annotation_type_declaration"@,
        kind == "class_declaration"@ ==> symbol_kind(kind) is Class,
        kind == "interface_declaration"@ ==> symbol_kind(kind) is Interface,
        kind == "enum_declaration"@ ==> symbol_kind(kind) is Enum,
        kind == "record_declaration"@ ==> symbol_kind(kind) is Record,
        kind == "annotation_type_declaration"@ ==> symbol_kind(kind) is Annotation,
{
    kind_words();
}

/// A nested type is named behind the outer one, a top-level type behind its package.
pub proof fn types_are_named_behind_what_holds_them(
    name: Seq<char>,
    pkg: Option<Seq<char>>,
    outer: Option<Seq<char>>,
)
    ensures
        outer is Some ==> type_fqn(name, pkg, outer) == outer->0 + "."@ + name,
        outer is None && pkg is Some ==> type_fqn(name, pkg, outer) == pkg->0 + "."@ + name,
        outer is None && pkg is None ==> type_fqn(name, pkg, outer) == name,
{
}

/// A type's symbol: its kind, name and place, its supertypes, and the type it is nested in.
pub proof fn type_symbols(
    ns: Seq<SyntaxNodeView>,
    i: int,
    name: Seq<char>,
    pkg: Option<Seq<char>>,
    parent: Option<usize>,
    out: Seq<RawSymbolView>,
    t: Seq<char>,
)
    ensures
        ({
            let s = type_symbol(ns, i, name, pkg, parent, out);
            &&& s.kind == symbol_kind(ns[i].kind) && s.name == name && s.parent == parent
            &&& parent is None && pkg is Some ==> s.fqn == Some(pkg->0 + "."@ + name)
            &&& parent is None && pkg is None ==> s.fqn == Some(name)
            &&& parent is Some && parent->0 < out.len() && out[parent->0 as int].fqn is Some
                ==> s.fqn == Some(out[parent->0 as int].fqn->0 + "."@ + name)
            &&& s.start_line == line_at(ns[i].row) && s.end_line == line_at(ns[i].end_row)
            &&& s.doc == doc_before(ns, i) && s.visibility == visibility_of(ns, i)
            &&& s.annotations == annotations_in(ns, children_of(ns, i))
            &&& s.calls.len() == 0
            &&& s.supertypes.contains(t) <==> super_names(ns, children_of(ns, i)).contains(t)
        }),
{
    sorting_keeps_members(super_names(ns, children_of(ns, i)), t);
}

/// A method's symbol: named behind its type with a `#`, signed with its return type, name and
/// parameters, and with the calls in its body.
pub proof fn method_symbols(
    ns: Seq<SyntaxNodeView>,
    i: int,
    name: Seq<char>,
    parent: usize,
    owner: Option<Seq<char>>,
    c: Seq<char>,
)
    ensures
        ({
            let s = method_symbol(ns, i, name, parent, owner);
            let params = field_text(ns, i, "parameters"@);
            let ret = field_text(ns, i, "type"@);
            &&& s.kind is Method && s.name == name && s.parent == Some(parent)
            &&& owner is Some ==> s.fqn == Some(owner->0 + "#"@ + name)
            &&& owner is None ==> s.fqn is None
            &&& params is Some && ret is Some && ret->0.len() > 0 ==> s.signature == Some(
                ret->0 + " "@ + name + params->0,
            )
            &&& params is Some && ret is None ==> s.signature == Some(name + params->0)
            &&& s.start_line == line_at(ns[i].row) && s.end_line == line_at(ns[i].end_row)
            &&& s.doc == doc_before(ns, i) && s.visibility == visibility_of(ns, i)
            &&& s.annotations == annotations_in(ns, children_of(ns, i))
            &&& s.supertypes.len() == 0
            &&& child_with(ns, i, "body"@) is None ==> s.calls.len() == 0
            &&& child_with(ns, i, "body"@) matches Some(b) ==> (s.calls.contains(c) <==> calls_in(
                ns,
                b,
                end_of(ns, b),
            ).contains(c))
        }),
{
    reveal_strlit("");
    match child_with(ns, i, "body"@) {
        Some(b) => {
            sorting_keeps_members(calls_in(ns, b, end_of(ns, b)), c);
        },
        None => {},
    }
}

/// A field's symbol: a constant where it is both static and final, signed with its type, name
/// and value.
pub proof fn field_symbols(
    ns: Seq<SyntaxNodeView>,
    i: int,
    d: int,
    name: Seq<char>,
    parent: usize,
    owner: Option<Seq<char>>,
)
    ensures
        ({
            let s = field_symbol(ns, i, d, name, parent, owner);
            let ty = field_text(ns, i, "type"@);
            let v = field_text(ns, d, "value"@);
            &&& is_constant(ns, i) ==> s.kind is Constant
            &&& !is_constant(ns, i) ==> s.kind is Field
            &&& s.name == name && s.parent == Some(parent)
            &&& owner is Some ==> s.fqn == Some(owner->0 + "#"@ + name)
            &&& ty is Some && v is Some ==> s.signature == Some(
                ty->0 + " "@ + name + " = "@ + v->0,
            )
            &&& ty is Some && v is None ==> s.signature == Some(ty->0 + " "@ + name)
            &&& s.start_line == line_at(ns[d].row) && s.end_line == line_at(ns[d].end_row)
            &&& s.doc == doc_before(ns, i) && s.visibility == visibility_of(ns, i)
            &&& s.annotations == annotations_in(ns, children_of(ns, i))
        }),
{
}

/// Every declarator with a name makes one symbol, in order, and nothing else does.
pub proof fn declarators_make_fields(
    ns: Seq<SyntaxNodeView>,
    i: int,
    cs: Seq<int>,
    d: int,
    parent: usize,
    owner: Option<Seq<char>>,
    out: Seq<RawSymbolView>,
)
    ensures
        ns[d].kind == "variable_declarator"@ && field_text(ns, d, "name"@) is Some ==> with_fields(
            ns,
            i,
            cs.push(d),
            parent,
            owner,
            out,
        ) == with_fields(ns, i, cs, parent, owner, out).push(
            field_symbol(ns, i, d, field_text(ns, d, "name"@)->0, parent, owner),
        ),
        ns[d].kind != "variable_declarator"@ || field_text(ns, d, "name"@) is None ==> with_fields(
            ns,
            i,
            cs.push(d),
            parent,
            owner,
            out,
        ) == with_fields(ns, i, cs, parent, owner, out),
        with_fields(ns, i, Seq::empty(), parent, owner, out) == out,
{
    assert(cs.push(d).drop_last() =~= cs);
}

/// Each member of a body adds its symbols behind those before: methods and constructors one,
/// fields one for each declarator, enum constants one; other nodes add none.
pub proof fn members_add_their_symbols(
    ns: Seq<SyntaxNodeView>,
    b: int,
    k: nat,
    top: bool,
    pkg: Option<Seq<char>>,
    owner: usize,
    fqn: Option<Seq<char>>,
    out: Seq<RawSymbolView>,
)
    requires
        0 < k <= children_of(ns, b).len(),
    ensures
        ({
            let before = with_members(ns, b, (k - 1) as nat, top, pkg, owner, fqn, out);
            let after = with_members(ns, b, k, top, pkg, owner, fqn, out);
            let m = children_of(ns, b)[k - 1];
            let kind = ns[m].kind;
            let name = field_text(ns, m, "name"@);
            &&& (kind == "method_declaration"@ || kind == "constructor_declaration"@) && name is Some
                ==> after == before.push(method_symbol(ns, m, name->0, owner, fqn))
            &&& kind == "field_declaration"@ ==> after == with_fields(
                ns,
                m,
                children_of(ns, m),
                owner,
                fqn,
                before,
            )
            &&& kind == "enum_constant"@ && top && name is Some ==> {
                &&& after.len() == before.len() + 1 && after.drop_last() == before
                &&& after.last().kind is EnumMember && after.last().name == name->0
                &&& after.last().parent == Some(owner)
                &&& fqn is Some ==> after.last().fqn == Some(fqn->0 + "."@ + name->0)
                &&& after.last().signature == field_text(ns, m, "arguments"@)
                &&& after.last().doc == doc_before(ns, m)
                &&& after.last().start_line == line_at(ns[m].row)
                &&& after.last().end_line == line_at(ns[m].end_row)
            }
            &&& kind == "enum_constant"@ && !top ==> after == before
            &&& kind == "enum_body_declarations"@ && top ==> after == with_members(
                ns,
                m,
                children_of(ns, m).len(),
                false,
                pkg,
                owner,
                fqn,
                before,
            )
            &&& (kind == "class_declaration"@ || kind == "interface_declaration"@ || kind
                == "enum_declaration"@ || kind == "record_declaration"@ || kind
                == "annotation_type_declaration"@) && name is Some ==> {
                &&& after.len() > before.len()
                &&& extends(before, after)
                &&& after[before.len() as int] == type_symbol(
                    ns,
                    m,
                    name->0,
                    pkg,
                    Some(owner),
                    before,
                )
            }
            &&& kind == "modifiers"@ ==> after == before
        }),
{
    kind_words();
    reveal_strlit("modifiers");
    reveal_strlit("class_declaration");
    assert("modifiers"@.len() == 9);
    let before = with_members(ns, b, (k - 1) as nat, top, pkg, owner, fqn, out);
    let after = with_members(ns, b, k, top, pkg, owner, fqn, out);
    let m = children_of(ns, b)[k - 1];
    let kind = ns[m].kind;
    let name = field_text(ns, m, "name"@);
    if kind == "enum_constant"@ && top && name is Some {
        assert(after.drop_last() =~= before);
    }
    if kind == "modifiers"@ {
        modifiers_are_no_member();
    }
    if declares_type(kind) && name is Some {
        types_come_before_their_members(ns, m, pkg, Some(owner), before);
    }
}

proof fn modifiers_are_no_member()
    ensures
        !declares_type("modifiers"@),
        "modifiers"@ != "method_declaration"@,
        "modifiers"@ != "constructor_declaration"@,
        "modifiers"@ != "field_declaration"@,
        "modifiers"@ != "enum_body_declarations"@,
        "modifiers"@ != "enum_constant"@,
{
    reveal_strlit("modifiers");
    reveal_strlit("class_declaration");
    reveal_strlit("interface_declaration");
    reveal_strlit("enum_declaration");
    reveal_strlit("record_declaration");
    reveal_strlit("annotation_type_declaration");
    reveal_strlit("method_declaration");
    reveal_strlit("constructor_declaration");
    reveal_strlit("field_declaration");
    reveal_strlit("enum_body_declarations");
    reveal_strlit("enum_constant");
    assert("modifiers"@.len() == 9);
    assert("class_declaration"@.len() == 17 && "interface_declaration"@.len() == 21);
    assert("enum_declaration"@.len() == 16 && "record_declaration"@.len() == 18);
    assert("annotation_type_declaration"@.len() == 27 && "method_declaration"@.len() == 18);
    assert("constructor_declaration"@.len() == 23 && "field_declaration"@.len() == 17);
    assert("enum_body_declarations"@.len() == 22 && "enum_constant"@.len() == 13);
}

/// A type with a name makes its symbol first; what is nested inside it follows, and what was
/// there before stays.
pub proof fn types_come_before_their_members(
    ns: Seq<SyntaxNodeView>,
    i: int,
    pkg: Option<Seq<char>>,
    parent: Option<usize>,
    out: Seq<RawSymbolView>,
)
    requires
        field_text(ns, i, "name"@) is Some,
    ensures
        with_type(ns, i, pkg, parent, out).len() > out.len(),
        extends(out, with_type(ns, i, pkg, parent, out)),
        with_type(ns, i, pkg, parent, out)[out.len() as int] == type_symbol(
            ns,
            i,
            field_text(ns, i, "name"@)->0,
            pkg,
            parent,
            out,
        ),
{
    crate::extract::java::type_grows(ns, i, pkg, parent, out);
    let sym = type_symbol(ns, i, field_text(ns, i, "name"@)->0, pkg, parent, out);
    match crate::extract::java::body_of(ns, i) {
        Some(b) => {
            members_grow(
                ns,
                b,
                children_of(ns, b).len(),
                true,
                pkg,
                out.len() as usize,
                sym.fqn,
                out.push(sym),
            );
            assert(out.push(sym)[out.len() as int] == sym);
        },
        None => {},
    }
}

/// A type's supertypes are the type names in its `extends` and `implements` clauses.
pub proof fn clauses_name_supertypes(ns: Seq<SyntaxNodeView>, cs: Seq<int>, c: int)
    ensures
        ns[c].kind == "superclass"@ || ns[c].kind == "super_interfaces"@ || ns[c].kind
            == "extends_interfaces"@ ==> super_names(ns, cs.push(c)) == super_names(ns, cs)
            + type_names(ns, c, end_of(ns, c)),
        ns[c].kind != "superclass"@ && ns[c].kind != "super_interfaces"@ && ns[c].kind
            != "extends_interfaces"@ ==> super_names(ns, cs.push(c)) == super_names(ns, cs),
{
    assert(cs.push(c).drop_last() =~= cs);
}

/// The names in a clause stand in their order. Of a qualified name the last part counts, and
/// what stands between angle brackets does not.
pub proof fn clauses_are_read_in_order(
    ns: Seq<SyntaxNodeView>,
    j: int,
    end: int,
    pre: Seq<char>,
    name: Seq<char>,
)
    requires
        0 <= j < end <= ns.len(),
        !name.contains('.') && is_tight(name),
    ensures
        ns[j].kind == "type_identifier"@ && ns[j].text == Some(name) ==> type_names(ns, j, end)
            == seq![name] + type_names(ns, end_of(ns, j), end),
        ns[j].kind == "scoped_type_identifier"@ && ns[j].text == Some(pre + "."@ + name)
            ==> type_names(ns, j, end) == seq![name] + type_names(ns, end_of(ns, j), end),
        ns[j].kind == "type_arguments"@ ==> type_names(ns, j, end) == type_names(
            ns,
            end_of(ns, j),
            end,
        ),
        ns[j].kind == "generic_type"@ || ns[j].kind == "type_list"@ || ns[j].kind == "superclass"@
            || ns[j].kind == "super_interfaces"@ || ns[j].kind == "extends_interfaces"@
            ==> type_names(ns, j, end) == type_names(ns, j + 1, end),
        type_names(ns, end, end).len() == 0,
{
    reveal_strlit(".");
    reveal_strlit("type_identifier");
    reveal_strlit("scoped_type_identifier");
    reveal_strlit("type_arguments");
    reveal_strlit("generic_type");
    reveal_strlit("type_list");
    reveal_strlit("superclass");
    reveal_strlit("super_interfaces");
    reveal_strlit("extends_interfaces");
    assert("type_identifier"@.len() == 15 && "scoped_type_identifier"@.len() == 22);
    assert("type_arguments"@.len() == 14 && "generic_type"@.len() == 12);
    assert("type_list"@.len() == 9 && "superclass"@.len() == 10);
    assert("super_interfaces"@.len() == 16 && "extends_interfaces"@.len() == 18);
    assert(pre + "."@ + name =~= pre.push('.') + name);
    cuts_are_at_the_ends(pre, name, '.');
    let e = Seq::<char>::empty();
    trimmed_is_core(e, name, e);
    assert(e + name + e =~= name);
}

// ---------------------------------------------------------------------------
// Modifiers and comments

proof fn node_words()
    ensures
        "block_comment"@ != "line_comment"@,
        "block_comment"@ != "modifiers"@,
        "block_comment"@ != "marker_annotation"@,
        "block_comment"@ != "annotation"@,
        "block_comment"@ != "element_value_pair"@,
        "block_comment"@ != "method_invocation"@,
        "block_comment"@ != "import_declaration"@,
        "block_comment"@ != "package_declaration"@,
        "line_comment"@ != "modifiers"@,
        "line_comment"@ != "marker_annotation"@,
        "line_comment"@ != "annotation"@,
        "line_comment"@ != "element_value_pair"@,
        "line_comment"@ != "method_invocation"@,
        "line_comment"@ != "import_declaration"@,
        "line_comment"@ != "package_declaration"@,
        "modifiers"@ != "marker_annotation"@,
        "modifiers"@ != "annotation"@,
        "modifiers"@ != "element_value_pair"@,
        "modifiers"@ != "method_invocation"@,
        "modifiers"@ != "import_declaration"@,
        "modifiers"@ != "package_declaration"@,
        "marker_annotation"@ != "annotation"@,
        "marker_annotation"@ != "element_value_pair"@,
        "marker_annotation"@ != "method_invocation"@,
        "marker_annotation"@ != "import_declaration"@,
        "marker_annotation"@ != "package_declaration"@,
        "annotation"@ != "element_value_pair"@,
        "annotation"@ != "method_invocation"@,
        "annotation"@ != "import_declaration"@,
        "annotation"@ != "package_declaration"@,
        "element_value_pair"@ != "method_invocation"@,
        "element_value_pair"@ != "import_declaration"@,
        "element_value_pair"@ != "package_declaration"@,
        "method_invocation"@ != "import_declaration"@,
        "method_invocation"@ != "package_declaration"@,
        "import_declaration"@ != "package_declaration"@,

{
    reveal_strlit("block_comment");
    reveal_strlit("line_comment");
    reveal_strlit("modifiers");
    reveal_strlit("marker_annotation");
    reveal_strlit("annotation");
    reveal_strlit("element_value_pair");
    reveal_strlit("method_invocation");
    reveal_strlit("import_declaration");
    reveal_strlit("package_declaration");
    assert("block_comment"@.len() == 13 && "block_comment"@[0] == 'b');
    assert("line_comment"@.len() == 12 && "line_comment"@[0] == 'l');
    assert("modifiers"@.len() == 9 && "modifiers"@[0] == 'm');
    assert("marker_annotation"@.len() == 17 && "marker_annotation"@[0] == 'm');
    assert("annotation"@.len() == 10 && "annotation"@[0] == 'a');
    assert("element_value_pair"@.len() == 18 && "element_value_pair"@[0] == 'e');
    assert("method_invocation"@.len() == 17 && "method_invocation"@[0] == 'm');
    assert("import_declaration"@.len() == 18 && "import_declaration"@[0] == 'i');
    assert("package_declaration"@.len() == 19 && "package_declaration"@[0] == 'p');
    assert("marker_annotation"@[1] == 'a' && "method_invocation"@[1] == 'e');
    assert("marker_annotation"@ != "method_invocation"@);
    assert("element_value_pair"@ != "import_declaration"@);
}

/// A declaration's visibility is the keyword among its modifiers, and the package's where
/// there is none; without modifiers it has none.
pub proof fn modifiers_tell_visibility(ns: Seq<SyntaxNodeView>, i: int, a: int, text: Seq<char>)
    requires
        ({
            let cs = children_of(ns, i);
            &&& 0 <= a < cs.len() && ns[cs[a]].kind == "modifiers"@ && ns[cs[a]].text == Some(text)
            &&& forall|b: int| 0 <= b < a ==> ns[#[trigger] cs[b]].kind != "modifiers"@
        }),
    ensures
        words_of(text).contains("public"@) ==> visibility_of(ns, i) == Some("public"@),
        !words_of(text).contains("public"@) && words_of(text).contains("protected"@)
            ==> visibility_of(ns, i) == Some("protected"@),
        !words_of(text).contains("public"@) && !words_of(text).contains("protected"@) && words_of(
            text,
        ).contains("private"@) ==> visibility_of(ns, i) == Some("private"@),
        !words_of(text).contains("public"@) && !words_of(text).contains("protected"@) && !words_of(
            text,
        ).contains("private"@) ==> visibility_of(ns, i) == Some("package"@),
        is_constant(ns, i) <==> words_of(text).contains("static"@) && words_of(text).contains(
            "final"@,
        ),
{
    let cs = children_of(ns, i);
    let m = "modifiers"@;
    let p = |c: int| ns[c].kind == m;
    let q = |c: int| ns[c].kind == "modifiers"@ && ns[c].text is Some;
    first_where_is_first(cs, p);
    first_where_is_first(cs, q);
    assert(p(cs[a]) && q(cs[a]));
    assert forall|b: int| 0 <= b < a implies !p(#[trigger] cs[b]) by {}
    assert forall|b: int| 0 <= b < a implies !q(#[trigger] cs[b]) by {}
}

/// The comments before a declaration are joined in their order, modifiers between them
/// passed over; anything else ends them.
pub proof fn comments_go_with_the_next_declaration(ns: Seq<SyntaxNodeView>, i: int, p: int)
    requires
        prev_sibling_of(ns, i) == Some(p),
    ensures
        (ns[p].kind == "block_comment"@ || ns[p].kind == "line_comment"@) && ns[p].text is Some
            ==> comments_before(ns, i) == comments_before(ns, p).push(ns[p].text->0),
        ns[p].kind == "modifiers"@ ==> comments_before(ns, i) == comments_before(ns, p),
        ns[p].kind != "block_comment"@ && ns[p].kind != "line_comment"@ && ns[p].kind
            != "modifiers"@ ==> comments_before(ns, i).len() == 0 && doc_before(ns, i) is None,
        comments_before(ns, i).len() == 1 ==> doc_before(ns, i) == javadoc(
            comments_before(ns, i)[0],
        ),
{
    node_words();
}

// ---------------------------------------------------------------------------
// Calls, annotations and imports

/// A call keeps its receiver where that is at most 64 bytes long and simple.
pub proof fn calls_keep_simple_receivers(name: Seq<char>, o: Seq<char>)
    ensures
        encode_utf8(o).len() <= 64 && !o.contains('\n') && !o.contains('(') ==> call_name(
            name,
            Some(o),
        ) == o + "."@ + name,
        encode_utf8(o).len() > 64 || o.contains('\n') || o.contains('(') ==> call_name(
            name,
            Some(o),
        ) == name,
        call_name(name, None) == name,
{
}

/// The calls of a range are those of the invocations in it.
pub proof fn invocations_are_calls(ns: Seq<SyntaxNodeView>, from: int, j: int, c: Seq<char>)
    requires
        0 <= from,
    ensures
        calls_in(ns, from, j).contains(c) <==> exists|p: int|
            from <= p < j && (#[trigger] ns[p]).kind == "method_invocation"@ && field_text(
                ns,
                p,
                "name"@,
            ) is Some && c == call_name(
                field_text(ns, p, "name"@)->0,
                field_text(ns, p, "object"@),
            ),
    decreases j - from,
{
    if from < j {
        invocations_are_calls(ns, from, j - 1, c);
        let n = field_text(ns, j - 1, "name"@);
        if ns[j - 1].kind == "method_invocation"@ && n is Some {
            push_members(
                calls_in(ns, from, j - 1),
                call_name(n->0, field_text(ns, j - 1, "object"@)),
                c,
            );
        }
    }
}

/// Quotes, and braces around them, are no part of an annotation's argument.
pub proof fn arguments_are_bare(core: Seq<char>)
    requires
        is_tight(core) && !core.contains('"'),
        core.len() > 0 && core[0] != '{' && core.last() != '}',
    ensures
        bare_argument("\""@ + core + "\""@) == core,
        bare_argument("{\""@ + core + "\"}"@) == core,
        bare_argument(core) == core,
{
    reveal_strlit("\"");
    reveal_strlit("{\"");
    reveal_strlit("\"}");
    reveal_strlit("{");
    let e = Seq::<char>::empty();
    let q = "\""@;
    let a = q + core + q;
    let b = "{\""@ + core + "\"}"@;
    assert(core.contains(core[0]) && core.contains(core[core.len() - 1]));
    assert(!is_white('"') && !is_white('{') && !is_white('}'));
    assert(a[0] == '"' && a.last() == '"');
    assert(b[0] == '{' && b.last() == '}');
    trimmed_is_core(e, a, e);
    trimmed_is_core(e, b, e);
    trimmed_is_core(e, core, e);
    assert(e + a + e =~= a);
    assert(e + b + e =~= b);
    assert(e + core + e =~= core);
    trimmed_of_is_core(q, core, q, '"');
    trimmed_of_is_core(e, core, e, '"');
    assert(b =~= "{"@ + (a.push('}')));
    ends_of_texts("{"@, a.push('}'));
    assert(a.push('}') =~= a + seq!['}']);
    drop_all(a, seq!['}'], only('}'));
    assert(drop_while(a, only('}')) == a);
    assert(!crate::text::has_prefix(a, "{"@)) by {
        if crate::text::has_prefix(a, "{"@) {
            assert(a.take(1)[0] == a[0]);
        }
    }
    assert(!crate::text::has_prefix(core, "{"@)) by {
        if crate::text::has_prefix(core, "{"@) {
            assert(core.take(1)[0] == core[0]);
        }
    }
}

/// What one more argument adds: a pair goes under its key, anything else under `value`.
pub proof fn arguments_go_under_their_keys(ns: Seq<SyntaxNodeView>, cs: Seq<int>, a: int)
    ensures
        ns[a].kind == "element_value_pair"@ && field_text(ns, a, "key"@) is Some && field_text(
            ns,
            a,
            "value"@,
        ) is Some ==> arguments_in(ns, cs.push(a)) == arguments_in(ns, cs).push(
            (
                field_text(ns, a, "key"@)->0,
                bare_argument(field_text(ns, a, "value"@)->0),
            ),
        ),
        ns[a].kind == "string_literal"@ && ns[a].text is Some ==> arguments_in(ns, cs.push(a))
            == arguments_in(ns, cs).push(("value"@, bare_argument(ns[a].text->0))),
        ns[a].kind == "("@ || ns[a].kind == ")"@ || ns[a].kind == ","@ ==> arguments_in(
            ns,
            cs.push(a),
        ) == arguments_in(ns, cs),
{
    assert(cs.push(a).drop_last() =~= cs);
    reveal_strlit("element_value_pair");
    reveal_strlit("string_literal");
    reveal_strlit("(");
    reveal_strlit(")");
    reveal_strlit(",");
    assert("element_value_pair"@.len() == 18 && "string_literal"@.len() == 14);
    assert("("@.len() == 1 && ")"@.len() == 1 && ","@.len() == 1);
}

/// The annotations of a declaration are those in its modifiers, with their arguments.
pub proof fn annotations_stand_in_modifiers(ns: Seq<SyntaxNodeView>, cs: Seq<int>, m: int)
    ensures
        ns[m].kind == "modifiers"@ ==> annotations_in(ns, cs.push(m)) == annotations_in(ns, cs)
            + crate::extract::java::annotations_at(ns, children_of(ns, m)),
        ns[m].kind != "modifiers"@ ==> annotations_in(ns, cs.push(m)) == annotations_in(ns, cs),
        ns[m].kind == "marker_annotation"@ && field_text(ns, m, "name"@) is Some ==> annotation_at(
            ns,
            m,
        ) == Some(AnnotationView { name: field_text(ns, m, "name"@)->0, args: Seq::empty() }),
        ns[m].kind == "annotation"@ && field_text(ns, m, "name"@) is Some && child_with(
            ns,
            m,
            "arguments"@,
        ) is Some ==> annotation_at(ns, m) == Some(
            AnnotationView {
                name: field_text(ns, m, "name"@)->0,
                args: arguments_in(ns, children_of(ns, child_with(ns, m, "arguments"@)->0)),
            },
        ),
{
    node_words();
    assert(cs.push(m).drop_last() =~= cs);
}

/// An import brings in what stands between the keywords and the semicolon.
pub proof fn imports_are_the_names(name: Seq<char>)
    requires
        is_tight(name) && name.len() > 0,
        name.last() != ';',
        name[0] != 'i' && name[0] != 's',
    ensures
        imported("import "@ + name + ";"@) == name,
        imported("import static "@ + name + ";"@) == name,
{
    reveal_strlit("import ");
    reveal_strlit("import static ");
    reveal_strlit("import");
    reveal_strlit("static");
    reveal_strlit(" ");
    reveal_strlit(";");
    let e = Seq::<char>::empty();
    let sp = " "@;
    let n = name + ";"@;
    let st = "static"@ + (sp + n);
    let one = "import "@ + name + ";"@;
    let two = "import static "@ + name + ";"@;
    assert(one =~= "import"@ + (sp + n));
    assert(two =~= "import"@ + (sp + st));
    assert(!is_white(';') && is_white(' '));
    ends_of_texts("import"@, sp + n);
    ends_of_texts("import"@, sp + st);
    reveal_with_fuel(crate::text::without_prefixes, 2);
    not_prefixed(sp + n, "import"@);
    not_prefixed(sp + st, "import"@);
    assert(crate::text::without_prefixes(one, "import"@) =~= sp + n) by {
        assert(one.skip(6) =~= sp + n);
    }
    assert(crate::text::without_prefixes(two, "import"@) =~= sp + st) by {
        assert(two.skip(6) =~= sp + st);
    }
    assert(n.last() == ';' && n[0] == name[0]);
    assert(st.last() == ';' && st[0] == 's');
    trimmed_is_core(sp, n, e);
    assert(sp + n + e =~= sp + n);
    trimmed_is_core(sp, st, e);
    assert(sp + st + e =~= sp + st);
    not_prefixed(n, "static"@);
    ends_of_texts("static"@, sp + n);
    not_prefixed(sp + n, "static"@);
    assert(crate::text::without_prefixes(st, "static"@) =~= sp + n) by {
        assert(st.skip(6) =~= sp + n);
    }
    trimmed_is_core(e, n, e);
    assert(e + n + e =~= n);
    drop_all(name, ";"@, only(';'));
    assert(drop_while(name, only(';')) == name);
    trimmed_is_core(e, name, e);
    assert(e + name + e =~= name);
}

proof fn not_prefixed(s: Seq<char>, p: Seq<char>)
    requires
        s.len() > 0 && p.len() > 0,
        s[0] != p[0],
    ensures
        !crate::text::has_prefix(s, p),
        crate::text::without_prefixes(s, p) == s,
{
    if crate::text::has_prefix(s, p) {
        assert(s.take(p.len() as int)[0] == s[0]);
    }
}

/// A file's package is that of its last package declaration, its imports those of its import
/// declarations, and its symbols those of its types, in order.
pub proof fn files_hold_their_declarations(
    ns: Seq<SyntaxNodeView>,
    cs: Seq<int>,
    c: int,
    pkg: Option<Seq<char>>,
)
    ensures
        ns.len() > 0 ==> file_of(ns).symbols == types_in(ns, children_of(ns, 0), file_of(ns).package)
            && file_of(ns).package == package_in(ns, children_of(ns, 0)) && file_of(ns).imports
            == imports_in(ns, children_of(ns, 0)) && file_of(ns).had_parse_error == ns[0].broken,
        ns[c].kind != "package_declaration"@ ==> package_in(ns, cs.push(c)) == package_in(ns, cs),
        ns[c].kind == "import_declaration"@ && ns[c].text is Some && imported(ns[c].text->0).len()
            > 0 ==> imports_in(ns, cs.push(c)) == imports_in(ns, cs).push(imported(ns[c].text->0)),
        ns[c].kind != "import_declaration"@ ==> imports_in(ns, cs.push(c)) == imports_in(ns, cs),
        (ns[c].kind == "class_declaration"@ || ns[c].kind == "interface_declaration"@ || ns[c].kind
            == "enum_declaration"@ || ns[c].kind == "record_declaration"@ || ns[c].kind
            == "annotation_type_declaration"@) ==> types_in(ns, cs.push(c), pkg) == with_type(
            ns,
            c,
            pkg,
            None,
            types_in(ns, cs, pkg),
        ),
        ns[c].kind == "import_declaration"@ ==> types_in(ns, cs.push(c), pkg) == types_in(
            ns,
            cs,
            pkg,
        ),
{
    assert(cs.push(c).drop_last() =~= cs);
    node_words();
    reveal_strlit("import_declaration");
    reveal_strlit("class_declaration");
    reveal_strlit("interface_declaration");
    reveal_strlit("enum_declaration");
    reveal_strlit("record_declaration");
    reveal_strlit("annotation_type_declaration");
    assert("import_declaration"@.len() == 18 && "record_declaration"@.len() == 18);
    assert("import_declaration"@[0] == 'i' && "record_declaration"@[0] == 'r');
    assert("class_declaration"@.len() == 17 && "interface_declaration"@.len() == 21);
    assert("enum_declaration"@.len() == 16 && "annotation_type_declaration"@.len() == 27);
}

/// The package is the text of the declaration's first named child.
pub proof fn packages_are_named(ns: Seq<SyntaxNodeView>, cs: Seq<int>, c: int, a: int)
    requires
        ns[c].kind == "package_declaration"@,
        ({
            let l = children_of(ns, c);
            &&& 0 <= a < l.len() && ns[l[a]].named
            &&& forall|b: int| 0 <= b < a ==> !ns[#[trigger] l[b]].named
        }),
    ensures
        package_in(ns, cs.push(c)) == ns[children_of(ns, c)[a]].text,
{
    let l = children_of(ns, c);
    let p = |c: int| ns[c].named;
    first_where_is_first(l, p);
    assert(p(l[a]));
    assert forall|b: int| 0 <= b < a implies !p(#[trigger] l[b]) by {}
    assert(cs.push(c).drop_last() =~= cs);
}

} // verus!

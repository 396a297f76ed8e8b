//! Configuration documents: what their elements tell.
use crate::extract::dubbo_xml;
use crate::extract::mybatis;
use crate::extract::mybatis::{
    MapperFileView, MapperTextView, ResultMappingView, StatementTextView, StatementView,
};
use crate::extract::maven;
use crate::extract::maven::PomView;
use crate::extract::spring;
use crate::extract::spring::SpringBeanView;
use crate::extract::sql::tables_in;
use crate::extract::xmlutil::{
    attr_map, attribute_value, char_ref, prose_of, reference_text, XmlEventView, XmlTagView,
};
use crate::laws::basics::{
    appears, first_where_is_first, flat_members, is_local, local_names, searches_find_what_appears,
    sorting_keeps_members,
};
use crate::split::tail_of;
use crate::store::model::TableOp;
use crate::text::{lowered, trimmed};
use vstd::prelude::*;

verus! {

/// The value of an attribute, where the tag has it.
pub open spec fn attribute(t: XmlTagView, key: Seq<char>) -> Option<Seq<char>> {
    if t.attrs.dom().contains(key) {
        Some(t.attrs[key])
    } else {
        None
    }
}

// ---------------------------------------------------------------------------
// Text

proof fn entity_words()
    ensures
        "lt"@ != "gt"@,
        "lt"@ != "amp"@,
        "lt"@ != "apos"@,
        "lt"@ != "quot"@,
        "gt"@ != "amp"@,
        "gt"@ != "apos"@,
        "gt"@ != "quot"@,
        "amp"@ != "apos"@,
        "amp"@ != "quot"@,
        "apos"@ != "quot"@,

{
    reveal_strlit("lt");
    reveal_strlit("gt");
    reveal_strlit("amp");
    reveal_strlit("apos");
    reveal_strlit("quot");
    assert("lt"@.len() == 2 && "lt"@[0] == 'l');
    assert("gt"@.len() == 2 && "gt"@[0] == 'g');
    assert("amp"@.len() == 3 && "amp"@[0] == 'a');
    assert("apos"@.len() == 4 && "apos"@[0] == 'a');
    assert("quot"@.len() == 4 && "quot"@[0] == 'q');

    assert("lt"@ != "gt"@);
    assert("apos"@ != "quot"@);
}

/// The five entities of XML stand for their characters; an unknown one stays as it was
/// written.
pub proof fn entities_stand_for_their_characters(name: Seq<char>)
    requires
        char_ref(name) is None,
    ensures
        name == "lt"@ ==> reference_text(name) == "<"@,
        name == "gt"@ ==> reference_text(name) == ">"@,
        name == "amp"@ ==> reference_text(name) == "&"@,
        name == "apos"@ ==> reference_text(name) == "'"@,
        name == "quot"@ ==> reference_text(name) == "\""@,
        name != "lt"@ && name != "gt"@ && name != "amp"@ && name != "apos"@ && name != "quot"@
            ==> reference_text(name) == "&"@ + name + ";"@,
{
    entity_words();
}

/// An attribute is found by what stands behind its prefix; of two with one name the later
/// counts.
pub proof fn attributes_are_local(
    l: Seq<(Seq<char>, Seq<char>)>,
    i: int,
    key: Seq<char>,
)
    requires
        !key.contains(':'),
    ensures
        0 <= i < l.len() && is_local(l[i].0, ':', key) && (forall|j: int|
            i < j < l.len() ==> !is_local((#[trigger] l[j]).0, ':', key)) ==> attr_map(
            l,
        ).dom().contains(key) && (attribute_value(l[i].1) is Some ==> attr_map(l)[key]
            == attribute_value(l[i].1)->0) && (attribute_value(l[i].1) is None ==> attr_map(
            l,
        )[key].len() == 0),
        (forall|j: int| 0 <= j < l.len() ==> !is_local((#[trigger] l[j]).0, ':', key))
            ==> !attr_map(l).dom().contains(key),
    decreases l.len(),
{
    if l.len() > 0 {
        let rest = l.drop_last();
        attributes_are_local(rest, i, key);
        local_names(l.last().0, ':', key);
        assert(l[l.len() - 1] == l.last());
        assert forall|j: int| 0 <= j < rest.len() implies #[trigger] rest[j] == l[j] by {}
        if forall|j: int| 0 <= j < l.len() ==> !is_local((#[trigger] l[j]).0, ':', key) {
            assert forall|j: int| 0 <= j < rest.len() implies !is_local(
                (#[trigger] rest[j]).0,
                ':',
                key,
            ) by {
                assert(!is_local(l[j].0, ':', key));
            }
            assert(!is_local(l[l.len() - 1].0, ':', key));
        }
        if 0 <= i < rest.len() && is_local(l[i].0, ':', key) && (forall|j: int|
            i < j < l.len() ==> !is_local((#[trigger] l[j]).0, ':', key)) {
            assert(!is_local(l[l.len() - 1].0, ':', key));
            assert forall|j: int| i < j < rest.len() implies !is_local(
                (#[trigger] rest[j]).0,
                ':',
                key,
            ) by {
                assert(!is_local(l[j].0, ':', key));
            }
        }
    }
}

/// A comment with markup in it tells nothing.
pub proof fn commented_out_markup_is_no_prose(a: Seq<char>, b: Seq<char>)
    ensures
        prose_of(a.push('<') + b) is None,
        !a.contains('<') ==> prose_of(a) == crate::util::javadoc(a),
{
    assert((a.push('<') + b)[a.len() as int] == '<');
}

// ---------------------------------------------------------------------------
// Mappers

proof fn mapper_words()
    ensures
        "mapper"@ != "resultMap"@,
        "mapper"@ != "id"@,
        "mapper"@ != "result"@,
        "mapper"@ != "sql"@,
        "mapper"@ != "select"@,
        "mapper"@ != "insert"@,
        "mapper"@ != "update"@,
        "mapper"@ != "delete"@,
        "mapper"@ != "include"@,
        "resultMap"@ != "id"@,
        "resultMap"@ != "result"@,
        "resultMap"@ != "sql"@,
        "resultMap"@ != "select"@,
        "resultMap"@ != "insert"@,
        "resultMap"@ != "update"@,
        "resultMap"@ != "delete"@,
        "resultMap"@ != "include"@,
        "id"@ != "result"@,
        "id"@ != "sql"@,
        "id"@ != "select"@,
        "id"@ != "insert"@,
        "id"@ != "update"@,
        "id"@ != "delete"@,
        "id"@ != "include"@,
        "result"@ != "sql"@,
        "result"@ != "select"@,
        "result"@ != "insert"@,
        "result"@ != "update"@,
        "result"@ != "delete"@,
        "result"@ != "include"@,
        "sql"@ != "select"@,
        "sql"@ != "insert"@,
        "sql"@ != "update"@,
        "sql"@ != "delete"@,
        "sql"@ != "include"@,
        "select"@ != "insert"@,
        "select"@ != "update"@,
        "select"@ != "delete"@,
        "select"@ != "include"@,
        "insert"@ != "update"@,
        "insert"@ != "delete"@,
        "insert"@ != "include"@,
        "update"@ != "delete"@,
        "update"@ != "include"@,
        "delete"@ != "include"@,
        !"mapper"@.contains(':'),
        !"resultMap"@.contains(':'),
        !"id"@.contains(':'),
        !"result"@.contains(':'),
        !"sql"@.contains(':'),
        !"select"@.contains(':'),
        !"insert"@.contains(':'),
        !"update"@.contains(':'),
        !"delete"@.contains(':'),
        !"include"@.contains(':'),
{
    reveal_strlit("mapper");
    reveal_strlit("resultMap");
    reveal_strlit("id");
    reveal_strlit("result");
    reveal_strlit("sql");
    reveal_strlit("select");
    reveal_strlit("insert");
    reveal_strlit("update");
    reveal_strlit("delete");
    reveal_strlit("include");
    assert("mapper"@.len() == 6 && "mapper"@[0] == 'm');
    assert("resultMap"@.len() == 9 && "resultMap"@[0] == 'r');
    assert("id"@.len() == 2 && "id"@[0] == 'i');
    assert("result"@.len() == 6 && "result"@[0] == 'r');
    assert("sql"@.len() == 3 && "sql"@[0] == 's');
    assert("select"@.len() == 6 && "select"@[0] == 's');
    assert("insert"@.len() == 6 && "insert"@[0] == 'i');
    assert("update"@.len() == 6 && "update"@[0] == 'u');
    assert("delete"@.len() == 6 && "delete"@[0] == 'd');
    assert("include"@.len() == 7 && "include"@[0] == 'i');

    assert("mapper"@ != "result"@);
    assert("mapper"@ != "select"@);
    assert("mapper"@ != "insert"@);
    assert("mapper"@ != "update"@);
    assert("mapper"@ != "delete"@);
    assert("result"@ != "select"@);
    assert("result"@ != "insert"@);
    assert("result"@ != "update"@);
    assert("result"@ != "delete"@);
    assert("select"@ != "insert"@);
    assert("select"@ != "update"@);
    assert("select"@ != "delete"@);
    assert("insert"@ != "update"@);
    assert("insert"@ != "delete"@);
    assert("update"@ != "delete"@);
}

proof fn mapper_reads_next(evs: Seq<XmlEventView>, ev: XmlEventView)
    ensures
        mybatis::read(evs.push(ev)) == mybatis::step(mybatis::read(evs), ev),
{
    assert(evs.push(ev).drop_last() =~= evs);
}

/// The elements that hold statements.
pub open spec fn holds_statement(name: Seq<char>) -> bool {
    is_local(name, ':', "select"@) || is_local(name, ':', "insert"@) || is_local(
        name,
        ':',
        "update"@,
    ) || is_local(name, ':', "delete"@)
}

proof fn statement_names(name: Seq<char>)
    ensures
        holds_statement(name) <==> mybatis::is_statement(tail_of(name, ':')),
{
    mapper_words();
    local_names(name, ':', "select"@);
    local_names(name, ':', "insert"@);
    local_names(name, ':', "update"@);
    local_names(name, ':', "delete"@);
}

/// The statement that an element holds, with the text inside it.
pub open spec fn statement_of(t: XmlTagView, body: Seq<char>, st: StatementTextView) -> bool {
    &&& is_local(t.name, ':', st.tag) && !st.tag.contains(':')
    &&& attribute(t, "id"@) is Some ==> st.id == t.attrs["id"@]
    &&& attribute(t, "id"@) is None ==> st.id.len() == 0
    &&& st.result_map == attribute(t, "resultMap"@)
    &&& st.result_type == attribute(t, "resultType"@)
    &&& st.body == body
}

/// Each element that holds a statement adds one, with its attributes and its text; one
/// inside it adds its text to the outer one.
pub proof fn statements_hold_their_text(
    evs: Seq<XmlEventView>,
    outer: XmlTagView,
    a: Seq<char>,
    inner: XmlTagView,
    b: Seq<char>,
    c: Seq<char>,
)
    requires
        mybatis::read(evs).cur_stmt is None,
        mybatis::read(evs).depth == 0,
        holds_statement(outer.name),
        holds_statement(inner.name),
    ensures
        ({
            let s0 = mybatis::read(evs).out;
            let s1 = mybatis::read(
                evs.push(XmlEventView::Start(outer)).push(XmlEventView::Text(a)).push(
                    XmlEventView::End(outer.name),
                ),
            );
            let s2 = mybatis::read(
                evs.push(XmlEventView::Start(outer)).push(XmlEventView::Text(a)).push(
                    XmlEventView::Start(inner),
                ).push(XmlEventView::CData(b)).push(XmlEventView::End(inner.name)).push(
                    XmlEventView::Entity(c),
                ).push(XmlEventView::End(outer.name)),
            );
            &&& s1.out.statements.len() == s0.statements.len() + 1
            &&& s1.out.statements.drop_last() == s0.statements
            &&& statement_of(outer, a, s1.out.statements.last())
            &&& s1.cur_stmt is None && s1.depth == 0 && s1.body.len() == 0
            &&& s2.out.statements.drop_last() == s0.statements
            &&& statement_of(outer, a + b + c, s2.out.statements.last())
            &&& s2.cur_stmt is None && s2.depth == 0
        }),
{
    mapper_words();
    statement_names(outer.name);
    statement_names(inner.name);
    tail_is_local(outer.name);
    let e1 = evs.push(XmlEventView::Start(outer));
    let e2 = e1.push(XmlEventView::Text(a));
    let e3 = e2.push(XmlEventView::End(outer.name));
    mapper_reads_next(evs, XmlEventView::Start(outer));
    mapper_reads_next(e1, XmlEventView::Text(a));
    mapper_reads_next(e2, XmlEventView::End(outer.name));
    let s0 = mybatis::read(evs).out.statements;
    assert(mybatis::read(e2).body =~= a);
    let s1 = mybatis::read(e3).out.statements;
    assert(s1.drop_last() =~= s0);
    let f1 = e2.push(XmlEventView::Start(inner));
    let f2 = f1.push(XmlEventView::CData(b));
    let f3 = f2.push(XmlEventView::End(inner.name));
    let f4 = f3.push(XmlEventView::Entity(c));
    let f5 = f4.push(XmlEventView::End(outer.name));
    mapper_reads_next(e2, XmlEventView::Start(inner));
    mapper_reads_next(f1, XmlEventView::CData(b));
    mapper_reads_next(f2, XmlEventView::End(inner.name));
    mapper_reads_next(f3, XmlEventView::Entity(c));
    mapper_reads_next(f4, XmlEventView::End(outer.name));
    assert(mybatis::read(f4).body =~= a + b + c);
    let s2 = mybatis::read(f5).out.statements;
    assert(s2.drop_last() =~= s0);
}

proof fn tail_is_local(name: Seq<char>)
    ensures
        is_local(name, ':', tail_of(name, ':')),
        !tail_of(name, ':').contains(':'),
{
    crate::text::rfind_to_is_last(name, ':', name.len() as int);
    let t = tail_of(name, ':');
    if t.contains(':') {
        let k = choose|k: int| 0 <= k < t.len() && t[k] == ':';
        match crate::text::last_of(name, ':') {
            Some(i) => {
                assert(name[i + 1 + k] == ':');
            },
            None => {
                assert(name[k] == ':');
            },
        }
    }
    local_names(name, ':', t);
}

/// A fragment is its element's text, under its id; an `include` of it puts that text into
/// the statement, with a space on either side.
pub proof fn includes_put_fragments_in(
    evs: Seq<XmlEventView>,
    frag: XmlTagView,
    text: Seq<char>,
    stmt: XmlTagView,
    incl: XmlTagView,
)
    requires
        mybatis::read(evs).cur_stmt is None,
        mybatis::read(evs).depth == 0,
        is_local(frag.name, ':', "sql"@),
        frag.attrs.dom().contains("id"@),
        holds_statement(stmt.name),
        is_local(incl.name, ':', "include"@),
        incl.attrs.dom().contains("refid"@) && incl.attrs["refid"@] == frag.attrs["id"@],
    ensures
        ({
            let s0 = mybatis::read(evs).out;
            let e1 = evs.push(XmlEventView::Start(frag)).push(XmlEventView::Text(text)).push(
                XmlEventView::End(frag.name),
            );
            let s1 = mybatis::read(e1);
            let s2 = mybatis::read(
                e1.push(XmlEventView::Start(stmt)).push(XmlEventView::Empty(incl)).push(
                    XmlEventView::End(stmt.name),
                ),
            );
            &&& s1.out.fragments == s0.fragments.insert(frag.attrs["id"@], text)
            &&& s1.out.statements == s0.statements
            &&& s2.out.statements.drop_last() == s0.statements
            &&& statement_of(stmt, " "@ + text + " "@, s2.out.statements.last())
        }),
{
    mapper_words();
    reveal_strlit(" ");
    statement_names(stmt.name);
    tail_is_local(stmt.name);
    local_names(frag.name, ':', "sql"@);
    local_names(incl.name, ':', "include"@);
    let a1 = evs.push(XmlEventView::Start(frag));
    let a2 = a1.push(XmlEventView::Text(text));
    let a3 = a2.push(XmlEventView::End(frag.name));
    mapper_reads_next(evs, XmlEventView::Start(frag));
    mapper_reads_next(a1, XmlEventView::Text(text));
    mapper_reads_next(a2, XmlEventView::End(frag.name));
    assert(mybatis::read(a2).body =~= text);
    let b1 = a3.push(XmlEventView::Start(stmt));
    let b2 = b1.push(XmlEventView::Empty(incl));
    let b3 = b2.push(XmlEventView::End(stmt.name));
    mapper_reads_next(a3, XmlEventView::Start(stmt));
    mapper_reads_next(b1, XmlEventView::Empty(incl));
    mapper_reads_next(b2, XmlEventView::End(stmt.name));
    assert(mybatis::read(b2).body =~= " "@ + text + " "@);
    assert(mybatis::read(b3).out.statements.drop_last() =~= mybatis::read(evs).out.statements);
}

/// A result map holds the columns of its `id` and `result` elements, in lower case, and
/// knows which are of the key.
pub proof fn result_maps_hold_their_columns(
    evs: Seq<XmlEventView>,
    map: XmlTagView,
    key: XmlTagView,
    col: XmlTagView,
)
    requires
        is_local(map.name, ':', "resultMap"@),
        is_local(key.name, ':', "id"@) && is_local(col.name, ':', "result"@),
        key.attrs.dom().contains("column"@) && key.attrs.dom().contains("property"@),
        col.attrs.dom().contains("column"@) && col.attrs.dom().contains("property"@),
    ensures
        ({
            let s0 = mybatis::read(evs).out;
            let s = mybatis::read(
                evs.push(XmlEventView::Start(map)).push(XmlEventView::Empty(key)).push(
                    XmlEventView::Start(col),
                ).push(XmlEventView::End(map.name)),
            ).out;
            let m = s.result_maps.last();
            &&& s.result_maps.drop_last() == s0.result_maps
            &&& attribute(map, "id"@) is Some ==> m.id == map.attrs["id"@]
            &&& m.type_fqn == attribute(map, "type"@)
            &&& m.mappings.len() == 2
            &&& m.mappings[0] == (ResultMappingView {
                column: lowered(key.attrs["column"@]),
                property: key.attrs["property"@],
                is_pk: true,
            })
            &&& m.mappings[1] == (ResultMappingView {
                column: lowered(col.attrs["column"@]),
                property: col.attrs["property"@],
                is_pk: false,
            })
        }),
{
    mapper_words();
    local_names(map.name, ':', "resultMap"@);
    local_names(key.name, ':', "id"@);
    local_names(col.name, ':', "result"@);
    let a1 = evs.push(XmlEventView::Start(map));
    let a2 = a1.push(XmlEventView::Empty(key));
    let a3 = a2.push(XmlEventView::Start(col));
    let a4 = a3.push(XmlEventView::End(map.name));
    mapper_reads_next(evs, XmlEventView::Start(map));
    mapper_reads_next(a1, XmlEventView::Empty(key));
    mapper_reads_next(a2, XmlEventView::Start(col));
    mapper_reads_next(a3, XmlEventView::End(map.name));
    assert(mybatis::read(a4).out.result_maps.drop_last() =~= mybatis::read(evs).out.result_maps);
}

/// The namespace is the mapper element's; text outside statements and fragments is
/// dropped.
pub proof fn namespaces_are_the_mappers(evs: Seq<XmlEventView>, t: XmlTagView, text: Seq<char>)
    requires
        is_local(t.name, ':', "mapper"@),
    ensures
        mybatis::read(evs.push(XmlEventView::Start(t))).out.namespace == attribute(
            t,
            "namespace"@,
        ),
        mybatis::read(evs).cur_stmt is None && mybatis::read(evs).cur_fragment is None
            ==> mybatis::read(evs.push(XmlEventView::Text(text))) == mybatis::read(evs),
{
    mapper_words();
    local_names(t.name, ':', "mapper"@);
    mapper_reads_next(evs, XmlEventView::Start(t));
    mapper_reads_next(evs, XmlEventView::Text(text));
}

/// The statements of a mapper are those that were read, each with the tables of its text.
pub proof fn statements_have_their_tables(m: MapperTextView, i: int)
    requires
        0 <= i < m.statements.len(),
    ensures
        mybatis::mapper_of(m).statements.len() == m.statements.len(),
        mybatis::mapper_of(m).statements[i].id == m.statements[i].id,
        mybatis::mapper_of(m).statements[i].tag == m.statements[i].tag,
        mybatis::mapper_of(m).statements[i].result_map == m.statements[i].result_map,
        mybatis::mapper_of(m).statements[i].result_type == m.statements[i].result_type,
        mybatis::mapper_of(m).statements[i].tables == tables_in(m.statements[i].body),
        mybatis::mapper_of(m).namespace == m.namespace,
        mybatis::mapper_of(m).result_maps == m.result_maps,
{
}

/// A mapper touches the tables that its statements touch.
pub proof fn mappers_touch_their_statements_tables(m: MapperFileView, x: (Seq<char>, TableOp))
    ensures
        mybatis::all_tables(m).contains(x) <==> exists|i: int|
            0 <= i < m.statements.len() && (#[trigger] m.statements[i]).tables.contains(x),
{
    let f = |s: StatementView| s.tables;
    flat_members(m.statements, f, x);
    if exists|i: int|
        0 <= i < m.statements.len() && (#[trigger] m.statements[i]).tables.contains(x) {
        let i = choose|i: int|
            0 <= i < m.statements.len() && (#[trigger] m.statements[i]).tables.contains(x);
        assert(f(m.statements[i]).contains(x));
    }
    if mybatis::all_tables(m).contains(x) {
        let i = choose|i: int| 0 <= i < m.statements.len() && f(#[trigger] m.statements[i]).contains(x);
        assert(m.statements[i].tables.contains(x));
    }
}

/// Whether the statement uses the map and reads the number of tables, the first of them `t`.
pub open spec fn reads_through(s: StatementView, id: Seq<char>, n: int, t: Seq<char>) -> bool {
    let r = s.tables.filter(is_read());
    s.result_map == Some(id) && r.len() == n && n > 0 && r[0].0 == t
}

pub open spec fn is_read() -> spec_fn((Seq<char>, TableOp)) -> bool {
    |p: (Seq<char>, TableOp)| p.1 is Select
}

/// A result map describes the table of the first statement that uses it and reads that
/// table alone; without one, the first table of the first that reads any; else none.
pub proof fn maps_describe_the_table_read(
    m: MapperFileView,
    id: Seq<char>,
    i: int,
    n: int,
    t: Seq<char>,
)
    requires
        0 <= i < m.statements.len(),
        reads_through(m.statements[i], id, n, t),
    ensures
        n == 1 && (forall|j: int, u: Seq<char>|
            0 <= j < i ==> !#[trigger] reads_through(m.statements[j], id, 1, u))
            ==> mybatis::map_table(m, id) == Some(t),
        (forall|j: int, u: Seq<char>|
            0 <= j < m.statements.len() ==> !#[trigger] reads_through(m.statements[j], id, 1, u))
            && (forall|j: int, k: int, u: Seq<char>|
            0 <= j < i ==> !#[trigger] reads_through(m.statements[j], id, k, u))
            ==> mybatis::map_table(m, id) == Some(t),
        mybatis::map_table(m, id) is Some,
{
    let one = |s: StatementView| mybatis::uses_map(s, id) && mybatis::reads_of(s).len() == 1;
    let any = |s: StatementView| mybatis::uses_map(s, id) && mybatis::reads_of(s).len() > 0;
    first_where_is_first(m.statements, one);
    first_where_is_first(m.statements, any);
    assert forall|s: StatementView| #[trigger] mybatis::reads_of(s) == s.tables.filter(is_read()) by {
        reads_are_filtered(s.tables);
    }
    let s = m.statements[i];
    assert(mybatis::reads_of(s) == s.tables.filter(is_read()));
    assert(any(s));
    if forall|j: int, u: Seq<char>|
        0 <= j < i ==> !#[trigger] reads_through(m.statements[j], id, 1, u) {
        assert forall|j: int| 0 <= j < i implies !one(#[trigger] m.statements[j]) by {
            let r = mybatis::reads_of(m.statements[j]);
            assert(!reads_through(m.statements[j], id, 1, r[0].0));
        }
    }
    if forall|j: int, u: Seq<char>|
        0 <= j < m.statements.len() ==> !#[trigger] reads_through(m.statements[j], id, 1, u) {
        assert forall|j: int| 0 <= j < m.statements.len() implies !one(
            #[trigger] m.statements[j],
        ) by {
            let r = mybatis::reads_of(m.statements[j]);
            assert(!reads_through(m.statements[j], id, 1, r[0].0));
        }
    }
    if forall|j: int, k: int, u: Seq<char>|
        0 <= j < i ==> !#[trigger] reads_through(m.statements[j], id, k, u) {
        assert forall|j: int| 0 <= j < i implies !any(#[trigger] m.statements[j]) by {
            let r = mybatis::reads_of(m.statements[j]);
            assert(!reads_through(m.statements[j], id, r.len() as int, r[0].0));
        }
    }
}

proof fn reads_are_filtered(tables: Seq<(Seq<char>, TableOp)>)
    ensures
        crate::lists::keep(tables, |p: (Seq<char>, TableOp)| p.1 == TableOp::Select)
            == tables.filter(is_read()),
    decreases tables.len(),
{
    reveal(Seq::filter);
    if tables.len() > 0 {
        reads_are_filtered(tables.drop_last());
    }
}

// ---------------------------------------------------------------------------
// Project files

proof fn pom_words()
    ensures
        "project"@ != "dependency"@,
        "project"@ != "artifactId"@,
        "project"@ != "groupId"@,
        "project"@ != "version"@,
        "project"@ != "packaging"@,
        "project"@ != "module"@,
        "dependency"@ != "artifactId"@,
        "dependency"@ != "groupId"@,
        "dependency"@ != "version"@,
        "dependency"@ != "packaging"@,
        "dependency"@ != "module"@,
        "artifactId"@ != "groupId"@,
        "artifactId"@ != "version"@,
        "artifactId"@ != "packaging"@,
        "artifactId"@ != "module"@,
        "groupId"@ != "version"@,
        "groupId"@ != "packaging"@,
        "groupId"@ != "module"@,
        "version"@ != "packaging"@,
        "version"@ != "module"@,
        "packaging"@ != "module"@,
        !"project"@.contains(':'),
        !"dependency"@.contains(':'),
        !"artifactId"@.contains(':'),
        !"groupId"@.contains(':'),
        !"version"@.contains(':'),
        !"packaging"@.contains(':'),
        !"module"@.contains(':'),
{
    reveal_strlit("project");
    reveal_strlit("dependency");
    reveal_strlit("artifactId");
    reveal_strlit("groupId");
    reveal_strlit("version");
    reveal_strlit("packaging");
    reveal_strlit("module");
    assert("project"@.len() == 7 && "project"@[0] == 'p');
    assert("dependency"@.len() == 10 && "dependency"@[0] == 'd');
    assert("artifactId"@.len() == 10 && "artifactId"@[0] == 'a');
    assert("groupId"@.len() == 7 && "groupId"@[0] == 'g');
    assert("version"@.len() == 7 && "version"@[0] == 'v');
    assert("packaging"@.len() == 9 && "packaging"@[0] == 'p');
    assert("module"@.len() == 6 && "module"@[0] == 'm');

    assert("project"@ != "groupId"@);
    assert("project"@ != "version"@);
    assert("dependency"@ != "artifactId"@);
    assert("groupId"@ != "version"@);
}

proof fn pom_reads_next(evs: Seq<XmlEventView>, ev: XmlEventView)
    ensures
        maven::read(evs.push(ev)) == maven::step(maven::read(evs), ev),
{
    assert(evs.push(ev).drop_last() =~= evs);
}

/// The events of an element that holds a text.
pub open spec fn with_element(
    evs: Seq<XmlEventView>,
    t: XmlTagView,
    text: Seq<char>,
) -> Seq<XmlEventView> {
    evs.push(XmlEventView::Start(t)).push(XmlEventView::Text(text)).push(XmlEventView::End(t.name))
}

/// The coordinates directly under the project are its own, those under a dependency are the
/// dependency's, and those under any other element, such as an exclusion, count for nothing.
pub proof fn coordinates_go_by_their_parent(
    evs: Seq<XmlEventView>,
    t: XmlTagView,
    text: Seq<char>,
)
    requires
        maven::read(evs).path.len() > 0,
    ensures
        ({
            let s0 = maven::read(evs);
            let s = maven::read(with_element(evs, t, text));
            let parent = s0.path.last();
            let v = Some(trimmed(text));
            let artifact = is_local(t.name, ':', "artifactId"@);
            let group = is_local(t.name, ':', "groupId"@);
            &&& s.path == s0.path
            &&& artifact && parent == "project"@ ==> s.pom == (PomView { artifact_id: v, ..s0.pom })
            &&& group && parent == "project"@ ==> s.pom == (PomView { group_id: v, ..s0.pom })
            &&& is_local(t.name, ':', "version"@) && parent == "project"@ ==> s.pom == (PomView {
                version: v,
                ..s0.pom
            })
            &&& is_local(t.name, ':', "packaging"@) && parent == "project"@ ==> s.pom == (PomView {
                packaging: v,
                ..s0.pom
            })
            &&& artifact && parent == "dependency"@ ==> s.dep_artifact == v && s.pom == s0.pom
            &&& group && parent == "dependency"@ ==> s.dep_group == v && s.pom == s0.pom
            &&& (artifact || group || is_local(t.name, ':', "version"@) || is_local(
                t.name,
                ':',
                "packaging"@,
            )) && parent != "project"@ && parent != "dependency"@ ==> s.pom == s0.pom && s.dep_group
                == s0.dep_group && s.dep_artifact == s0.dep_artifact
            &&& is_local(t.name, ':', "module"@) && trimmed(text).len() > 0 ==> s.pom == (PomView {
                modules: s0.pom.modules.push(trimmed(text)),
                ..s0.pom
            })
        }),
{
    pom_words();
    local_names(t.name, ':', "artifactId"@);
    local_names(t.name, ':', "groupId"@);
    local_names(t.name, ':', "version"@);
    local_names(t.name, ':', "packaging"@);
    local_names(t.name, ':', "module"@);
    let e1 = evs.push(XmlEventView::Start(t));
    let e2 = e1.push(XmlEventView::Text(text));
    let e3 = e2.push(XmlEventView::End(t.name));
    pom_reads_next(evs, XmlEventView::Start(t));
    pom_reads_next(e1, XmlEventView::Text(text));
    pom_reads_next(e2, XmlEventView::End(t.name));
    let s0 = maven::read(evs);
    let s2 = maven::read(e2);
    assert(s2.text =~= text);
    assert(s2.path[s2.path.len() - 2] == s0.path.last());
    assert(maven::read(e3).path =~= s0.path);
}

/// A dependency is written as its group and its artifact with a colon between them.
pub proof fn dependencies_are_group_and_artifact(
    evs: Seq<XmlEventView>,
    d: XmlTagView,
    g: XmlTagView,
    group: Seq<char>,
    a: XmlTagView,
    artifact: Seq<char>,
)
    requires
        is_local(d.name, ':', "dependency"@),
        is_local(g.name, ':', "groupId"@),
        is_local(a.name, ':', "artifactId"@),
    ensures
        maven::read(
            with_element(
                with_element(evs.push(XmlEventView::Start(d)), g, group),
                a,
                artifact,
            ).push(XmlEventView::End(d.name)),
        ).pom.dependencies == maven::read(evs).pom.dependencies.push(
            trimmed(group) + ":"@ + trimmed(artifact),
        ),
{
    pom_words();
    local_names(d.name, ':', "dependency"@);
    let e1 = evs.push(XmlEventView::Start(d));
    let e2 = with_element(e1, g, group);
    let e3 = with_element(e2, a, artifact);
    pom_reads_next(evs, XmlEventView::Start(d));
    assert(maven::read(e1).path.last() == "dependency"@);
    coordinates_go_by_their_parent(e1, g, group);
    coordinates_go_by_their_parent(e2, a, artifact);
    element_keeps_group(e2, a, artifact);
    pom_reads_next(e3, XmlEventView::End(d.name));
}

proof fn element_keeps_group(evs: Seq<XmlEventView>, a: XmlTagView, text: Seq<char>)
    requires
        is_local(a.name, ':', "artifactId"@),
        maven::read(evs).path.len() > 0,
        maven::read(evs).path.last() == "dependency"@,
    ensures
        maven::read(with_element(evs, a, text)).dep_group == maven::read(evs).dep_group,
{
    pom_words();
    local_names(a.name, ':', "artifactId"@);
    let e1 = evs.push(XmlEventView::Start(a));
    let e2 = e1.push(XmlEventView::Text(text));
    pom_reads_next(evs, XmlEventView::Start(a));
    pom_reads_next(e1, XmlEventView::Text(text));
    pom_reads_next(e2, XmlEventView::End(a.name));
    let s2 = maven::read(e2);
    assert(s2.path[s2.path.len() - 2] == maven::read(evs).path.last());
}

/// A project file's dependencies are those that were read, sorted, each once; the rest is as
/// it was read.
pub proof fn dependencies_are_sorted(evs: Seq<XmlEventView>, x: Seq<char>)
    ensures
        maven::pom_of(evs).dependencies.contains(x) <==> maven::read(evs).pom.dependencies.contains(
            x,
        ),
        maven::pom_of(evs).artifact_id == maven::read(evs).pom.artifact_id,
        maven::pom_of(evs).group_id == maven::read(evs).pom.group_id,
        maven::pom_of(evs).version == maven::read(evs).pom.version,
        maven::pom_of(evs).packaging == maven::read(evs).pom.packaging,
        maven::pom_of(evs).modules == maven::read(evs).pom.modules,
{
    sorting_keeps_members(maven::read(evs).pom.dependencies, x);
}

// ---------------------------------------------------------------------------
// Remote services

proof fn dubbo_words()
    ensures
        "dubbo:service"@ != "dubbo:reference"@,

{
    reveal_strlit("dubbo:service");
    reveal_strlit("dubbo:reference");
    assert("dubbo:service"@.len() == 13 && "dubbo:service"@[0] == 'd');
    assert("dubbo:reference"@.len() == 15 && "dubbo:reference"@[0] == 'd');


}

proof fn dubbo_reads_next(evs: Seq<XmlEventView>, ev: XmlEventView)
    ensures
        dubbo_xml::read(evs.push(ev)) == dubbo_xml::step(dubbo_xml::read(evs), ev),
{
    assert(evs.push(ev).drop_last() =~= evs);
}

/// A service element with an interface declares one service, with its attributes and the
/// comment right before it; a reference element declares one reference. Nothing else
/// declares any.
pub proof fn services_are_declared(
    evs: Seq<XmlEventView>,
    c: Seq<char>,
    t: XmlTagView,
    empty: bool,
)
    requires
        t.attrs.dom().contains("interface"@),
    ensures
        ({
            let e = evs.push(XmlEventView::Comment(c));
            let ev = if empty {
                XmlEventView::Empty(t)
            } else {
                XmlEventView::Start(t)
            };
            let s0 = dubbo_xml::read(evs).out;
            let s = dubbo_xml::read(e.push(ev)).out;
            let v = s.services.last();
            let r = s.references.last();
            &&& t.name == "dubbo:service"@ ==> {
                &&& s.services.drop_last() == s0.services && s.services.len() == s0.services.len()
                    + 1
                &&& s.references == s0.references
                &&& v.interface == t.attrs["interface"@]
                &&& v.reference == attribute(t, "ref"@)
                &&& v.timeout == attribute(t, "timeout"@)
                &&& v.retries == attribute(t, "retries"@)
                &&& v.version == attribute(t, "version"@)
                &&& v.group == attribute(t, "group"@)
                &&& v.doc == prose_of(c)
            }
            &&& t.name == "dubbo:reference"@ ==> {
                &&& s.references.drop_last() == s0.references && s.references.len()
                    == s0.references.len() + 1
                &&& s.services == s0.services
                &&& r.interface == t.attrs["interface"@]
                &&& r.bean_id == attribute(t, "id"@)
                &&& r.doc == prose_of(c)
            }
            &&& t.name != "dubbo:service"@ && t.name != "dubbo:reference"@ ==> s == s0
                && dubbo_xml::read(e.push(ev)).pending_doc is None
        }),
{
    dubbo_words();
    let e = evs.push(XmlEventView::Comment(c));
    let ev = if empty {
        XmlEventView::Empty(t)
    } else {
        XmlEventView::Start(t)
    };
    dubbo_reads_next(evs, XmlEventView::Comment(c));
    dubbo_reads_next(e, ev);
    let s0 = dubbo_xml::read(evs).out;
    let s = dubbo_xml::read(e.push(ev)).out;
    if t.name == "dubbo:service"@ {
        assert(s.services.drop_last() =~= s0.services);
    }
    if t.name == "dubbo:reference"@ {
        assert(s.references.drop_last() =~= s0.references);
    }
}

/// A comment is used once: what is declared after a service, with no comment between, has
/// none.
pub proof fn comments_are_used_once(evs: Seq<XmlEventView>, t: XmlTagView, u: XmlTagView)
    requires
        t.attrs.dom().contains("interface"@) || (t.name != "dubbo:service"@ && t.name
            != "dubbo:reference"@),
        u.attrs.dom().contains("interface"@),
        u.name == "dubbo:service"@,
    ensures
        dubbo_xml::read(
            evs.push(XmlEventView::Empty(t)).push(XmlEventView::Empty(u)),
        ).out.services.last().doc is None,
{
    dubbo_words();
    dubbo_reads_next(evs, XmlEventView::Empty(t));
    dubbo_reads_next(evs.push(XmlEventView::Empty(t)), XmlEventView::Empty(u));
}

// ---------------------------------------------------------------------------
// Beans

proof fn spring_words()
    ensures
        "bean"@ != "property"@,
        "bean"@ != "context:component-scan"@,
        "property"@ != "context:component-scan"@,

{
    reveal_strlit("bean");
    reveal_strlit("property");
    reveal_strlit("context:component-scan");
    assert("bean"@.len() == 4 && "bean"@[0] == 'b');
    assert("property"@.len() == 8 && "property"@[0] == 'p');
    assert("context:component-scan"@.len() == 22 && "context:component-scan"@[0] == 'c');


}

proof fn spring_reads_next(evs: Seq<XmlEventView>, ev: XmlEventView)
    ensures
        spring::read(evs.push(ev)) == spring::step(spring::read(evs), ev),
{
    assert(evs.push(ev).drop_last() =~= evs);
}

/// A bean element declares one bean: under its id, else its name, with its class, its
/// properties by value and by reference, and the comment before it.
pub proof fn beans_are_declared(
    evs: Seq<XmlEventView>,
    c: Seq<char>,
    b: XmlTagView,
    p: XmlTagView,
    q: XmlTagView,
)
    requires
        spring::read(evs).cur is None,
        b.name == "bean"@ && p.name == "property"@ && q.name == "property"@,
        p.attrs.dom().contains("name"@) && p.attrs.dom().contains("value"@),
        q.attrs.dom().contains("name"@) && !q.attrs.dom().contains("value"@)
            && q.attrs.dom().contains("ref"@),
    ensures
        ({
            let s0 = spring::read(evs).out;
            let s = spring::read(
                evs.push(XmlEventView::Comment(c)).push(XmlEventView::Start(b)).push(
                    XmlEventView::Empty(p),
                ).push(XmlEventView::Empty(q)).push(XmlEventView::End("bean"@)),
            );
            let v = s.out.beans.last();
            &&& s.cur is None && s.pending_doc is None
            &&& s.out.beans.drop_last() == s0.beans && s.out.beans.len() == s0.beans.len() + 1
            &&& s.out.scan_packages == s0.scan_packages
            &&& attribute(b, "id"@) is Some ==> v.id == attribute(b, "id"@)
            &&& attribute(b, "id"@) is None ==> v.id == attribute(b, "name"@)
            &&& v.class == attribute(b, "class"@)
            &&& v.doc == prose_of(c)
            &&& v.props == Map::<Seq<char>, Seq<char>>::empty().insert(
                p.attrs["name"@],
                p.attrs["value"@],
            )
            &&& v.refs == Map::<Seq<char>, Seq<char>>::empty().insert(
                q.attrs["name"@],
                q.attrs["ref"@],
            )
        }),
{
    spring_words();
    let e1 = evs.push(XmlEventView::Comment(c));
    let e2 = e1.push(XmlEventView::Start(b));
    let e3 = e2.push(XmlEventView::Empty(p));
    let e4 = e3.push(XmlEventView::Empty(q));
    let e5 = e4.push(XmlEventView::End("bean"@));
    spring_reads_next(evs, XmlEventView::Comment(c));
    spring_reads_next(e1, XmlEventView::Start(b));
    spring_reads_next(e2, XmlEventView::Empty(p));
    spring_reads_next(e3, XmlEventView::Empty(q));
    spring_reads_next(e4, XmlEventView::End("bean"@));
    assert(spring::read(e5).out.beans.drop_last() =~= spring::read(evs).out.beans);
}

/// A scan element names a package; it ends what a comment tells.
pub proof fn scanned_packages_are_listed(evs: Seq<XmlEventView>, t: XmlTagView)
    requires
        t.name == "context:component-scan"@,
        t.attrs.dom().contains("base-package"@),
    ensures
        spring::read(evs.push(XmlEventView::Empty(t))).out.scan_packages == spring::read(
            evs,
        ).out.scan_packages.push(t.attrs["base-package"@]),
        spring::read(evs.push(XmlEventView::Empty(t))).out.beans == spring::read(evs).out.beans,
        spring::read(evs.push(XmlEventView::Empty(t))).pending_doc is None,
{
    spring_words();
    spring_reads_next(evs, XmlEventView::Empty(t));
}

/// The class that an id stands for is that of the last bean with the id.
pub proof fn ids_stand_for_the_last_bean(beans: Seq<SpringBeanView>, id: Seq<char>, i: int)
    ensures
        0 <= i < beans.len() && beans[i].id == Some(id) && (forall|j: int|
            i < j < beans.len() ==> (#[trigger] beans[j]).id != Some(id)) ==> spring::class_of(
            beans,
            id,
        ) == beans[i].class,
        (forall|j: int| 0 <= j < beans.len() ==> (#[trigger] beans[j]).id != Some(id))
            ==> spring::class_of(beans, id) is None,
{
    last_bean(beans, id, i, beans.len() as int);
}

proof fn last_bean(beans: Seq<SpringBeanView>, id: Seq<char>, i: int, n: int)
    requires
        0 <= n <= beans.len(),
    ensures
        0 <= i < n && beans[i].id == Some(id) && (forall|j: int|
            i < j < n ==> (#[trigger] beans[j]).id != Some(id)) ==> spring::bean_with_id(
            beans,
            id,
            n,
        ) == Some(beans[i]),
        (forall|j: int| 0 <= j < n ==> (#[trigger] beans[j]).id != Some(id))
            ==> spring::bean_with_id(beans, id, n) is None,
    decreases n,
{
    if n > 0 && beans[n - 1].id != Some(id) {
        last_bean(beans, id, i, n - 1);
    }
}

/// A consumer bean with a topic binds the classes of the beans it refers to; one that refers
/// to none and is itself a listener binds its own class. A bean without that topic binds
/// nothing to it.
pub proof fn consumers_bind_listeners(
    beans: Seq<SpringBeanView>,
    b: SpringBeanView,
    class: Seq<char>,
    topic: Seq<char>,
    k: Seq<char>,
)
    ensures
        b.props.dom().contains("topic"@) && b.props["topic"@] == topic && b.refs.dom().contains(k)
            && spring::class_of(beans, b.refs[k]) == Some(class) ==> spring::bean_binds(
            beans,
            b,
            (class, topic),
        ),
        b.props.dom().contains("topic"@) && b.props["topic"@] == topic && b.refs == Map::<
            Seq<char>,
            Seq<char>,
        >::empty() && b.class == Some(class) && appears(class, "Listener"@) ==> spring::bean_binds(
            beans,
            b,
            (class, topic),
        ),
        !b.props.dom().contains("topic"@) || b.props["topic"@] != topic ==> !spring::bean_binds(
            beans,
            b,
            (class, topic),
        ),
        b.class != Some(class) && (forall|x: Seq<char>| #[trigger]
            b.refs.dom().contains(x) ==> spring::class_of(beans, b.refs[x]) != Some(class))
            ==> !spring::bean_binds(beans, b, (class, topic)),
        b.class == Some(class) && b.refs == Map::<Seq<char>, Seq<char>>::empty() && !appears(
            class,
            "Listener"@,
        ) ==> !spring::bean_binds(beans, b, (class, topic)),
{
    searches_find_what_appears(class, "Listener"@);
    if spring::refers_to(beans, b.refs, class) {
        let x = choose|x: Seq<char>| #[trigger]
            b.refs.dom().contains(x) && spring::class_of(beans, b.refs[x]) == Some(class);
        assert(b.refs.dom().contains(x));
    }
}

} // verus!

//! XML and properties pass: the schema that mappers and annotations describe.
use crate::build::java_pass::JavaIndex;
use crate::extract::mybatis::{
    MapperFile, MapperFileView, ResultMapDef, ResultMappingView, Statement, StatementView,
};
use crate::json::{json_texts, texts};
use crate::lists::{flat, take_all, take_next};
use crate::split::{replace, replaced, words, words_of};
use crate::store::model::TableOp;
use crate::text::{contains_str, first_at, lowered, same, to_lower, trim, trimmed};
use crate::textmap::{in_order, map_of, map_of_at, TextMap};
use crate::util::{snake, to_snake};
use vstd::prelude::*;

verus! {

// ---------------------------------------------------------------------------
// Properties

/// Adds the entries of one file. Environment-specific files repeat keys: the first
/// writer wins.
pub fn merge_properties(merged: &mut TextMap<String>, parsed: &TextMap<String>)
    ensures
        final(merged).deep_view() == parsed.deep_view().union_prefer_right(
            old(merged).deep_view(),
        ),
{
    let ghost m0 = merged.deep_view();
    let ghost p = parsed.deep_view();
    let n: usize = parsed.len();
    let ghost l = parsed.list();
    let mut i: usize = 0;
    while i < n
        invariant
            i <= n,
            n == l.len(),
            l == parsed.list(),
            in_order(l),
            p == map_of(l),
            forall|k: Seq<char>| #[trigger]
                merged.deep_view().dom().contains(k) <==> m0.dom().contains(k)
                    || crate::textmap::has_key(l.take(i as int), k),
            forall|k: Seq<char>|
                merged.deep_view().dom().contains(k) ==> #[trigger] merged.deep_view()[k] == (
                if m0.dom().contains(k) {
                    m0[k]
                } else {
                    p[k]
                }),
        decreases n - i,
    {
        let ghost before = merged.deep_view();
        let key = parsed.key_at(i);
        if !merged.contains_key(key.as_str()) {
            merged.insert(key.clone(), parsed.value_at(i).clone());
        }
        proof {
            map_of_at(l, i as int);
            let t0 = l.take(i as int);
            let t1 = l.take(i + 1);
            assert forall|k: Seq<char>| crate::textmap::has_key(t1, k)
                <==> crate::textmap::has_key(t0, k) || k == l[i as int].0 by {
                if crate::textmap::has_key(t0, k) {
                    let j = choose|j: int| 0 <= j < t0.len() && (#[trigger] t0[j]).0 == k;
                    assert(t1[j].0 == k);
                }
                if crate::textmap::has_key(t1, k) {
                    let j = choose|j: int| 0 <= j < t1.len() && (#[trigger] t1[j]).0 == k;
                    if j < i {
                        assert(t0[j].0 == k);
                    }
                }
                assert(t1[i as int].0 == l[i as int].0);
            }
        }
        i += 1;
    }
    assert(l.take(i as int) =~= l);
    assert(merged.deep_view() =~= p.union_prefer_right(m0));
}

// ---------------------------------------------------------------------------
// Columns

/// The declared type and the Javadoc of a field.
#[derive(Debug)]
pub struct FieldDoc {
    pub java_type: String,
    pub doc: Option<String>,
}

/// The content of a [`FieldDoc`].
#[verifier::ext_equal]
pub struct FieldDocView {
    pub java_type: Seq<char>,
    pub doc: Option<Seq<char>>,
}

impl DeepView for FieldDoc {
    type V = FieldDocView;

    open spec fn deep_view(&self) -> FieldDocView {
        FieldDocView {
            java_type: self.java_type.deep_view(),
            doc: self.doc.deep_view(),
        }
    }
}

impl Clone for FieldDoc {
    fn clone(&self) -> (r: Self)
        ensures
            r.deep_view() == self.deep_view(),
    {
        FieldDoc {
            java_type: self.java_type.clone(),
            doc: self.doc.clone(),
        }
    }
}

/// A field as it is stored: its name, its signature and its Javadoc.
#[derive(Debug)]
pub struct FieldRow {
    pub name: String,
    pub signature: Option<String>,
    pub doc: Option<String>,
}

/// The content of a [`FieldRow`].
#[verifier::ext_equal]
pub struct FieldRowView {
    pub name: Seq<char>,
    pub signature: Option<Seq<char>>,
    pub doc: Option<Seq<char>>,
}

impl DeepView for FieldRow {
    type V = FieldRowView;

    open spec fn deep_view(&self) -> FieldRowView {
        FieldRowView {
            name: self.name.deep_view(),
            signature: self.signature.deep_view(),
            doc: self.doc.deep_view(),
        }
    }
}

impl Clone for FieldRow {
    fn clone(&self) -> (r: Self)
        ensures
            r.deep_view() == self.deep_view(),
    {
        FieldRow {
            name: self.name.clone(),
            signature: self.signature.clone(),
            doc: self.doc.clone(),
        }
    }
}

/// The first word of a signature is the declared type.
pub open spec fn declared_type(signature: Option<Seq<char>>) -> Seq<char> {
    match signature {
        Some(s) => if words_of(s).len() > 0 {
            words_of(s)[0]
        } else {
            Seq::empty()
        },
        None => Seq::empty(),
    }
}

pub open spec fn docs_of(rows: Seq<FieldRowView>) -> Map<Seq<char>, FieldDocView>
    decreases rows.len(),
{
    if rows.len() == 0 {
        Map::empty()
    } else {
        let before = docs_of(rows.drop_last());
        if rows.last().name == "serialVersionUID"@ {
            before
        } else {
            before.insert(
                rows.last().name,
                FieldDocView {
                    java_type: declared_type(rows.last().signature),
                    doc: rows.last().doc,
                },
            )
        }
    }
}

/// The `LIKE` pattern of the members of a type. `_` is a wildcard there; escaping it
/// keeps `My_Type` from matching `MyXType`.
pub fn members_pattern(type_fqn: &str) -> (r: String)
    ensures
        r@ == replaced(type_fqn@, '_', "\\_"@) + "#%"@,
{
    let mut s = replace(type_fqn, '_', "\\_");
    s.append("#%");
    s
}

/// Declared type and Javadoc for each persistent field of a PO class, from the rows
/// of its instance fields. `serialVersionUID` is no column.
///
/// `static final` members of a PO are status constants (`STATUS_NORMAL = 0`), not
/// columns, and admitting them invents database columns that do not exist — exactly
/// the kind of confident falsehood this knowledge base must not contain.
pub fn field_docs(rows: &Vec<FieldRow>) -> (r: TextMap<FieldDoc>)
    ensures
        r.deep_view() == docs_of(rows.deep_view()),
{
    let ghost d = rows.deep_view();
    let mut out: TextMap<FieldDoc> = TextMap::new();
    let mut i: usize = 0;
    while i < rows.len()
        invariant
            i <= rows.len(),
            d == rows.deep_view(),
            out.deep_view() == docs_of(d.take(i as int)),
        decreases rows.len() - i,
    {
        broadcast use take_next;

        let row = &rows[i];
        assert(d[i as int] == row.deep_view());
        assert(d.take(i + 1).last() == d[i as int]);
        if same(row.name.as_str(), "serialVersionUID") {
            i += 1;
            continue;
        }
        let java_type = match &row.signature {
            Some(s) => {
                let w = words(s.as_str());
                if w.len() > 0 {
                    assert(w.deep_view()[0] == w@[0]@);
                    w[0].clone()
                } else {
                    String::new()
                }
            },
            None => String::new(),
        };
        out.insert(row.name.clone(), FieldDoc { java_type, doc: row.doc.clone() });
        i += 1;
    }
    broadcast use take_all;

    assert(d.take(i as int) == d);
    out
}

/// A column of a table.
#[derive(Debug)]
pub struct ColumnRow {
    pub name: String,
    pub prop_name: String,
    pub java_type: Option<String>,
    pub doc: Option<String>,
    pub is_pk: bool,
}

/// The content of a [`ColumnRow`].
#[verifier::ext_equal]
pub struct ColumnRowView {
    pub name: Seq<char>,
    pub prop_name: Seq<char>,
    pub java_type: Option<Seq<char>>,
    pub doc: Option<Seq<char>>,
    pub is_pk: bool,
}

impl DeepView for ColumnRow {
    type V = ColumnRowView;

    open spec fn deep_view(&self) -> ColumnRowView {
        ColumnRowView {
            name: self.name.deep_view(),
            prop_name: self.prop_name.deep_view(),
            java_type: self.java_type.deep_view(),
            doc: self.doc.deep_view(),
            is_pk: self.is_pk,
        }
    }
}

impl Clone for ColumnRow {
    fn clone(&self) -> (r: Self)
        ensures
            r.deep_view() == self.deep_view(),
    {
        ColumnRow {
            name: self.name.clone(),
            prop_name: self.prop_name.clone(),
            java_type: self.java_type.clone(),
            doc: self.doc.clone(),
            is_pk: self.is_pk,
        }
    }
}

/// The column that a mapping describes. The PO's field docs are the only column
/// descriptions available.
pub open spec fn mapped_column(
    m: ResultMappingView,
    docs: Map<Seq<char>, FieldDocView>,
) -> ColumnRowView {
    ColumnRowView {
        name: m.column,
        prop_name: m.property,
        java_type: if docs.dom().contains(m.property) {
            Some(docs[m.property].java_type)
        } else {
            None
        },
        doc: if docs.dom().contains(m.property) {
            docs[m.property].doc
        } else {
            None
        },
        is_pk: m.is_pk,
    }
}

/// The columns that a result map describes.
pub fn result_map_columns(rm: &ResultMapDef, docs: &TextMap<FieldDoc>) -> (r: Vec<ColumnRow>)
    ensures
        r.deep_view() == rm.deep_view().mappings.map_values(
            |m: ResultMappingView| mapped_column(m, docs.deep_view()),
        ),
{
    let ghost dv = docs.deep_view();
    let ghost ms = rm.mappings.deep_view();
    let ghost want = ms.map_values(|m: ResultMappingView| mapped_column(m, dv));
    let mut out: Vec<ColumnRow> = Vec::new();
    let mut i: usize = 0;
    assert(out.deep_view() =~= want.take(0));
    while i < rm.mappings.len()
        invariant
            i <= rm.mappings.len(),
            dv == docs.deep_view(),
            ms == rm.mappings.deep_view(),
            want == ms.map_values(|m: ResultMappingView| mapped_column(m, dv)),
            out.deep_view() == want.take(i as int),
        decreases rm.mappings.len() - i,
    {
        let m = &rm.mappings[i];
        let ghost before = out.deep_view();
        assert(ms[i as int] == m.deep_view());
        let (java_type, doc) = match docs.get(m.property.as_str()) {
            Some(d) => (Some(d.java_type.clone()), d.doc.clone()),
            None => (None, None),
        };
        let row = ColumnRow {
            name: m.column.clone(),
            prop_name: m.property.clone(),
            java_type,
            doc,
            is_pk: m.is_pk,
        };
        let ghost x = row.deep_view();
        assert(x =~= want[i as int]);
        out.push(row);
        assert(out.deep_view() =~= before.push(x));
        i += 1;
        assert(want.take(i as int) =~= before.push(x));
    }
    assert(want.take(i as int) =~= want);
    out
}

/// The columns of an annotated entity: MyBatis-Plus maps camelCase to snake_case
/// unless told otherwise.
pub open spec fn entity_column(e: (Seq<char>, FieldDocView)) -> ColumnRowView {
    ColumnRowView {
        name: snake(e.0),
        prop_name: e.0,
        java_type: Some(e.1.java_type),
        doc: e.1.doc,
        is_pk: false,
    }
}

pub fn entity_columns(docs: &TextMap<FieldDoc>) -> (r: Vec<ColumnRow>)
    ensures
        r.deep_view() == docs.list().map_values(
            |e: (Seq<char>, FieldDocView)| entity_column(e),
        ),
{
    let ghost l = docs.list();
    let ghost want = l.map_values(|e: (Seq<char>, FieldDocView)| entity_column(e));
    let n: usize = docs.len();
    let mut out: Vec<ColumnRow> = Vec::new();
    let mut i: usize = 0;
    assert(out.deep_view() =~= want.take(0));
    while i < n
        invariant
            i <= n,
            n == l.len(),
            l == docs.list(),
            want == l.map_values(|e: (Seq<char>, FieldDocView)| entity_column(e)),
            out.deep_view() == want.take(i as int),
        decreases n - i,
    {
        let ghost before = out.deep_view();
        let field = docs.key_at(i);
        let d = docs.value_at(i);
        let row = ColumnRow {
            name: to_snake(field.as_str()),
            prop_name: field.clone(),
            java_type: Some(d.java_type.clone()),
            doc: d.doc.clone(),
            is_pk: false,
        };
        let ghost x = row.deep_view();
        assert(x =~= want[i as int]);
        out.push(row);
        assert(out.deep_view() =~= before.push(x));
        i += 1;
        assert(want.take(i as int) =~= before.push(x));
    }
    assert(want.take(i as int) =~= want);
    out
}

/// The table that a `@TableName` value names.
pub fn annotated_table(value: &str) -> (r: Option<String>)
    ensures
        r.deep_view() == (if trimmed(value@).len() == 0 {
            None
        } else {
            Some(lowered(trimmed(value@)))
        }),
{
    let t = trim(value);
    if t.is_empty() {
        None
    } else {
        Some(to_lower(t))
    }
}

/// The table that the value among an annotation's arguments names, where it has one.
pub open spec fn value_table(args: Map<Seq<char>, Seq<char>>) -> Option<Seq<char>> {
    if args.dom().contains("value"@) && trimmed(args["value"@]).len() > 0 {
        Some(lowered(trimmed(args["value"@])))
    } else {
        None
    }
}

/// The table that `@TableName` names, from its arguments.
pub fn table_of_args(args: &TextMap<String>) -> (r: Option<String>)
    ensures
        r.deep_view() == value_table(args.deep_view()),
{
    match args.get("value") {
        Some(v) => annotated_table(v.as_str()),
        None => None,
    }
}

/// The table that `@TableName` names, from the text of its arguments: an object of
/// strings, or there are none.
pub fn annotated_table_of(args_json: &str) -> (r: Option<String>)
    ensures
        r.deep_view() == value_table(json_texts(args_json@)),
{
    table_of_args(&texts(args_json))
}

// ---------------------------------------------------------------------------
// Mappers

/// Whether a text can be a mapper: only mapper files declare a namespace with
/// statements in them.
pub fn is_mapper_text(text: &str) -> (r: bool)
    ensures
        r == (first_at(text@, "<mapper"@) is Some),
{
    contains_str(text, "<mapper")
}

/// Whether a text can declare Dubbo services.
pub fn is_dubbo_text(text: &str) -> (r: bool)
    ensures
        r == (first_at(text@, "dubbo:service"@) is Some),
{
    contains_str(text, "dubbo:service")
}

/// Whether a text can wire Spring beans.
pub fn is_spring_text(text: &str) -> (r: bool)
    ensures
        r == (first_at(text@, "<bean"@) is Some),
{
    contains_str(text, "<bean")
}

/// An access to a table: the table, the DAO method it is attributed to, where that
/// is known, and the operation.
#[derive(Debug)]
pub struct AccessRow {
    pub table: String,
    pub symbol_id: Option<i64>,
    pub op: TableOp,
}

/// The content of a [`AccessRow`].
#[verifier::ext_equal]
pub struct AccessRowView {
    pub table: Seq<char>,
    pub symbol_id: Option<i64>,
    pub op: TableOp,
}

impl DeepView for AccessRow {
    type V = AccessRowView;

    open spec fn deep_view(&self) -> AccessRowView {
        AccessRowView {
            table: self.table.deep_view(),
            symbol_id: self.symbol_id.deep_view(),
            op: self.op,
        }
    }
}

impl Clone for AccessRow {
    fn clone(&self) -> (r: Self)
        ensures
            r.deep_view() == self.deep_view(),
    {
        AccessRow {
            table: self.table.clone(),
            symbol_id: self.symbol_id.clone(),
            op: self.op,
        }
    }
}

/// The DAO method that a statement implements.
pub open spec fn dao_method(
    namespace: Option<Seq<char>>,
    id: Seq<char>,
    methods: Map<Seq<char>, i64>,
) -> Option<i64> {
    match namespace {
        Some(ns) => if methods.dom().contains(ns + "#"@ + id) {
            Some(methods[ns + "#"@ + id])
        } else {
            None
        },
        None => None,
    }
}

/// The accesses of one statement.
pub open spec fn statement_rows(
    namespace: Option<Seq<char>>,
    s: StatementView,
    methods: Map<Seq<char>, i64>,
) -> Seq<AccessRowView> {
    s.tables.map_values(
        |t: (Seq<char>, TableOp)|
            AccessRowView {
                table: t.0,
                symbol_id: dao_method(namespace, s.id, methods),
                op: t.1,
            },
    )
}

/// The accesses of a mapper's statements.
pub open spec fn access_rows(m: MapperFileView, methods: Map<Seq<char>, i64>) -> Seq<
    AccessRowView,
> {
    flat(m.statements, |s: StatementView| statement_rows(m.namespace, s, methods))
}

fn add_statement_rows(
    namespace: &Option<String>,
    s: &Statement,
    java: &JavaIndex,
    out: &mut Vec<AccessRow>,
)
    ensures
        final(out).deep_view() == old(out).deep_view() + statement_rows(
            namespace.deep_view(),
            s.deep_view(),
            java.deep_view().methods,
        ),
{
    let ghost start = out.deep_view();
    let ghost ns = namespace.deep_view();
    let ghost v = s.deep_view();
    let ghost methods = java.deep_view().methods;
    let symbol_id: Option<i64> = match namespace {
        Some(n) => {
            let mut key = n.clone();
            key.append("#");
            key.append(s.id.as_str());
            match java.methods.get(key.as_str()) {
                Some(id) => Some(*id),
                None => None,
            }
        },
        None => None,
    };
    assert(symbol_id == dao_method(ns, v.id, methods));
    let ghost want = statement_rows(ns, v, methods);
    let mut i: usize = 0;
    assert(out.deep_view() =~= start + want.take(0));
    while i < s.tables.len()
        invariant
            i <= s.tables.len(),
            v == s.deep_view(),
            symbol_id == dao_method(ns, v.id, methods),
            want == statement_rows(ns, v, methods),
            out.deep_view() == start + want.take(i as int),
        decreases s.tables.len() - i,
    {
        let ghost before = out.deep_view();
        assert(v.tables[i as int] == (s.tables@[i as int].0@, s.tables@[i as int].1));
        let row = AccessRow { table: s.tables[i].0.clone(), symbol_id, op: s.tables[i].1 };
        let ghost x = row.deep_view();
        assert(x =~= want[i as int]);
        out.push(row);
        assert(out.deep_view() =~= before.push(x));
        i += 1;
        assert(start + want.take(i as int) =~= before.push(x));
    }
    assert(want.take(i as int) =~= want);
}

/// Statement-level access, attributed to the DAO method when we can find it: that is
/// what makes call-graph traces reach a table.
pub fn statement_access(m: &MapperFile, java: &JavaIndex) -> (r: Vec<AccessRow>)
    ensures
        r.deep_view() == access_rows(m.deep_view(), java.deep_view().methods),
{
    let ghost v = m.deep_view();
    let ghost methods = java.deep_view().methods;
    let ghost d = v.statements;
    let ghost f = |s: StatementView| statement_rows(v.namespace, s, methods);
    let mut out: Vec<AccessRow> = Vec::new();
    let mut i: usize = 0;
    assert(out.deep_view() =~= flat(d.take(0), f));
    while i < m.statements.len()
        invariant
            i <= m.statements.len(),
            v == m.deep_view(),
            d == v.statements,
            methods == java.deep_view().methods,
            f == (|s: StatementView| statement_rows(v.namespace, s, methods)),
            out.deep_view() == flat(d.take(i as int), f),
        decreases m.statements.len() - i,
    {
        broadcast use take_next;

        assert(d[i as int] == m.statements@[i as int].deep_view());
        assert(d.take(i + 1).last() == d[i as int]);
        assert(f(d[i as int]) == statement_rows(v.namespace, d[i as int], methods));
        add_statement_rows(&m.namespace, &m.statements[i], java, &mut out);
        i += 1;
    }
    broadcast use take_all;

    assert(d.take(i as int) == d);
    out
}

} // verus!


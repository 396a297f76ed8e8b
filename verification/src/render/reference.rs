//! Reference sheets: tables, entrypoints, jobs, MQ consumers.
//!
//! These are pure L0 projections, so they are available before any model has
//! been called — which is the point of the two-stage design. For a project with
//! no documentation, a correct table and entrypoint inventory is already the
//! single most useful artefact.
use crate::json::{items, json_items, json_member, json_text, member, text};
use crate::lists::{flat, keep, pick, take_all, take_next};
use crate::number::{decimal_i64, decimal_usize, digits, signed};
use crate::render::{cell, cell_of, given_or, summarize, summary_of, text_or};
use crate::split::{join, joined};
use crate::text::{
    contains_str, first_at, last_of, lowered, owned, rfind_char, rfind_to_is_last, same, to_lower,
};
use vstd::prelude::*;

verus! {

/// A column of a table.
#[derive(Debug)]
pub struct ColumnSheet {
    pub name: String,
    pub property: Option<String>,
    pub java_type: Option<String>,
    pub doc: Option<String>,
    pub is_pk: bool,
}

/// The content of a [`ColumnSheet`].
#[verifier::ext_equal]
pub struct ColumnSheetView {
    pub name: Seq<char>,
    pub property: Option<Seq<char>>,
    pub java_type: Option<Seq<char>>,
    pub doc: Option<Seq<char>>,
    pub is_pk: bool,
}

impl DeepView for ColumnSheet {
    type V = ColumnSheetView;

    open spec fn deep_view(&self) -> ColumnSheetView {
        ColumnSheetView {
            name: self.name.deep_view(),
            property: self.property.deep_view(),
            java_type: self.java_type.deep_view(),
            doc: self.doc.deep_view(),
            is_pk: self.is_pk,
        }
    }
}

impl Clone for ColumnSheet {
    fn clone(&self) -> (r: Self)
        ensures
            r.deep_view() == self.deep_view(),
    {
        ColumnSheet {
            name: self.name.clone(),
            property: self.property.clone(),
            java_type: self.java_type.clone(),
            doc: self.doc.clone(),
            is_pk: self.is_pk,
        }
    }
}

/// A table with its columns and how often it is accessed.
#[derive(Debug)]
pub struct TableSheet {
    pub name: String,
    pub source: String,
    pub domain: Option<String>,
    pub reads: i64,
    pub writes: i64,
    pub columns: Vec<ColumnSheet>,
}

/// The content of a [`TableSheet`].
#[verifier::ext_equal]
pub struct TableSheetView {
    pub name: Seq<char>,
    pub source: Seq<char>,
    pub domain: Option<Seq<char>>,
    pub reads: i64,
    pub writes: i64,
    pub columns: Seq<ColumnSheetView>,
}

impl DeepView for TableSheet {
    type V = TableSheetView;

    open spec fn deep_view(&self) -> TableSheetView {
        TableSheetView {
            name: self.name.deep_view(),
            source: self.source.deep_view(),
            domain: self.domain.deep_view(),
            reads: self.reads,
            writes: self.writes,
            columns: self.columns.deep_view(),
        }
    }
}

impl Clone for TableSheet {
    fn clone(&self) -> (r: Self)
        ensures
            r.deep_view() == self.deep_view(),
    {
        TableSheet {
            name: self.name.clone(),
            source: self.source.clone(),
            domain: self.domain.clone(),
            reads: self.reads,
            writes: self.writes,
            columns: self.columns.clone(),
        }
    }
}

/// An entrypoint.
#[derive(Debug)]
pub struct EntrySheet {
    pub addr: String,
    pub name: Option<String>,
    pub doc: Option<String>,
    pub domain: Option<String>,
    pub config_json: Option<String>,
}

/// The content of a [`EntrySheet`].
#[verifier::ext_equal]
pub struct EntrySheetView {
    pub addr: Seq<char>,
    pub name: Option<Seq<char>>,
    pub doc: Option<Seq<char>>,
    pub domain: Option<Seq<char>>,
    pub config_json: Option<Seq<char>>,
}

impl DeepView for EntrySheet {
    type V = EntrySheetView;

    open spec fn deep_view(&self) -> EntrySheetView {
        EntrySheetView {
            addr: self.addr.deep_view(),
            name: self.name.deep_view(),
            doc: self.doc.deep_view(),
            domain: self.domain.deep_view(),
            config_json: self.config_json.deep_view(),
        }
    }
}

impl Clone for EntrySheet {
    fn clone(&self) -> (r: Self)
        ensures
            r.deep_view() == self.deep_view(),
    {
        EntrySheet {
            addr: self.addr.clone(),
            name: self.name.clone(),
            doc: self.doc.clone(),
            domain: self.domain.clone(),
            config_json: self.config_json.clone(),
        }
    }
}

// ---------------------------------------------------------------------------
// Tables

pub open spec fn source_name(source: Seq<char>) -> Seq<char> {
    if source == "mybatis_result_map"@ {
        "resultMap"@
    } else if source == "mybatis_statement"@ {
        "SQL 语句"@
    } else if source == "mybatis_plus_annotation"@ {
        "@TableName"@
    } else {
        "—"@
    }
}

fn source_label(source: &str) -> (r: &'static str)
    ensures
        r@ == source_name(source@),
{
    if same(source, "mybatis_result_map") {
        "resultMap"
    } else if same(source, "mybatis_statement") {
        "SQL 语句"
    } else if same(source, "mybatis_plus_annotation") {
        "@TableName"
    } else {
        "—"
    }
}

/// GitHub-style heading anchor for a table name: lower case, with the underscores kept.
pub fn anchor(name: &str) -> (r: String)
    ensures
        r@ == lowered(name@),
{
    to_lower(name)
}

pub open spec fn table_row(t: TableSheetView) -> Seq<char> {
    "| [`"@
        + t.name
        + "`](#"@
        + lowered(t.name)
        + ") | "@
        + given_or(t.domain, "—"@)
        + " | "@
        + digits(t.columns.len() as nat)
        + " | "@
        + signed(t.reads as int)
        + " | "@
        + signed(t.writes as int)
        + " | "@
        + source_name(t.source)
        + " |\n"@
}

fn write_table_row(t: &TableSheet) -> (r: String)
    ensures
        r@ == table_row(t.deep_view()),
{
    let mut s = owned("| [`");
    s.append(t.name.as_str());
    s.append("`](#");
    s.append(anchor(t.name.as_str()).as_str());
    s.append(") | ");
    s.append(text_or(&t.domain, "—").as_str());
    s.append(" | ");
    s.append(decimal_usize(t.columns.len()).as_str());
    s.append(" | ");
    s.append(decimal_i64(t.reads).as_str());
    s.append(" | ");
    s.append(decimal_i64(t.writes).as_str());
    s.append(" | ");
    s.append(source_label(t.source.as_str()));
    s.append(" |\n");
    s
}


fn add_table_rows(s: &mut String, v: &Vec<TableSheet>)
    ensures
        final(s)@ == old(s)@ + flat(v.deep_view(), |x: TableSheetView| table_row(x)),
{
    let ghost start = s@;
    let ghost d = v.deep_view();
    let ghost f = |x: TableSheetView| table_row(x);
    let mut i: usize = 0;
    assert(start + flat(d.take(0), f) =~= start);
    while i < v.len()
        invariant
            i <= v.len(),
            d == v.deep_view(),
            f == (|x: TableSheetView| table_row(x)),
            s@ == start + flat(d.take(i as int), f),
        decreases v.len() - i,
    {
        broadcast use take_next;

        let ghost so_far = flat(d.take(i as int), f);
        assert(d[i as int] == v@[i as int].deep_view());
        assert(d.take(i + 1).last() == d[i as int]);
        let line = write_table_row(&v[i]);
        assert(f(d[i as int]) == line@);
        s.append(line.as_str());
        assert(start + (so_far + line@) =~= (start + so_far) + line@);
        i += 1;
    }
    broadcast use take_all;

    assert(d.take(i as int) == d);
}


pub open spec fn key_mark(is_pk: bool) -> Seq<char> {
    if is_pk {
        " 🔑"@
    } else {
        ""@
    }
}

fn mark_key(is_pk: bool) -> (r: &'static str)
    ensures
        r@ == key_mark(is_pk),
{
    if is_pk {
        " 🔑"
    } else {
        ""
    }
}

pub open spec fn column_row(c: ColumnSheetView) -> Seq<char> {
    "| `"@
        + c.name
        + "`"@
        + key_mark(c.is_pk)
        + " | "@
        + given_or(c.property, "—"@)
        + " | "@
        + cell_of(given_or(c.java_type, "—"@))
        + " | "@
        + summary_of(c.doc, 60)
        + " |\n"@
}

fn write_column_row(c: &ColumnSheet) -> (r: String)
    ensures
        r@ == column_row(c.deep_view()),
{
    let mut s = owned("| `");
    s.append(c.name.as_str());
    s.append("`");
    s.append(mark_key(c.is_pk));
    s.append(" | ");
    s.append(text_or(&c.property, "—").as_str());
    s.append(" | ");
    s.append(cell(text_or(&c.java_type, "—").as_str()).as_str());
    s.append(" | ");
    s.append(summarize(&c.doc, 60).as_str());
    s.append(" |\n");
    s
}


fn add_column_rows(s: &mut String, v: &Vec<ColumnSheet>)
    ensures
        final(s)@ == old(s)@ + flat(v.deep_view(), |x: ColumnSheetView| column_row(x)),
{
    let ghost start = s@;
    let ghost d = v.deep_view();
    let ghost f = |x: ColumnSheetView| column_row(x);
    let mut i: usize = 0;
    assert(start + flat(d.take(0), f) =~= start);
    while i < v.len()
        invariant
            i <= v.len(),
            d == v.deep_view(),
            f == (|x: ColumnSheetView| column_row(x)),
            s@ == start + flat(d.take(i as int), f),
        decreases v.len() - i,
    {
        broadcast use take_next;

        let ghost so_far = flat(d.take(i as int), f);
        assert(d[i as int] == v@[i as int].deep_view());
        assert(d.take(i + 1).last() == d[i as int]);
        let line = write_column_row(&v[i]);
        assert(f(d[i as int]) == line@);
        s.append(line.as_str());
        assert(start + (so_far + line@) =~= (start + so_far) + line@);
        i += 1;
    }
    broadcast use take_all;

    assert(d.take(i as int) == d);
}


/// The columns of a table; nothing for a table whose columns are not known.
pub open spec fn detail_text(t: TableSheetView) -> Seq<char> {
    if t.columns.len() == 0 {
        Seq::empty()
    } else {
        "### `"@ + t.name + "`\n\n| 字段 | Java 属性 | 类型 | 说明 |\n|---|---|---|---|\n"@ + flat(
            t.columns,
            |x: ColumnSheetView| column_row(x),
        ) + "\n"@
    }
}

fn write_detail(t: &TableSheet) -> (r: String)
    ensures
        r@ == detail_text(t.deep_view()),
{
    if t.columns.len() == 0 {
        let e = String::new();
        assert(e@ =~= Seq::empty());
        return e;
    }
    let mut s = owned("### `");
    s.append(t.name.as_str());
    s.append("`\n\n| 字段 | Java 属性 | 类型 | 说明 |\n|---|---|---|---|\n");
    add_column_rows(&mut s, &t.columns);
    s.append("\n");
    s
}

fn add_details(s: &mut String, v: &Vec<TableSheet>)
    ensures
        final(s)@ == old(s)@ + flat(v.deep_view(), |x: TableSheetView| detail_text(x)),
{
    let ghost start = s@;
    let ghost d = v.deep_view();
    let ghost f = |x: TableSheetView| detail_text(x);
    let mut i: usize = 0;
    assert(start + flat(d.take(0), f) =~= start);
    while i < v.len()
        invariant
            i <= v.len(),
            d == v.deep_view(),
            f == (|x: TableSheetView| detail_text(x)),
            s@ == start + flat(d.take(i as int), f),
        decreases v.len() - i,
    {
        broadcast use take_next;

        let ghost so_far = flat(d.take(i as int), f);
        assert(d[i as int] == v@[i as int].deep_view());
        assert(d.take(i + 1).last() == d[i as int]);
        let line = write_detail(&v[i]);
        assert(f(d[i as int]) == line@);
        s.append(line.as_str());
        assert(start + (so_far + line@) =~= (start + so_far) + line@);
        i += 1;
    }
    broadcast use take_all;

    assert(d.take(i as int) == d);
}


pub const TABLES_INTRO: &'static str = "# 数据表清单\n\n表结构来自 mapper XML 的 `resultMap` 与 `@TableName` 注解反推——项目中没有 DDL 文件，这是唯一可得的结构描述。字段含义取自对应 PO 的字段注释。\n\n共 ";

pub open spec fn tables_text(rows: Seq<TableSheetView>) -> Seq<char> {
    TABLES_INTRO@ + digits(rows.len())
        + " 张表。\n\n| 表名 | 所属领域 | 字段数 | 读 | 写 | 来源 |\n|---|---|---|---|---|---|\n"@ + flat(
        rows,
        |x: TableSheetView| table_row(x),
    ) + "\n## 字段明细\n\n"@ + flat(rows, |x: TableSheetView| detail_text(x))
}

/// The table inventory.
pub fn tables(rows: &Vec<TableSheet>) -> (r: String)
    ensures
        r@ == tables_text(rows.deep_view()),
{
    let mut s = owned(TABLES_INTRO);
    s.append(decimal_usize(rows.len()).as_str());
    s.append(" 张表。\n\n| 表名 | 所属领域 | 字段数 | 读 | 写 | 来源 |\n|---|---|---|---|---|---|\n");
    add_table_rows(&mut s, rows);
    s.append("\n## 字段明细\n\n");
    add_details(&mut s, rows);
    s
}

// ---------------------------------------------------------------------------
// Entrypoints

/// A field of a configuration, given its JSON: a string as it is, null as nothing, and
/// anything else as it is written.
pub open spec fn field_shown(raw: Option<Seq<char>>, text: Option<Seq<char>>) -> Option<Seq<char>> {
    match (raw, text) {
        (Some(_), Some(t)) => Some(t),
        (Some(r), None) => if r == "null"@ {
            None
        } else {
            Some(r)
        },
        (None, _) => None,
    }
}

pub open spec fn field_of(json: Option<Seq<char>>, key: Seq<char>) -> Option<Seq<char>> {
    match json {
        Some(j) => {
            let raw = json_member(j, key);
            field_shown(
                raw,
                match raw {
                    Some(r) => json_text(r),
                    None => None,
                },
            )
        },
        None => None,
    }
}

fn json_field(json: &Option<String>, key: &str) -> (r: Option<String>)
    ensures
        r.deep_view() == field_of(json.deep_view(), key@),
{
    match json {
        Some(j) => match member(j.as_str(), key) {
            Some(raw) => match text(raw.as_str()) {
                Some(t) => Some(t),
                None => if same(raw.as_str(), "null") {
                    None
                } else {
                    Some(raw)
                },
            },
            None => None,
        },
        None => None,
    }
}

/// The strings in a list of a configuration.
pub open spec fn array_of(json: Option<Seq<char>>, key: Seq<char>) -> Seq<Seq<char>> {
    match json {
        Some(j) => match json_member(j, key) {
            Some(raw) => match json_items(raw) {
                Some(v) => pick(v, |x: Seq<char>| json_text(x)),
                None => Seq::empty(),
            },
            None => Seq::empty(),
        },
        None => Seq::empty(),
    }
}

fn json_array(json: &Option<String>, key: &str) -> (r: Vec<String>)
    ensures
        r.deep_view() == array_of(json.deep_view(), key@),
{
    let mut out: Vec<String> = Vec::new();
    assert(out.deep_view() =~= Seq::<Seq<char>>::empty());
    match json {
        Some(j) => match member(j.as_str(), key) {
            Some(raw) => match items(raw.as_str()) {
                Some(v) => {
                    let ghost d = v.deep_view();
                    let ghost f = |x: Seq<char>| json_text(x);
                    let mut i: usize = 0;
                    assert(out.deep_view() =~= pick(d.take(0), f));
                    while i < v.len()
                        invariant
                            i <= v.len(),
                            d == v.deep_view(),
                            f == (|x: Seq<char>| json_text(x)),
                            out.deep_view() == pick(d.take(i as int), f),
                        decreases v.len() - i,
                    {
                        broadcast use take_next;

                        let ghost before = out.deep_view();
                        assert(d[i as int] == v@[i as int]@);
                        assert(d.take(i + 1).last() == d[i as int]);
                        assert(f(d[i as int]) == json_text(d[i as int]));
                        match text(v[i].as_str()) {
                            Some(t) => {
                                let ghost x = t@;
                                out.push(t);
                                assert(out.deep_view() =~= before.push(x));
                            },
                            None => {},
                        }
                        i += 1;
                    }
                    broadcast use take_all;

                    assert(d.take(i as int) == d);
                },
                None => {},
            },
            None => {},
        },
        None => {},
    }
    out
}

/// What stands after the last dot but one, or all of `fqn` where it has fewer dots.
pub open spec fn last_two_segments(fqn: Seq<char>) -> Seq<char> {
    match last_of(fqn, '.') {
        Some(last) => match last_of(fqn.take(last), '.') {
            Some(before) => fqn.skip(before + 1),
            None => fqn,
        },
        None => fqn,
    }
}

/// Last two dotted segments, enough to identify a type without the namespace.
pub fn short_fqn<'a>(fqn: &'a str) -> (r: &'a str)
    ensures
        r@ == last_two_segments(fqn@),
{
    match rfind_char(fqn, '.') {
        Some(last) => {
            let head = fqn.substring_char(0, last);
            assert(head@ =~= fqn@.take(last as int));
            match rfind_char(head, '.') {
                Some(i) => {
                    let n: usize = fqn.unicode_len();
                    let short = fqn.substring_char(i + 1, n);
                    assert(short@ =~= fqn@.skip(i + 1));
                    short
                },
                None => fqn,
            }
        },
        None => fqn,
    }
}

/// However long the namespace, the last two segments are what is shown.
pub proof fn namespace_is_cut(namespace: Seq<char>, a: Seq<char>, b: Seq<char>)
    requires
        !a.contains('.'),
        !b.contains('.'),
    ensures
        last_two_segments(namespace + "."@ + a + "."@ + b) == a + "."@ + b,
        last_two_segments(a + "."@ + b) == a + "."@ + b,
        last_two_segments(b) == b,
{
    reveal_strlit(".");
    let short = a + "."@ + b;
    let long = namespace + "."@ + a + "."@ + b;
    let n = namespace.len() as int;
    let m = a.len() as int;
    assert forall|k: int| 0 <= k < a.len() implies a[k] != '.' by {
        assert(a.contains(a[k]));
    }
    assert forall|k: int| 0 <= k < b.len() implies b[k] != '.' by {
        assert(b.contains(b[k]));
    }
    rfind_to_is_last(b, '.', b.len() as int);
    rfind_to_is_last(short, '.', short.len() as int);
    assert(short[m] == '.');
    assert(last_of(short, '.') == Some(m));
    assert(short.take(m) =~= a);
    rfind_to_is_last(a, '.', m);
    rfind_to_is_last(long, '.', long.len() as int);
    assert(long[n + 1 + m] == '.');
    assert(last_of(long, '.') == Some(n + 1 + m));
    let head = long.take(n + 1 + m);
    assert(head[n] == '.');
    rfind_to_is_last(head, '.', n + 1 + m);
    assert(last_of(head, '.') == Some(n));
    assert(long.skip(n + 1) =~= short);
}

/// The line of a Dubbo interface, given its timeout.
pub open spec fn service_text(e: EntrySheetView, timeout: Option<Seq<char>>) -> Seq<char> {
    "| `"@
        + cell_of(e.addr)
        + "` | "@
        + given_or(e.domain, "—"@)
        + " | "@
        + given_or(timeout, "—"@)
        + " | "@
        + summary_of(e.doc, 70)
        + " |\n"@
}

/// The line of a Dubbo interface, given its timeout.
pub fn service_row(e: &EntrySheet, timeout: &Option<String>) -> (r: String)
    ensures
        r@ == service_text(e.deep_view(), timeout.deep_view()),
{
    let mut s = owned("| `");
    s.append(cell(e.addr.as_str()).as_str());
    s.append("` | ");
    s.append(text_or(&e.domain, "—").as_str());
    s.append(" | ");
    s.append(text_or(timeout, "—").as_str());
    s.append(" | ");
    s.append(summarize(&e.doc, 70).as_str());
    s.append(" |\n");
    s
}


fn add_services(s: &mut String, v: &Vec<EntrySheet>)
    ensures
        final(s)@ == old(s)@ + flat(v.deep_view(), |x: EntrySheetView| service_text(x, field_of(x.config_json, "timeout"@))),
{
    let ghost start = s@;
    let ghost d = v.deep_view();
    let ghost f = |x: EntrySheetView| service_text(x, field_of(x.config_json, "timeout"@));
    let mut i: usize = 0;
    assert(start + flat(d.take(0), f) =~= start);
    while i < v.len()
        invariant
            i <= v.len(),
            d == v.deep_view(),
            f == (|x: EntrySheetView| service_text(x, field_of(x.config_json, "timeout"@))),
            s@ == start + flat(d.take(i as int), f),
        decreases v.len() - i,
    {
        broadcast use take_next;

        let ghost so_far = flat(d.take(i as int), f);
        assert(d[i as int] == v@[i as int].deep_view());
        assert(d.take(i + 1).last() == d[i as int]);
        let line = service_row(&v[i], &json_field(&v[i].config_json, "timeout"));
        assert(f(d[i as int]) == line@);
        s.append(line.as_str());
        assert(start + (so_far + line@) =~= (start + so_far) + line@);
        i += 1;
    }
    broadcast use take_all;

    assert(d.take(i as int) == d);
}


pub open spec fn guards_text(guards: Seq<Seq<char>>) -> Seq<char> {
    if guards.len() == 0 {
        "—"@
    } else {
        cell_of(joined(guards, ", "@))
    }
}

fn write_guards(guards: &Vec<String>) -> (r: String)
    ensures
        r@ == guards_text(guards.deep_view()),
{
    if guards.len() == 0 {
        owned("—")
    } else {
        cell(join(guards, ", ").as_str())
    }
}

pub open spec fn handler_text(name: Option<Seq<char>>) -> Seq<char> {
    cell_of(last_two_segments(given_or(name, ""@)))
}

fn write_handler(name: &Option<String>) -> (r: String)
    ensures
        r@ == handler_text(name.deep_view()),
{
    let n = text_or(name, "");
    cell(short_fqn(n.as_str()))
}

/// The line of an HTTP route, given its guards.
pub open spec fn route_text(e: EntrySheetView, guards: Seq<Seq<char>>) -> Seq<char> {
    "| `"@
        + cell_of(e.addr)
        + "` | "@
        + given_or(e.domain, "—"@)
        + " | "@
        + guards_text(guards)
        + " | `"@
        + handler_text(e.name)
        + "` | "@
        + summary_of(e.doc, 50)
        + " |\n"@
}

/// The line of an HTTP route, given its guards.
pub fn route_row(e: &EntrySheet, guards: &Vec<String>) -> (r: String)
    ensures
        r@ == route_text(e.deep_view(), guards.deep_view()),
{
    let mut s = owned("| `");
    s.append(cell(e.addr.as_str()).as_str());
    s.append("` | ");
    s.append(text_or(&e.domain, "—").as_str());
    s.append(" | ");
    s.append(write_guards(guards).as_str());
    s.append(" | `");
    s.append(write_handler(&e.name).as_str());
    s.append("` | ");
    s.append(summarize(&e.doc, 50).as_str());
    s.append(" |\n");
    s
}


fn add_routes(s: &mut String, v: &Vec<EntrySheet>)
    ensures
        final(s)@ == old(s)@ + flat(v.deep_view(), |x: EntrySheetView| route_text(x, array_of(x.config_json, "guards"@))),
{
    let ghost start = s@;
    let ghost d = v.deep_view();
    let ghost f = |x: EntrySheetView| route_text(x, array_of(x.config_json, "guards"@));
    let mut i: usize = 0;
    assert(start + flat(d.take(0), f) =~= start);
    while i < v.len()
        invariant
            i <= v.len(),
            d == v.deep_view(),
            f == (|x: EntrySheetView| route_text(x, array_of(x.config_json, "guards"@))),
            s@ == start + flat(d.take(i as int), f),
        decreases v.len() - i,
    {
        broadcast use take_next;

        let ghost so_far = flat(d.take(i as int), f);
        assert(d[i as int] == v@[i as int].deep_view());
        assert(d.take(i + 1).last() == d[i as int]);
        let line = route_row(&v[i], &json_array(&v[i].config_json, "guards"));
        assert(f(d[i as int]) == line@);
        s.append(line.as_str());
        assert(start + (so_far + line@) =~= (start + so_far) + line@);
        i += 1;
    }
    broadcast use take_all;

    assert(d.take(i as int) == d);
}


pub const ENTRIES_INTRO: &'static str = "# 入口清单\n\n系统可被外部触达的全部入口。Dubbo 接口取自 `<dubbo:service>` 声明，HTTP 路由取自 Spring MVC 注解，两者都包含那些看起来无人调用的入口——老项目里「看起来没用」和「真的没用」是两件事。\n\n";

pub open spec fn entrypoints_text(services: Seq<EntrySheetView>, routes: Seq<EntrySheetView>) -> Seq<
    char,
> {
    ENTRIES_INTRO@ + "## Dubbo 接口（"@ + digits(services.len())
        + "）\n\n| 接口 | 领域 | 超时 | 说明 |\n|---|---|---|---|\n"@ + flat(
        services,
        |x: EntrySheetView| service_text(x, field_of(x.config_json, "timeout"@)),
    ) + "\n"@ + "## HTTP 路由（"@ + digits(routes.len())
        + "）\n\n| 路由 | 领域 | 权限 | 处理方法 | 说明 |\n|---|---|---|---|---|\n"@ + flat(
        routes,
        |x: EntrySheetView| route_text(x, array_of(x.config_json, "guards"@)),
    ) + "\n"@
}

/// The inventory of Dubbo interfaces and HTTP routes.
pub fn entrypoints(services: &Vec<EntrySheet>, routes: &Vec<EntrySheet>) -> (r: String)
    ensures
        r@ == entrypoints_text(services.deep_view(), routes.deep_view()),
{
    let mut s = owned(ENTRIES_INTRO);
    s.append("## Dubbo 接口（");
    s.append(decimal_usize(services.len()).as_str());
    s.append("）\n\n| 接口 | 领域 | 超时 | 说明 |\n|---|---|---|---|\n");
    add_services(&mut s, services);
    s.append("\n");
    s.append("## HTTP 路由（");
    s.append(decimal_usize(routes.len()).as_str());
    s.append("）\n\n| 路由 | 领域 | 权限 | 处理方法 | 说明 |\n|---|---|---|---|---|\n");
    add_routes(&mut s, routes);
    s.append("\n");
    s
}

// ---------------------------------------------------------------------------
// Jobs and messages

pub open spec fn job_line(e: EntrySheetView) -> Seq<char> {
    "| `"@
        + cell_of(e.addr)
        + "` | "@
        + given_or(e.domain, "—"@)
        + " | `"@
        + handler_text(e.name)
        + "` | "@
        + summary_of(e.doc, 70)
        + " |\n"@
}

fn write_job(e: &EntrySheet) -> (r: String)
    ensures
        r@ == job_line(e.deep_view()),
{
    let mut s = owned("| `");
    s.append(cell(e.addr.as_str()).as_str());
    s.append("` | ");
    s.append(text_or(&e.domain, "—").as_str());
    s.append(" | `");
    s.append(write_handler(&e.name).as_str());
    s.append("` | ");
    s.append(summarize(&e.doc, 70).as_str());
    s.append(" |\n");
    s
}


fn add_jobs(s: &mut String, v: &Vec<EntrySheet>)
    ensures
        final(s)@ == old(s)@ + flat(v.deep_view(), |x: EntrySheetView| job_line(x)),
{
    let ghost start = s@;
    let ghost d = v.deep_view();
    let ghost f = |x: EntrySheetView| job_line(x);
    let mut i: usize = 0;
    assert(start + flat(d.take(0), f) =~= start);
    while i < v.len()
        invariant
            i <= v.len(),
            d == v.deep_view(),
            f == (|x: EntrySheetView| job_line(x)),
            s@ == start + flat(d.take(i as int), f),
        decreases v.len() - i,
    {
        broadcast use take_next;

        let ghost so_far = flat(d.take(i as int), f);
        assert(d[i as int] == v@[i as int].deep_view());
        assert(d.take(i + 1).last() == d[i as int]);
        let line = write_job(&v[i]);
        assert(f(d[i as int]) == line@);
        s.append(line.as_str());
        assert(start + (so_far + line@) =~= (start + so_far) + line@);
        i += 1;
    }
    broadcast use take_all;

    assert(d.take(i as int) == d);
}


pub const JOBS_INTRO: &'static str = "# 定时任务\n\n调度由 XXL-Job 触发。注意：部分老任务没有 `@XxlJob` 注解，而是以 Dubbo 接口形式暴露给调度器，因此这里同时列出两类。\n\n共 ";

pub open spec fn jobs_text(rows: Seq<EntrySheetView>) -> Seq<char> {
    JOBS_INTRO@ + digits(rows.len())
        + " 个。\n\n| 任务 | 领域 | 实现 | 说明 |\n|---|---|---|---|\n"@ + flat(
        rows,
        |x: EntrySheetView| job_line(x),
    )
}

/// The inventory of scheduled jobs.
pub fn jobs(rows: &Vec<EntrySheet>) -> (r: String)
    ensures
        r@ == jobs_text(rows.deep_view()),
{
    let mut s = owned(JOBS_INTRO);
    s.append(decimal_usize(rows.len()).as_str());
    s.append(" 个。\n\n| 任务 | 领域 | 实现 | 说明 |\n|---|---|---|---|\n");
    add_jobs(&mut s, rows);
    s
}

pub open spec fn consumer_line(e: EntrySheetView) -> Seq<char> {
    "| `"@
        + cell_of(e.addr)
        + "` | "@
        + given_or(e.domain, "—"@)
        + " | `"@
        + handler_text(e.name)
        + "` | "@
        + summary_of(e.doc, 60)
        + " |\n"@
}

fn write_consumer(e: &EntrySheet) -> (r: String)
    ensures
        r@ == consumer_line(e.deep_view()),
{
    let mut s = owned("| `");
    s.append(cell(e.addr.as_str()).as_str());
    s.append("` | ");
    s.append(text_or(&e.domain, "—").as_str());
    s.append(" | `");
    s.append(write_handler(&e.name).as_str());
    s.append("` | ");
    s.append(summarize(&e.doc, 60).as_str());
    s.append(" |\n");
    s
}


fn add_consumers(s: &mut String, v: &Vec<EntrySheet>)
    ensures
        final(s)@ == old(s)@ + flat(v.deep_view(), |x: EntrySheetView| consumer_line(x)),
{
    let ghost start = s@;
    let ghost d = v.deep_view();
    let ghost f = |x: EntrySheetView| consumer_line(x);
    let mut i: usize = 0;
    assert(start + flat(d.take(0), f) =~= start);
    while i < v.len()
        invariant
            i <= v.len(),
            d == v.deep_view(),
            f == (|x: EntrySheetView| consumer_line(x)),
            s@ == start + flat(d.take(i as int), f),
        decreases v.len() - i,
    {
        broadcast use take_next;

        let ghost so_far = flat(d.take(i as int), f);
        assert(d[i as int] == v@[i as int].deep_view());
        assert(d.take(i + 1).last() == d[i as int]);
        let line = write_consumer(&v[i]);
        assert(f(d[i as int]) == line@);
        s.append(line.as_str());
        assert(start + (so_far + line@) =~= (start + so_far) + line@);
        i += 1;
    }
    broadcast use take_all;

    assert(d.take(i as int) == d);
}


/// The consumers whose topic is still a placeholder.
pub open spec fn unresolved(rows: Seq<EntrySheetView>) -> Seq<EntrySheetView> {
    keep(rows, |e: EntrySheetView| first_at(e.addr, "${"@) is Some)
}

fn count_unresolved(rows: &Vec<EntrySheet>) -> (r: usize)
    ensures
        r == unresolved(rows.deep_view()).len(),
{
    let ghost d = rows.deep_view();
    let ghost f = |e: EntrySheetView| first_at(e.addr, "${"@) is Some;
    let mut n: usize = 0;
    let mut i: usize = 0;
    while i < rows.len()
        invariant
            i <= rows.len(),
            n <= i,
            d == rows.deep_view(),
            f == (|e: EntrySheetView| first_at(e.addr, "${"@) is Some),
            n == keep(d.take(i as int), f).len(),
        decreases rows.len() - i,
    {
        broadcast use take_next;

        assert(d[i as int] == rows@[i as int].deep_view());
        assert(d.take(i + 1).last() == d[i as int]);
        if contains_str(rows[i].addr.as_str(), "${") {
            assert(f(d[i as int]));
            n += 1;
        } else {
            assert(!f(d[i as int]));
        }
        i += 1;
    }
    broadcast use take_all;

    assert(d.take(i as int) == d);
    n
}

/// A word on the topics that the repository does not give.
pub open spec fn placeholder_note(n: nat) -> Seq<char> {
    if n > 0 {
        "> 其中 "@ + digits(n)
            + " 个 topic 仍显示为 `${占位符}`：这些值定义在外部配置中心，仓库里没有对应的 properties 文件，需要到配置中心查实际 topic。\n\n"@
    } else {
        Seq::empty()
    }
}

fn write_placeholder_note(n: usize) -> (r: String)
    ensures
        r@ == placeholder_note(n as nat),
{
    if n == 0 {
        let e = String::new();
        assert(e@ =~= Seq::empty());
        return e;
    }
    let mut s = owned("> 其中 ");
    s.append(decimal_usize(n).as_str());
    s.append(" 个 topic 仍显示为 `${占位符}`：这些值定义在外部配置中心，仓库里没有对应的 properties 文件，需要到配置中心查实际 topic。\n\n");
    s
}

pub open spec fn mq_text(rows: Seq<EntrySheetView>) -> Seq<char> {
    "# 消息消费\n\n共 "@ + digits(rows.len()) + " 个消费者。\n\n"@ + placeholder_note(
        unresolved(rows).len(),
    ) + "| Topic | 领域 | 监听器 | 说明 |\n|---|---|---|---|\n"@ + flat(
        rows,
        |x: EntrySheetView| consumer_line(x),
    )
}

/// The inventory of message consumers.
pub fn mq(rows: &Vec<EntrySheet>) -> (r: String)
    ensures
        r@ == mq_text(rows.deep_view()),
{
    let mut s = owned("# 消息消费\n\n共 ");
    s.append(decimal_usize(rows.len()).as_str());
    s.append(" 个消费者。\n\n");
    s.append(write_placeholder_note(count_unresolved(rows)).as_str());
    s.append("| Topic | 领域 | 监听器 | 说明 |\n|---|---|---|---|\n");
    add_consumers(&mut s, rows);
    s
}

} // verus!


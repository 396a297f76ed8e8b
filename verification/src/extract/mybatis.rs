//! MyBatis mapper XML extraction.
//!
//! In the legacy projects we target there is no DDL anywhere, so mapper XML is
//! the only description of the schema. Two things come out of each file:
//!   * `<resultMap>` gives column ↔ Java property pairs — the closest thing to a
//!     column dictionary that exists.
//!   * statement bodies give (table, operation) pairs attributed to the DAO
//!     method named by the statement id.
use crate::extract::sql::{tables_in, tables_with_ops};
use crate::extract::xmlutil::{
    attr, attr_of, document, events, local, XmlEvent, XmlEventView, XmlTag, XmlTagView,
};
use crate::lists::{flat, first_where, keep, take_all, take_next};
use crate::split::{after_last, tail_of};
use crate::store::model::TableOp;
use crate::text::{lowered, owned, same, to_lower};
use crate::textmap::TextMap;
use vstd::prelude::*;

verus! {

#[derive(Debug)]
pub struct ResultMapping {
    pub column: String,
    pub property: String,
    pub is_pk: bool,
}

/// The content of a [`ResultMapping`].
#[verifier::ext_equal]
pub struct ResultMappingView {
    pub column: Seq<char>,
    pub property: Seq<char>,
    pub is_pk: bool,
}

impl DeepView for ResultMapping {
    type V = ResultMappingView;

    open spec fn deep_view(&self) -> ResultMappingView {
        ResultMappingView {
            column: self.column.deep_view(),
            property: self.property.deep_view(),
            is_pk: self.is_pk,
        }
    }
}

impl Clone for ResultMapping {
    fn clone(&self) -> (r: Self)
        ensures
            r.deep_view() == self.deep_view(),
    {
        ResultMapping {
            column: self.column.clone(),
            property: self.property.clone(),
            is_pk: self.is_pk,
        }
    }
}

#[derive(Debug)]
pub struct ResultMapDef {
    pub id: String,
    /// The PO/entity class this result map targets.
    pub type_fqn: Option<String>,
    pub mappings: Vec<ResultMapping>,
}

/// The content of a [`ResultMapDef`].
#[verifier::ext_equal]
pub struct ResultMapDefView {
    pub id: Seq<char>,
    pub type_fqn: Option<Seq<char>>,
    pub mappings: Seq<ResultMappingView>,
}

impl DeepView for ResultMapDef {
    type V = ResultMapDefView;

    open spec fn deep_view(&self) -> ResultMapDefView {
        ResultMapDefView {
            id: self.id.deep_view(),
            type_fqn: self.type_fqn.deep_view(),
            mappings: self.mappings.deep_view(),
        }
    }
}

impl Clone for ResultMapDef {
    fn clone(&self) -> (r: Self)
        ensures
            r.deep_view() == self.deep_view(),
    {
        ResultMapDef {
            id: self.id.clone(),
            type_fqn: self.type_fqn.clone(),
            mappings: self.mappings.clone(),
        }
    }
}

#[derive(Debug)]
pub struct Statement {
    pub id: String,
    /// select / insert / update / delete as written in the XML tag.
    pub tag: String,
    pub result_map: Option<String>,
    pub result_type: Option<String>,
    pub tables: Vec<(String, TableOp)>,
}

/// The content of a [`Statement`].
#[verifier::ext_equal]
pub struct StatementView {
    pub id: Seq<char>,
    pub tag: Seq<char>,
    pub result_map: Option<Seq<char>>,
    pub result_type: Option<Seq<char>>,
    pub tables: Seq<(Seq<char>, TableOp)>,
}

impl DeepView for Statement {
    type V = StatementView;

    open spec fn deep_view(&self) -> StatementView {
        StatementView {
            id: self.id.deep_view(),
            tag: self.tag.deep_view(),
            result_map: self.result_map.deep_view(),
            result_type: self.result_type.deep_view(),
            tables: self.tables.deep_view(),
        }
    }
}

pub struct MapperFile {
    /// The DAO interface FQN this mapper implements.
    pub namespace: Option<String>,
    pub result_maps: Vec<ResultMapDef>,
    pub statements: Vec<Statement>,
    /// Reusable `<sql id="...">` fragments, already inlined where referenced.
    pub fragments: TextMap<String>,
}

/// The content of a [`MapperFile`].
#[verifier::ext_equal]
pub struct MapperFileView {
    pub namespace: Option<Seq<char>>,
    pub result_maps: Seq<ResultMapDefView>,
    pub statements: Seq<StatementView>,
    pub fragments: Map<Seq<char>, Seq<char>>,
}

impl DeepView for MapperFile {
    type V = MapperFileView;

    open spec fn deep_view(&self) -> MapperFileView {
        MapperFileView {
            namespace: self.namespace.deep_view(),
            result_maps: self.result_maps.deep_view(),
            statements: self.statements.deep_view(),
            fragments: self.fragments.deep_view(),
        }
    }
}

/// A statement with the text of its body, fragments inlined.
#[derive(Debug)]
pub struct StatementText {
    pub id: String,
    pub tag: String,
    pub result_map: Option<String>,
    pub result_type: Option<String>,
    pub body: String,
}

/// The content of a [`StatementText`].
#[verifier::ext_equal]
pub struct StatementTextView {
    pub id: Seq<char>,
    pub tag: Seq<char>,
    pub result_map: Option<Seq<char>>,
    pub result_type: Option<Seq<char>>,
    pub body: Seq<char>,
}

impl DeepView for StatementText {
    type V = StatementTextView;

    open spec fn deep_view(&self) -> StatementTextView {
        StatementTextView {
            id: self.id.deep_view(),
            tag: self.tag.deep_view(),
            result_map: self.result_map.deep_view(),
            result_type: self.result_type.deep_view(),
            body: self.body.deep_view(),
        }
    }
}

/// A mapper whose bodies have not been searched for tables.
pub struct MapperText {
    pub namespace: Option<String>,
    pub result_maps: Vec<ResultMapDef>,
    pub statements: Vec<StatementText>,
    pub fragments: TextMap<String>,
}

/// The content of a [`MapperText`].
#[verifier::ext_equal]
pub struct MapperTextView {
    pub namespace: Option<Seq<char>>,
    pub result_maps: Seq<ResultMapDefView>,
    pub statements: Seq<StatementTextView>,
    pub fragments: Map<Seq<char>, Seq<char>>,
}

impl DeepView for MapperText {
    type V = MapperTextView;

    open spec fn deep_view(&self) -> MapperTextView {
        MapperTextView {
            namespace: self.namespace.deep_view(),
            result_maps: self.result_maps.deep_view(),
            statements: self.statements.deep_view(),
            fragments: self.fragments.deep_view(),
        }
    }
}

/// A mapper that is being read, with the elements being accumulated.
pub struct MapperReader {
    pub out: MapperText,
    pub cur_stmt: Option<StatementText>,
    pub body: String,
    pub cur_map: Option<ResultMapDef>,
    pub cur_fragment: Option<String>,
    /// How many statement elements are open inside the current one.
    pub depth: usize,
}

/// The content of a [`MapperReader`].
#[verifier::ext_equal]
pub struct MapperReaderView {
    pub out: MapperTextView,
    pub cur_stmt: Option<StatementTextView>,
    pub body: Seq<char>,
    pub cur_map: Option<ResultMapDefView>,
    pub cur_fragment: Option<Seq<char>>,
    pub depth: usize,
}

impl DeepView for MapperReader {
    type V = MapperReaderView;

    open spec fn deep_view(&self) -> MapperReaderView {
        MapperReaderView {
            out: self.out.deep_view(),
            cur_stmt: self.cur_stmt.deep_view(),
            body: self.body.deep_view(),
            cur_map: self.cur_map.deep_view(),
            cur_fragment: self.cur_fragment.deep_view(),
            depth: self.depth,
        }
    }
}

pub open spec fn is_statement(tag: Seq<char>) -> bool {
    tag == "select"@ || tag == "insert"@ || tag == "update"@ || tag == "delete"@
}

fn statement_tag(tag: &str) -> (r: bool)
    ensures
        r == is_statement(tag@),
{
    same(tag, "select") || same(tag, "insert") || same(tag, "update") || same(tag, "delete")
}

/// An `<id>` or `<result>` puts its column into the result map that is open.
pub open spec fn with_mapping(s: MapperReaderView, name: Seq<char>, t: XmlTagView) -> MapperReaderView {
    match s.cur_map {
        Some(m) => if attr_of(t, "column"@) is Some && attr_of(t, "property"@) is Some {
            MapperReaderView {
                cur_map: Some(
                    ResultMapDefView {
                        mappings: m.mappings.push(
                            ResultMappingView {
                                column: lowered(attr_of(t, "column"@)->0),
                                property: attr_of(t, "property"@)->0,
                                is_pk: name == "id"@,
                            },
                        ),
                        ..m
                    },
                ),
                ..s
            }
        } else {
            s
        },
        None => s,
    }
}

/// An `<include>` puts the fragment it names into the body, so that the tables of
/// the fragment are seen.
pub open spec fn with_fragment(s: MapperReaderView, t: XmlTagView) -> MapperReaderView {
    match attr_of(t, "refid"@) {
        Some(id) => if s.out.fragments.dom().contains(id) {
            MapperReaderView {
                body: (s.body.push(' ') + s.out.fragments[id]).push(' '),
                ..s
            }
        } else {
            s
        },
        None => s,
    }
}

/// What a start tag does. A statement inside a statement is dynamic SQL: its text
/// belongs to the outer body.
pub open spec fn opened(s: MapperReaderView, t: XmlTagView) -> MapperReaderView {
    let name = tail_of(t.name, ':');
    if name == "mapper"@ {
        MapperReaderView {
            out: MapperTextView { namespace: attr_of(t, "namespace"@), ..s.out },
            ..s
        }
    } else if name == "resultMap"@ {
        MapperReaderView {
            cur_map: Some(
                ResultMapDefView {
                    id: or_empty(attr_of(t, "id"@)),
                    type_fqn: attr_of(t, "type"@),
                    mappings: Seq::empty(),
                },
            ),
            ..s
        }
    } else if name == "id"@ || name == "result"@ {
        with_mapping(s, name, t)
    } else if name == "sql"@ {
        MapperReaderView { cur_fragment: attr_of(t, "id"@), body: Seq::empty(), ..s }
    } else if is_statement(name) {
        if s.cur_stmt is Some {
            MapperReaderView { depth: (s.depth + 1) as usize, ..s }
        } else {
            MapperReaderView {
                cur_stmt: Some(
                    StatementTextView {
                        id: or_empty(attr_of(t, "id"@)),
                        tag: name,
                        result_map: attr_of(t, "resultMap"@),
                        result_type: attr_of(t, "resultType"@),
                        body: Seq::empty(),
                    },
                ),
                body: Seq::empty(),
                ..s
            }
        }
    } else if name == "include"@ {
        with_fragment(s, t)
    } else {
        s
    }
}

/// What an empty-element tag does: only `<id>`, `<result>` and `<include>` carry
/// information, and none of them opens a scope.
pub open spec fn met(s: MapperReaderView, t: XmlTagView) -> MapperReaderView {
    let name = tail_of(t.name, ':');
    if name == "id"@ || name == "result"@ {
        with_mapping(s, name, t)
    } else if name == "include"@ {
        with_fragment(s, t)
    } else {
        s
    }
}

/// What an end tag does.
pub open spec fn closed(s: MapperReaderView, name: Seq<char>) -> MapperReaderView {
    if name == "resultMap"@ {
        match s.cur_map {
            Some(m) => MapperReaderView {
                out: MapperTextView { result_maps: s.out.result_maps.push(m), ..s.out },
                cur_map: None,
                ..s
            },
            None => s,
        }
    } else if name == "sql"@ {
        match s.cur_fragment {
            Some(id) => MapperReaderView {
                out: MapperTextView { fragments: s.out.fragments.insert(id, s.body), ..s.out },
                cur_fragment: None,
                body: Seq::empty(),
                ..s
            },
            None => s,
        }
    } else if is_statement(name) {
        if s.depth > 0 {
            MapperReaderView { depth: (s.depth - 1) as usize, ..s }
        } else {
            match s.cur_stmt {
                Some(st) => MapperReaderView {
                    out: MapperTextView {
                        statements: s.out.statements.push(
                            StatementTextView { body: s.body, ..st },
                        ),
                        ..s.out
                    },
                    cur_stmt: None,
                    body: Seq::empty(),
                    ..s
                },
                None => s,
            }
        }
    } else {
        s
    }
}

/// Character data belongs to the statement or fragment that is open.
pub open spec fn with_text(s: MapperReaderView, t: Seq<char>) -> MapperReaderView {
    if s.cur_stmt is Some || s.cur_fragment is Some {
        MapperReaderView { body: s.body + t, ..s }
    } else {
        s
    }
}

pub open spec fn or_empty(o: Option<Seq<char>>) -> Seq<char> {
    match o {
        Some(s) => s,
        None => Seq::empty(),
    }
}

/// What one event does.
pub open spec fn step(s: MapperReaderView, ev: XmlEventView) -> MapperReaderView {
    match ev {
        XmlEventView::Empty(t) => met(s, t),
        XmlEventView::Start(t) => opened(s, t),
        XmlEventView::End(n) => closed(s, tail_of(n, ':')),
        XmlEventView::Text(t) => with_text(s, t),
        XmlEventView::CData(t) => with_text(s, t),
        XmlEventView::Entity(t) => with_text(s, t),
        _ => s,
    }
}

pub open spec fn read(evs: Seq<XmlEventView>) -> MapperReaderView
    decreases evs.len(),
{
    if evs.len() == 0 {
        MapperReaderView {
            out: MapperTextView {
                namespace: None,
                result_maps: Seq::empty(),
                statements: Seq::empty(),
                fragments: Map::empty(),
            },
            cur_stmt: None,
            body: Seq::empty(),
            cur_map: None,
            cur_fragment: None,
            depth: 0,
        }
    } else {
        step(read(evs.drop_last()), evs.last())
    }
}

fn string_or_empty(o: Option<String>) -> (r: String)
    ensures
        r@ == or_empty(o.deep_view()),
{
    match o {
        Some(s) => s,
        None => String::new(),
    }
}

impl MapperReader {
    fn add_mapping(&mut self, name: &str, t: &XmlTag)
        ensures
            final(self).deep_view() == with_mapping(old(self).deep_view(), name@, t.deep_view()),
    {
        match self.cur_map.take() {
            Some(m) => {
                let mut m = m;
                let ghost m0 = m.deep_view();
                match (attr(t, "column"), attr(t, "property")) {
                    (Some(col), Some(prop)) => {
                        let x = ResultMapping {
                            column: to_lower(col.as_str()),
                            property: prop,
                            is_pk: same(name, "id"),
                        };
                        let ghost v = x.deep_view();
                        m.mappings.push(x);
                        assert(m.deep_view().mappings =~= m0.mappings.push(v));
                    },
                    _ => {},
                }
                self.cur_map = Some(m);
            },
            None => {},
        }
    }

    fn add_fragment(&mut self, t: &XmlTag)
        ensures
            final(self).deep_view() == with_fragment(old(self).deep_view(), t.deep_view()),
    {
        match attr(t, "refid") {
            Some(id) => match self.out.fragments.get(id.as_str()) {
                Some(frag) => {
                    self.body.push(' ');
                    self.body.append(frag.as_str());
                    self.body.push(' ');
                },
                None => {},
            },
            None => {},
        }
    }

    fn open(&mut self, t: &XmlTag)
        requires
            old(self).depth < usize::MAX,
        ensures
            final(self).deep_view() == opened(old(self).deep_view(), t.deep_view()),
            final(self).depth <= old(self).depth + 1,
    {
        let name = local(t);
        let n = name.as_str();
        if same(n, "mapper") {
            self.out.namespace = attr(t, "namespace");
        } else if same(n, "resultMap") {
            self.cur_map = Some(
                ResultMapDef {
                    id: string_or_empty(attr(t, "id")),
                    type_fqn: attr(t, "type"),
                    mappings: Vec::new(),
                },
            );
            assert(self.cur_map->0.mappings.deep_view() =~= Seq::empty());
        } else if same(n, "id") || same(n, "result") {
            self.add_mapping(n, t);
        } else if same(n, "sql") {
            self.cur_fragment = attr(t, "id");
            self.body = String::new();
        } else if statement_tag(n) {
            if self.cur_stmt.is_some() {
                // A nested <select> inside dynamic SQL: keep it as body text.
                self.depth = self.depth + 1;
            } else {
                self.cur_stmt = Some(
                    StatementText {
                        id: string_or_empty(attr(t, "id")),
                        tag: owned(n),
                        result_map: attr(t, "resultMap"),
                        result_type: attr(t, "resultType"),
                        body: String::new(),
                    },
                );
                self.body = String::new();
            }
        } else if same(n, "include") {
            self.add_fragment(t);
        }
    }

    fn meet(&mut self, t: &XmlTag)
        ensures
            final(self).deep_view() == met(old(self).deep_view(), t.deep_view()),
    {
        let name = local(t);
        let n = name.as_str();
        if same(n, "id") || same(n, "result") {
            self.add_mapping(n, t);
        } else if same(n, "include") {
            self.add_fragment(t);
        }
    }

    fn close(&mut self, n: &str)
        ensures
            final(self).deep_view() == closed(old(self).deep_view(), n@),
            final(self).depth <= old(self).depth,
    {
        let ghost s0 = self.deep_view();
        if same(n, "resultMap") {
            match self.cur_map.take() {
                Some(m) => {
                    let ghost v = m.deep_view();
                    self.out.result_maps.push(m);
                    assert(self.deep_view().out.result_maps =~= s0.out.result_maps.push(v));
                },
                None => {},
            }
        } else if same(n, "sql") {
            match self.cur_fragment.take() {
                Some(id) => {
                    let body = self.body.clone();
                    self.body = String::new();
                    self.out.fragments.insert(id, body);
                },
                None => {},
            }
        } else if statement_tag(n) {
            if self.depth > 0 {
                self.depth = self.depth - 1;
            } else {
                match self.cur_stmt.take() {
                    Some(s) => {
                        let mut s = s;
                        s.body = self.body.clone();
                        self.body = String::new();
                        let ghost v = s.deep_view();
                        self.out.statements.push(s);
                        assert(self.deep_view().out.statements =~= s0.out.statements.push(v));
                    },
                    None => {},
                }
            }
        }
    }

    fn add_text(&mut self, t: &str)
        ensures
            final(self).deep_view() == with_text(old(self).deep_view(), t@),
    {
        if self.cur_stmt.is_some() || self.cur_fragment.is_some() {
            self.body.append(t);
        }
    }

    fn step(&mut self, ev: &XmlEvent)
        requires
            old(self).depth < usize::MAX,
        ensures
            final(self).deep_view() == step(old(self).deep_view(), ev.deep_view()),
            final(self).depth <= old(self).depth + 1,
    {
        match ev {
            XmlEvent::Empty(t) => {
                self.meet(t);
            },
            XmlEvent::Start(t) => {
                self.open(t);
            },
            XmlEvent::End(n) => {
                self.close(after_last(n.as_str(), ':'));
            },
            XmlEvent::Text(t) => {
                self.add_text(t.as_str());
            },
            XmlEvent::CData(t) => {
                self.add_text(t.as_str());
            },
            XmlEvent::Entity(t) => {
                self.add_text(t.as_str());
            },
            _ => {},
        }
    }
}

/// The mapper that a document's events describe.
pub fn from_events(evs: &Vec<XmlEvent>) -> (r: MapperText)
    ensures
        r.deep_view() == read(evs.deep_view()).out,
{
    let mut s = MapperReader {
        out: MapperText {
            namespace: None,
            result_maps: Vec::new(),
            statements: Vec::new(),
            fragments: TextMap::new(),
        },
        cur_stmt: None,
        body: String::new(),
        cur_map: None,
        cur_fragment: None,
        depth: 0,
    };
    let ghost d = evs.deep_view();
    assert(s.deep_view() =~= read(d.take(0)));
    let mut i: usize = 0;
    while i < evs.len()
        invariant
            i <= evs.len(),
            d == evs.deep_view(),
            s.deep_view() == read(d.take(i as int)),
            s.depth <= i,
        decreases evs.len() - i,
    {
        broadcast use take_next;

        s.step(&evs[i]);
        assert(d[i as int] == evs@[i as int].deep_view());
        i += 1;
        assert(d.take(i as int) == d.take((i - 1) + 1));
    }
    broadcast use take_all;

    assert(d.take(i as int) == d);
    s.out
}

/// A statement with the tables of its body.
pub open spec fn searched(s: StatementTextView) -> StatementView {
    StatementView {
        id: s.id,
        tag: s.tag,
        result_map: s.result_map,
        result_type: s.result_type,
        tables: tables_in(s.body),
    }
}

/// A mapper with the tables of its bodies.
pub open spec fn mapper_of(m: MapperTextView) -> MapperFileView {
    MapperFileView {
        namespace: m.namespace,
        result_maps: m.result_maps,
        statements: m.statements.map_values(|s: StatementTextView| searched(s)),
        fragments: m.fragments,
    }
}

/// Find the tables of every statement.
pub fn find_tables(m: MapperText) -> (r: MapperFile)
    ensures
        r.deep_view() == mapper_of(m.deep_view()),
{
    let ghost d = m.deep_view().statements;
    let ghost want = d.map_values(|s: StatementTextView| searched(s));
    let mut statements: Vec<Statement> = Vec::new();
    let mut i: usize = 0;
    while i < m.statements.len()
        invariant
            i <= m.statements.len(),
            d == m.deep_view().statements,
            want == d.map_values(|s: StatementTextView| searched(s)),
            statements.deep_view() == want.take(i as int),
        decreases m.statements.len() - i,
    {
        let s = &m.statements[i];
        let ghost before = statements.deep_view();
        assert(d[i as int] == s.deep_view());
        let x = Statement {
            id: s.id.clone(),
            tag: s.tag.clone(),
            result_map: s.result_map.clone(),
            result_type: s.result_type.clone(),
            tables: tables_with_ops(s.body.as_str()),
        };
        let ghost v = x.deep_view();
        assert(v =~= want[i as int]);
        statements.push(x);
        assert(statements.deep_view() =~= before.push(v));
        i += 1;
        assert(want.take(i as int) =~= before.push(v));
    }
    assert(want.take(i as int) =~= want);
    let MapperText { namespace, result_maps, statements: _, fragments } = m;
    MapperFile { namespace, result_maps, statements, fragments }
}

/// The mapper in `xml`. Legacy mappers contain malformed islands; whatever parsed
/// before an error is kept.
pub fn parse(xml: &str) -> (r: Result<MapperFile, String>)
    ensures
        r is Ok,
        r->Ok_0.deep_view() == mapper_of(read(document(xml@)).out),
{
    Ok(find_tables(from_events(&events(xml))))
}

// ---------------------------------------------------------------------------
// Aggregates

/// The items of `s`, each at its first place only.
pub open spec fn distinct<T>(s: Seq<T>) -> Seq<T>
    decreases s.len(),
{
    if s.len() == 0 {
        s
    } else if distinct(s.drop_last()).contains(s.last()) {
        distinct(s.drop_last())
    } else {
        distinct(s.drop_last()).push(s.last())
    }
}

/// The tables of all statements, in order.
pub open spec fn all_tables(m: MapperFileView) -> Seq<(Seq<char>, TableOp)> {
    flat(m.statements, |s: StatementView| s.tables)
}

/// The tables that a statement reads.
pub open spec fn reads_of(s: StatementView) -> Seq<(Seq<char>, TableOp)> {
    keep(s.tables, |p: (Seq<char>, TableOp)| p.1 == TableOp::Select)
}

pub open spec fn uses_map(s: StatementView, id: Seq<char>) -> bool {
    s.result_map == Some(id)
}

/// The table that a result map describes: that of the first statement which uses
/// the map and reads exactly one table, else the first table of the first one that
/// reads any.
pub open spec fn map_table(m: MapperFileView, id: Seq<char>) -> Option<Seq<char>> {
    match first_where(
        m.statements,
        |s: StatementView| uses_map(s, id) && reads_of(s).len() == 1,
    ) {
        Some(s) => Some(reads_of(s)[0].0),
        None => match first_where(
            m.statements,
            |s: StatementView| uses_map(s, id) && reads_of(s).len() > 0,
        ) {
            Some(s) => Some(reads_of(s)[0].0),
            None => None,
        },
    }
}

fn has_pair(v: &Vec<(String, TableOp)>, t: &str, op: TableOp) -> (r: bool)
    ensures
        r == v.deep_view().contains((t@, op)),
{
    let mut i: usize = 0;
    while i < v.len()
        invariant
            i <= v.len(),
            forall|j: int| 0 <= j < i ==> v.deep_view()[j] != (t@, op),
        decreases v.len() - i,
    {
        assert(v.deep_view()[i as int] == (v@[i as int].0@, v@[i as int].1));
        if same(v[i].0.as_str(), t) && v[i].1 == op {
            return true;
        }
        i += 1;
    }
    false
}

impl Statement {
    /// The tables that the statement reads, in order.
    fn reads(&self) -> (r: Vec<String>)
        ensures
            r.len() == reads_of(self.deep_view()).len(),
            forall|i: int|
                0 <= i < r.len() ==> (#[trigger] r@[i])@ == reads_of(self.deep_view())[i].0,
    {
        let ghost d = self.tables.deep_view();
        let ghost f = |p: (Seq<char>, TableOp)| p.1 == TableOp::Select;
        let mut out: Vec<String> = Vec::new();
        let mut i: usize = 0;
        while i < self.tables.len()
            invariant
                i <= self.tables.len(),
                d == self.tables.deep_view(),
                f == (|p: (Seq<char>, TableOp)| p.1 == TableOp::Select),
                out.len() == keep(d.take(i as int), f).len(),
                forall|j: int|
                    0 <= j < out.len() ==> (#[trigger] out@[j])@ == keep(d.take(i as int), f)[j].0,
            decreases self.tables.len() - i,
        {
            broadcast use take_next;

            assert(d[i as int] == (self.tables@[i as int].0@, self.tables@[i as int].1));
            assert(d.take(i + 1).last() == d[i as int]);
            if self.tables[i].1 == TableOp::Select {
                out.push(self.tables[i].0.clone());
            }
            i += 1;
        }
        broadcast use take_all;

        assert(d.take(i as int) == d);
        out
    }
}

impl MapperFile {
    /// Every distinct table this mapper touches, with the union of operations.
    pub fn tables(&self) -> (r: Vec<(String, TableOp)>)
        ensures
            r.deep_view() == distinct(all_tables(self.deep_view())),
    {
        let ghost d = self.deep_view().statements;
        let ghost f = |s: StatementView| s.tables;
        let mut out: Vec<(String, TableOp)> = Vec::new();
        let mut i: usize = 0;
        assert(out.deep_view() =~= distinct(flat(d.take(0), f)));
        while i < self.statements.len()
            invariant
                i <= self.statements.len(),
                d == self.deep_view().statements,
                f == (|s: StatementView| s.tables),
                out.deep_view() == distinct(flat(d.take(i as int), f)),
            decreases self.statements.len() - i,
        {
            broadcast use take_next;

            let ts = &self.statements[i].tables;
            let ghost t = ts.deep_view();
            let ghost base = flat(d.take(i as int), f);
            assert(f(d[i as int]) == t);
            assert(base + t.take(0) =~= base);
            let mut k: usize = 0;
            while k < ts.len()
                invariant
                    k <= ts.len(),
                    t == ts.deep_view(),
                    out.deep_view() == distinct(base + t.take(k as int)),
                decreases ts.len() - k,
            {
                let ghost before = out.deep_view();
                let ghost next = base + t.take(k + 1);
                let ghost x = t[k as int];
                assert(next.drop_last() =~= base + t.take(k as int));
                assert(next.last() == x);
                assert(x == (ts@[k as int].0@, ts@[k as int].1));
                if !has_pair(&out, ts[k].0.as_str(), ts[k].1) {
                    out.push((ts[k].0.clone(), ts[k].1));
                    assert(out.deep_view() =~= before.push(x));
                }
                k += 1;
            }
            assert(t.take(k as int) =~= t);
            i += 1;
            assert(d.take(i as int) == d.take((i - 1) + 1));
        }
        broadcast use take_all;

        assert(d.take(i as int) == d);
        out
    }

    /// The table a result map most plausibly describes: the one its statements
    /// read through that map. Used to attach columns to a table.
    pub fn table_for_result_map(&self, map_id: &str) -> (r: Option<String>)
        ensures
            r.deep_view() == map_table(self.deep_view(), map_id@),
    {
        let ghost d = self.deep_view().statements;
        let ghost one = |s: StatementView| uses_map(s, map_id@) && reads_of(s).len() == 1;
        let ghost any = |s: StatementView| uses_map(s, map_id@) && reads_of(s).len() > 0;
        let mut fallback: Option<String> = None;
        let mut i: usize = 0;
        assert(d.skip(0) =~= d);
        while i < self.statements.len()
            invariant
                i <= self.statements.len(),
                d == self.deep_view().statements,
                one == (|s: StatementView| uses_map(s, map_id@) && reads_of(s).len() == 1),
                any == (|s: StatementView| uses_map(s, map_id@) && reads_of(s).len() > 0),
                first_where(d, one) == first_where(d.skip(i as int), one),
                match fallback {
                    Some(t) => first_where(d, any) is Some && t@ == reads_of(
                        first_where(d, any)->0,
                    )[0].0,
                    None => first_where(d, any) == first_where(d.skip(i as int), any),
                },
            decreases self.statements.len() - i,
        {
            let s = &self.statements[i];
            let ghost v = s.deep_view();
            assert(d.skip(i as int)[0] == v);
            assert(d.skip(i as int).skip(1) =~= d.skip(i + 1));
            i += 1;
            let wanted = match &s.result_map {
                Some(m) => same(m.as_str(), map_id),
                None => false,
            };
            assert(wanted == uses_map(v, map_id@));
            if !wanted {
                continue;
            }
            let reads = s.reads();
            if reads.len() == 1 {
                assert(one(v));
                return Some(reads[0].clone());
            }
            if fallback.is_none() && reads.len() > 0 {
                assert(any(v));
                fallback = Some(reads[0].clone());
            }
        }
        fallback
    }
}

} // verus!


//! Full-text search over the knowledge base.
//!
//! The `search_fts` index is a derived view over L0/L1/L2 — the
//! same status as the Markdown projection: deletable, rebuildable, never the
//! source of truth. The index uses FTS5's `trigram` tokenizer so that English
//! identifiers (`coupon`) and unsegmented Chinese terms (`特价`) both match as
//! substrings, which the default word tokenizer cannot do for CJK text.
//!
//! [`rebuild`] says what the index holds, [`query`] what it is asked.
use crate::insight::{is_insight, is_kind};
use crate::json::{json_strings, strings};
use crate::lists::{pick, take_all, take_next};
use crate::split::{join, joined, replace, replaced, replaced_concat, replaced_one, words, words_of};
use crate::text::{has_prefix, owned, same, starts_with, trim, trimmed};
use crate::util::{truncate_chars, truncated};
use vstd::prelude::*;

verus! {

/// One search hit, flattened for display or `--json` output.
#[derive(Debug)]
pub struct Hit {
    /// Coarse category for display: file / symbol / table / entrypoint / domain / note / glossary / commit.
    pub kind: String,
    /// Finer subtype: a symbol's kind, an entrypoint's transport, a file's lang.
    pub subject_kind: String,
    /// Row id in the source table (symbols / tables / entrypoints / …), kept so
    /// a future command can jump straight to the record.
    pub subject_id: i64,
    /// Primary identifier: fqn, table name, term, path, addr, …
    pub title: String,
    /// Truncated descriptive text (Javadoc, definition, column list, …).
    pub snippet: String,
    /// Source file, when the subject lives in one.
    pub file: Option<String>,
}

/// The content of a [`Hit`].
#[verifier::ext_equal]
pub struct HitView {
    pub kind: Seq<char>,
    pub subject_kind: Seq<char>,
    pub subject_id: i64,
    pub title: Seq<char>,
    pub snippet: Seq<char>,
    pub file: Option<Seq<char>>,
}

impl DeepView for Hit {
    type V = HitView;

    open spec fn deep_view(&self) -> HitView {
        HitView {
            kind: self.kind.deep_view(),
            subject_kind: self.subject_kind.deep_view(),
            subject_id: self.subject_id,
            title: self.title.deep_view(),
            snippet: self.snippet.deep_view(),
            file: self.file.deep_view(),
        }
    }
}

impl Clone for Hit {
    fn clone(&self) -> (r: Self)
        ensures
            r.deep_view() == self.deep_view(),
    {
        Hit {
            kind: self.kind.clone(),
            subject_kind: self.subject_kind.clone(),
            subject_id: self.subject_id,
            title: self.title.clone(),
            snippet: self.snippet.clone(),
            file: self.file.clone(),
        }
    }
}

/// One row of the index. Every subject is flattened to the same columns, which
/// is what keeps the query side (and the MCP surface) simple.
#[derive(Debug)]
pub struct Doc {
    pub title: String,
    pub body: String,
    pub kind: String,
    pub subject_kind: String,
    pub subject_id: i64,
    pub file: Option<String>,
}

/// The content of a [`Doc`].
#[verifier::ext_equal]
pub struct DocView {
    pub title: Seq<char>,
    pub body: Seq<char>,
    pub kind: Seq<char>,
    pub subject_kind: Seq<char>,
    pub subject_id: i64,
    pub file: Option<Seq<char>>,
}

impl DeepView for Doc {
    type V = DocView;

    open spec fn deep_view(&self) -> DocView {
        DocView {
            title: self.title.deep_view(),
            body: self.body.deep_view(),
            kind: self.kind.deep_view(),
            subject_kind: self.subject_kind.deep_view(),
            subject_id: self.subject_id,
            file: self.file.deep_view(),
        }
    }
}

impl Clone for Doc {
    fn clone(&self) -> (r: Self)
        ensures
            r.deep_view() == self.deep_view(),
    {
        Doc {
            title: self.title.clone(),
            body: self.body.clone(),
            kind: self.kind.clone(),
            subject_kind: self.subject_kind.clone(),
            subject_id: self.subject_id,
            file: self.file.clone(),
        }
    }
}

/// A stored file.
#[derive(Debug)]
pub struct FileSource {
    pub id: i64,
    pub path: String,
    pub lang: Option<String>,
}

/// The content of a [`FileSource`].
#[verifier::ext_equal]
pub struct FileSourceView {
    pub id: i64,
    pub path: Seq<char>,
    pub lang: Option<Seq<char>>,
}

impl DeepView for FileSource {
    type V = FileSourceView;

    open spec fn deep_view(&self) -> FileSourceView {
        FileSourceView {
            id: self.id,
            path: self.path.deep_view(),
            lang: self.lang.deep_view(),
        }
    }
}

impl Clone for FileSource {
    fn clone(&self) -> (r: Self)
        ensures
            r.deep_view() == self.deep_view(),
    {
        FileSource {
            id: self.id,
            path: self.path.clone(),
            lang: self.lang.clone(),
        }
    }
}

/// A stored symbol.
#[derive(Debug)]
pub struct SymbolSource {
    pub id: i64,
    /// FQN, or name where there is none.
    pub title: String,
    pub kind: String,
    pub doc: Option<String>,
    pub signature: Option<String>,
    pub file: Option<String>,
}

/// The content of a [`SymbolSource`].
#[verifier::ext_equal]
pub struct SymbolSourceView {
    pub id: i64,
    pub title: Seq<char>,
    pub kind: Seq<char>,
    pub doc: Option<Seq<char>>,
    pub signature: Option<Seq<char>>,
    pub file: Option<Seq<char>>,
}

impl DeepView for SymbolSource {
    type V = SymbolSourceView;

    open spec fn deep_view(&self) -> SymbolSourceView {
        SymbolSourceView {
            id: self.id,
            title: self.title.deep_view(),
            kind: self.kind.deep_view(),
            doc: self.doc.deep_view(),
            signature: self.signature.deep_view(),
            file: self.file.deep_view(),
        }
    }
}

impl Clone for SymbolSource {
    fn clone(&self) -> (r: Self)
        ensures
            r.deep_view() == self.deep_view(),
    {
        SymbolSource {
            id: self.id,
            title: self.title.clone(),
            kind: self.kind.clone(),
            doc: self.doc.clone(),
            signature: self.signature.clone(),
            file: self.file.clone(),
        }
    }
}

/// A column of a stored table.
#[derive(Debug)]
pub struct ColumnSource {
    pub name: String,
    pub java_type: Option<String>,
    pub doc: Option<String>,
}

/// The content of a [`ColumnSource`].
#[verifier::ext_equal]
pub struct ColumnSourceView {
    pub name: Seq<char>,
    pub java_type: Option<Seq<char>>,
    pub doc: Option<Seq<char>>,
}

impl DeepView for ColumnSource {
    type V = ColumnSourceView;

    open spec fn deep_view(&self) -> ColumnSourceView {
        ColumnSourceView {
            name: self.name.deep_view(),
            java_type: self.java_type.deep_view(),
            doc: self.doc.deep_view(),
        }
    }
}

impl Clone for ColumnSource {
    fn clone(&self) -> (r: Self)
        ensures
            r.deep_view() == self.deep_view(),
    {
        ColumnSource {
            name: self.name.clone(),
            java_type: self.java_type.clone(),
            doc: self.doc.clone(),
        }
    }
}

/// A stored table with its columns.
#[derive(Debug)]
pub struct TableSource {
    pub id: i64,
    pub name: String,
    pub file: Option<String>,
    pub columns: Vec<ColumnSource>,
}

/// The content of a [`TableSource`].
#[verifier::ext_equal]
pub struct TableSourceView {
    pub id: i64,
    pub name: Seq<char>,
    pub file: Option<Seq<char>>,
    pub columns: Seq<ColumnSourceView>,
}

impl DeepView for TableSource {
    type V = TableSourceView;

    open spec fn deep_view(&self) -> TableSourceView {
        TableSourceView {
            id: self.id,
            name: self.name.deep_view(),
            file: self.file.deep_view(),
            columns: self.columns.deep_view(),
        }
    }
}

impl Clone for TableSource {
    fn clone(&self) -> (r: Self)
        ensures
            r.deep_view() == self.deep_view(),
    {
        TableSource {
            id: self.id,
            name: self.name.clone(),
            file: self.file.clone(),
            columns: self.columns.clone(),
        }
    }
}

/// A stored entrypoint.
#[derive(Debug)]
pub struct EntrySource {
    pub id: i64,
    pub kind: String,
    pub name: String,
    pub addr: Option<String>,
    pub doc: Option<String>,
    pub file: Option<String>,
}

/// The content of a [`EntrySource`].
#[verifier::ext_equal]
pub struct EntrySourceView {
    pub id: i64,
    pub kind: Seq<char>,
    pub name: Seq<char>,
    pub addr: Option<Seq<char>>,
    pub doc: Option<Seq<char>>,
    pub file: Option<Seq<char>>,
}

impl DeepView for EntrySource {
    type V = EntrySourceView;

    open spec fn deep_view(&self) -> EntrySourceView {
        EntrySourceView {
            id: self.id,
            kind: self.kind.deep_view(),
            name: self.name.deep_view(),
            addr: self.addr.deep_view(),
            doc: self.doc.deep_view(),
            file: self.file.deep_view(),
        }
    }
}

impl Clone for EntrySource {
    fn clone(&self) -> (r: Self)
        ensures
            r.deep_view() == self.deep_view(),
    {
        EntrySource {
            id: self.id,
            kind: self.kind.clone(),
            name: self.name.clone(),
            addr: self.addr.clone(),
            doc: self.doc.clone(),
            file: self.file.clone(),
        }
    }
}

/// A stored domain.
#[derive(Debug)]
pub struct DomainSource {
    pub id: i64,
    pub key: String,
    pub label: Option<String>,
    pub rationale: Option<String>,
}

/// The content of a [`DomainSource`].
#[verifier::ext_equal]
pub struct DomainSourceView {
    pub id: i64,
    pub key: Seq<char>,
    pub label: Option<Seq<char>>,
    pub rationale: Option<Seq<char>>,
}

impl DeepView for DomainSource {
    type V = DomainSourceView;

    open spec fn deep_view(&self) -> DomainSourceView {
        DomainSourceView {
            id: self.id,
            key: self.key.deep_view(),
            label: self.label.deep_view(),
            rationale: self.rationale.deep_view(),
        }
    }
}

impl Clone for DomainSource {
    fn clone(&self) -> (r: Self)
        ensures
            r.deep_view() == self.deep_view(),
    {
        DomainSource {
            id: self.id,
            key: self.key.clone(),
            label: self.label.clone(),
            rationale: self.rationale.clone(),
        }
    }
}

/// A stored note.
#[derive(Debug)]
pub struct NoteSource {
    pub id: i64,
    /// Title, or kind where there is none.
    pub title: String,
    pub kind: String,
    pub body: String,
    pub status: String,
}

/// The content of a [`NoteSource`].
#[verifier::ext_equal]
pub struct NoteSourceView {
    pub id: i64,
    pub title: Seq<char>,
    pub kind: Seq<char>,
    pub body: Seq<char>,
    pub status: Seq<char>,
}

impl DeepView for NoteSource {
    type V = NoteSourceView;

    open spec fn deep_view(&self) -> NoteSourceView {
        NoteSourceView {
            id: self.id,
            title: self.title.deep_view(),
            kind: self.kind.deep_view(),
            body: self.body.deep_view(),
            status: self.status.deep_view(),
        }
    }
}

impl Clone for NoteSource {
    fn clone(&self) -> (r: Self)
        ensures
            r.deep_view() == self.deep_view(),
    {
        NoteSource {
            id: self.id,
            title: self.title.clone(),
            kind: self.kind.clone(),
            body: self.body.clone(),
            status: self.status.clone(),
        }
    }
}

/// A stored glossary term.
#[derive(Debug)]
pub struct TermSource {
    pub id: i64,
    pub term: String,
    pub definition: Option<String>,
    /// The aliases as a JSON list.
    pub aliases_json: Option<String>,
}

/// The content of a [`TermSource`].
#[verifier::ext_equal]
pub struct TermSourceView {
    pub id: i64,
    pub term: Seq<char>,
    pub definition: Option<Seq<char>>,
    pub aliases_json: Option<Seq<char>>,
}

impl DeepView for TermSource {
    type V = TermSourceView;

    open spec fn deep_view(&self) -> TermSourceView {
        TermSourceView {
            id: self.id,
            term: self.term.deep_view(),
            definition: self.definition.deep_view(),
            aliases_json: self.aliases_json.deep_view(),
        }
    }
}

impl Clone for TermSource {
    fn clone(&self) -> (r: Self)
        ensures
            r.deep_view() == self.deep_view(),
    {
        TermSource {
            id: self.id,
            term: self.term.clone(),
            definition: self.definition.clone(),
            aliases_json: self.aliases_json.clone(),
        }
    }
}

/// A stored commit that has a subject.
#[derive(Debug)]
pub struct CommitSource {
    pub id: i64,
    pub subject: String,
}

/// The content of a [`CommitSource`].
#[verifier::ext_equal]
pub struct CommitSourceView {
    pub id: i64,
    pub subject: Seq<char>,
}

impl DeepView for CommitSource {
    type V = CommitSourceView;

    open spec fn deep_view(&self) -> CommitSourceView {
        CommitSourceView {
            id: self.id,
            subject: self.subject.deep_view(),
        }
    }
}

impl Clone for CommitSource {
    fn clone(&self) -> (r: Self)
        ensures
            r.deep_view() == self.deep_view(),
    {
        CommitSource {
            id: self.id,
            subject: self.subject.clone(),
        }
    }
}

/// What the index is made from.
#[derive(Debug)]
pub struct Sources {
    pub files: Vec<FileSource>,
    pub symbols: Vec<SymbolSource>,
    pub tables: Vec<TableSource>,
    pub entrypoints: Vec<EntrySource>,
    pub domains: Vec<DomainSource>,
    pub notes: Vec<NoteSource>,
    pub terms: Vec<TermSource>,
    pub commits: Vec<CommitSource>,
}

/// The content of a [`Sources`].
#[verifier::ext_equal]
pub struct SourcesView {
    pub files: Seq<FileSourceView>,
    pub symbols: Seq<SymbolSourceView>,
    pub tables: Seq<TableSourceView>,
    pub entrypoints: Seq<EntrySourceView>,
    pub domains: Seq<DomainSourceView>,
    pub notes: Seq<NoteSourceView>,
    pub terms: Seq<TermSourceView>,
    pub commits: Seq<CommitSourceView>,
}

impl DeepView for Sources {
    type V = SourcesView;

    open spec fn deep_view(&self) -> SourcesView {
        SourcesView {
            files: self.files.deep_view(),
            symbols: self.symbols.deep_view(),
            tables: self.tables.deep_view(),
            entrypoints: self.entrypoints.deep_view(),
            domains: self.domains.deep_view(),
            notes: self.notes.deep_view(),
            terms: self.terms.deep_view(),
            commits: self.commits.deep_view(),
        }
    }
}

impl Clone for Sources {
    fn clone(&self) -> (r: Self)
        ensures
            r.deep_view() == self.deep_view(),
    {
        Sources {
            files: self.files.clone(),
            symbols: self.symbols.clone(),
            tables: self.tables.clone(),
            entrypoints: self.entrypoints.clone(),
            domains: self.domains.clone(),
            notes: self.notes.clone(),
            terms: self.terms.clone(),
            commits: self.commits.clone(),
        }
    }
}

// ---------------------------------------------------------------------------
// Rows of the index

/// The texts that are there.
pub open spec fn present(a: Option<Seq<char>>, b: Option<Seq<char>>) -> Seq<Seq<char>> {
    match (a, b) {
        (Some(x), Some(y)) => seq![x, y],
        (Some(x), None) => seq![x],
        (None, Some(y)) => seq![y],
        (None, None) => Seq::empty(),
    }
}

fn collect_present(a: Option<String>, b: Option<String>) -> (r: Vec<String>)
    ensures
        r.deep_view() == present(a.deep_view(), b.deep_view()),
{
    let mut v: Vec<String> = Vec::new();
    match a {
        Some(x) => {
            v.push(x);
        },
        None => {},
    }
    match b {
        Some(y) => {
            v.push(y);
        },
        None => {},
    }
    assert(v.deep_view() =~= present(a.deep_view(), b.deep_view()));
    v
}

/// Files are indexed by path, so a file-name search finds the file itself.
pub open spec fn file_doc(f: FileSourceView) -> DocView {
    DocView {
        title: f.path,
        body: Seq::empty(),
        kind: "file"@,
        subject_kind: match f.lang {
            Some(l) => l,
            None => Seq::empty(),
        },
        subject_id: f.id,
        file: Some(f.path),
    }
}

fn index_file(f: &FileSource) -> (r: Doc)
    ensures
        r.deep_view() == file_doc(f.deep_view()),
{
    let lang = match &f.lang {
        Some(l) => l.clone(),
        None => String::new(),
    };
    let d = Doc {
        title: f.path.clone(),
        body: String::new(),
        kind: owned("file"),
        subject_kind: lang,
        subject_id: f.id,
        file: Some(f.path.clone()),
    };
    assert(d.deep_view() =~= file_doc(f.deep_view()));
    d
}

/// A signature as far as it is worth searching. Enum members store their constructor
/// arguments as the "signature" (e.g. `(0)`); that is value noise, not a signature.
/// Methods and fields keep theirs (`Coupon findById(Long id)`), which is real signal.
pub open spec fn real_signature(sig: Option<Seq<char>>) -> Option<Seq<char>> {
    match sig {
        Some(s) => if has_prefix(s, "("@) {
            None
        } else {
            Some(s)
        },
        None => None,
    }
}

/// Symbols: identifier plus kind, Javadoc and signature.
pub open spec fn symbol_doc(s: SymbolSourceView) -> DocView {
    DocView {
        title: s.title,
        body: joined(present(s.doc, real_signature(s.signature)), "\n"@),
        kind: "symbol"@,
        subject_kind: s.kind,
        subject_id: s.id,
        file: s.file,
    }
}

fn index_symbol(s: &SymbolSource) -> (r: Doc)
    ensures
        r.deep_view() == symbol_doc(s.deep_view()),
{
    let sig = match &s.signature {
        Some(x) => if starts_with(x.as_str(), "(") {
            None
        } else {
            Some(x.clone())
        },
        None => None,
    };
    let parts = collect_present(s.doc.clone(), sig);
    Doc {
        title: s.title.clone(),
        body: join(&parts, "\n"),
        kind: owned("symbol"),
        subject_kind: s.kind.clone(),
        subject_id: s.id,
        file: s.file.clone(),
    }
}

/// A column in the body of its table.
pub open spec fn column_text(c: ColumnSourceView) -> Seq<char> {
    let ty = match c.java_type {
        Some(t) => t,
        None => Seq::empty(),
    };
    let head = c.name + " "@ + ty;
    match c.doc {
        Some(d) => if trimmed(d).len() > 0 {
            head + " "@ + d
        } else {
            head
        },
        None => head,
    }
}

/// The columns, one after the other. Where the text so far is empty, no separator
/// stands before a column.
pub open spec fn columns_text(cols: Seq<ColumnSourceView>) -> Seq<char>
    decreases cols.len(),
{
    if cols.len() == 0 {
        Seq::empty()
    } else {
        let before = columns_text(cols.drop_last());
        if before.len() == 0 {
            column_text(cols.last())
        } else {
            before + "；"@ + column_text(cols.last())
        }
    }
}

fn write_column(c: &ColumnSource) -> (r: String)
    ensures
        r@ == column_text(c.deep_view()),
{
    let mut s = c.name.clone();
    s.append(" ");
    match &c.java_type {
        Some(t) => {
            s.append(t.as_str());
        },
        None => {
            assert(s@ + Seq::<char>::empty() =~= s@);
        },
    }
    match &c.doc {
        Some(d) => {
            if !trim(d.as_str()).is_empty() {
                s.append(" ");
                s.append(d.as_str());
            }
        },
        None => {},
    }
    s
}

fn write_columns(cols: &Vec<ColumnSource>) -> (r: String)
    ensures
        r@ == columns_text(cols.deep_view()),
{
    let ghost d = cols.deep_view();
    let mut s = String::new();
    let mut i: usize = 0;
    assert(s@ =~= columns_text(d.take(0)));
    while i < cols.len()
        invariant
            i <= cols.len(),
            d == cols.deep_view(),
            s@ == columns_text(d.take(i as int)),
        decreases cols.len() - i,
    {
        broadcast use take_next;

        assert(d[i as int] == cols@[i as int].deep_view());
        assert(d.take(i + 1).last() == d[i as int]);
        let c = write_column(&cols[i]);
        if s.as_str().is_empty() {
            s = c;
        } else {
            s.append("；");
            s.append(c.as_str());
        }
        i += 1;
    }
    broadcast use take_all;

    assert(d.take(i as int) == d);
    s
}

/// Tables, with their columns folded into the body so a column-name
/// search reaches its table.
pub open spec fn table_doc(t: TableSourceView) -> DocView {
    DocView {
        title: t.name,
        body: columns_text(t.columns),
        kind: "table"@,
        subject_kind: Seq::empty(),
        subject_id: t.id,
        file: t.file,
    }
}

fn index_table(t: &TableSource) -> (r: Doc)
    ensures
        r.deep_view() == table_doc(t.deep_view()),
{
    let d = Doc {
        title: t.name.clone(),
        body: write_columns(&t.columns),
        kind: owned("table"),
        subject_kind: String::new(),
        subject_id: t.id,
        file: t.file.clone(),
    };
    assert(d.deep_view() =~= table_doc(t.deep_view()));
    d
}

/// Entrypoints: addr is the headline, name and doc the searchable body.
pub open spec fn entry_doc(e: EntrySourceView) -> DocView {
    DocView {
        title: match e.addr {
            Some(a) => a,
            None => e.name,
        },
        body: joined(present(Some(e.name), e.doc), "\n"@),
        kind: "entrypoint"@,
        subject_kind: e.kind,
        subject_id: e.id,
        file: e.file,
    }
}

fn index_entry(e: &EntrySource) -> (r: Doc)
    ensures
        r.deep_view() == entry_doc(e.deep_view()),
{
    let title = match &e.addr {
        Some(a) => a.clone(),
        None => e.name.clone(),
    };
    let parts = collect_present(Some(e.name.clone()), e.doc.clone());
    Doc {
        title,
        body: join(&parts, "\n"),
        kind: owned("entrypoint"),
        subject_kind: e.kind.clone(),
        subject_id: e.id,
        file: e.file.clone(),
    }
}

pub open spec fn domain_doc(d: DomainSourceView) -> DocView {
    DocView {
        title: match d.label {
            Some(l) => l,
            None => d.key,
        },
        body: joined(present(Some(d.key), d.rationale), "\n"@),
        kind: "domain"@,
        subject_kind: Seq::empty(),
        subject_id: d.id,
        file: None,
    }
}

fn index_domain(d: &DomainSource) -> (r: Doc)
    ensures
        r.deep_view() == domain_doc(d.deep_view()),
{
    let title = match &d.label {
        Some(l) => l.clone(),
        None => d.key.clone(),
    };
    let parts = collect_present(Some(d.key.clone()), d.rationale.clone());
    let doc = Doc {
        title,
        body: join(&parts, "\n"),
        kind: owned("domain"),
        subject_kind: String::new(),
        subject_id: d.id,
        file: None,
    };
    assert(doc.deep_view() =~= domain_doc(d.deep_view()));
    doc
}

/// Notes are indexed, insights among them only once a human has confirmed them.
pub open spec fn is_searchable(kind: Seq<char>, status: Seq<char>) -> bool {
    !is_kind(kind) || status == "confirmed"@
}

pub open spec fn note_doc(n: NoteSourceView) -> Option<DocView> {
    if is_searchable(n.kind, n.status) {
        Some(
            DocView {
                title: n.title,
                body: n.body,
                kind: "note"@,
                subject_kind: n.kind,
                subject_id: n.id,
                file: None,
            },
        )
    } else {
        None
    }
}

fn index_note(n: &NoteSource) -> (r: Option<Doc>)
    ensures
        r.deep_view() == note_doc(n.deep_view()),
{
    if is_insight(n.kind.as_str()) && !same(n.status.as_str(), "confirmed") {
        return None;
    }
    let d = Doc {
        title: n.title.clone(),
        body: n.body.clone(),
        kind: owned("note"),
        subject_kind: n.kind.clone(),
        subject_id: n.id,
        file: None,
    };
    Some(d)
}

/// A term with its aliases as they were read.
pub open spec fn term_doc(t: TermSourceView, aliases: Seq<Seq<char>>) -> DocView {
    DocView {
        title: t.term,
        body: joined(present(t.definition, None) + aliases, "\n"@),
        kind: "glossary"@,
        subject_kind: Seq::empty(),
        subject_id: t.id,
        file: None,
    }
}

/// The row of a term, given its aliases.
pub fn index_term(t: &TermSource, aliases: &Vec<String>) -> (r: Doc)
    ensures
        r.deep_view() == term_doc(t.deep_view(), aliases.deep_view()),
{
    let ghost a = aliases.deep_view();
    let mut parts = collect_present(t.definition.clone(), None);
    let ghost start = parts.deep_view();
    let mut more = aliases.clone();
    let ghost m = more.deep_view();
    parts.append(&mut more);
    assert(parts.deep_view() =~= start + a);
    let doc = Doc {
        title: t.term.clone(),
        body: join(&parts, "\n"),
        kind: owned("glossary"),
        subject_kind: String::new(),
        subject_id: t.id,
        file: None,
    };
    assert(doc.deep_view() =~= term_doc(t.deep_view(), a));
    doc
}

/// The aliases of a term; none where they cannot be read.
pub open spec fn aliases_of(json: Option<Seq<char>>) -> Seq<Seq<char>> {
    match json {
        Some(j) => match json_strings(j) {
            Some(v) => v,
            None => Seq::empty(),
        },
        None => Seq::empty(),
    }
}

pub fn read_aliases(json: &Option<String>) -> (r: Vec<String>)
    ensures
        r.deep_view() == aliases_of(json.deep_view()),
{
    match json {
        Some(j) => match strings(j.as_str()) {
            Some(v) => v,
            None => {
                let e: Vec<String> = Vec::new();
                assert(e.deep_view() =~= Seq::<Seq<char>>::empty());
                e
            },
        },
        None => {
            let e: Vec<String> = Vec::new();
            assert(e.deep_view() =~= Seq::<Seq<char>>::empty());
            e
        },
    }
}

pub open spec fn commit_doc(c: CommitSourceView) -> DocView {
    DocView {
        title: c.subject,
        body: Seq::empty(),
        kind: "commit"@,
        subject_kind: Seq::empty(),
        subject_id: c.id,
        file: None,
    }
}

fn index_commit(c: &CommitSource) -> (r: Doc)
    ensures
        r.deep_view() == commit_doc(c.deep_view()),
{
    let d = Doc {
        title: c.subject.clone(),
        body: String::new(),
        kind: owned("commit"),
        subject_kind: String::new(),
        subject_id: c.id,
        file: None,
    };
    assert(d.deep_view() =~= commit_doc(c.deep_view()));
    d
}

// ---------------------------------------------------------------------------
// The whole index

fn add_files(out: &mut Vec<Doc>, v: &Vec<FileSource>)
    ensures
        final(out).deep_view() == old(out).deep_view() + v.deep_view().map_values(
            |x: FileSourceView| file_doc(x),
        ),
{
    let ghost start = out.deep_view();
    let ghost all = v.deep_view().map_values(|x: FileSourceView| file_doc(x));
    let mut i: usize = 0;
    assert(start + all.take(0) =~= start);
    while i < v.len()
        invariant
            i <= v.len(),
            all == v.deep_view().map_values(|x: FileSourceView| file_doc(x)),
            out.deep_view() == start + all.take(i as int),
        decreases v.len() - i,
    {
        let ghost before = out.deep_view();
        let d = index_file(&v[i]);
        let ghost dv = d.deep_view();
        assert(v.deep_view()[i as int] == v@[i as int].deep_view());
        assert(all[i as int] == dv);
        out.push(d);
        assert(out.deep_view() =~= before.push(dv));
        i += 1;
        assert(start + all.take(i as int) =~= before.push(dv));
    }
    assert(all.take(i as int) =~= all);
}

fn add_symbols(out: &mut Vec<Doc>, v: &Vec<SymbolSource>)
    ensures
        final(out).deep_view() == old(out).deep_view() + v.deep_view().map_values(
            |x: SymbolSourceView| symbol_doc(x),
        ),
{
    let ghost start = out.deep_view();
    let ghost all = v.deep_view().map_values(|x: SymbolSourceView| symbol_doc(x));
    let mut i: usize = 0;
    assert(start + all.take(0) =~= start);
    while i < v.len()
        invariant
            i <= v.len(),
            all == v.deep_view().map_values(|x: SymbolSourceView| symbol_doc(x)),
            out.deep_view() == start + all.take(i as int),
        decreases v.len() - i,
    {
        let ghost before = out.deep_view();
        let d = index_symbol(&v[i]);
        let ghost dv = d.deep_view();
        assert(v.deep_view()[i as int] == v@[i as int].deep_view());
        assert(all[i as int] == dv);
        out.push(d);
        assert(out.deep_view() =~= before.push(dv));
        i += 1;
        assert(start + all.take(i as int) =~= before.push(dv));
    }
    assert(all.take(i as int) =~= all);
}

fn add_tables(out: &mut Vec<Doc>, v: &Vec<TableSource>)
    ensures
        final(out).deep_view() == old(out).deep_view() + v.deep_view().map_values(
            |x: TableSourceView| table_doc(x),
        ),
{
    let ghost start = out.deep_view();
    let ghost all = v.deep_view().map_values(|x: TableSourceView| table_doc(x));
    let mut i: usize = 0;
    assert(start + all.take(0) =~= start);
    while i < v.len()
        invariant
            i <= v.len(),
            all == v.deep_view().map_values(|x: TableSourceView| table_doc(x)),
            out.deep_view() == start + all.take(i as int),
        decreases v.len() - i,
    {
        let ghost before = out.deep_view();
        let d = index_table(&v[i]);
        let ghost dv = d.deep_view();
        assert(v.deep_view()[i as int] == v@[i as int].deep_view());
        assert(all[i as int] == dv);
        out.push(d);
        assert(out.deep_view() =~= before.push(dv));
        i += 1;
        assert(start + all.take(i as int) =~= before.push(dv));
    }
    assert(all.take(i as int) =~= all);
}

fn add_entries(out: &mut Vec<Doc>, v: &Vec<EntrySource>)
    ensures
        final(out).deep_view() == old(out).deep_view() + v.deep_view().map_values(
            |x: EntrySourceView| entry_doc(x),
        ),
{
    let ghost start = out.deep_view();
    let ghost all = v.deep_view().map_values(|x: EntrySourceView| entry_doc(x));
    let mut i: usize = 0;
    assert(start + all.take(0) =~= start);
    while i < v.len()
        invariant
            i <= v.len(),
            all == v.deep_view().map_values(|x: EntrySourceView| entry_doc(x)),
            out.deep_view() == start + all.take(i as int),
        decreases v.len() - i,
    {
        let ghost before = out.deep_view();
        let d = index_entry(&v[i]);
        let ghost dv = d.deep_view();
        assert(v.deep_view()[i as int] == v@[i as int].deep_view());
        assert(all[i as int] == dv);
        out.push(d);
        assert(out.deep_view() =~= before.push(dv));
        i += 1;
        assert(start + all.take(i as int) =~= before.push(dv));
    }
    assert(all.take(i as int) =~= all);
}

fn add_domains(out: &mut Vec<Doc>, v: &Vec<DomainSource>)
    ensures
        final(out).deep_view() == old(out).deep_view() + v.deep_view().map_values(
            |x: DomainSourceView| domain_doc(x),
        ),
{
    let ghost start = out.deep_view();
    let ghost all = v.deep_view().map_values(|x: DomainSourceView| domain_doc(x));
    let mut i: usize = 0;
    assert(start + all.take(0) =~= start);
    while i < v.len()
        invariant
            i <= v.len(),
            all == v.deep_view().map_values(|x: DomainSourceView| domain_doc(x)),
            out.deep_view() == start + all.take(i as int),
        decreases v.len() - i,
    {
        let ghost before = out.deep_view();
        let d = index_domain(&v[i]);
        let ghost dv = d.deep_view();
        assert(v.deep_view()[i as int] == v@[i as int].deep_view());
        assert(all[i as int] == dv);
        out.push(d);
        assert(out.deep_view() =~= before.push(dv));
        i += 1;
        assert(start + all.take(i as int) =~= before.push(dv));
    }
    assert(all.take(i as int) =~= all);
}

fn add_terms(out: &mut Vec<Doc>, v: &Vec<TermSource>)
    ensures
        final(out).deep_view() == old(out).deep_view() + v.deep_view().map_values(
            |x: TermSourceView| term_doc(x, aliases_of(x.aliases_json)),
        ),
{
    let ghost start = out.deep_view();
    let ghost all = v.deep_view().map_values(|x: TermSourceView| term_doc(x, aliases_of(x.aliases_json)));
    let mut i: usize = 0;
    assert(start + all.take(0) =~= start);
    while i < v.len()
        invariant
            i <= v.len(),
            all == v.deep_view().map_values(|x: TermSourceView| term_doc(x, aliases_of(x.aliases_json))),
            out.deep_view() == start + all.take(i as int),
        decreases v.len() - i,
    {
        let ghost before = out.deep_view();
        let d = index_term(&v[i], &read_aliases(&v[i].aliases_json));
        let ghost dv = d.deep_view();
        assert(v.deep_view()[i as int] == v@[i as int].deep_view());
        assert(all[i as int] == dv);
        out.push(d);
        assert(out.deep_view() =~= before.push(dv));
        i += 1;
        assert(start + all.take(i as int) =~= before.push(dv));
    }
    assert(all.take(i as int) =~= all);
}

fn add_commits(out: &mut Vec<Doc>, v: &Vec<CommitSource>)
    ensures
        final(out).deep_view() == old(out).deep_view() + v.deep_view().map_values(
            |x: CommitSourceView| commit_doc(x),
        ),
{
    let ghost start = out.deep_view();
    let ghost all = v.deep_view().map_values(|x: CommitSourceView| commit_doc(x));
    let mut i: usize = 0;
    assert(start + all.take(0) =~= start);
    while i < v.len()
        invariant
            i <= v.len(),
            all == v.deep_view().map_values(|x: CommitSourceView| commit_doc(x)),
            out.deep_view() == start + all.take(i as int),
        decreases v.len() - i,
    {
        let ghost before = out.deep_view();
        let d = index_commit(&v[i]);
        let ghost dv = d.deep_view();
        assert(v.deep_view()[i as int] == v@[i as int].deep_view());
        assert(all[i as int] == dv);
        out.push(d);
        assert(out.deep_view() =~= before.push(dv));
        i += 1;
        assert(start + all.take(i as int) =~= before.push(dv));
    }
    assert(all.take(i as int) =~= all);
}

fn add_notes(out: &mut Vec<Doc>, v: &Vec<NoteSource>)
    ensures
        final(out).deep_view() == old(out).deep_view() + pick(
            v.deep_view(),
            |n: NoteSourceView| note_doc(n),
        ),
{
    let ghost start = out.deep_view();
    let ghost d = v.deep_view();
    let ghost f = |n: NoteSourceView| note_doc(n);
    let mut i: usize = 0;
    assert(start + pick(d.take(0), f) =~= start);
    while i < v.len()
        invariant
            i <= v.len(),
            d == v.deep_view(),
            f == (|n: NoteSourceView| note_doc(n)),
            out.deep_view() == start + pick(d.take(i as int), f),
        decreases v.len() - i,
    {
        broadcast use take_next;

        let ghost before = out.deep_view();
        let ghost so_far = pick(d.take(i as int), f);
        assert(d[i as int] == v@[i as int].deep_view());
        assert(d.take(i + 1).last() == d[i as int]);
        assert(f(d[i as int]) == note_doc(d[i as int]));
        match index_note(&v[i]) {
            Some(x) => {
                let ghost dv = x.deep_view();
                out.push(x);
                assert(out.deep_view() =~= before.push(dv));
                assert(start + so_far.push(dv) =~= before.push(dv));
            },
            None => {},
        }
        i += 1;
    }
    broadcast use take_all;

    assert(d.take(i as int) == d);
}

/// What the index holds.
pub open spec fn index_of(s: SourcesView) -> Seq<DocView> {
    s.files.map_values(|f: FileSourceView| file_doc(f)) + s.symbols.map_values(
        |x: SymbolSourceView| symbol_doc(x),
    ) + s.tables.map_values(|t: TableSourceView| table_doc(t)) + s.entrypoints.map_values(
        |e: EntrySourceView| entry_doc(e),
    ) + s.domains.map_values(|d: DomainSourceView| domain_doc(d)) + pick(
        s.notes,
        |n: NoteSourceView| note_doc(n),
    ) + s.terms.map_values(
        |t: TermSourceView| term_doc(t, aliases_of(t.aliases_json)),
    ) + s.commits.map_values(|c: CommitSourceView| commit_doc(c))
}

/// The rows of the search index for the current contents of the database. They replace
/// whatever the index held.
pub fn rebuild(s: &Sources) -> (r: Vec<Doc>)
    ensures
        r.deep_view() == index_of(s.deep_view()),
{
    let mut out: Vec<Doc> = Vec::new();
    assert(out.deep_view() =~= Seq::empty());
    add_files(&mut out, &s.files);
    assert(out.deep_view() =~= s.deep_view().files.map_values(|f: FileSourceView| file_doc(f)));
    add_symbols(&mut out, &s.symbols);
    add_tables(&mut out, &s.tables);
    add_entries(&mut out, &s.entrypoints);
    add_domains(&mut out, &s.domains);
    add_notes(&mut out, &s.notes);
    add_terms(&mut out, &s.terms);
    add_commits(&mut out, &s.commits);
    out
}

// ---------------------------------------------------------------------------
// Querying

/// How the index is asked.
#[derive(Debug, PartialEq, Eq)]
pub enum Query {
    /// Substring scan of title and body with a `LIKE` pattern, in which `\` escapes.
    Like(String),
    /// Full-text match with an FTS5 phrase.
    Phrase(String),
}

/// The words of the query, with one space between them.
pub open spec fn normalized(text: Seq<char>) -> Seq<char> {
    joined(words_of(text), " "@)
}

pub open spec fn escaped(s: Seq<char>) -> Seq<char> {
    replaced(replaced(replaced(s, '\\', "\\\\"@), '%', "\\%"@), '_', "\\_"@)
}

/// Escape a literal for use inside a `LIKE` pattern, so `%`, `_` and `\` in the
/// query match themselves rather than acting as wildcards.
pub fn escape_like(s: &str) -> (r: String)
    ensures
        r@ == escaped(s@),
{
    let a = replace(s, '\\', "\\\\");
    let b = replace(a.as_str(), '%', "\\%");
    replace(b.as_str(), '_', "\\_")
}

pub open spec fn phrase_of(s: Seq<char>) -> Seq<char> {
    "\""@ + replaced(s, '"', "\"\""@) + "\""@
}

/// Wrap the query as an FTS5 phrase so none of its characters are parsed as
/// match syntax. Inside a quoted phrase only `"` is special, doubled to escape.
pub fn to_fts_query(text: &str) -> (r: String)
    ensures
        r@ == phrase_of(text@),
{
    let mut s = owned("\"");
    s.append(replace(text, '"', "\"\"").as_str());
    s.append("\"");
    s
}

/// How to search the index for a text.
///
/// Trigram needs three contiguous characters or more to form a single token, so a one-
/// or two-character query would match nothing — an especially bad failure for
/// CJK, where two characters is a complete business term (特价). Those short
/// queries fall back to a substring scan over the same columns.
pub fn query(text: &str) -> (r: Result<Query, String>)
    ensures
        match r {
            Ok(Query::Like(p)) => 0 < normalized(text@).len() < 3 && p@ == "%"@ + escaped(
                normalized(text@),
            ) + "%"@,
            Ok(Query::Phrase(p)) => normalized(text@).len() >= 3 && p@ == phrase_of(
                normalized(text@),
            ),
            Err(e) => normalized(text@).len() == 0 && e@ == "查询词为空"@,
        },
{
    let q = join(&words(text), " ");
    let n: usize = q.as_str().unicode_len();
    if n == 0 {
        return Err(owned("查询词为空"));
    }
    if n < 3 {
        let mut p = owned("%");
        p.append(escape_like(q.as_str()).as_str());
        p.append("%");
        return Ok(Query::Like(p));
    }
    Ok(Query::Phrase(to_fts_query(q.as_str())))
}

/// How much of a body a hit shows.
pub const SNIPPET_CHARS: usize = 160;

pub open spec fn hit_of(d: DocView) -> HitView {
    HitView {
        kind: d.kind,
        subject_kind: d.subject_kind,
        subject_id: d.subject_id,
        title: d.title,
        snippet: truncated(d.body, SNIPPET_CHARS as int),
        file: d.file,
    }
}

/// The hit that shows a row of the index.
pub fn hit(d: &Doc) -> (r: Hit)
    ensures
        r.deep_view() == hit_of(d.deep_view()),
{
    Hit {
        kind: d.kind.clone(),
        subject_kind: d.subject_kind.clone(),
        subject_id: d.subject_id,
        title: d.title.clone(),
        snippet: truncate_chars(d.body.as_str(), SNIPPET_CHARS),
        file: d.file.clone(),
    }
}

// ---------------------------------------------------------------------------
// Labels

pub open spec fn symbol_name(kind: Seq<char>) -> Seq<char> {
    if kind == "class"@ {
        "类"@
    } else if kind == "interface"@ {
        "接口"@
    } else if kind == "enum"@ {
        "枚举"@
    } else if kind == "enum_member"@ {
        "枚举值"@
    } else if kind == "method"@ {
        "方法"@
    } else if kind == "field"@ {
        "字段"@
    } else if kind == "constant"@ {
        "常量"@
    } else if kind == "annotation"@ {
        "注解"@
    } else if kind == "record"@ {
        "记录"@
    } else {
        kind
    }
}

fn symbol_label(kind: &str) -> (r: String)
    ensures
        r@ == symbol_name(kind@),
{
    if same(kind, "class") {
        owned("类")
    } else if same(kind, "interface") {
        owned("接口")
    } else if same(kind, "enum") {
        owned("枚举")
    } else if same(kind, "enum_member") {
        owned("枚举值")
    } else if same(kind, "method") {
        owned("方法")
    } else if same(kind, "field") {
        owned("字段")
    } else if same(kind, "constant") {
        owned("常量")
    } else if same(kind, "annotation") {
        owned("注解")
    } else if same(kind, "record") {
        owned("记录")
    } else {
        owned(kind)
    }
}

pub open spec fn entrypoint_name(kind: Seq<char>) -> Seq<char> {
    if kind == "dubbo"@ {
        "Dubbo"@
    } else if kind == "http"@ {
        "HTTP"@
    } else if kind == "job"@ {
        "任务"@
    } else if kind == "mq"@ {
        "MQ"@
    } else {
        kind
    }
}

fn entrypoint_label(kind: &str) -> (r: String)
    ensures
        r@ == entrypoint_name(kind@),
{
    if same(kind, "dubbo") {
        owned("Dubbo")
    } else if same(kind, "http") {
        owned("HTTP")
    } else if same(kind, "job") {
        owned("任务")
    } else if same(kind, "mq") {
        owned("MQ")
    } else {
        owned(kind)
    }
}

pub open spec fn file_name(lang: Seq<char>) -> Seq<char> {
    if lang == "java"@ {
        "Java"@
    } else if lang == "xml"@ {
        "XML"@
    } else if lang == "properties"@ {
        "properties"@
    } else if lang == "yaml"@ {
        "YAML"@
    } else if lang == "sql"@ {
        "SQL"@
    } else {
        lang
    }
}

fn file_label(lang: &str) -> (r: String)
    ensures
        r@ == file_name(lang@),
{
    if same(lang, "java") {
        owned("Java")
    } else if same(lang, "xml") {
        owned("XML")
    } else if same(lang, "properties") {
        owned("properties")
    } else if same(lang, "yaml") {
        owned("YAML")
    } else if same(lang, "sql") {
        owned("SQL")
    } else {
        owned(lang)
    }
}

/// The head of a hit's label, and what is said more precisely.
pub open spec fn label_parts(kind: Seq<char>, sub: Seq<char>) -> (Seq<char>, Seq<char>) {
    if kind == "symbol"@ {
        ("符号"@, symbol_name(sub))
    } else if kind == "entrypoint"@ {
        ("入口"@, entrypoint_name(sub))
    } else if kind == "file"@ {
        ("文件"@, file_name(sub))
    } else if kind == "table"@ {
        ("数据表"@, Seq::empty())
    } else if kind == "domain"@ {
        ("领域"@, Seq::empty())
    } else if kind == "note"@ {
        ("文档"@, sub)
    } else if kind == "glossary"@ {
        ("术语"@, Seq::empty())
    } else if kind == "commit"@ {
        ("提交"@, Seq::empty())
    } else {
        (kind, sub)
    }
}

pub open spec fn label_of(kind: Seq<char>, sub: Seq<char>) -> Seq<char> {
    let p = label_parts(kind, sub);
    if p.1.len() == 0 {
        p.0
    } else {
        p.0 + "·"@ + p.1
    }
}

/// Human label for a hit, e.g. `符号·方法` or `入口·Dubbo`.
pub fn label(kind: &str, subject_kind: &str) -> (r: String)
    ensures
        r@ == label_of(kind@, subject_kind@),
{
    let mut head = owned(kind);
    let mut sub = owned(subject_kind);
    if same(kind, "symbol") {
        head = owned("符号");
        sub = symbol_label(subject_kind);
    } else if same(kind, "entrypoint") {
        head = owned("入口");
        sub = entrypoint_label(subject_kind);
    } else if same(kind, "file") {
        head = owned("文件");
        sub = file_label(subject_kind);
    } else if same(kind, "table") {
        head = owned("数据表");
        sub = String::new();
    } else if same(kind, "domain") {
        head = owned("领域");
        sub = String::new();
    } else if same(kind, "note") {
        head = owned("文档");
    } else if same(kind, "glossary") {
        head = owned("术语");
        sub = String::new();
    } else if same(kind, "commit") {
        head = owned("提交");
        sub = String::new();
    }
    if !sub.as_str().is_empty() {
        head.append("·");
        head.append(sub.as_str());
    }
    head
}

// ---------------------------------------------------------------------------
// Laws

/// What a `LIKE` pattern without wildcards matches: `\` stands for the character after
/// it. None where a wildcard is left, or a `\` at the end.
pub open spec fn literal_of(p: Seq<char>) -> Option<Seq<char>>
    decreases p.len(),
{
    if p.len() == 0 {
        Some(Seq::empty())
    } else if p[0] == '%' || p[0] == '_' {
        None
    } else if p[0] == '\\' {
        if p.len() == 1 {
            None
        } else {
            match literal_of(p.skip(2)) {
                Some(rest) => Some(seq![p[1]] + rest),
                None => None,
            }
        }
    } else {
        match literal_of(p.skip(1)) {
            Some(rest) => Some(seq![p[0]] + rest),
            None => None,
        }
    }
}

/// The escape of one character.
spec fn escape_char(c: char) -> Seq<char> {
    if c == '\\' || c == '%' || c == '_' {
        seq!['\\', c]
    } else {
        seq![c]
    }
}

proof fn escaped_one(x: char)
    ensures
        escaped(seq![x]) == escape_char(x),
{
    reveal_strlit("\\\\");
    reveal_strlit("\\%");
    reveal_strlit("\\_");
    let a = replaced(seq![x], '\\', "\\\\"@);
    replaced_one(x, '\\', "\\\\"@);
    if x == '\\' {
        assert("\\\\"@ =~= seq!['\\'] + seq!['\\']);
        replaced_concat(seq!['\\'], seq!['\\'], '%', "\\%"@);
        replaced_one('\\', '%', "\\%"@);
        replaced_concat(seq!['\\'], seq!['\\'], '_', "\\_"@);
        replaced_one('\\', '_', "\\_"@);
        assert(escaped(seq![x]) =~= escape_char(x));
    } else {
        replaced_one(x, '%', "\\%"@);
        if x == '%' {
            assert("\\%"@ =~= seq!['\\'] + seq!['%']);
            replaced_concat(seq!['\\'], seq!['%'], '_', "\\_"@);
            replaced_one('\\', '_', "\\_"@);
            replaced_one('%', '_', "\\_"@);
            assert(escaped(seq![x]) =~= escape_char(x));
        } else {
            replaced_one(x, '_', "\\_"@);
            assert(escaped(seq![x]) =~= escape_char(x));
        }
    }
}

proof fn escaped_concat(a: Seq<char>, b: Seq<char>)
    ensures
        escaped(a + b) == escaped(a) + escaped(b),
{
    replaced_concat(a, b, '\\', "\\\\"@);
    let x = replaced(a, '\\', "\\\\"@);
    let y = replaced(b, '\\', "\\\\"@);
    replaced_concat(x, y, '%', "\\%"@);
    replaced_concat(replaced(x, '%', "\\%"@), replaced(y, '%', "\\%"@), '_', "\\_"@);
}

/// An escaped text has no wildcard left: as a pattern it matches just itself.
pub proof fn escaped_matches_itself(s: Seq<char>)
    ensures
        literal_of(escaped(s)) == Some(s),
    decreases s.len(),
{
    if s.len() == 0 {
        assert(escaped(s) =~= Seq::empty());
        assert(s =~= Seq::empty());
    } else {
        let x = s[0];
        let rest = s.skip(1);
        assert(s =~= seq![x] + rest);
        escaped_concat(seq![x], rest);
        escaped_one(x);
        escaped_matches_itself(rest);
        let e = escaped(s);
        let k = escape_char(x).len() as int;
        assert(e.skip(k) =~= escaped(rest));
        assert(e[0] == escape_char(x)[0]);
        if k == 2 {
            assert(e[1] == x);
        }
        assert(literal_of(e) =~= Some(seq![x] + rest));
    }
}

/// What the inside of an FTS5 phrase stands for: two quotes stand for one. None where
/// a single quote would end the phrase.
pub open spec fn unquoted(p: Seq<char>) -> Option<Seq<char>>
    decreases p.len(),
{
    if p.len() == 0 {
        Some(Seq::empty())
    } else if p[0] == '"' {
        if p.len() == 1 || p[1] != '"' {
            None
        } else {
            match unquoted(p.skip(2)) {
                Some(rest) => Some(seq!['"'] + rest),
                None => None,
            }
        }
    } else {
        match unquoted(p.skip(1)) {
            Some(rest) => Some(seq![p[0]] + rest),
            None => None,
        }
    }
}

/// A phrase stands for the whole query and nothing else.
pub proof fn phrase_is_query(s: Seq<char>)
    ensures
        phrase_of(s).len() >= 2,
        phrase_of(s)[0] == '"',
        phrase_of(s).last() == '"',
        unquoted(phrase_of(s).subrange(1, phrase_of(s).len() - 1)) == Some(s),
{
    reveal_strlit("\"");
    let inner = replaced(s, '"', "\"\""@);
    assert(phrase_of(s).subrange(1, phrase_of(s).len() - 1) =~= inner);
    doubled(s);
}

proof fn doubled(s: Seq<char>)
    ensures
        unquoted(replaced(s, '"', "\"\""@)) == Some(s),
    decreases s.len(),
{
    reveal_strlit("\"\"");
    if s.len() == 0 {
        assert(s =~= Seq::empty());
    } else {
        let x = s[0];
        let rest = s.skip(1);
        assert(s =~= seq![x] + rest);
        replaced_concat(seq![x], rest, '"', "\"\""@);
        replaced_one(x, '"', "\"\""@);
        doubled(rest);
        let e = replaced(s, '"', "\"\""@);
        let k: int = if x == '"' {
            2
        } else {
            1
        };
        assert(e.skip(k) =~= replaced(rest, '"', "\"\""@));
        assert(unquoted(e) =~= Some(seq![x] + rest));
    }
}

/// A note in the index is one that may be searched: no insight is there that a human
/// has not confirmed.
pub proof fn indexed_notes_are_searchable(s: SourcesView, k: int)
    requires
        0 <= k < index_of(s).len(),
        index_of(s)[k].kind == "note"@,
    ensures
        exists|i: int|
            0 <= i < s.notes.len() && note_doc(#[trigger] s.notes[i]) == Some(index_of(s)[k])
                && is_searchable(s.notes[i].kind, s.notes[i].status),
{
    reveal_strlit("note");
    reveal_strlit("file");
    reveal_strlit("symbol");
    reveal_strlit("table");
    reveal_strlit("entrypoint");
    reveal_strlit("domain");
    reveal_strlit("glossary");
    reveal_strlit("commit");
    assert("file"@[0] == 'f' && "note"@[0] == 'n');
    let f = |n: NoteSourceView| note_doc(n);
    let files = s.files.map_values(|f: FileSourceView| file_doc(f));
    let symbols = s.symbols.map_values(|x: SymbolSourceView| symbol_doc(x));
    let tables = s.tables.map_values(|t: TableSourceView| table_doc(t));
    let entries = s.entrypoints.map_values(|e: EntrySourceView| entry_doc(e));
    let domains = s.domains.map_values(|d: DomainSourceView| domain_doc(d));
    let notes = pick(s.notes, f);
    let terms = s.terms.map_values(|t: TermSourceView| term_doc(t, aliases_of(t.aliases_json)));
    let commits = s.commits.map_values(|c: CommitSourceView| commit_doc(c));
    let before = files + symbols + tables + entries + domains;
    assert(index_of(s) == before + notes + terms + commits);
    let d = index_of(s)[k];
    if k < before.len() {
        assert(d == before[k]);
        if k < files.len() {
            assert(d.kind == "file"@);
        } else if k < files.len() + symbols.len() {
            assert(d == symbols[k - files.len()]);
            assert(d.kind == "symbol"@);
        } else if k < files.len() + symbols.len() + tables.len() {
            assert(d == tables[k - files.len() - symbols.len()]);
            assert(d.kind == "table"@);
        } else if k < before.len() - domains.len() {
            assert(d == entries[k - files.len() - symbols.len() - tables.len()]);
            assert(d.kind == "entrypoint"@);
        } else {
            assert(d == domains[k - (before.len() - domains.len())]);
            assert(d.kind == "domain"@);
        }
    } else if k < before.len() + notes.len() {
        assert(d == notes[k - before.len()]);
        picked_from(s.notes, f, k - before.len());
    } else if k < before.len() + notes.len() + terms.len() {
        assert(d == terms[k - before.len() - notes.len()]);
        assert(d.kind == "glossary"@);
    } else {
        assert(d == commits[k - before.len() - notes.len() - terms.len()]);
        assert(d.kind == "commit"@);
    }
}

proof fn picked_from<T, U>(s: Seq<T>, f: spec_fn(T) -> Option<U>, k: int)
    requires
        0 <= k < pick(s, f).len(),
    ensures
        exists|i: int| 0 <= i < s.len() && f(#[trigger] s[i]) == Some(pick(s, f)[k]),
    decreases s.len(),
{
    let rest = pick(s.drop_last(), f);
    if k < rest.len() {
        picked_from(s.drop_last(), f, k);
        let i = choose|i: int|
            0 <= i < s.drop_last().len() && f(#[trigger] s.drop_last()[i]) == Some(rest[k]);
        assert(f(s[i]) == Some(pick(s, f)[k]));
    } else {
        assert(f(s[s.len() - 1]) == Some(pick(s, f)[k]));
    }
}

/// A confirmed insight, and every other note, is in the index.
pub proof fn confirmed_indexed(s: SourcesView, i: int)
    requires
        0 <= i < s.notes.len(),
        !is_kind(s.notes[i].kind) || s.notes[i].status == "confirmed"@,
    ensures
        note_doc(s.notes[i]) is Some,
        index_of(s).contains(note_doc(s.notes[i])->0),
{
    let f = |n: NoteSourceView| note_doc(n);
    let d = note_doc(s.notes[i])->0;
    picked(s.notes, f, i);
    let part = pick(s.notes, f);
    let k = choose|k: int| 0 <= k < part.len() && part[k] == d;
    let before = s.files.map_values(|f: FileSourceView| file_doc(f)) + s.symbols.map_values(
        |x: SymbolSourceView| symbol_doc(x),
    ) + s.tables.map_values(|t: TableSourceView| table_doc(t)) + s.entrypoints.map_values(
        |e: EntrySourceView| entry_doc(e),
    ) + s.domains.map_values(|d: DomainSourceView| domain_doc(d));
    let after = s.terms.map_values(|t: TermSourceView| term_doc(t, aliases_of(t.aliases_json)));
    let last = s.commits.map_values(|c: CommitSourceView| commit_doc(c));
    assert(index_of(s) == before + part + after + last);
    assert(index_of(s)[before.len() + k] == d);
}

proof fn picked<T, U>(s: Seq<T>, f: spec_fn(T) -> Option<U>, i: int)
    requires
        0 <= i < s.len(),
        f(s[i]) is Some,
    ensures
        pick(s, f).contains(f(s[i])->0),
    decreases s.len(),
{
    let rest = pick(s.drop_last(), f);
    if i == s.len() - 1 {
        assert(pick(s, f)[rest.len() as int] == f(s[i])->0);
    } else {
        assert(s.drop_last()[i] == s[i]);
        picked(s.drop_last(), f, i);
        let k = choose|k: int| 0 <= k < rest.len() && rest[k] == f(s[i])->0;
        assert(pick(s, f)[k] == f(s[i])->0);
    }
}

} // verus!


//! Per-domain pages and the domain map.
//!
//! Without L2 notes these pages still carry the domain's tables, entrypoints,
//! state enums and hot files — enough to orient someone in an unfamiliar area.
//! When notes exist they are placed above the evidence, not instead of it.
use crate::idmap::IdMap;
use crate::json::{json_lists, lists};
use crate::lists::{flat, pick, take_all, take_next};
use crate::number::{decimal_i64, integer_of, parse_i64, signed};
use crate::render::{cell, cell_of, given_or, summarize, summary_of, text_or};
use crate::split::{after_last, before_first, cut_once, head_of, join, joined, split_once, tail_of};
use crate::text::{owned, same, trim, trimmed};
use crate::textmap::{entries_of, TextMap};
use vstd::prelude::*;

verus! {

/// A domain with the sizes of what it holds.
#[derive(Debug)]
pub struct DomainRow {
    pub key: String,
    pub label: Option<String>,
    /// Mean vote share of its files, to two decimals.
    pub confidence: String,
    pub files: i64,
    pub tables: i64,
    pub entrypoints: i64,
}

/// The content of a [`DomainRow`].
#[verifier::ext_equal]
pub struct DomainRowView {
    pub key: Seq<char>,
    pub label: Option<Seq<char>>,
    pub confidence: Seq<char>,
    pub files: i64,
    pub tables: i64,
    pub entrypoints: i64,
}

impl DeepView for DomainRow {
    type V = DomainRowView;

    open spec fn deep_view(&self) -> DomainRowView {
        DomainRowView {
            key: self.key.deep_view(),
            label: self.label.deep_view(),
            confidence: self.confidence.deep_view(),
            files: self.files,
            tables: self.tables,
            entrypoints: self.entrypoints,
        }
    }
}

impl Clone for DomainRow {
    fn clone(&self) -> (r: Self)
        ensures
            r.deep_view() == self.deep_view(),
    {
        DomainRow {
            key: self.key.clone(),
            label: self.label.clone(),
            confidence: self.confidence.clone(),
            files: self.files,
            tables: self.tables,
            entrypoints: self.entrypoints,
        }
    }
}

/// A note on a domain.
#[derive(Debug)]
pub struct DomainNote {
    /// Title, or kind where there is none.
    pub title: String,
    pub body: String,
}

/// The content of a [`DomainNote`].
#[verifier::ext_equal]
pub struct DomainNoteView {
    pub title: Seq<char>,
    pub body: Seq<char>,
}

impl DeepView for DomainNote {
    type V = DomainNoteView;

    open spec fn deep_view(&self) -> DomainNoteView {
        DomainNoteView {
            title: self.title.deep_view(),
            body: self.body.deep_view(),
        }
    }
}

impl Clone for DomainNote {
    fn clone(&self) -> (r: Self)
        ensures
            r.deep_view() == self.deep_view(),
    {
        DomainNote {
            title: self.title.clone(),
            body: self.body.clone(),
        }
    }
}

/// A table of a domain.
#[derive(Debug)]
pub struct DomainTable {
    pub name: String,
    pub columns: i64,
}

/// The content of a [`DomainTable`].
#[verifier::ext_equal]
pub struct DomainTableView {
    pub name: Seq<char>,
    pub columns: i64,
}

impl DeepView for DomainTable {
    type V = DomainTableView;

    open spec fn deep_view(&self) -> DomainTableView {
        DomainTableView {
            name: self.name.deep_view(),
            columns: self.columns,
        }
    }
}

impl Clone for DomainTable {
    fn clone(&self) -> (r: Self)
        ensures
            r.deep_view() == self.deep_view(),
    {
        DomainTable {
            name: self.name.clone(),
            columns: self.columns,
        }
    }
}

/// An entrypoint of a domain.
#[derive(Debug)]
pub struct DomainEntry {
    pub kind: String,
    pub addr: String,
    pub doc: Option<String>,
}

/// The content of a [`DomainEntry`].
#[verifier::ext_equal]
pub struct DomainEntryView {
    pub kind: Seq<char>,
    pub addr: Seq<char>,
    pub doc: Option<Seq<char>>,
}

impl DeepView for DomainEntry {
    type V = DomainEntryView;

    open spec fn deep_view(&self) -> DomainEntryView {
        DomainEntryView {
            kind: self.kind.deep_view(),
            addr: self.addr.deep_view(),
            doc: self.doc.deep_view(),
        }
    }
}

impl Clone for DomainEntry {
    fn clone(&self) -> (r: Self)
        ensures
            r.deep_view() == self.deep_view(),
    {
        DomainEntry {
            kind: self.kind.clone(),
            addr: self.addr.clone(),
            doc: self.doc.clone(),
        }
    }
}

/// A documented enum member or constant of a domain.
#[derive(Debug)]
pub struct DomainConstant {
    pub owner: String,
    pub name: String,
    pub signature: Option<String>,
    pub doc: Option<String>,
}

/// The content of a [`DomainConstant`].
#[verifier::ext_equal]
pub struct DomainConstantView {
    pub owner: Seq<char>,
    pub name: Seq<char>,
    pub signature: Option<Seq<char>>,
    pub doc: Option<Seq<char>>,
}

impl DeepView for DomainConstant {
    type V = DomainConstantView;

    open spec fn deep_view(&self) -> DomainConstantView {
        DomainConstantView {
            owner: self.owner.deep_view(),
            name: self.name.deep_view(),
            signature: self.signature.deep_view(),
            doc: self.doc.deep_view(),
        }
    }
}

impl Clone for DomainConstant {
    fn clone(&self) -> (r: Self)
        ensures
            r.deep_view() == self.deep_view(),
    {
        DomainConstant {
            owner: self.owner.clone(),
            name: self.name.clone(),
            signature: self.signature.clone(),
            doc: self.doc.clone(),
        }
    }
}

/// A trace from an entrypoint of a domain.
#[derive(Debug)]
pub struct DomainTrace {
    pub kind: String,
    pub addr: String,
    pub labels: Vec<String>,
    /// Names of the tables that it reaches.
    pub tables: Vec<String>,
}

/// The content of a [`DomainTrace`].
#[verifier::ext_equal]
pub struct DomainTraceView {
    pub kind: Seq<char>,
    pub addr: Seq<char>,
    pub labels: Seq<Seq<char>>,
    pub tables: Seq<Seq<char>>,
}

impl DeepView for DomainTrace {
    type V = DomainTraceView;

    open spec fn deep_view(&self) -> DomainTraceView {
        DomainTraceView {
            kind: self.kind.deep_view(),
            addr: self.addr.deep_view(),
            labels: self.labels.deep_view(),
            tables: self.tables.deep_view(),
        }
    }
}

impl Clone for DomainTrace {
    fn clone(&self) -> (r: Self)
        ensures
            r.deep_view() == self.deep_view(),
    {
        DomainTrace {
            kind: self.kind.clone(),
            addr: self.addr.clone(),
            labels: self.labels.clone(),
            tables: self.tables.clone(),
        }
    }
}

/// A file of a domain that changes often.
#[derive(Debug)]
pub struct HotFile {
    pub path: String,
    pub commits: i64,
    pub last: Option<String>,
}

/// The content of a [`HotFile`].
#[verifier::ext_equal]
pub struct HotFileView {
    pub path: Seq<char>,
    pub commits: i64,
    pub last: Option<Seq<char>>,
}

impl DeepView for HotFile {
    type V = HotFileView;

    open spec fn deep_view(&self) -> HotFileView {
        HotFileView {
            path: self.path.deep_view(),
            commits: self.commits,
            last: self.last.deep_view(),
        }
    }
}

impl Clone for HotFile {
    fn clone(&self) -> (r: Self)
        ensures
            r.deep_view() == self.deep_view(),
    {
        HotFile {
            path: self.path.clone(),
            commits: self.commits,
            last: self.last.clone(),
        }
    }
}

// ---------------------------------------------------------------------------
// The map

pub open spec fn map_row(d: DomainRowView) -> Seq<char> {
    "| ["@
        + given_or(d.label, d.key)
        + "](domains/"@
        + d.key
        + ".md) | "@
        + signed(d.files as int)
        + " | "@
        + signed(d.tables as int)
        + " | "@
        + signed(d.entrypoints as int)
        + " | "@
        + d.confidence
        + " |\n"@
}

fn write_map_row(d: &DomainRow) -> (r: String)
    ensures
        r@ == map_row(d.deep_view()),
{
    let mut s = owned("| [");
    s.append(text_or(&d.label, d.key.as_str()).as_str());
    s.append("](domains/");
    s.append(d.key.as_str());
    s.append(".md) | ");
    s.append(decimal_i64(d.files).as_str());
    s.append(" | ");
    s.append(decimal_i64(d.tables).as_str());
    s.append(" | ");
    s.append(decimal_i64(d.entrypoints).as_str());
    s.append(" | ");
    s.append(d.confidence.as_str());
    s.append(" |\n");
    s
}


fn add_map_rows(s: &mut String, v: &Vec<DomainRow>)
    ensures
        final(s)@ == old(s)@ + flat(v.deep_view(), |x: DomainRowView| map_row(x)),
{
    let ghost start = s@;
    let ghost d = v.deep_view();
    let ghost f = |x: DomainRowView| map_row(x);
    let mut i: usize = 0;
    assert(start + flat(d.take(0), f) =~= start);
    while i < v.len()
        invariant
            i <= v.len(),
            d == v.deep_view(),
            f == (|x: DomainRowView| map_row(x)),
            s@ == start + flat(d.take(i as int), f),
        decreases v.len() - i,
    {
        broadcast use take_next;

        let ghost so_far = flat(d.take(i as int), f);
        assert(d[i as int] == v@[i as int].deep_view());
        assert(d.take(i + 1).last() == d[i as int]);
        let line = write_map_row(&v[i]);
        assert(f(d[i as int]) == line@);
        s.append(line.as_str());
        assert(start + (so_far + line@) =~= (start + so_far) + line@);
        i += 1;
    }
    broadcast use take_all;

    assert(d.take(i as int) == d);
}


pub const MAP_INTRO: &'static str = "## 业务领域地图\n\n领域由包结构、表名前缀、git 共变和调用关系四路信号加权投票得出，`置信度` 是该领域文件投票的平均集中度——偏低说明这块代码的归属本身就是模糊的，值得人工确认。想覆盖自动结果，编辑 `.codeatlas/domains.toml` 后重新 `catlas build`。\n\n| 领域 | 文件 | 表 | 入口 | 置信度 |\n|---|---|---|---|---|\n";

pub open spec fn map_text(domains: Seq<DomainRowView>) -> Seq<char> {
    MAP_INTRO@ + flat(domains, |x: DomainRowView| map_row(x))
}

/// The domain map, embedded in the README.
pub fn index_section(domains: &Vec<DomainRow>) -> (r: String)
    ensures
        r@ == map_text(domains.deep_view()),
{
    let mut s = owned(MAP_INTRO);
    add_map_rows(&mut s, domains);
    s
}

// ---------------------------------------------------------------------------
// Sections of a page

pub open spec fn head_text(d: DomainRowView) -> Seq<char> {
    "# "@
        + given_or(d.label, d.key)
        + "\n\n> 领域键 `"@
        + d.key
        + "` · "@
        + signed(d.files as int)
        + " 个文件 · "@
        + signed(d.tables as int)
        + " 张表 · "@
        + signed(d.entrypoints as int)
        + " 个入口 · 划分置信度 "@
        + d.confidence
        + "\n\n"@
}

fn write_head(d: &DomainRow) -> (r: String)
    ensures
        r@ == head_text(d.deep_view()),
{
    let mut s = owned("# ");
    s.append(text_or(&d.label, d.key.as_str()).as_str());
    s.append("\n\n> 领域键 `");
    s.append(d.key.as_str());
    s.append("` · ");
    s.append(decimal_i64(d.files).as_str());
    s.append(" 个文件 · ");
    s.append(decimal_i64(d.tables).as_str());
    s.append(" 张表 · ");
    s.append(decimal_i64(d.entrypoints).as_str());
    s.append(" 个入口 · 划分置信度 ");
    s.append(d.confidence.as_str());
    s.append("\n\n");
    s
}


pub open spec fn note_text(n: DomainNoteView) -> Seq<char> {
    "## "@
        + n.title
        + "\n\n"@
        + n.body
        + "\n\n"@
}

fn write_note(n: &DomainNote) -> (r: String)
    ensures
        r@ == note_text(n.deep_view()),
{
    let mut s = owned("## ");
    s.append(n.title.as_str());
    s.append("\n\n");
    s.append(n.body.as_str());
    s.append("\n\n");
    s
}


fn add_notes(s: &mut String, v: &Vec<DomainNote>)
    ensures
        final(s)@ == old(s)@ + flat(v.deep_view(), |x: DomainNoteView| note_text(x)),
{
    let ghost start = s@;
    let ghost d = v.deep_view();
    let ghost f = |x: DomainNoteView| note_text(x);
    let mut i: usize = 0;
    assert(start + flat(d.take(0), f) =~= start);
    while i < v.len()
        invariant
            i <= v.len(),
            d == v.deep_view(),
            f == (|x: DomainNoteView| note_text(x)),
            s@ == start + flat(d.take(i as int), f),
        decreases v.len() - i,
    {
        broadcast use take_next;

        let ghost so_far = flat(d.take(i as int), f);
        assert(d[i as int] == v@[i as int].deep_view());
        assert(d.take(i + 1).last() == d[i as int]);
        let line = write_note(&v[i]);
        assert(f(d[i as int]) == line@);
        s.append(line.as_str());
        assert(start + (so_far + line@) =~= (start + so_far) + line@);
        i += 1;
    }
    broadcast use take_all;

    assert(d.take(i as int) == d);
}


pub open spec fn no_notes_text(d: DomainRowView) -> Seq<char> {
    "*尚未生成领域解读。运行 `catlas deepen --domain "@
        + d.key
        + "` 后本节会填入职责、生命周期、业务规则与已知陷阱。以下是确定性事实。*\n\n"@
}

fn write_no_notes(d: &DomainRow) -> (r: String)
    ensures
        r@ == no_notes_text(d.deep_view()),
{
    let mut s = owned("*尚未生成领域解读。运行 `catlas deepen --domain ");
    s.append(d.key.as_str());
    s.append("` 后本节会填入职责、生命周期、业务规则与已知陷阱。以下是确定性事实。*\n\n");
    s
}


/// L2 narrative first when present, since it explains what the evidence means.
pub open spec fn narrative_text(d: DomainRowView, notes: Seq<DomainNoteView>) -> Seq<char> {
    if notes.len() == 0 {
        no_notes_text(d)
    } else {
        Seq::empty() + flat(notes, |x: DomainNoteView| note_text(x)) + "---\n\n"@
    }
}

fn write_narrative(d: &DomainRow, notes: &Vec<DomainNote>) -> (r: String)
    ensures
        r@ == narrative_text(d.deep_view(), notes.deep_view()),
{
    if notes.len() == 0 {
        return write_no_notes(d);
    }
    let mut s = String::new();
    assert(s@ =~= Seq::empty());
    add_notes(&mut s, notes);
    s.append("---\n\n");
    s
}

pub open spec fn table_line(t: DomainTableView) -> Seq<char> {
    "- `"@
        + t.name
        + "`（"@
        + signed(t.columns as int)
        + " 字段）→ 详见 [reference/tables.md](../reference/tables.md)\n"@
}

fn write_table(t: &DomainTable) -> (r: String)
    ensures
        r@ == table_line(t.deep_view()),
{
    let mut s = owned("- `");
    s.append(t.name.as_str());
    s.append("`（");
    s.append(decimal_i64(t.columns).as_str());
    s.append(" 字段）→ 详见 [reference/tables.md](../reference/tables.md)\n");
    s
}


fn add_tables(s: &mut String, v: &Vec<DomainTable>)
    ensures
        final(s)@ == old(s)@ + flat(v.deep_view(), |x: DomainTableView| table_line(x)),
{
    let ghost start = s@;
    let ghost d = v.deep_view();
    let ghost f = |x: DomainTableView| table_line(x);
    let mut i: usize = 0;
    assert(start + flat(d.take(0), f) =~= start);
    while i < v.len()
        invariant
            i <= v.len(),
            d == v.deep_view(),
            f == (|x: DomainTableView| table_line(x)),
            s@ == start + flat(d.take(i as int), f),
        decreases v.len() - i,
    {
        broadcast use take_next;

        let ghost so_far = flat(d.take(i as int), f);
        assert(d[i as int] == v@[i as int].deep_view());
        assert(d.take(i + 1).last() == d[i as int]);
        let line = write_table(&v[i]);
        assert(f(d[i as int]) == line@);
        s.append(line.as_str());
        assert(start + (so_far + line@) =~= (start + so_far) + line@);
        i += 1;
    }
    broadcast use take_all;

    assert(d.take(i as int) == d);
}


pub open spec fn tables_text(rows: Seq<DomainTableView>) -> Seq<char> {
    if rows.len() == 0 {
        Seq::empty()
    } else {
        "## 数据表\n\n"@ + flat(rows, |x: DomainTableView| table_line(x)) + "\n"@
    }
}

fn tables_section(rows: &Vec<DomainTable>) -> (r: String)
    ensures
        r@ == tables_text(rows.deep_view()),
{
    let mut s = String::new();
    if rows.len() == 0 {
        assert(s@ =~= Seq::empty());
        return s;
    }
    s = owned("## 数据表\n\n");
    add_tables(&mut s, rows);
    s.append("\n");
    s
}

pub open spec fn kind_name(kind: Seq<char>) -> Seq<char> {
    if kind == "dubbo"@ {
        "Dubbo"@
    } else if kind == "http"@ {
        "HTTP"@
    } else if kind == "job"@ {
        "定时"@
    } else if kind == "mq"@ {
        "消息"@
    } else {
        "其它"@
    }
}

fn kind_label(kind: &str) -> (r: &'static str)
    ensures
        r@ == kind_name(kind@),
{
    if same(kind, "dubbo") {
        "Dubbo"
    } else if same(kind, "http") {
        "HTTP"
    } else if same(kind, "job") {
        "定时"
    } else if same(kind, "mq") {
        "消息"
    } else {
        "其它"
    }
}

pub open spec fn entry_line(e: DomainEntryView) -> Seq<char> {
    "| "@
        + kind_name(e.kind)
        + " | `"@
        + cell_of(e.addr)
        + "` | "@
        + summary_of(e.doc, 60)
        + " |\n"@
}

fn write_entry(e: &DomainEntry) -> (r: String)
    ensures
        r@ == entry_line(e.deep_view()),
{
    let mut s = owned("| ");
    s.append(kind_label(e.kind.as_str()));
    s.append(" | `");
    s.append(cell(e.addr.as_str()).as_str());
    s.append("` | ");
    s.append(summarize(&e.doc, 60).as_str());
    s.append(" |\n");
    s
}


fn add_entries(s: &mut String, v: &Vec<DomainEntry>)
    ensures
        final(s)@ == old(s)@ + flat(v.deep_view(), |x: DomainEntryView| entry_line(x)),
{
    let ghost start = s@;
    let ghost d = v.deep_view();
    let ghost f = |x: DomainEntryView| entry_line(x);
    let mut i: usize = 0;
    assert(start + flat(d.take(0), f) =~= start);
    while i < v.len()
        invariant
            i <= v.len(),
            d == v.deep_view(),
            f == (|x: DomainEntryView| entry_line(x)),
            s@ == start + flat(d.take(i as int), f),
        decreases v.len() - i,
    {
        broadcast use take_next;

        let ghost so_far = flat(d.take(i as int), f);
        assert(d[i as int] == v@[i as int].deep_view());
        assert(d.take(i + 1).last() == d[i as int]);
        let line = write_entry(&v[i]);
        assert(f(d[i as int]) == line@);
        s.append(line.as_str());
        assert(start + (so_far + line@) =~= (start + so_far) + line@);
        i += 1;
    }
    broadcast use take_all;

    assert(d.take(i as int) == d);
}


pub open spec fn entries_text(rows: Seq<DomainEntryView>) -> Seq<char> {
    if rows.len() == 0 {
        Seq::empty()
    } else {
        "## 入口\n\n| 类型 | 入口 | 说明 |\n|---|---|---|\n"@ + flat(
            rows,
            |x: DomainEntryView| entry_line(x),
        ) + "\n"@
    }
}

fn entrypoints_section(rows: &Vec<DomainEntry>) -> (r: String)
    ensures
        r@ == entries_text(rows.deep_view()),
{
    let mut s = String::new();
    if rows.len() == 0 {
        assert(s@ =~= Seq::empty());
        return s;
    }
    s = owned("## 入口\n\n| 类型 | 入口 | 说明 |\n|---|---|---|\n");
    add_entries(&mut s, rows);
    s.append("\n");
    s
}

/// The value that a signature gives, where it gives one.
pub open spec fn value_in(sig: Option<Seq<char>>) -> Option<Seq<char>> {
    match sig {
        Some(x) => match cut_once(x, '=') {
            Some(p) => Some(trimmed(p.1)),
            None => None,
        },
        None => None,
    }
}

pub open spec fn constant_line(c: DomainConstantView) -> Seq<char> {
    match value_in(c.signature) {
        Some(v) => "- `"@ + c.name + "` = `"@ + v + "` — "@ + summary_of(c.doc, 60) + "\n"@,
        None => "- `"@ + c.name + "` — "@ + summary_of(c.doc, 60) + "\n"@,
    }
}

fn write_constant(c: &DomainConstant) -> (r: String)
    ensures
        r@ == constant_line(c.deep_view()),
{
    let mut s = owned("- `");
    s.append(c.name.as_str());
    match &c.signature {
        Some(x) => match split_once(x.as_str(), '=') {
            Some(p) => {
                s.append("` = `");
                s.append(trim(p.1));
                s.append("` — ");
            },
            None => {
                s.append("` — ");
            },
        },
        None => {
            s.append("` — ");
        },
    }
    s.append(summarize(&c.doc, 60).as_str());
    s.append("\n");
    s
}

/// How many constants a page shows. Long constant classes would swamp the page; the
/// reference sheets and `catlas query` cover the full set.
pub const MAX_CONSTANTS: usize = 80;

/// The constants from `i` on, under the name of the type that holds them; `current` is
/// the type of the one before.
pub open spec fn constants_from(
    rows: Seq<DomainConstantView>,
    i: int,
    current: Seq<char>,
) -> Seq<char>
    decreases rows.len() - i,
{
    if i < 0 || i >= rows.len() {
        Seq::empty()
    } else if i >= MAX_CONSTANTS {
        "\n*（其余常量请用 `catlas query` 检索）*\n\n"@
    } else {
        let heading = if rows[i].owner != current {
            "\n**"@ + rows[i].owner + "**\n\n"@
        } else {
            Seq::empty()
        };
        heading + constant_line(rows[i]) + constants_from(rows, i + 1, rows[i].owner)
    }
}

/// Enums and constant groups owned by the domain.
///
/// In these projects the state machine lives in an enum or a `static final`
/// block with a Chinese comment per value, and that comment is usually the only
/// written description of the business states.
pub open spec fn enums_text(rows: Seq<DomainConstantView>) -> Seq<char> {
    if rows.len() == 0 {
        Seq::empty()
    } else {
        "## 状态与常量\n\n取自代码注释，是业务状态语义的原始出处。\n\n"@ + constants_from(
            rows,
            0,
            Seq::empty(),
        ) + "\n"@
    }
}

fn enums_section(rows: &Vec<DomainConstant>) -> (r: String)
    ensures
        r@ == enums_text(rows.deep_view()),
{
    let mut s = String::new();
    if rows.len() == 0 {
        assert(s@ =~= Seq::empty());
        return s;
    }
    s = owned("## 状态与常量\n\n取自代码注释，是业务状态语义的原始出处。\n\n");
    let ghost d = rows.deep_view();
    let ghost whole = s@ + constants_from(d, 0, Seq::empty());
    let mut current = String::new();
    assert(current@ =~= Seq::empty());
    let mut i: usize = 0;
    let mut done = false;
    while i < rows.len() && !done
        invariant
            i <= rows.len(),
            d == rows.deep_view(),
            !done ==> whole == s@ + constants_from(d, i as int, current@),
            done ==> whole == s@,
        decreases rows.len() - i + (if done {
            0int
        } else {
            1int
        }),
    {
        let ghost before = s@;
        let ghost cur = current@;
        let c = &rows[i];
        assert(d[i as int] == c.deep_view());
        if i >= MAX_CONSTANTS {
            s.append("\n*（其余常量请用 `catlas query` 检索）*\n\n");
            done = true;
        } else {
            let ghost rest = constants_from(d, i + 1, c.owner@);
            if !same(c.owner.as_str(), current.as_str()) {
                let mut h = owned("\n**");
                h.append(c.owner.as_str());
                h.append("**\n\n");
                s.append(h.as_str());
                current = c.owner.clone();
                assert(whole =~= s@ + constant_line(c.deep_view()) + rest);
            } else {
                assert(whole =~= s@ + constant_line(c.deep_view()) + rest);
            }
            let ghost mid = s@;
            s.append(write_constant(c).as_str());
            assert(whole =~= s@ + rest);
            i += 1;
        }
    }
    assert(whole =~= s@);
    s.append("\n");
    s
}

// ---------------------------------------------------------------------------
// Traces

pub open spec fn indent_of(n: nat) -> Seq<char>
    decreases n,
{
    if n == 0 {
        Seq::empty()
    } else {
        indent_of((n - 1) as nat) + "  "@
    }
}

/// `a.b.C#m` rendered as `C#m`, which is what a reader needs in a path listing.
pub fn method_label(fqn: &str) -> (r: String)
    ensures
        r@ == tail_of(fqn@, '.'),
{
    owned(after_last(fqn, '.'))
}

/// The first `n` hops, each a step deeper.
pub open spec fn hops(labels: Seq<Seq<char>>, n: nat) -> Seq<char>
    decreases n,
{
    if n == 0 || n > labels.len() {
        Seq::empty()
    } else {
        hops(labels, (n - 1) as nat) + indent_of((n - 1) as nat) + tail_of(labels[n - 1], '.')
            + "\n"@
    }
}

pub open spec fn code_text(t: Seq<char>) -> Seq<char> {
    "`"@
        + t
        + "`"@
}

fn write_code(t: &str) -> (r: String)
    ensures
        r@ == code_text(t@),
{
    let mut s = owned("`");
    s.append(t);
    s.append("`");
    s
}


pub open spec fn codes_of(names: Seq<Seq<char>>) -> Seq<Seq<char>> {
    names.map_values(|t: Seq<char>| code_text(t))
}

fn code_all(names: &Vec<String>) -> (r: Vec<String>)
    ensures
        r.deep_view() == codes_of(names.deep_view()),
{
    let ghost all = codes_of(names.deep_view());
    let mut out: Vec<String> = Vec::new();
    let mut i: usize = 0;
    assert(out.deep_view() =~= all.take(0));
    while i < names.len()
        invariant
            i <= names.len(),
            all == codes_of(names.deep_view()),
            out.deep_view() == all.take(i as int),
        decreases names.len() - i,
    {
        let ghost before = out.deep_view();
        let c = write_code(names[i].as_str());
        let ghost x = c@;
        assert(names.deep_view()[i as int] == names@[i as int]@);
        assert(all[i as int] == x);
        out.push(c);
        assert(out.deep_view() =~= before.push(x));
        i += 1;
        assert(all.take(i as int) =~= before.push(x));
    }
    assert(all.take(i as int) =~= all);
    out
}

pub open spec fn trace_text(t: DomainTraceView) -> Seq<char> {
    let head = "**["@ + kind_name(t.kind) + "] `"@ + cell_of(t.addr) + "`**\n\n```\n"@ + hops(
        t.labels,
        t.labels.len(),
    ) + "```\n"@;
    if t.tables.len() == 0 {
        head
    } else {
        head + "→ 触达表："@ + joined(codes_of(t.tables), "、"@) + "\n\n"@
    }
}

fn write_trace(t: &DomainTrace) -> (r: String)
    ensures
        r@ == trace_text(t.deep_view()),
{
    let mut s = owned("**[");
    s.append(kind_label(t.kind.as_str()));
    s.append("] `");
    s.append(cell(t.addr.as_str()).as_str());
    s.append("`**\n\n```\n");
    let ghost labels = t.labels.deep_view();
    let ghost start = s@;
    let mut indent = String::new();
    let mut i: usize = 0;
    assert(indent@ =~= indent_of(0));
    assert(start + hops(labels, 0) =~= start);
    while i < t.labels.len()
        invariant
            i <= t.labels.len(),
            labels == t.labels.deep_view(),
            indent@ == indent_of(i as nat),
            s@ == start + hops(labels, i as nat),
        decreases t.labels.len() - i,
    {
        let ghost so_far = hops(labels, i as nat);
        let l = method_label(t.labels[i].as_str());
        assert(labels[i as int] == t.labels@[i as int]@);
        s.append(indent.as_str());
        s.append(l.as_str());
        s.append("\n");
        assert(s@ =~= start + (so_far + indent@ + l@ + "\n"@));
        indent.append("  ");
        i += 1;
    }
    s.append("```\n");
    if t.tables.len() > 0 {
        s.append("→ 触达表：");
        s.append(join(&code_all(&t.tables), "、").as_str());
        s.append("\n\n");
    }
    s
}

fn add_traces(s: &mut String, v: &Vec<DomainTrace>)
    ensures
        final(s)@ == old(s)@ + flat(v.deep_view(), |x: DomainTraceView| trace_text(x)),
{
    let ghost start = s@;
    let ghost d = v.deep_view();
    let ghost f = |x: DomainTraceView| trace_text(x);
    let mut i: usize = 0;
    assert(start + flat(d.take(0), f) =~= start);
    while i < v.len()
        invariant
            i <= v.len(),
            d == v.deep_view(),
            f == (|x: DomainTraceView| trace_text(x)),
            s@ == start + flat(d.take(i as int), f),
        decreases v.len() - i,
    {
        broadcast use take_next;

        let ghost so_far = flat(d.take(i as int), f);
        assert(d[i as int] == v@[i as int].deep_view());
        assert(d.take(i + 1).last() == d[i as int]);
        let line = write_trace(&v[i]);
        assert(f(d[i as int]) == line@);
        s.append(line.as_str());
        assert(start + (so_far + line@) =~= (start + so_far) + line@);
        i += 1;
    }
    broadcast use take_all;

    assert(d.take(i as int) == d);
}


/// Entrypoint-to-table paths, the flows that make a domain legible.
pub open spec fn traces_text(rows: Seq<DomainTraceView>) -> Seq<char> {
    if rows.len() == 0 {
        Seq::empty()
    } else {
        "## 关键链路\n\n从入口到数据表的调用路径，含接口到实现的动态分发跳转。\n\n"@ + flat(
            rows,
            |x: DomainTraceView| trace_text(x),
        )
    }
}

fn traces_section(rows: &Vec<DomainTrace>) -> (r: String)
    ensures
        r@ == traces_text(rows.deep_view()),
{
    let mut s = String::new();
    if rows.len() == 0 {
        assert(s@ =~= Seq::empty());
        return s;
    }
    s = owned("## 关键链路\n\n从入口到数据表的调用路径，含接口到实现的动态分发跳转。\n\n");
    add_traces(&mut s, rows);
    s
}

// ---------------------------------------------------------------------------
// Hot files

pub open spec fn hot_line(f: HotFileView) -> Seq<char> {
    "| `"@
        + f.path
        + "` | "@
        + signed(f.commits as int)
        + " | "@
        + head_of(given_or(f.last, "—"@), 'T')
        + " |\n"@
}

fn write_hot(f: &HotFile) -> (r: String)
    ensures
        r@ == hot_line(f.deep_view()),
{
    let mut s = owned("| `");
    s.append(f.path.as_str());
    s.append("` | ");
    s.append(decimal_i64(f.commits).as_str());
    s.append(" | ");
    s.append(before_first(text_or(&f.last, "—").as_str(), 'T'));
    s.append(" |\n");
    s
}


fn add_hot(s: &mut String, v: &Vec<HotFile>)
    ensures
        final(s)@ == old(s)@ + flat(v.deep_view(), |x: HotFileView| hot_line(x)),
{
    let ghost start = s@;
    let ghost d = v.deep_view();
    let ghost f = |x: HotFileView| hot_line(x);
    let mut i: usize = 0;
    assert(start + flat(d.take(0), f) =~= start);
    while i < v.len()
        invariant
            i <= v.len(),
            d == v.deep_view(),
            f == (|x: HotFileView| hot_line(x)),
            s@ == start + flat(d.take(i as int), f),
        decreases v.len() - i,
    {
        broadcast use take_next;

        let ghost so_far = flat(d.take(i as int), f);
        assert(d[i as int] == v@[i as int].deep_view());
        assert(d.take(i + 1).last() == d[i as int]);
        let line = write_hot(&v[i]);
        assert(f(d[i as int]) == line@);
        s.append(line.as_str());
        assert(start + (so_far + line@) =~= (start + so_far) + line@);
        i += 1;
    }
    broadcast use take_all;

    assert(d.take(i as int) == d);
}


/// Files changed most often in the mined history: where the risk lives.
pub open spec fn hot_text(rows: Seq<HotFileView>) -> Seq<char> {
    if rows.len() == 0 {
        Seq::empty()
    } else {
        "## 改动最频繁的文件\n\n改动次数高说明业务在持续演进，也说明这些文件最容易踩坑。\n\n| 文件 | 改动次数 | 最近改动 |\n|---|---|---|\n"@
            + flat(rows, |x: HotFileView| hot_line(x)) + "\n"@
    }
}

fn hot_files_section(rows: &Vec<HotFile>) -> (r: String)
    ensures
        r@ == hot_text(rows.deep_view()),
{
    let mut s = String::new();
    if rows.len() == 0 {
        assert(s@ =~= Seq::empty());
        return s;
    }
    s = owned("## 改动最频繁的文件\n\n改动次数高说明业务在持续演进，也说明这些文件最容易踩坑。\n\n| 文件 | 改动次数 | 最近改动 |\n|---|---|---|\n");
    add_hot(&mut s, rows);
    s.append("\n");
    s
}

// ---------------------------------------------------------------------------
// The page

/// What a domain page is made from.
#[derive(Debug)]
pub struct PageSource {
    pub domain: DomainRow,
    pub notes: Vec<DomainNote>,
    pub tables: Vec<DomainTable>,
    pub entrypoints: Vec<DomainEntry>,
    pub constants: Vec<DomainConstant>,
    pub traces: Vec<DomainTrace>,
    pub hot_files: Vec<HotFile>,
}

/// The content of a [`PageSource`].
#[verifier::ext_equal]
pub struct PageSourceView {
    pub domain: DomainRowView,
    pub notes: Seq<DomainNoteView>,
    pub tables: Seq<DomainTableView>,
    pub entrypoints: Seq<DomainEntryView>,
    pub constants: Seq<DomainConstantView>,
    pub traces: Seq<DomainTraceView>,
    pub hot_files: Seq<HotFileView>,
}

impl DeepView for PageSource {
    type V = PageSourceView;

    open spec fn deep_view(&self) -> PageSourceView {
        PageSourceView {
            domain: self.domain.deep_view(),
            notes: self.notes.deep_view(),
            tables: self.tables.deep_view(),
            entrypoints: self.entrypoints.deep_view(),
            constants: self.constants.deep_view(),
            traces: self.traces.deep_view(),
            hot_files: self.hot_files.deep_view(),
        }
    }
}

impl Clone for PageSource {
    fn clone(&self) -> (r: Self)
        ensures
            r.deep_view() == self.deep_view(),
    {
        PageSource {
            domain: self.domain.clone(),
            notes: self.notes.clone(),
            tables: self.tables.clone(),
            entrypoints: self.entrypoints.clone(),
            constants: self.constants.clone(),
            traces: self.traces.clone(),
            hot_files: self.hot_files.clone(),
        }
    }
}

/// The page of one domain.
pub open spec fn page_text(p: PageSourceView) -> Seq<char> {
    head_text(p.domain)
        + narrative_text(p.domain, p.notes)
        + tables_text(p.tables)
        + entries_text(p.entrypoints)
        + enums_text(p.constants)
        + traces_text(p.traces)
        + hot_text(p.hot_files)
}

/// The page of one domain.
pub fn page(p: &PageSource) -> (r: String)
    ensures
        r@ == page_text(p.deep_view()),
{
    let mut s = owned(write_head(&p.domain).as_str());
    s.append(write_narrative(&p.domain, &p.notes).as_str());
    s.append(tables_section(&p.tables).as_str());
    s.append(entrypoints_section(&p.entrypoints).as_str());
    s.append(enums_section(&p.constants).as_str());
    s.append(traces_section(&p.traces).as_str());
    s.append(hot_files_section(&p.hot_files).as_str());
    s
}


// ---------------------------------------------------------------------------
// The tables of a trace

/// The name of the table with the id, where the id is one of a known table.
pub open spec fn table_named(names: Map<i64, Seq<char>>, id: Seq<char>) -> Option<Seq<char>> {
    match integer_of(id) {
        Some(n) => if names.dom().contains(n as i64) {
            Some(names[n as i64])
        } else {
            None
        },
        None => None,
    }
}

/// The names of the tables that a trace reaches, given by their ids.
pub fn tables_named(names: &IdMap<String>, tables: &TextMap<Vec<String>>) -> (r: Vec<String>)
    ensures
        r.deep_view() == pick(
            entries_of(tables.deep_view()),
            |t: (Seq<char>, Seq<Seq<char>>)| table_named(names.deep_view(), t.0),
        ),
{
    let ghost l = tables.list();
    let ghost nv = names.deep_view();
    let ghost f = |t: (Seq<char>, Seq<Seq<char>>)| table_named(nv, t.0);
    let n: usize = tables.len();
    let mut out: Vec<String> = Vec::new();
    let mut i: usize = 0;
    assert(out.deep_view() =~= pick(l.take(0), f));
    while i < n
        invariant
            i <= n,
            n == l.len(),
            l == tables.list(),
            nv == names.deep_view(),
            f == (|t: (Seq<char>, Seq<Seq<char>>)| table_named(nv, t.0)),
            out.deep_view() == pick(l.take(i as int), f),
        decreases n - i,
    {
        broadcast use take_next;

        let ghost before = out.deep_view();
        assert(l.take(i + 1).last() == l[i as int]);
        assert(f(l[i as int]) == table_named(nv, l[i as int].0));
        match parse_i64(tables.key_at(i).as_str()) {
            Some(id) => match names.get(&id) {
                Some(name) => {
                    let ghost x = name@;
                    out.push(name.clone());
                    assert(out.deep_view() =~= before.push(x));
                },
                None => {},
            },
            None => {},
        }
        i += 1;
    }
    broadcast use take_all;

    assert(l.take(i as int) == l);
    out
}

/// The names of the tables that a trace reaches, from the text that it was stored with:
/// an object with the tables' ids for keys.
pub fn trace_tables(names: &IdMap<String>, tables_json: &str) -> (r: Vec<String>)
    ensures
        r.deep_view() == pick(
            entries_of(json_lists(tables_json@)),
            |t: (Seq<char>, Seq<Seq<char>>)| table_named(names.deep_view(), t.0),
        ),
{
    tables_named(names, &lists(tables_json))
}

} // verus!


//! Project the database into Markdown for humans and for coding sessions.
//!
//! Markdown is a view, never the source of truth: rendering is safe to run
//! repeatedly and the output directory can be deleted without losing anything.
//! The pages are made here from the stored rows; writing them is the caller's.

pub mod claude_md;
pub mod domains;
pub mod glossary;
pub mod reference;



use crate::number::{decimal_i64, signed};
use crate::render::domains::{index_section, map_text, DomainRow, DomainRowView};
use crate::split::{lines, lines_of, replace, replaced};
use crate::text::{
    chars_of, has_prefix, is_white, owned, starts_with, string_of, trim, trim_start, trimmed,
    trimmed_end, trimmed_start,
};
use crate::util::{truncate_chars, truncated};
use vstd::prelude::*;

verus! {

/// Default output directory, relative to the project root.
pub const OUT_DIR: &'static str = ".knowledge";

/// What a rendering wrote.
#[derive(Debug)]
pub struct RenderStats {
    pub files_written: usize,
    pub out_dir: String,
}

/// The content of a [`RenderStats`].
#[verifier::ext_equal]
pub struct RenderStatsView {
    pub files_written: usize,
    pub out_dir: Seq<char>,
}

impl DeepView for RenderStats {
    type V = RenderStatsView;

    open spec fn deep_view(&self) -> RenderStatsView {
        RenderStatsView {
            files_written: self.files_written,
            out_dir: self.out_dir.deep_view(),
        }
    }
}

impl Clone for RenderStats {
    fn clone(&self) -> (r: Self)
        ensures
            r.deep_view() == self.deep_view(),
    {
        RenderStats {
            files_written: self.files_written,
            out_dir: self.out_dir.clone(),
        }
    }
}

/// The text, or what stands for a missing one.
pub open spec fn given_or(o: Option<Seq<char>>, other: Seq<char>) -> Seq<char> {
    match o {
        Some(s) => s,
        None => other,
    }
}

pub fn text_or(o: &Option<String>, other: &str) -> (r: String)
    ensures
        r@ == given_or(o.deep_view(), other@),
{
    match o {
        Some(s) => s.clone(),
        None => owned(other),
    }
}

// ---------------------------------------------------------------------------
// Cells

pub open spec fn cell_of(s: Seq<char>) -> Seq<char> {
    trimmed(replaced(replaced(s, '|', "\\|"@), '\n', " "@))
}

/// Escape a cell so a pipe in a Javadoc cannot break the table.
pub fn cell(s: &str) -> (r: String)
    ensures
        r@ == cell_of(s@),
{
    let a = replace(s, '|', "\\|");
    let b = replace(a.as_str(), '\n', " ");
    owned(trim(b.as_str()))
}

/// Whether a line of a doc comment says something about the member itself. Javadoc tag
/// lines describe parameters.
pub open spec fn is_prose(l: Seq<char>) -> bool {
    !has_prefix(trimmed_start(l), "@"@) && trimmed(l).len() > 0
}

/// The first line of prose, from line `i` on.
pub open spec fn prose_from(ls: Seq<Seq<char>>, i: int) -> Seq<char>
    decreases ls.len() - i,
{
    if i < 0 || i >= ls.len() {
        Seq::empty()
    } else if is_prose(ls[i]) {
        ls[i]
    } else {
        prose_from(ls, i + 1)
    }
}

/// Where the first sentence of `s` ends, at or after `i`.
pub open spec fn sentence_end(s: Seq<char>, i: int) -> int
    decreases s.len() - i,
{
    if i < 0 || i >= s.len() {
        s.len() as int
    } else if s[i] == '。' || s[i] == '；' {
        i
    } else {
        sentence_end(s, i + 1)
    }
}

pub open spec fn summary_of(doc: Option<Seq<char>>, max: int) -> Seq<char> {
    match doc {
        Some(d) => {
            let first = prose_from(lines_of(d), 0);
            cell_of(truncated(trimmed(first.take(sentence_end(first, 0))), max))
        },
        None => Seq::empty(),
    }
}

fn first_sentence(s: &str) -> (r: String)
    ensures
        r@ == s@.take(sentence_end(s@, 0)),
{
    let v = chars_of(s);
    let mut i: usize = 0;
    while i < v.len() && !(v[i] == '。' || v[i] == '；')
        invariant
            i <= v.len(),
            v@ == s@,
            sentence_end(s@, 0) == sentence_end(s@, i as int),
        decreases v.len() - i,
    {
        i += 1;
    }
    let r = string_of(&v, 0, i);
    assert(r@ =~= s@.take(i as int));
    r
}

/// First sentence or line of a doc comment, for table cells.
pub fn summarize(doc: &Option<String>, max: usize) -> (r: String)
    ensures
        r@ == summary_of(doc.deep_view(), max as int),
{
    match doc {
        None => {
            let e = String::new();
            assert(e@ =~= Seq::empty());
            e
        },
        Some(d) => {
            let ls = lines(d.as_str());
            let ghost lv = ls.deep_view();
            let mut first = String::new();
            let mut i: usize = 0;
            let mut found = false;
            assert(first@ =~= Seq::empty());
            while i < ls.len() && !found
                invariant
                    i <= ls.len(),
                    lv == ls.deep_view(),
                    !found ==> first@ == Seq::<char>::empty() && prose_from(lv, 0) == prose_from(
                        lv,
                        i as int,
                    ),
                    found ==> first@ == prose_from(lv, 0),
                decreases ls.len() - i,
            {
                assert(lv[i as int] == ls@[i as int]@);
                let l = ls[i].as_str();
                if !starts_with(trim_start(l), "@") && !trim(l).is_empty() {
                    first = owned(l);
                    found = true;
                }
                i += 1;
            }
            let s = first_sentence(first.as_str());
            cell(truncate_chars(trim(s.as_str()), max).as_str())
        },
    }
}

// ---------------------------------------------------------------------------
// The front page

/// How much of everything the knowledge base holds.
#[derive(Debug)]
pub struct Scale {
    pub modules: i64,
    pub files: i64,
    pub symbols: i64,
    pub tables: i64,
    pub entrypoints: i64,
    pub domains: i64,
}

/// The content of a [`Scale`].
#[verifier::ext_equal]
pub struct ScaleView {
    pub modules: i64,
    pub files: i64,
    pub symbols: i64,
    pub tables: i64,
    pub entrypoints: i64,
    pub domains: i64,
}

impl DeepView for Scale {
    type V = ScaleView;

    open spec fn deep_view(&self) -> ScaleView {
        ScaleView {
            modules: self.modules,
            files: self.files,
            symbols: self.symbols,
            tables: self.tables,
            entrypoints: self.entrypoints,
            domains: self.domains,
        }
    }
}

impl Clone for Scale {
    fn clone(&self) -> (r: Self)
        ensures
            r.deep_view() == self.deep_view(),
    {
        Scale {
            modules: self.modules,
            files: self.files,
            symbols: self.symbols,
            tables: self.tables,
            entrypoints: self.entrypoints,
            domains: self.domains,
        }
    }
}

/// The table of sizes.
pub open spec fn scale_text(c: ScaleView) -> Seq<char> {
    "## 规模\n\n| 项 | 数量 |\n|---|---|\n| 模块 | "@
        + signed(c.modules as int)
        + " |\n| 文件 | "@
        + signed(c.files as int)
        + " |\n| 符号 | "@
        + signed(c.symbols as int)
        + " |\n| 数据表 | "@
        + signed(c.tables as int)
        + " |\n| 入口 | "@
        + signed(c.entrypoints as int)
        + " |\n| 业务领域 | "@
        + signed(c.domains as int)
        + " |\n\n"@
}

fn write_scale(c: &Scale) -> (r: String)
    ensures
        r@ == scale_text(c.deep_view()),
{
    let mut s = owned("## 规模\n\n| 项 | 数量 |\n|---|---|\n| 模块 | ");
    s.append(decimal_i64(c.modules).as_str());
    s.append(" |\n| 文件 | ");
    s.append(decimal_i64(c.files).as_str());
    s.append(" |\n| 符号 | ");
    s.append(decimal_i64(c.symbols).as_str());
    s.append(" |\n| 数据表 | ");
    s.append(decimal_i64(c.tables).as_str());
    s.append(" |\n| 入口 | ");
    s.append(decimal_i64(c.entrypoints).as_str());
    s.append(" |\n| 业务领域 | ");
    s.append(decimal_i64(c.domains).as_str());
    s.append(" |\n\n");
    s
}


/// Where to look for what.
pub const HOW_TO: &'static str = "## 怎么用\n\n| 想知道什么 | 看哪里 |\n|---|---|\n| 某个业务领域怎么运作 | `domains/<领域>.md` |\n| 有哪些表、字段什么含义 | `reference/tables.md` |\n| 系统从哪里被调用 | `reference/entrypoints.md` |\n| 定时任务和消息消费 | `reference/jobs.md`、`reference/mq.md` |\n| 某个中文术语对应哪段代码 | `glossary.md` |\n| 精确检索 | `catlas query \"<关键词>\"` |\n\n";

/// The front page: what the project is, how large it is, where to look, and the map of
/// its domains.
pub open spec fn overview_text(name: Seq<char>, root: Seq<char>, now: Seq<char>, c: ScaleView, domains: Seq<DomainRowView>) -> Seq<char> {
    "# "@
        + name
        + " 业务领域知识库\n\n本目录由 [`catlas`](https://github.com/) 自动生成，**不要手工编辑**：内容会在下次 `catlas render` 时被覆盖。\n\n- 项目根目录：`"@
        + root
        + "`\n- 生成时间："@
        + now
        + "\n\n"@
        + scale_text(c)
        + HOW_TO@
        + map_text(domains)
}

/// The front page: what the project is, how large it is, where to look, and the map of
/// its domains.
pub fn overview(name: &str, root: &str, now: &str, c: &Scale, domains: &Vec<DomainRow>) -> (r: String)
    ensures
        r@ == overview_text(name@, root@, now@, c.deep_view(), domains.deep_view()),
{
    let mut s = owned("# ");
    s.append(name);
    s.append(" 业务领域知识库\n\n本目录由 [`catlas`](https://github.com/) 自动生成，**不要手工编辑**：内容会在下次 `catlas render` 时被覆盖。\n\n- 项目根目录：`");
    s.append(root);
    s.append("`\n- 生成时间：");
    s.append(now);
    s.append("\n\n");
    s.append(write_scale(c).as_str());
    s.append(HOW_TO);
    s.append(index_section(domains).as_str());
    s
}

// ---------------------------------------------------------------------------
// Laws

/// Whether every pipe of `s` stands behind a backslash.
pub open spec fn pipes_escaped(s: Seq<char>) -> bool {
    forall|i: int| 0 <= i < s.len() && #[trigger] s[i] == '|' ==> i > 0 && s[i - 1] == '\\'
}

proof fn escaping_pipes(s: Seq<char>)
    ensures
        pipes_escaped(replaced(s, '|', "\\|"@)),
    decreases s.len(),
{
    reveal_strlit("\\|");
    if s.len() > 0 {
        escaping_pipes(s.drop_last());
    }
}

proof fn newlines_become_spaces(s: Seq<char>)
    ensures
        replaced(s, '\n', " "@).len() == s.len(),
        forall|i: int|
            0 <= i < s.len() ==> #[trigger] replaced(s, '\n', " "@)[i] == (if s[i] == '\n' {
                ' '
            } else {
                s[i]
            }),
    decreases s.len(),
{
    reveal_strlit(" ");
    if s.len() > 0 {
        newlines_become_spaces(s.drop_last());
    }
}

/// What is trimmed off at the start is white space.
proof fn trimmed_start_is(s: Seq<char>) -> (a: int)
    ensures
        0 <= a <= s.len(),
        trimmed_start(s) == s.skip(a),
        forall|i: int| 0 <= i < a ==> is_white(#[trigger] s[i]),
    decreases s.len(),
{
    if s.len() > 0 && is_white(s[0]) {
        let a = trimmed_start_is(s.skip(1));
        assert(s.skip(1).skip(a) =~= s.skip(a + 1));
        assert forall|i: int| 0 <= i < a + 1 implies is_white(#[trigger] s[i]) by {
            if i > 0 {
                assert(s.skip(1)[i - 1] == s[i]);
            }
        }
        a + 1
    } else {
        assert(s.skip(0) =~= s);
        0
    }
}

proof fn trimmed_end_is(s: Seq<char>) -> (n: int)
    ensures
        0 <= n <= s.len(),
        trimmed_end(s) == s.take(n),
    decreases s.len(),
{
    if s.len() > 0 && is_white(s.last()) {
        let n = trimmed_end_is(s.drop_last());
        assert(s.drop_last().take(n) =~= s.take(n));
        n
    } else {
        assert(s.take(s.len() as int) =~= s);
        s.len() as int
    }
}

/// Whatever a cell is made from, it cannot break the table: it has no line break, and
/// every pipe in it is escaped.
pub proof fn cells_keep_the_table(s: Seq<char>)
    ensures
        !cell_of(s).contains('\n'),
        pipes_escaped(cell_of(s)),
{
    let a = replaced(s, '|', "\\|"@);
    let b = replaced(a, '\n', " "@);
    escaping_pipes(s);
    newlines_become_spaces(a);
    assert(pipes_escaped(b));
    let k = trimmed_start_is(b);
    let c = b.skip(k);
    let n = trimmed_end_is(c);
    let r = c.take(n);
    assert(cell_of(s) == r);
    assert forall|i: int| 0 <= i < r.len() && #[trigger] r[i] == '|' implies i > 0 && r[i - 1]
        == '\\' by {
        assert(b[k + i] == '|');
        assert(b[k + i - 1] == '\\');
        if i == 0 {
            assert(is_white(b[k - 1]));
        }
    }
    if r.contains('\n') {
        let i = choose|i: int| 0 <= i < r.len() && r[i] == '\n';
        assert(b[k + i] == '\n');
    }
}

} // verus!

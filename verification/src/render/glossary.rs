//! The glossary page: business vocabulary mapped to the code that implements it.
//!
//! For a project whose domain language is Chinese and whose identifiers are
//! English, this mapping is the single most reusable artefact: it is what lets a
//! newcomer — or an agent — go from a term in a ticket to the code that handles it.
use crate::number::{decimal_usize, digits};
use crate::render::{cell, cell_of, given_or, text_or};
use crate::search::{aliases_of, read_aliases};
use crate::split::{join, joined};
use crate::text::{owned, same};
use vstd::prelude::*;

verus! {

/// A stored term.
#[derive(Debug)]
pub struct TermRow {
    pub term: String,
    pub definition: Option<String>,
    /// The aliases as a JSON list.
    pub aliases_json: Option<String>,
    pub domain: Option<String>,
    pub status: String,
    /// The code that it stands for, in order.
    pub refs: Vec<String>,
}

/// The content of a [`TermRow`].
#[verifier::ext_equal]
pub struct TermRowView {
    pub term: Seq<char>,
    pub definition: Option<Seq<char>>,
    pub aliases_json: Option<Seq<char>>,
    pub domain: Option<Seq<char>>,
    pub status: Seq<char>,
    pub refs: Seq<Seq<char>>,
}

impl DeepView for TermRow {
    type V = TermRowView;

    open spec fn deep_view(&self) -> TermRowView {
        TermRowView {
            term: self.term.deep_view(),
            definition: self.definition.deep_view(),
            aliases_json: self.aliases_json.deep_view(),
            domain: self.domain.deep_view(),
            status: self.status.deep_view(),
            refs: self.refs.deep_view(),
        }
    }
}

impl Clone for TermRow {
    fn clone(&self) -> (r: Self)
        ensures
            r.deep_view() == self.deep_view(),
    {
        TermRow {
            term: self.term.clone(),
            definition: self.definition.clone(),
            aliases_json: self.aliases_json.clone(),
            domain: self.domain.clone(),
            status: self.status.clone(),
            refs: self.refs.clone(),
        }
    }
}

/// The list without repetitions next to each other.
pub open spec fn deduped(v: Seq<Seq<char>>) -> Seq<Seq<char>>
    decreases v.len(),
{
    if v.len() <= 1 {
        v
    } else if v.last() == v[v.len() - 2] {
        deduped(v.drop_last())
    } else {
        deduped(v.drop_last()).push(v.last())
    }
}

fn dedup(v: &Vec<String>) -> (r: Vec<String>)
    ensures
        r.deep_view() == deduped(v.deep_view()),
{
    let ghost d = v.deep_view();
    let mut out: Vec<String> = Vec::new();
    let mut i: usize = 0;
    assert(out.deep_view() =~= d.take(0));
    while i < v.len()
        invariant
            i <= v.len(),
            d == v.deep_view(),
            out.deep_view() == deduped(d.take(i as int)),
        decreases v.len() - i,
    {
        let ghost before = out.deep_view();
        let ghost t1 = d.take(i + 1);
        proof {
            assert(t1.drop_last() =~= d.take(i as int));
            assert(t1.last() == v@[i as int]@);
            if i > 0 {
                assert(t1[t1.len() - 2] == v@[i - 1]@);
            } else {
                assert(t1 =~= before.push(d[0]));
            }
        }
        if i == 0 || !same(v[i].as_str(), v[i - 1].as_str()) {
            out.push(v[i].clone());
            assert(out.deep_view() =~= before.push(d[i as int]));
        }
        i += 1;
    }
    assert(d.take(i as int) =~= d);
    out
}

/// The references as code.
pub open spec fn refs_text(refs: Seq<Seq<char>>) -> Seq<char> {
    if refs.len() == 0 {
        "—"@
    } else {
        joined(refs.map_values(|x: Seq<char>| "`"@ + cell_of(x) + "`"@), " "@)
    }
}

fn write_refs(refs: &Vec<String>) -> (r: String)
    ensures
        r@ == refs_text(refs.deep_view()),
{
    if refs.len() == 0 {
        return owned("—");
    }
    let ghost all = refs.deep_view().map_values(|x: Seq<char>| "`"@ + cell_of(x) + "`"@);
    let mut out: Vec<String> = Vec::new();
    let mut i: usize = 0;
    assert(out.deep_view() =~= all.take(0));
    while i < refs.len()
        invariant
            i <= refs.len(),
            all == refs.deep_view().map_values(|x: Seq<char>| "`"@ + cell_of(x) + "`"@),
            out.deep_view() == all.take(i as int),
        decreases refs.len() - i,
    {
        let ghost before = out.deep_view();
        let mut c = owned("`");
        c.append(cell(refs[i].as_str()).as_str());
        c.append("`");
        let ghost x = c@;
        assert(refs.deep_view()[i as int] == refs@[i as int]@);
        assert(all[i as int] == x);
        out.push(c);
        assert(out.deep_view() =~= before.push(x));
        i += 1;
        assert(all.take(i as int) =~= before.push(x));
    }
    assert(all.take(i as int) =~= all);
    join(&out, " ")
}

pub open spec fn aliases_text(aliases: Seq<Seq<char>>) -> Seq<char> {
    if aliases.len() == 0 {
        "—"@
    } else {
        cell_of(joined(aliases, "、"@))
    }
}

fn write_aliases(aliases: &Vec<String>) -> (r: String)
    ensures
        r@ == aliases_text(aliases.deep_view()),
{
    if aliases.len() == 0 {
        owned("—")
    } else {
        cell(join(aliases, "、").as_str())
    }
}

pub open spec fn flag_of(status: Seq<char>) -> Seq<char> {
    if status == "needs_review"@ {
        "（待确认）"@
    } else {
        ""@
    }
}

fn flag(status: &str) -> (r: &'static str)
    ensures
        r@ == flag_of(status@),
{
    if same(status, "needs_review") {
        "（待确认）"
    } else {
        ""
    }
}

/// The line of a term, given its aliases.
pub open spec fn term_text(t: TermRowView, aliases: Seq<Seq<char>>) -> Seq<char> {
    "| **"@
        + cell_of(t.term)
        + "**"@
        + flag_of(t.status)
        + " | "@
        + cell_of(given_or(t.definition, "—"@))
        + " | "@
        + aliases_text(aliases)
        + " | "@
        + refs_text(deduped(t.refs))
        + " |\n"@
}

/// The line of a term, given its aliases.
pub fn term_line(t: &TermRow, aliases: &Vec<String>) -> (r: String)
    ensures
        r@ == term_text(t.deep_view(), aliases.deep_view()),
{
    let mut s = owned("| **");
    s.append(cell(t.term.as_str()).as_str());
    s.append("**");
    s.append(flag(t.status.as_str()));
    s.append(" | ");
    s.append(cell(text_or(&t.definition, "—").as_str()).as_str());
    s.append(" | ");
    s.append(write_aliases(aliases).as_str());
    s.append(" | ");
    s.append(write_refs(&dedup(&t.refs)).as_str());
    s.append(" |\n");
    s
}


pub open spec fn heading_text(name: Seq<char>) -> Seq<char> {
    "\n## "@
        + name
        + "\n\n| 术语 | 含义 | 别名 | 对应代码 |\n|---|---|---|---|\n"@
}

fn write_heading(name: &str) -> (r: String)
    ensures
        r@ == heading_text(name@),
{
    let mut s = owned("\n## ");
    s.append(name);
    s.append("\n\n| 术语 | 含义 | 别名 | 对应代码 |\n|---|---|---|---|\n");
    s
}


/// The terms from `i` on, under the domain they belong to; `current` is the domain of
/// the one before.
pub open spec fn terms_from(
    rows: Seq<TermRowView>,
    i: int,
    current: Option<Seq<char>>,
) -> Seq<char>
    decreases rows.len() - i,
{
    if i < 0 || i >= rows.len() {
        Seq::empty()
    } else {
        let heading = if rows[i].domain != current {
            heading_text(given_or(rows[i].domain, "通用"@))
        } else {
            Seq::empty()
        };
        heading + term_text(rows[i], aliases_of(rows[i].aliases_json)) + terms_from(
            rows,
            i + 1,
            rows[i].domain,
        )
    }
}

pub const EMPTY_PAGE: &'static str = "# 业务术语表\n\n尚未生成。运行 `catlas deepen` 后，这里会列出项目里的业务术语及其对应的代码标识符、枚举值和表名。\n\n";

pub const INTRO: &'static str = "# 业务术语表\n\n术语由大模型从代码注释、枚举定义、表结构和 git 提交信息中提取，并给出对应的代码位置。标记为「待确认」的条目依据较弱，使用前请核对代码。\n\n";

pub open spec fn page_text(rows: Seq<TermRowView>) -> Seq<char> {
    if rows.len() == 0 {
        EMPTY_PAGE@
    } else {
        INTRO@ + terms_from(rows, 0, None) + "\n共 "@ + digits(rows.len()) + " 条术语。\n"@
    }
}

fn same_domain(a: &Option<String>, b: &Option<String>) -> (r: bool)
    ensures
        r == (a.deep_view() == b.deep_view()),
{
    match (a, b) {
        (Some(x), Some(y)) => same(x.as_str(), y.as_str()),
        (None, None) => true,
        _ => false,
    }
}

/// The glossary page. The terms come by domain.
pub fn page(rows: &Vec<TermRow>) -> (r: String)
    ensures
        r@ == page_text(rows.deep_view()),
{
    if rows.len() == 0 {
        return owned(EMPTY_PAGE);
    }
    let ghost d = rows.deep_view();
    let mut s = owned(INTRO);
    let ghost whole = s@ + terms_from(d, 0, None);
    let mut current: Option<String> = None;
    let mut i: usize = 0;
    while i < rows.len()
        invariant
            i <= rows.len(),
            d == rows.deep_view(),
            whole == s@ + terms_from(d, i as int, current.deep_view()),
        decreases rows.len() - i,
    {
        let t = &rows[i];
        assert(d[i as int] == t.deep_view());
        let ghost line = term_text(d[i as int], aliases_of(d[i as int].aliases_json));
        let ghost rest = terms_from(d, i + 1, d[i as int].domain);
        if !same_domain(&t.domain, &current) {
            s.append(write_heading(text_or(&t.domain, "通用").as_str()).as_str());
            current = t.domain.clone();
            assert(whole =~= s@ + line + rest);
        } else {
            assert(whole =~= s@ + line + rest);
        }
        s.append(term_line(t, &read_aliases(&t.aliases_json)).as_str());
        assert(whole =~= s@ + rest);
        i += 1;
    }
    assert(whole =~= s@);
    s.append("\n共 ");
    s.append(decimal_usize(rows.len()).as_str());
    s.append(" 条术语。\n");
    s
}

} // verus!


//! The pages: how facts are written down.
use crate::laws::basics::{
    cuts_are_at_the_ends, first_line, push_members, replaced_by_parts, skip_all, trimmed_is_core,
};
use crate::laws::history::is_tight;
use crate::lists::flat;
use crate::number::{digits, signed};
use crate::render::claude_md;
use crate::render::claude_md::BlockDomainView;
use crate::render::domains as pages;
use crate::render::domains::{
    DomainConstantView, DomainEntryView, DomainNoteView, DomainRowView, DomainTableView,
    DomainTraceView, HotFileView, PageSourceView,
};
use crate::render::glossary;
use crate::render::glossary::TermRowView;
use crate::render::reference;
use crate::render::reference::{ColumnSheetView, EntrySheetView, TableSheetView};
use crate::render::{
    cell_of, given_or, is_prose, prose_from, scale_text, sentence_end, summary_of, ScaleView,
};
use crate::split::joined;
use crate::text::{is_white, lowered, trimmed};
use crate::util::truncated;
use vstd::prelude::*;

verus! {

// ---------------------------------------------------------------------------
// Cells and summaries

/// Whether a text is one line without pipes and without white space at its ends.
pub open spec fn is_simple(s: Seq<char>) -> bool {
    is_tight(s) && s.len() > 0 && !s.contains('|') && !s.contains('\n')
}

proof fn simple_cell(s: Seq<char>)
    requires
        is_simple(s),
    ensures
        cell_of(s) == s,
{
    let e = Seq::<char>::empty();
    replaced_by_parts(s, e, '|', "\\|"@);
    replaced_by_parts(s, e, '\n', " "@);
    trimmed_is_core(e, s, e);
    assert(e + s + e =~= s);
}

/// In a cell a pipe is escaped and a line end becomes a space; anything else stays.
pub proof fn cells_escape_pipes_and_line_ends(a: Seq<char>, b: Seq<char>)
    requires
        is_simple(a) && is_simple(b),
    ensures
        cell_of(a) == a,
        cell_of(a.push('|') + b) == a + "\\|"@ + b,
        cell_of(a.push('\n') + b) == a + " "@ + b,
{
    reveal_strlit("\\|");
    reveal_strlit(" ");
    let e = Seq::<char>::empty();
    simple_cell(a);
    let p = "\\|"@;
    replaced_by_parts(a, b, '|', p);
    replaced_by_parts(b, e, '|', p);
    let x = a + p + b;
    assert(!x.contains('\n')) by {
        if x.contains('\n') {
            let k = choose|k: int| 0 <= k < x.len() && x[k] == '\n';
            if k < a.len() {
                assert(a[k] == '\n');
            } else if k >= a.len() + 2 {
                assert(b[k - a.len() - 2] == '\n');
            }
        }
    }
    replaced_by_parts(x, e, '\n', " "@);
    assert(x[0] == a[0] && x.last() == b.last());
    trimmed_is_core(e, x, e);
    assert(e + x + e =~= x);
    let y = a.push('\n') + b;
    assert(!y.contains('|')) by {
        if y.contains('|') {
            let k = choose|k: int| 0 <= k < y.len() && y[k] == '|';
            if k < a.len() {
                assert(a[k] == '|');
            } else if k > a.len() {
                assert(b[k - a.len() - 1] == '|');
            }
        }
    }
    replaced_by_parts(y, e, '|', p);
    replaced_by_parts(a, b, '\n', " "@);
    replaced_by_parts(a, e, '\n', " "@);
    replaced_by_parts(b, e, '\n', " "@);
    let z = a + " "@ + b;
    assert(z[0] == a[0] && z.last() == b.last());
    trimmed_is_core(e, z, e);
    assert(e + z + e =~= z);
}

/// A summary is the first sentence of the first line that is no tag.
pub proof fn summaries_are_first_sentences(a: Seq<char>, rest: Seq<char>, stop: char, max: int)
    requires
        is_simple(a) && !a.contains('\r'),
        a[0] != '@',
        !a.contains('。') && !a.contains('；'),
        stop == '。' || stop == '；',
        !rest.contains('\n') && !rest.contains('\r'),
        a.len() <= max,
    ensures
        summary_of(Some(a), max) == a,
        summary_of(Some(a.push(stop) + rest), max) == a,
        summary_of(None, max).len() == 0,
        prose_from(seq!["@"@ + rest, a], 0) == a,
{
    reveal_strlit("@");
    let e = Seq::<char>::empty();
    first_line(a, e);
    assert(a.contains(a[0]));
    no_tag(a);
    no_stop(a, 0);
    assert(a.take(a.len() as int) =~= a);
    trimmed_is_core(e, a, e);
    assert(e + a + e =~= a);
    simple_cell(a);
    assert(truncated(a, max) == a);
    let s = a.push(stop) + rest;
    assert(!s.contains('\n') && !s.contains('\r')) by {
        if s.contains('\n') {
            let k = choose|k: int| 0 <= k < s.len() && s[k] == '\n';
            if k < a.len() {
                assert(a[k] == '\n');
            } else if k > a.len() {
                assert(rest[k - a.len() - 1] == '\n');
            }
        }
        if s.contains('\r') {
            let k = choose|k: int| 0 <= k < s.len() && s[k] == '\r';
            if k < a.len() {
                assert(a[k] == '\r');
            } else if k > a.len() {
                assert(rest[k - a.len() - 1] == '\r');
            }
        }
    }
    first_line(s, e);
    assert(s[0] == a[0]);
    no_tag(s);
    stop_is_found(s, 0, a.len() as int);
    assert(s.take(a.len() as int) =~= a);
    let t = "@"@ + rest;
    crate::laws::basics::ends_of_texts("@"@, rest);
    skip_all(e, t, crate::text::whites());
    assert(t[0] == '@' && !is_white('@'));
    assert(crate::text::trimmed_start(t) == t);
    reveal_with_fuel(prose_from, 3);
}

proof fn no_tag(s: Seq<char>)
    requires
        s.len() > 0 && s[0] != '@' && !is_white(s[0]),
    ensures
        is_prose(s),
{
    reveal_strlit("@");
    assert(crate::text::trimmed_start(s) == s);
    if crate::text::has_prefix(s, "@"@) {
        assert(s.take(1)[0] == s[0]);
    }
    starts_dark(s);
}

proof fn starts_dark(s: Seq<char>)
    requires
        s.len() > 0 && !is_white(s[0]),
    ensures
        trimmed(s).len() > 0,
    decreases s.len(),
{
    let w = crate::text::whites();
    assert(crate::text::trimmed_start(s) == s);
    if w(s.last()) {
        assert(s.len() > 1);
        starts_dark(s.drop_last());
        assert(crate::text::trimmed_start(s.drop_last()) == s.drop_last());
    }
}

proof fn no_stop(s: Seq<char>, i: int)
    requires
        0 <= i <= s.len(),
        !s.contains('。') && !s.contains('；'),
    ensures
        sentence_end(s, i) == s.len(),
    decreases s.len() - i,
{
    if i < s.len() {
        assert(s.contains(s[i]));
        no_stop(s, i + 1);
    }
}

proof fn stop_is_found(s: Seq<char>, i: int, at: int)
    requires
        0 <= i <= at < s.len(),
        s[at] == '。' || s[at] == '；',
        forall|k: int| i <= k < at ==> #[trigger] s[k] != '。' && s[k] != '；',
    ensures
        sentence_end(s, i) == at,
    decreases at - i,
{
    if i < at {
        stop_is_found(s, i + 1, at);
    }
}

// ---------------------------------------------------------------------------
// The front page

/// The front page says what the project is and how large it is.
pub proof fn front_pages_read_so(c: ScaleView)
    ensures
        scale_text(c) == "## 规模\n\n| 项 | 数量 |\n|---|---|\n| 模块 | "@ + signed(c.modules as int)
            + " |\n| 文件 | "@ + signed(c.files as int) + " |\n| 符号 | "@ + signed(
            c.symbols as int,
        ) + " |\n| 数据表 | "@ + signed(c.tables as int) + " |\n| 入口 | "@ + signed(
            c.entrypoints as int,
        ) + " |\n| 业务领域 | "@ + signed(c.domains as int) + " |\n\n"@,
{
}

// ---------------------------------------------------------------------------
// Domain pages

/// A domain's page has its parts in order, and none for what is not there.
pub proof fn domain_pages_read_in_order(p: PageSourceView)
    ensures
        pages::page_text(p) == pages::head_text(p.domain) + pages::narrative_text(
            p.domain,
            p.notes,
        ) + pages::tables_text(p.tables) + pages::entries_text(p.entrypoints) + pages::enums_text(
            p.constants,
        ) + pages::traces_text(p.traces) + pages::hot_text(p.hot_files),
        pages::tables_text(Seq::empty()).len() == 0,
        pages::entries_text(Seq::empty()).len() == 0,
        pages::enums_text(Seq::empty()).len() == 0,
        pages::traces_text(Seq::empty()).len() == 0,
        pages::hot_text(Seq::empty()).len() == 0,
        pages::narrative_text(p.domain, Seq::empty()) == "*尚未生成领域解读。运行 `catlas deepen --domain "@
            + p.domain.key + "` 后本节会填入职责、生命周期、业务规则与已知陷阱。以下是确定性事实。*\n\n"@,
{
}

/// Each note, table, entrypoint, trace and file has its place under the heading, in order.
pub proof fn domain_pages_have_a_line_each(
    d: DomainRowView,
    ns: Seq<DomainNoteView>,
    n: DomainNoteView,
    ts: Seq<DomainTableView>,
    t: DomainTableView,
    es: Seq<DomainEntryView>,
    e: DomainEntryView,
    rs: Seq<DomainTraceView>,
    r: DomainTraceView,
    hs: Seq<HotFileView>,
    h: HotFileView,
)
    ensures
        pages::narrative_text(d, ns.push(n)) == flat(ns, |x: DomainNoteView| pages::note_text(x))
            + pages::note_text(n) + "---\n\n"@,
        pages::tables_text(ts.push(t)) == "## 数据表\n\n"@ + (flat(
            ts,
            |x: DomainTableView| pages::table_line(x),
        ) + pages::table_line(t)) + "\n"@,
        pages::entries_text(es.push(e)) == "## 入口\n\n| 类型 | 入口 | 说明 |\n|---|---|---|\n"@ + (flat(
            es,
            |x: DomainEntryView| pages::entry_line(x),
        ) + pages::entry_line(e)) + "\n"@,
        pages::traces_text(rs.push(r)) == "## 关键链路\n\n从入口到数据表的调用路径，含接口到实现的动态分发跳转。\n\n"@
            + (flat(rs, |x: DomainTraceView| pages::trace_text(x)) + pages::trace_text(r)),
        pages::hot_text(hs.push(h))
            == "## 改动最频繁的文件\n\n改动次数高说明业务在持续演进，也说明这些文件最容易踩坑。\n\n| 文件 | 改动次数 | 最近改动 |\n|---|---|---|\n"@
            + (flat(hs, |x: HotFileView| pages::hot_line(x)) + pages::hot_line(h)) + "\n"@,
{
    assert(ns.push(n).drop_last() =~= ns);
    assert(ts.push(t).drop_last() =~= ts);
    assert(es.push(e).drop_last() =~= es);
    assert(rs.push(r).drop_last() =~= rs);
    assert(hs.push(h).drop_last() =~= hs);
    assert(pages::narrative_text(d, ns.push(n)) =~= flat(
        ns,
        |x: DomainNoteView| pages::note_text(x),
    ) + pages::note_text(n) + "---\n\n"@);
}

/// How the lines of a domain's page read.
pub proof fn domain_lines_read_so(
    d: DomainRowView,
    n: DomainNoteView,
    t: DomainTableView,
    e: DomainEntryView,
    c: DomainConstantView,
    h: HotFileView,
    day: Seq<char>,
    time: Seq<char>,
)
    requires
        !day.contains('T'),
    ensures
        pages::map_row(d) == "| ["@ + given_or(d.label, d.key) + "](domains/"@ + d.key + ".md) | "@
            + signed(d.files as int) + " | "@ + signed(d.tables as int) + " | "@ + signed(
            d.entrypoints as int,
        ) + " | "@ + d.confidence + " |\n"@,
        pages::head_text(d) == "# "@ + given_or(d.label, d.key) + "\n\n> 领域键 `"@ + d.key + "` · "@
            + signed(d.files as int) + " 个文件 · "@ + signed(d.tables as int) + " 张表 · "@ + signed(
            d.entrypoints as int,
        ) + " 个入口 · 划分置信度 "@ + d.confidence + "\n\n"@,
        pages::note_text(n) == "## "@ + n.title + "\n\n"@ + n.body + "\n\n"@,
        pages::table_line(t) == "- `"@ + t.name + "`（"@ + signed(t.columns as int)
            + " 字段）→ 详见 [reference/tables.md](../reference/tables.md)\n"@,
        e.kind == "http"@ ==> pages::entry_line(e) == "| "@ + "HTTP"@ + " | `"@ + cell_of(e.addr)
            + "` | "@ + summary_of(e.doc, 60) + " |\n"@,
        e.kind == "dubbo"@ ==> pages::entry_line(e) == "| "@ + "Dubbo"@ + " | `"@ + cell_of(e.addr)
            + "` | "@ + summary_of(e.doc, 60) + " |\n"@,
        e.kind == "job"@ ==> pages::entry_line(e) == "| "@ + "定时"@ + " | `"@ + cell_of(e.addr)
            + "` | "@ + summary_of(e.doc, 60) + " |\n"@,
        e.kind == "mq"@ ==> pages::entry_line(e) == "| "@ + "消息"@ + " | `"@ + cell_of(e.addr)
            + "` | "@ + summary_of(e.doc, 60) + " |\n"@,
        c.signature is None ==> pages::constant_line(c) == "- `"@ + c.name + "` — "@ + summary_of(
            c.doc,
            60,
        ) + "\n"@,
        h.last is None ==> pages::hot_line(h) == "| `"@ + h.path + "` | "@ + signed(h.commits as int)
            + " | "@ + "—"@ + " |\n"@,
        h.last == Some(day.push('T') + time) ==> pages::hot_line(h) == "| `"@ + h.path + "` | "@
            + signed(h.commits as int) + " | "@ + day + " |\n"@,
{
    cuts_are_at_the_ends(day, time, 'T');
    reveal_strlit("—");
    assert(!"—"@.contains('T'));
    cuts_are_at_the_ends("—"@, time, 'T');
    reveal_strlit("dubbo");
    reveal_strlit("http");
    reveal_strlit("job");
    reveal_strlit("mq");
    assert("dubbo"@.len() == 5 && "http"@.len() == 4 && "job"@.len() == 3 && "mq"@.len() == 2);
}

/// A constant's value is what its signature gives behind the equals sign.
pub proof fn values_stand_behind_the_equals_sign(
    c: DomainConstantView,
    decl: Seq<char>,
    v: Seq<char>,
)
    requires
        !decl.contains('='),
        is_tight(v),
        c.signature == Some(decl.push('=') + v),
    ensures
        pages::constant_line(c) == "- `"@ + c.name + "` = `"@ + v + "` — "@ + summary_of(c.doc, 60)
            + "\n"@,
{
    cuts_are_at_the_ends(decl, v, '=');
    let e = Seq::<char>::empty();
    trimmed_is_core(e, v, e);
    assert(e + v + e =~= v);
}

/// Constants stand under the type that holds them: one heading for those of one type that
/// follow each other.
pub proof fn constants_are_grouped_by_type(
    a: DomainConstantView,
    b: DomainConstantView,
    current: Seq<char>,
)
    requires
        a.owner != current,
    ensures
        a.owner == b.owner ==> pages::constants_from(seq![a, b], 0, current) == "\n**"@ + a.owner
            + "**\n\n"@ + pages::constant_line(a) + pages::constant_line(b),
        a.owner != b.owner ==> pages::constants_from(seq![a, b], 0, current) == "\n**"@ + a.owner
            + "**\n\n"@ + pages::constant_line(a) + "\n**"@ + b.owner + "**\n\n"@
            + pages::constant_line(b),
{
    let rows = seq![a, b];
    let e = Seq::<char>::empty();
    let ha = "\n**"@ + a.owner + "**\n\n"@;
    let hb = "\n**"@ + b.owner + "**\n\n"@;
    assert(pages::constants_from(rows, 2, b.owner) =~= e);
    let tail = pages::constants_from(rows, 1, a.owner);
    if a.owner == b.owner {
        assert(tail =~= pages::constant_line(b));
    } else {
        assert(tail =~= hb + pages::constant_line(b));
    }
    assert(pages::constants_from(rows, 0, current) =~= ha + pages::constant_line(a) + tail);
    if a.owner != b.owner {
        assert(ha + pages::constant_line(a) + (hb + pages::constant_line(b)) =~= "\n**"@ + a.owner
            + "**\n\n"@ + pages::constant_line(a) + "\n**"@ + b.owner + "**\n\n"@
            + pages::constant_line(b));
    }
}

/// A trace is shown hop by hop, each under its simple name and a step deeper, with the tables
/// that it reaches.
pub proof fn traces_are_shown_hop_by_hop(
    t: DomainTraceView,
    labels: Seq<Seq<char>>,
    n: nat,
    pre: Seq<char>,
    name: Seq<char>,
)
    requires
        n < labels.len(),
        !name.contains('.'),
        labels[n as int] == pre.push('.') + name,
    ensures
        pages::hops(labels, n + 1) == pages::hops(labels, n) + pages::indent_of(n) + name + "\n"@,
        pages::indent_of(n + 1) == pages::indent_of(n) + "  "@,
        pages::indent_of(0).len() == 0,
        pages::hops(labels, 0).len() == 0,
        t.tables.len() == 0 ==> pages::trace_text(t) == "**["@ + pages::kind_name(t.kind) + "] `"@
            + cell_of(t.addr) + "`**\n\n```\n"@ + pages::hops(t.labels, t.labels.len()) + "```\n"@,
        t.tables.len() > 0 ==> pages::trace_text(t) == "**["@ + pages::kind_name(t.kind) + "] `"@
            + cell_of(t.addr) + "`**\n\n```\n"@ + pages::hops(t.labels, t.labels.len()) + "```\n"@
            + "→ 触达表："@ + joined(pages::codes_of(t.tables), "、"@) + "\n\n"@,
        pages::codes_of(labels)[n as int] == "`"@ + labels[n as int] + "`"@,
{
    cuts_are_at_the_ends(pre, name, '.');
}

// ---------------------------------------------------------------------------
// The glossary

/// Repetitions next to each other are left out; nothing else is.
pub proof fn repetitions_are_left_out(v: Seq<Seq<char>>, x: Seq<char>)
    ensures
        glossary::deduped(v).contains(x) <==> v.contains(x),
        v.len() > 0 ==> glossary::deduped(v).len() > 0 && glossary::deduped(v).last() == v.last(),
        forall|i: int|
            0 <= i < glossary::deduped(v).len() - 1 ==> #[trigger] glossary::deduped(v)[i]
                != glossary::deduped(v)[i + 1],
    decreases v.len(),
{
    if v.len() > 1 {
        let rest = v.drop_last();
        repetitions_are_left_out(rest, x);
        push_members(rest, v.last(), x);
        assert(v =~= rest.push(v.last()));
        push_members(glossary::deduped(rest), v.last(), x);
        assert(rest.last() == v[v.len() - 2]);
        let d = glossary::deduped(rest);
        if v.last() == v[v.len() - 2] {
            assert(rest.contains(rest[rest.len() - 1]));
        } else {
            assert forall|i: int| 0 <= i < d.push(v.last()).len() - 1 implies #[trigger] d.push(
                v.last(),
            )[i] != d.push(v.last())[i + 1] by {
                if i < d.len() - 1 {
                    assert(d[i] != d[i + 1]);
                } else {
                    assert(d.push(v.last())[i] == d.last());
                }
            }
        }
    }
}

/// How a term reads, and how the page begins and ends.
pub proof fn terms_read_so(t: TermRowView, aliases: Seq<Seq<char>>, rows: Seq<TermRowView>)
    ensures
        glossary::term_text(t, aliases) == "| **"@ + cell_of(t.term) + "**"@ + glossary::flag_of(
            t.status,
        ) + " | "@ + cell_of(given_or(t.definition, "—"@)) + " | "@ + glossary::aliases_text(
            aliases,
        ) + " | "@ + glossary::refs_text(glossary::deduped(t.refs)) + " |\n"@,
        glossary::flag_of("needs_review"@) == "（待确认）"@,
        glossary::flag_of("fresh"@).len() == 0,
        glossary::aliases_text(Seq::empty()) == "—"@,
        aliases.len() > 0 ==> glossary::aliases_text(aliases) == cell_of(joined(aliases, "、"@)),
        glossary::refs_text(Seq::empty()) == "—"@,
        aliases.len() == 1 ==> glossary::refs_text(aliases) == "`"@ + cell_of(aliases[0]) + "`"@,
        rows.len() > 0 ==> glossary::page_text(rows) == glossary::INTRO@ + glossary::terms_from(
            rows,
            0,
            None,
        ) + "\n共 "@ + digits(rows.len()) + " 条术语。\n"@,
        rows.len() == 0 ==> glossary::page_text(rows) == glossary::EMPTY_PAGE@,
{
    reveal_strlit("");
    reveal_strlit("needs_review");
    reveal_strlit("fresh");
    assert("needs_review"@.len() == 12 && "fresh"@.len() == 5);
}

/// Terms stand under their domain: one heading for those of one domain that follow each
/// other, and those without one under the general heading.
pub proof fn terms_are_grouped_by_domain(
    rows: Seq<TermRowView>,
    i: int,
    current: Option<Seq<char>>,
)
    requires
        0 <= i < rows.len(),
    ensures
        rows[i].domain == current ==> glossary::terms_from(rows, i, current)
            == glossary::term_text(rows[i], crate::search::aliases_of(rows[i].aliases_json))
            + glossary::terms_from(rows, i + 1, current),
        rows[i].domain != current && rows[i].domain is Some ==> glossary::terms_from(
            rows,
            i,
            current,
        ) == "\n## "@ + rows[i].domain->0 + "\n\n| 术语 | 含义 | 别名 | 对应代码 |\n|---|---|---|---|\n"@
            + glossary::term_text(rows[i], crate::search::aliases_of(rows[i].aliases_json))
            + glossary::terms_from(rows, i + 1, rows[i].domain),
        rows[i].domain != current && rows[i].domain is None ==> glossary::terms_from(
            rows,
            i,
            current,
        ) == "\n## "@ + "通用"@ + "\n\n| 术语 | 含义 | 别名 | 对应代码 |\n|---|---|---|---|\n"@
            + glossary::term_text(rows[i], crate::search::aliases_of(rows[i].aliases_json))
            + glossary::terms_from(rows, i + 1, rows[i].domain),
        glossary::terms_from(rows, rows.len() as int, current).len() == 0,
{
    if rows[i].domain == current {
        let t = glossary::term_text(rows[i], crate::search::aliases_of(rows[i].aliases_json));
        assert(Seq::<char>::empty() + t =~= t);
    }
}

// ---------------------------------------------------------------------------
// Reference pages

/// How the reference pages' lines read.
pub proof fn reference_lines_read_so(t: TableSheetView, c: ColumnSheetView, e: EntrySheetView)
    ensures
        reference::table_row(t) == "| [`"@ + t.name + "`](#"@ + lowered(t.name) + ") | "@ + given_or(
            t.domain,
            "—"@,
        ) + " | "@ + digits(t.columns.len() as nat) + " | "@ + signed(t.reads as int) + " | "@
            + signed(t.writes as int) + " | "@ + reference::source_name(t.source) + " |\n"@,
        reference::column_row(c) == "| `"@ + c.name + "`"@ + (if c.is_pk {
            " 🔑"@
        } else {
            ""@
        }) + " | "@ + given_or(c.property, "—"@) + " | "@ + cell_of(given_or(c.java_type, "—"@))
            + " | "@ + summary_of(c.doc, 60) + " |\n"@,
        reference::job_line(e) == "| `"@ + cell_of(e.addr) + "` | "@ + given_or(e.domain, "—"@)
            + " | `"@ + reference::handler_text(e.name) + "` | "@ + summary_of(e.doc, 70)
            + " |\n"@,
        reference::consumer_line(e) == "| `"@ + cell_of(e.addr) + "` | "@ + given_or(e.domain, "—"@)
            + " | `"@ + reference::handler_text(e.name) + "` | "@ + summary_of(e.doc, 60)
            + " |\n"@,
        reference::service_text(e, None) == "| `"@ + cell_of(e.addr) + "` | "@ + given_or(
            e.domain,
            "—"@,
        ) + " | "@ + "—"@ + " | "@ + summary_of(e.doc, 70) + " |\n"@,
        reference::guards_text(Seq::empty()) == "—"@,
        reference::route_text(e, Seq::empty()) == "| `"@ + cell_of(e.addr) + "` | "@ + given_or(
            e.domain,
            "—"@,
        ) + " | "@ + "—"@ + " | `"@ + reference::handler_text(e.name) + "` | "@ + summary_of(
            e.doc,
            50,
        ) + " |\n"@,
        e.name is Some ==> reference::handler_text(e.name) == cell_of(
            reference::last_two_segments(e.name->0),
        ),
        t.columns.len() == 0 ==> reference::detail_text(t).len() == 0,
        reference::source_name("mybatis_result_map"@) == "resultMap"@,
        reference::source_name("mybatis_statement"@) == "SQL 语句"@,
        reference::source_name("mybatis_plus_annotation"@) == "@TableName"@,
{
    reveal_strlit("mybatis_result_map");
    reveal_strlit("mybatis_statement");
    reveal_strlit("mybatis_plus_annotation");
    assert("mybatis_result_map"@.len() == 18 && "mybatis_statement"@.len() == 17);
    assert("mybatis_plus_annotation"@.len() == 23);
}

/// Every table, service, route, job and consumer has its line, in order, and the pages count
/// them.
pub proof fn reference_pages_have_a_line_each(
    ts: Seq<TableSheetView>,
    t: TableSheetView,
    ss: Seq<EntrySheetView>,
    rs: Seq<EntrySheetView>,
    e: EntrySheetView,
)
    ensures
        reference::tables_text(ts.push(t)) == reference::TABLES_INTRO@ + digits(ts.len() + 1)
            + " 张表。\n\n| 表名 | 所属领域 | 字段数 | 读 | 写 | 来源 |\n|---|---|---|---|---|---|\n"@ + (flat(
            ts,
            |x: TableSheetView| reference::table_row(x),
        ) + reference::table_row(t)) + "\n## 字段明细\n\n"@ + (flat(
            ts,
            |x: TableSheetView| reference::detail_text(x),
        ) + reference::detail_text(t)),
        reference::jobs_text(ss.push(e)) == reference::JOBS_INTRO@ + digits(ss.len() + 1)
            + " 个。\n\n| 任务 | 领域 | 实现 | 说明 |\n|---|---|---|---|\n"@ + (flat(
            ss,
            |x: EntrySheetView| reference::job_line(x),
        ) + reference::job_line(e)),
        reference::mq_text(ss.push(e)) == "# 消息消费\n\n共 "@ + digits(ss.len() + 1) + " 个消费者。\n\n"@
            + reference::placeholder_note(reference::unresolved(ss.push(e)).len())
            + "| Topic | 领域 | 监听器 | 说明 |\n|---|---|---|---|\n"@ + (flat(
            ss,
            |x: EntrySheetView| reference::consumer_line(x),
        ) + reference::consumer_line(e)),
        reference::entrypoints_text(ss, rs.push(e)) == reference::ENTRIES_INTRO@ + "## Dubbo 接口（"@
            + digits(ss.len()) + "）\n\n| 接口 | 领域 | 超时 | 说明 |\n|---|---|---|---|\n"@ + flat(
            ss,
            |x: EntrySheetView|
                reference::service_text(x, reference::field_of(x.config_json, "timeout"@)),
        ) + "\n"@ + "## HTTP 路由（"@ + digits(rs.len() + 1)
            + "）\n\n| 路由 | 领域 | 权限 | 处理方法 | 说明 |\n|---|---|---|---|---|\n"@ + (flat(
            rs,
            |x: EntrySheetView|
                reference::route_text(x, reference::array_of(x.config_json, "guards"@)),
        ) + reference::route_text(e, reference::array_of(e.config_json, "guards"@))) + "\n"@,
        reference::placeholder_note(0).len() == 0,
{
    assert(ts.push(t).drop_last() =~= ts);
    assert(ss.push(e).drop_last() =~= ss);
    assert(rs.push(e).drop_last() =~= rs);
}

/// A consumer whose topic holds a placeholder counts as unresolved, and no other.
pub proof fn placeholders_count_as_unresolved(rows: Seq<EntrySheetView>, e: EntrySheetView)
    ensures
        crate::laws::basics::appears(e.addr, "${"@) ==> reference::unresolved(rows.push(e))
            == reference::unresolved(rows).push(e),
        !crate::laws::basics::appears(e.addr, "${"@) ==> reference::unresolved(rows.push(e))
            == reference::unresolved(rows),
        reference::unresolved(Seq::empty()).len() == 0,
{
    crate::laws::basics::searches_find_what_appears(e.addr, "${"@);
    assert(rows.push(e).drop_last() =~= rows);
}

/// A field of a configuration is shown as the text it holds, else as it is written; null is
/// nothing.
pub proof fn configured_fields_are_shown(raw: Seq<char>, text: Seq<char>)
    ensures
        reference::field_shown(Some(raw), Some(text)) == Some(text),
        raw != "null"@ ==> reference::field_shown(Some(raw), None) == Some(raw),
        reference::field_shown(Some("null"@), None) is None,
        reference::field_shown(None, Some(text)) is None,
{
}

// ---------------------------------------------------------------------------
// The managed block

/// The managed block takes the place of the one before, and what stands around it stays; a
/// text without one gets it at its end.
pub proof fn blocks_are_replaced_in_place(s: Seq<char>, block: Seq<char>, start: int, end: int)
    requires
        crate::text::first_at(s, claude_md::BEGIN@) == Some(start),
        crate::text::first_at(s, claude_md::END@) == Some(end),
    ensures
        start < end ==> claude_md::spliced(s, block) == s.take(start) + block + s.skip(
            end + claude_md::END@.len(),
        ),
        end <= start && crate::text::trimmed_end(s).len() > 0 ==> claude_md::spliced(s, block)
            == crate::text::trimmed_end(s) + "\n\n"@ + block + "\n"@,
{
}

/// The block lists the domains by key, with their labels and sizes.
pub proof fn blocks_list_domains(d: BlockDomainView, c: BlockDomainView)
    ensures
        d.label is Some ==> claude_md::domain_text(d) == "`"@ + d.key + "`（"@ + d.label->0 + "，"@
            + signed(d.files as int) + " 文件）"@,
        d.label is None ==> claude_md::domain_text(d) == "`"@ + d.key + "`（"@ + signed(
            d.files as int,
        ) + " 文件）"@,
        claude_md::domains_text(Seq::empty()).len() == 0,
        claude_md::domains_text(seq![d, c]) == "### 主要业务领域\n\n"@ + (claude_md::domain_text(d) + "、"@
            + claude_md::domain_text(c)) + "\n\n"@,
{
    let f = |x: BlockDomainView| claude_md::domain_text(x);
    let l = seq![d, c].map_values(f);
    assert(l =~= seq![claude_md::domain_text(d), claude_md::domain_text(c)]);
    reveal_with_fuel(joined, 3);
    assert(l.drop_last() =~= seq![claude_md::domain_text(d)]);
}

} // verus!

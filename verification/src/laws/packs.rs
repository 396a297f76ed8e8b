//! Evidence packs: what a model is given to read, and how its answer is found.
use crate::laws::basics::{
    cuts_are_at_the_ends, ends_of_texts, push_members, skip_all, trimmed_is_core,
};
use crate::laws::history::is_tight;
use crate::lists::flat;
use crate::llm::pack::{
    allowance, column_text, comes_before, commit_text, commits_after, constant_text,
    constants_after, entry_text, entrypoints_after, file_text, files_after, on_one_line, ordered,
    owner_heading, pack_text, placed, prose_of, rank_of, section_text, table_reached, table_text,
    tables_after, tables_reached, trace_text, traces_after, ConstantRowView, EvidenceView,
    PackColumnView, PackCommitView, PackEntryView, PackFileView, PackHeadView, PackTableView,
    PackTraceView, COMMITS_HEADING, ENTRYPOINTS_HEADING, ENUMS_HEADING, SOURCE_HEADING,
    TABLES_HEADING, TRACES_HEADING,
};
use crate::llm::prompt::{
    bad_json_error, is_truncated, no_object_error, object_end, object_in, unfenced,
};
use crate::number::{digits, signed};
use crate::render::given_or;
use crate::split::joined;
use crate::text::{drop_while, find_from_is_first, is_white, lex_lt, only, trimmed};
use crate::util::truncated;
use vstd::prelude::*;

verus! {

// ---------------------------------------------------------------------------
// Constants

/// Whether a text holds a Chinese character, by its code.
pub open spec fn holds_chinese(s: Seq<char>) -> bool {
    exists|i: int| 0 <= i < s.len() && 0x4e00 <= (#[trigger] s[i]) as int <= 0x9fff
}

/// Constants with a Chinese comment rank before those with another comment, and these before
/// those without.
pub proof fn documented_constants_rank_first(a: Seq<char>)
    ensures
        holds_chinese(a) ==> rank_of(Some(a)) == 0,
        !holds_chinese(a) ==> rank_of(Some(a)) == 1,
        rank_of(None) == 2,
{
    assert(crate::util::is_cjk_text(a) <==> holds_chinese(a)) by {
        if crate::util::is_cjk_text(a) {
            let i = choose|i: int| 0 <= i < a.len() && crate::util::is_cjk(#[trigger] a[i]);
            assert(0x4e00 <= a[i] as int <= 0x9fff);
        }
        if holds_chinese(a) {
            let i = choose|i: int| 0 <= i < a.len() && 0x4e00 <= (#[trigger] a[i]) as int <= 0x9fff;
            assert(crate::util::is_cjk(a[i]));
        }
    }
}

/// Whether `b` may stand behind `a`: it does not rank before it, nor, where they rank alike,
/// does its type.
pub open spec fn may_follow(a: ConstantRowView, b: ConstantRowView) -> bool {
    rank_of(a.doc) < rank_of(b.doc) || (rank_of(a.doc) == rank_of(b.doc) && !lex_lt(
        b.owner,
        a.owner,
    ))
}

/// The constants are put in order: none is lost, none is added, and each may follow those
/// before it.
pub proof fn constants_are_put_in_order(rows: Seq<ConstantRowView>, x: ConstantRowView)
    ensures
        ordered(rows).len() == rows.len(),
        ordered(rows).contains(x) <==> rows.contains(x),
        forall|i: int, j: int|
            0 <= i < j < ordered(rows).len() ==> may_follow(
                #[trigger] ordered(rows)[i],
                #[trigger] ordered(rows)[j],
            ),
    decreases rows.len(),
{
    if rows.len() > 0 {
        let rest = rows.drop_last();
        constants_are_put_in_order(rest, x);
        placed_in_order(ordered(rest), rows.last(), x);
        push_members(rest, rows.last(), x);
        assert(rows =~= rest.push(rows.last()));
    }
}

proof fn placed_in_order(l: Seq<ConstantRowView>, y: ConstantRowView, x: ConstantRowView)
    requires
        forall|i: int, j: int|
            0 <= i < j < l.len() ==> may_follow(#[trigger] l[i], #[trigger] l[j]),
    ensures
        placed(l, y).len() == l.len() + 1,
        placed(l, y).contains(x) <==> l.contains(x) || x == y,
        forall|i: int, j: int|
            0 <= i < j < placed(l, y).len() ==> may_follow(
                #[trigger] placed(l, y)[i],
                #[trigger] placed(l, y)[j],
            ),
        forall|i: int|
            0 <= i < placed(l, y).len() ==> l.contains(#[trigger] placed(l, y)[i]) || placed(
                l,
                y,
            )[i] == y,
    decreases l.len(),
{
    let p = placed(l, y);
    if l.len() == 0 || !comes_before(y, l.last()) {
        push_members(l, y, x);
        assert forall|i: int, j: int| 0 <= i < j < p.len() implies may_follow(
            #[trigger] p[i],
            #[trigger] p[j],
        ) by {
            if j == l.len() {
                assert(p[j] == y && p[i] == l[i]);
                if i < l.len() - 1 {
                    assert(may_follow(l[i], l[l.len() - 1]));
                    if rank_of(l[i].doc) == rank_of(y.doc) && lex_lt(y.owner, l[i].owner) {
                        let z = l.last();
                        assert(rank_of(z.doc) == rank_of(y.doc));
                        crate::text::lex_total(l[i].owner, z.owner);
                        if lex_lt(l[i].owner, z.owner) {
                            crate::text::lex_transitive(y.owner, l[i].owner, z.owner);
                        }
                    }
                }
            } else {
                assert(p[i] == l[i] && p[j] == l[j]);
            }
        }
        assert forall|i: int| 0 <= i < p.len() implies l.contains(#[trigger] p[i]) || p[i] == y by {
            if i < l.len() {
                assert(p[i] == l[i]);
                assert(l.contains(l[i]));
            }
        }
    } else {
        let rest = l.drop_last();
        let z = l.last();
        assert(l[l.len() - 1] == z);
        assert forall|i: int, j: int| 0 <= i < j < rest.len() implies may_follow(
            #[trigger] rest[i],
            #[trigger] rest[j],
        ) by {
            assert(may_follow(l[i], l[j]));
        }
        placed_in_order(rest, y, x);
        let q = placed(rest, y);
        push_members(q, z, x);
        push_members(rest, z, x);
        assert(l =~= rest.push(z));
        assert forall|i: int| 0 <= i < p.len() implies l.contains(#[trigger] p[i]) || p[i] == y by {
            if i < q.len() {
                assert(p[i] == q[i]);
                if q[i] != y {
                    let k = choose|k: int| 0 <= k < rest.len() && rest[k] == q[i];
                    assert(l[k] == q[i]);
                }
            }
        }
        assert forall|i: int, j: int| 0 <= i < j < p.len() implies may_follow(
            #[trigger] p[i],
            #[trigger] p[j],
        ) by {
            if j < q.len() {
                assert(p[i] == q[i] && p[j] == q[j]);
            } else {
                assert(p[j] == z && p[i] == q[i]);
                if q[i] == y {
                    if rank_of(y.doc) == rank_of(z.doc) {
                        crate::text::lex_total(y.owner, z.owner);
                        if lex_lt(z.owner, y.owner) {
                            crate::text::lex_transitive(z.owner, y.owner, z.owner);
                            crate::text::lex_irreflexive(z.owner);
                        }
                    }
                } else {
                    let k = choose|k: int| 0 <= k < rest.len() && rest[k] == q[i];
                    assert(may_follow(l[k], l[l.len() - 1]));
                }
            }
        }
    }
}

/// A constant is shown with its value and what is said of it.
pub proof fn constants_are_shown_so(c: ConstantRowView, decl: Seq<char>, v: Seq<char>)
    requires
        !decl.contains('='),
        is_tight(v) && v.len() > 0 && v.last() != ';',
    ensures
        c.signature == Some(decl + "="@ + v) && c.doc is None ==> constant_text(c) == "- `"@ + c.name
            + "`"@ + " = "@ + v + "\n"@,
        c.signature is None && c.doc is None ==> constant_text(c) == "- `"@ + c.name + "`"@ + "\n"@,
        c.signature is None && c.doc is Some ==> constant_text(c) == "- `"@ + c.name + "`"@
            + " — "@ + on_one_line(c.doc->0) + "\n"@,
        c.domain_span > 1 ==> owner_heading(c) == "\n### "@ + c.owner + "（跨领域共享，被 "@ + signed(
            c.domain_span as int,
        ) + " 个领域引用）\n"@,
        c.domain_span <= 1 ==> owner_heading(c) == "\n### "@ + c.owner + "\n"@,
{
    reveal_strlit("=");
    assert(decl + "="@ + v =~= decl.push('=') + v);
    cuts_are_at_the_ends(decl, v, '=');
    let e = Seq::<char>::empty();
    trimmed_is_core(e, v, e);
    assert(e + v + e =~= v);
    assert(drop_while(v, only(';')) == v);
}

/// Constants of one type stand under one heading, those of another under their own.
pub proof fn constants_stand_under_their_type(
    s: Seq<char>,
    a: ConstantRowView,
    b: ConstantRowView,
    current: Seq<char>,
    budget: int,
)
    requires
        a.owner != current,
        s.len() < budget,
        (s + owner_heading(a) + constant_text(a)).len() < budget,
    ensures
        a.owner == b.owner ==> constants_after(s, seq![a, b], 0, current, budget) == s
            + owner_heading(a) + constant_text(a) + constant_text(b),
        a.owner != b.owner ==> constants_after(s, seq![a, b], 0, current, budget) == s
            + owner_heading(a) + constant_text(a) + owner_heading(b) + constant_text(b),
{
    let rows = seq![a, b];
    let s1 = s + owner_heading(a) + constant_text(a);
    assert(constants_after(s, rows, 0, current, budget) == constants_after(
        s1,
        rows,
        1,
        a.owner,
        budget,
    ));
    reveal_with_fuel(constants_after, 3);
}

/// A section that has used up its characters leaves the rest out and says so.
pub proof fn sections_stop_at_their_budget(
    s: Seq<char>,
    cs: Seq<ConstantRowView>,
    ts: Seq<PackTableView>,
    es: Seq<PackEntryView>,
    rs: Seq<PackTraceView>,
    ms: Seq<PackCommitView>,
    fs: Seq<PackFileView>,
    names: Map<i64, Seq<char>>,
    current: Seq<char>,
    i: int,
    budget: int,
)
    requires
        s.len() >= budget,
        0 <= i,
    ensures
        i < cs.len() ==> constants_after(s, cs, i, current, budget) == s + "…（其余常量已省略）\n"@,
        i < ts.len() ==> tables_after(s, ts, i, budget) == s + "…（其余表已省略）\n"@,
        i < es.len() ==> entrypoints_after(s, es, i, budget) == s + "…（其余入口已省略）\n"@,
        i < rs.len() ==> traces_after(s, rs, names, i, budget) == s + "…（其余链路已省略）\n"@,
        commits_after(s, ms, i, budget) == s,
        files_after(s, fs, i, budget) == s,
{
}

/// As long as there is room, every row is shown, in order.
pub proof fn rows_are_shown_in_order(
    s: Seq<char>,
    ts: Seq<PackTableView>,
    es: Seq<PackEntryView>,
    rs: Seq<PackTraceView>,
    ms: Seq<PackCommitView>,
    fs: Seq<PackFileView>,
    names: Map<i64, Seq<char>>,
    i: int,
    budget: int,
)
    requires
        s.len() < budget,
        0 <= i,
    ensures
        i < ts.len() ==> tables_after(s, ts, i, budget) == tables_after(
            s + table_text(ts[i]),
            ts,
            i + 1,
            budget,
        ),
        i >= ts.len() ==> tables_after(s, ts, i, budget) == s,
        i < es.len() ==> entrypoints_after(s, es, i, budget) == entrypoints_after(
            s + entry_text(es[i]),
            es,
            i + 1,
            budget,
        ),
        i >= es.len() ==> entrypoints_after(s, es, i, budget) == s,
        i < rs.len() ==> traces_after(s, rs, names, i, budget) == traces_after(
            s + trace_text(names, rs[i]),
            rs,
            names,
            i + 1,
            budget,
        ),
        i >= rs.len() ==> traces_after(s, rs, names, i, budget) == s,
        i < ms.len() ==> commits_after(s, ms, i, budget) == commits_after(
            s + commit_text(ms[i]),
            ms,
            i + 1,
            budget,
        ),
        i >= ms.len() ==> commits_after(s, ms, i, budget) == s,
        i < fs.len() ==> files_after(s, fs, i, budget) == files_after(
            s + file_text(fs[i], budget / fs.len() as int),
            fs,
            i + 1,
            budget,
        ),
        i >= fs.len() ==> files_after(s, fs, i, budget) == s,
{
    if fs.len() == 1 {
        assert(budget / 1 == budget);
    }
}

/// How each row reads.
pub proof fn rows_read_so(
    c: PackColumnView,
    t: PackTableView,
    e: PackEntryView,
    m: PackCommitView,
    f: PackFileView,
    n: int,
)
    ensures
        c.is_pk && c.java_type is Some && c.doc is None ==> column_text(c) == "- `"@ + c.name + "`"@
            + "（主键）"@ + " "@ + c.java_type->0 + "\n"@,
        !c.is_pk && c.java_type is Some && c.doc is Some ==> column_text(c) == "- `"@ + c.name
            + "`"@ + ""@ + " "@ + c.java_type->0 + " — "@ + on_one_line(c.doc->0) + "\n"@,
        t.columns.len() == 0 ==> table_text(t) == "\n### `"@ + t.name + "`\n"@
            + "（字段未知：该表仅出现在 SQL 语句中，没有对应的 resultMap）\n"@,
        t.columns == seq![c] ==> table_text(t) == "\n### `"@ + t.name + "`\n"@ + column_text(c),
        e.doc is None ==> entry_text(e) == "- ["@ + e.kind + "] `"@ + e.addr + "`"@ + "\n"@,
        e.doc is Some ==> entry_text(e) == "- ["@ + e.kind + "] `"@ + e.addr + "`"@ + " — "@
            + on_one_line(e.doc->0) + "\n"@,
        commit_text(m) == "- "@ + m.month + " "@ + truncated(trimmed(m.subject), 80) + "\n"@,
        f.text is None ==> file_text(f, n).len() == 0,
        f.text is Some ==> file_text(f, n) == "\n### `"@ + f.path + "`（改动 "@ + signed(
            f.churn as int,
        ) + " 次）\n\n```java\n"@ + truncated(f.text->0, n) + "\n```\n"@,
        allowance(n, 0) == n,
        allowance(n, 1) == n,
        allowance(n, 4) == n / 4,
{
    if t.columns == seq![c] {
        let g = |x: PackColumnView| column_text(x);
        assert(seq![c].drop_last() =~= Seq::empty());
        assert(flat(seq![c].drop_last(), g) =~= Seq::empty());
        assert(flat(seq![c], g) =~= column_text(c));
    }
    assert(n / 1 == n);
}

/// A trace is its labels with arrows between them, and the tables that it reaches with the
/// operations on them; one that cannot be read is left out.
pub proof fn traces_read_so(
    names: Map<i64, Seq<char>>,
    t: PackTraceView,
    id: Seq<char>,
    ops: Seq<Seq<char>>,
)
    ensures
        t.labels is None ==> trace_text(names, t).len() == 0,
        t.labels is Some && tables_reached(names, t.tables).len() == 0 ==> trace_text(names, t)
            == "- `"@ + t.addr + "`\n  "@ + joined(t.labels->0, " → "@) + "\n"@,
        t.labels is Some && tables_reached(names, t.tables).len() > 0 ==> trace_text(names, t)
            == "- `"@ + t.addr + "`\n  "@ + joined(t.labels->0, " → "@) + "\n"@ + "  触达表："@
            + joined(tables_reached(names, t.tables), "、"@) + "\n"@,
        crate::number::integer_of(id) matches Some(n) ==> names.dom().contains(n as i64)
            ==> table_reached(names, (id, ops)) == Some(
            names[n as i64] + "("@ + joined(ops, "/"@) + ")"@,
        ),
        crate::number::integer_of(id) matches Some(n) ==> !names.dom().contains(n as i64)
            ==> table_reached(names, (id, ops)) is None,
        crate::number::integer_of(id) is None ==> table_reached(names, (id, ops)) is None,
{
}

/// A section without anything to say is left out, heading and all. The sections stand in
/// their order, each within its own allowance of characters.
pub proof fn packs_hold_their_sections(h: PackHeadView, e: EvidenceView, t: Seq<char>, b: Seq<char>)
    ensures
        trimmed(b).len() == 0 ==> section_text(t, b).len() == 0,
        trimmed(b).len() > 0 ==> section_text(t, b) == t + "\n\n"@ + b + "\n"@,
        pack_text(h, e) == "# 领域："@ + given_or(h.label, h.key) + "\n领域键：`"@ + h.key
            + "`（自动划分，置信度 "@ + h.confidence + "）\n\n"@ + section_text(
            ENUMS_HEADING@,
            constants_after(Seq::empty(), ordered(e.constants), 0, Seq::empty(), 12_000),
        ) + section_text(TABLES_HEADING@, tables_after(Seq::empty(), e.tables, 0, 14_000))
            + section_text(
            ENTRYPOINTS_HEADING@,
            entrypoints_after(Seq::empty(), e.entrypoints, 0, 8_000),
        ) + section_text(
            TRACES_HEADING@,
            traces_after(Seq::empty(), e.traces, e.table_names, 0, 8_000),
        ) + section_text(COMMITS_HEADING@, commits_after(Seq::empty(), e.commits, 0, 4_000))
            + section_text(SOURCE_HEADING@, files_after(Seq::empty(), e.files, 0, 20_000)),
{
}

/// A comment's lines become one, without the tags.
pub proof fn comments_become_one_line(l: Seq<char>, tag: Seq<char>, a: Seq<char>)
    requires
        is_tight(l) && l.len() > 0 && l[0] != '@',
        forall|i: int| 0 <= i < a.len() ==> is_white(#[trigger] a[i]),
    ensures
        prose_of(l) == Some(l),
        prose_of(a + ("@"@ + tag)) is None,
        prose_of(a) is None,
{
    reveal_strlit("@");
    let e = Seq::<char>::empty();
    let w = crate::text::whites();
    trimmed_is_core(e, l, e);
    assert(e + l + e =~= l);
    skip_all(e, l, w);
    assert(crate::text::trimmed_start(l) == l);
    if crate::text::has_prefix(l, "@"@) {
        assert(l.take(1)[0] == l[0]);
    }
    let t = "@"@ + tag;
    skip_all(a, t, w);
    assert(t[0] == '@');
    assert(!is_white('@'));
    assert(crate::text::trimmed_start(a + t) == t);
    ends_of_texts("@"@, tag);
    trimmed_is_core(a, e, e);
    assert(a + e + e =~= a);
}

// ---------------------------------------------------------------------------
// Answers

/// An answer inside a code fence, with or without a language tag, is what the fence holds;
/// any other is all of it.
pub proof fn fences_are_taken_off(tag: Seq<char>, body: Seq<char>)
    requires
        !tag.contains('\n'),
        is_tight(body) && body.len() > 0 && !body.contains('`'),
    ensures
        unfenced(body) == body,
        unfenced("```"@ + tag + "\n"@ + body + "\n```"@) == body,
{
    reveal_strlit("```");
    reveal_strlit("\n");
    reveal_strlit("\n```");
    let e = Seq::<char>::empty();
    trimmed_is_core(e, body, e);
    assert(e + body + e =~= body);
    assert(body.contains(body[0]));
    if crate::text::has_prefix(body, "```"@) {
        assert(body.take(3)[0] == body[0]);
    }
    let all = "```"@ + tag + "\n"@ + body + "\n```"@;
    let rest = tag + "\n"@ + body + "\n```"@;
    assert(all =~= "```"@ + rest);
    assert(!is_white('`'));
    assert(all[0] == '`' && all.last() == '`');
    trimmed_is_core(e, all, e);
    assert(e + all + e =~= all);
    ends_of_texts("```"@, rest);
    find_from_is_first(rest, '\n', 0);
    assert(rest[tag.len() as int] == '\n');
    match crate::text::first_of(rest, '\n') {
        Some(i) => {
            assert(i == tag.len()) by {
                if i < tag.len() {
                    assert(tag[i] == '\n');
                    assert(tag.contains('\n'));
                }
            }
        },
        None => {},
    }
    let inner = rest.skip(tag.len() + 1int);
    assert(inner =~= body + "\n```"@);
    let at = body.len() + 1int;
    assert(inner.subrange(at, at + 3) =~= "```"@);
    assert(inner.len() - 3 == at);
    assert(crate::text::last_at(inner, "```"@) == Some(at));
    assert(inner.take(at) =~= body + seq!['\n']);
    assert(is_white('\n'));
    trimmed_is_core(e, body, seq!['\n']);
    assert(e + body + seq!['\n'] =~= inner.take(at));
}

/// Whether a text holds neither braces nor quotes.
pub open spec fn is_calm(s: Seq<char>) -> bool {
    forall|i: int| 0 <= i < s.len() ==> #[trigger] s[i] != '{' && s[i] != '}' && s[i] != '"'
}

proof fn calm_is_passed(s: Seq<char>, i: int, j: int, depth: nat, esc: bool)
    requires
        0 <= i <= j <= s.len(),
        forall|k: int| i <= k < j ==> #[trigger] s[k] != '{' && s[k] != '}' && s[k] != '"',
    ensures
        object_end(s, i, depth, false, esc) == object_end(s, j, depth, false, esc),
    decreases j - i,
{
    if i < j {
        calm_is_passed(s, i + 1, j, depth, esc);
    }
}

proof fn string_is_passed(s: Seq<char>, i: int, j: int, depth: nat)
    requires
        0 <= i <= j <= s.len(),
        forall|k: int| i <= k < j ==> #[trigger] s[k] != '\\' && s[k] != '"',
    ensures
        object_end(s, i, depth, true, false) == object_end(s, j, depth, true, false),
    decreases j - i,
{
    if i < j {
        string_is_passed(s, i + 1, j, depth);
    }
}

/// The object in an answer goes from its first brace to the one that closes it; an answer
/// without a brace has none.
pub proof fn objects_are_found_whole(pre: Seq<char>, a: Seq<char>, post: Seq<char>)
    requires
        !pre.contains('{'),
        is_calm(a),
    ensures
        object_in(pre + (seq!['{'] + a + seq!['}']) + post) == Some(seq!['{'] + a + seq!['}']),
        object_in(pre) is None,
{
    find_from_is_first(pre, '{', 0);
    if crate::text::first_of(pre, '{') is Some {
        assert(pre.contains('{'));
    }
    let o = seq!['{'] + a + seq!['}'];
    let s = pre + o + post;
    let p = pre.len() as int;
    first_brace(pre, o, post);
    let q = p + 1 + a.len();
    assert forall|k: int| p + 1 <= k < q implies #[trigger] s[k] != '{' && s[k] != '}' && s[k]
        != '"' by {
        assert(s[k] == a[k - p - 1]);
    }
    calm_is_passed(s, p + 1, q, 1, false);
    assert(s[p] == '{' && s[q] == '}');
    assert(object_end(s, p, 0, false, false) == object_end(s, p + 1, 1, false, false));
    assert(object_end(s, q, 1, false, false) == Some(q + 1));
    assert(s.subrange(p, p + o.len()) =~= o);
}

/// The braces of an object inside another do not end the outer one.
pub proof fn inner_objects_do_not_end_the_outer(
    pre: Seq<char>,
    a: Seq<char>,
    b: Seq<char>,
    c: Seq<char>,
    post: Seq<char>,
)
    requires
        !pre.contains('{'),
        is_calm(a) && is_calm(b) && is_calm(c),
    ensures
        object_in(
            pre + (seq!['{'] + a + seq!['{'] + b + seq!['}'] + c + seq!['}']) + post,
        ) == Some(seq!['{'] + a + seq!['{'] + b + seq!['}'] + c + seq!['}']),
{
    let o = seq!['{'] + a + seq!['{'] + b + seq!['}'] + c + seq!['}'];
    let s = pre + o + post;
    let p = pre.len() as int;
    first_brace(pre, o, post);
    let q = p + 1 + a.len();
    let r = q + 1 + b.len();
    let t = r + 1 + c.len();
    assert forall|k: int| p + 1 <= k < q implies #[trigger] s[k] != '{' && s[k] != '}' && s[k]
        != '"' by {
        assert(s[k] == a[k - p - 1]);
    }
    assert forall|k: int| q + 1 <= k < r implies #[trigger] s[k] != '{' && s[k] != '}' && s[k]
        != '"' by {
        assert(s[k] == b[k - q - 1]);
    }
    assert forall|k: int| r + 1 <= k < t implies #[trigger] s[k] != '{' && s[k] != '}' && s[k]
        != '"' by {
        assert(s[k] == c[k - r - 1]);
    }
    calm_is_passed(s, p + 1, q, 1, false);
    calm_is_passed(s, q + 1, r, 2, false);
    calm_is_passed(s, r + 1, t, 1, false);
    assert(s[p] == '{' && s[q] == '{' && s[r] == '}' && s[t] == '}');
    assert(object_end(s, p, 0, false, false) == object_end(s, p + 1, 1, false, false));
    assert(object_end(s, q, 1, false, false) == object_end(s, q + 1, 2, false, false));
    assert(object_end(s, r, 2, false, false) == object_end(s, r + 1, 1, false, false));
    assert(object_end(s, t, 1, false, false) == Some(t + 1));
    assert(s.subrange(p, p + o.len()) =~= o);
}

/// Braces inside a string do not count, and a quote behind a backslash ends no string.
pub proof fn strings_do_not_end_objects(
    pre: Seq<char>,
    a: Seq<char>,
    text: Seq<char>,
    more: Seq<char>,
    c: Seq<char>,
    post: Seq<char>,
)
    requires
        !pre.contains('{'),
        is_calm(a) && is_calm(c),
        !text.contains('"') && !text.contains('\\'),
        !more.contains('"') && !more.contains('\\'),
    ensures
        object_in(
            pre + (seq!['{'] + a + seq!['"'] + text + seq!['\\', '"'] + more + seq!['"'] + c
                + seq!['}']) + post,
        ) == Some(
            seq!['{'] + a + seq!['"'] + text + seq!['\\', '"'] + more + seq!['"'] + c + seq!['}'],
        ),
{
    let o = seq!['{'] + a + seq!['"'] + text + seq!['\\', '"'] + more + seq!['"'] + c + seq!['}'];
    let s = pre + o + post;
    let p = pre.len() as int;
    first_brace(pre, o, post);
    let q = p + 1 + a.len();
    let t = q + 1 + text.len();
    let u = t + 2 + more.len();
    let v = u + 1 + c.len();
    assert forall|k: int| p + 1 <= k < q implies #[trigger] s[k] != '{' && s[k] != '}' && s[k]
        != '"' by {
        assert(s[k] == a[k - p - 1]);
    }
    assert forall|k: int| q + 1 <= k < t implies #[trigger] s[k] != '\\' && s[k] != '"' by {
        assert(s[k] == text[k - q - 1]);
        assert(text.contains(text[k - q - 1]));
    }
    assert forall|k: int| t + 2 <= k < u implies #[trigger] s[k] != '\\' && s[k] != '"' by {
        assert(s[k] == more[k - t - 2]);
        assert(more.contains(more[k - t - 2]));
    }
    assert forall|k: int| u + 1 <= k < v implies #[trigger] s[k] != '{' && s[k] != '}' && s[k]
        != '"' by {
        assert(s[k] == c[k - u - 1]);
    }
    calm_is_passed(s, p + 1, q, 1, false);
    string_is_passed(s, q + 1, t, 1);
    string_is_passed(s, t + 2, u, 1);
    calm_is_passed(s, u + 1, v, 1, false);
    assert(s[p] == '{' && s[q] == '"' && s[t] == '\\' && s[t + 1] == '"');
    assert(s[u] == '"' && s[v] == '}');
    assert(object_end(s, p, 0, false, false) == object_end(s, p + 1, 1, false, false));
    assert(object_end(s, q, 1, false, false) == object_end(s, q + 1, 1, true, false));
    assert(object_end(s, t, 1, true, false) == object_end(s, t + 1, 1, true, true));
    assert(object_end(s, t + 1, 1, true, true) == object_end(s, t + 2, 1, true, false));
    assert(object_end(s, u, 1, true, false) == object_end(s, u + 1, 1, false, false));
    assert(object_end(s, v, 1, false, false) == Some(v + 1));
    assert(s.subrange(p, p + o.len()) =~= o);
}

proof fn first_brace(pre: Seq<char>, o: Seq<char>, post: Seq<char>)
    requires
        !pre.contains('{'),
        o.len() > 0 && o[0] == '{',
    ensures
        crate::text::first_of(pre + o + post, '{') == Some(pre.len() as int),
{
    let s = pre + o + post;
    find_from_is_first(s, '{', 0);
    assert(s[pre.len() as int] == '{');
    match crate::text::first_of(s, '{') {
        Some(i) => {
            if i < pre.len() {
                assert(pre[i] == '{');
                assert(pre.contains('{'));
            }
        },
        None => {},
    }
}

/// An answer that does not end in a closing brace or bracket was cut off, and is said to be.
pub proof fn cut_answers_are_told(t: Seq<char>, cause: Seq<char>)
    requires
        is_tight(t) && t.len() > 0 && !t.contains('`'),
    ensures
        is_truncated(t) <==> t.last() != '}' && t.last() != ']',
        is_truncated(t) ==> no_object_error(t) == "响应不完整（"@ + digits(t.len())
            + " 字符），很可能被 max_tokens 截断——提高 max_tokens 或缩小任务粒度"@,
        !is_truncated(t) ==> no_object_error(t) == "响应中找不到 JSON 对象"@,
        is_truncated(t) ==> bad_json_error(t, cause) == "解析 JSON 失败："@ + cause + "（响应 "@
            + digits(t.len()) + " 字符，"@
            + "末尾不完整，很可能是响应被 max_tokens 截断——提高 max_tokens 或缩小任务粒度"@ + "）"@,
        !is_truncated(t) ==> bad_json_error(t, cause) == "解析 JSON 失败："@ + cause + "（响应 "@
            + digits(t.len()) + " 字符，"@ + "格式不符合预期"@ + "）"@,
{
    reveal_strlit("}");
    reveal_strlit("]");
    let n = Seq::<char>::empty();
    fences_are_taken_off(n, t);
    assert(crate::text::trimmed_end(t) == t);
    assert(t.skip(t.len() - 1) =~= seq![t.last()]);
    assert("}"@ =~= seq!['}']);
    assert("]"@ =~= seq![']']);
    assert(seq![t.last()] == "}"@ <==> t.last() == '}') by {
        assert(seq![t.last()][0] == t.last() && "}"@[0] == '}');
    }
    assert(seq![t.last()] == "]"@ <==> t.last() == ']') by {
        assert(seq![t.last()][0] == t.last() && "]"@[0] == ']');
    }
}

} // verus!

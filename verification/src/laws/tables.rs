//! Tables are found in statements: which tokens name one, and which matches report it.
use crate::extract::sql::{
    candidates, is_claimed, is_identifier, ranges, scanned, table_name, tables_are_reported,
    tables_in, unquoted, with_op, Candidate,
};
use crate::laws::basics::{
    characters_by_code, concat_members, cuts_are_at_the_ends, lowered_by_place, push_members,
    trimmed_is_core, trimmed_of_is_core,
};
use crate::pattern::{
    group_of, matches_of, FoundView, DELETE, DUP_UPDATE, FROM, INSERT, JOIN, REPLACE, UPDATE,
};
use crate::store::model::TableOp;
use crate::text::{is_white, lowered, trimmed, trimmed_of};
use vstd::prelude::*;

verus! {

/// Whether `c` is an ASCII letter, an ASCII digit or an underscore, by its code.
pub open spec fn in_a_name(c: char) -> bool {
    65 <= c as int <= 90 || 97 <= c as int <= 122 || 48 <= c as int <= 57 || c == '_'
}

/// Whether `t` is spelled as a table's name: at least two letters, digits and underscores,
/// the first no digit.
pub open spec fn is_spelled(t: Seq<char>) -> bool {
    &&& t.len() >= 2
    &&& forall|i: int| 0 <= i < t.len() ==> in_a_name(#[trigger] t[i])
    &&& !(48 <= t[0] as int <= 57)
}

/// The words that stand where a table could and are none.
pub open spec fn is_keyword(w: Seq<char>) -> bool {
    w == "select"@ || w == "dual"@ || w == "information_schema"@ || w == "values"@ || w == "set"@
        || w == "where"@ || w == "table"@
}

/// The catalogs of the engine itself.
pub open spec fn is_engine_catalog(w: Seq<char>) -> bool {
    w == "information_schema"@ || w == "performance_schema"@ || w == "mysql"@ || w == "sys"@
}

proof fn spelled_is_identifier(t: Seq<char>)
    ensures
        is_spelled(t) <==> is_identifier(t),
        is_spelled(t) ==> !t.contains('.') && !t.contains('`') && !is_white(t[0]) && !is_white(
            t.last(),
        ) && t[0] != '`' && t.last() != '`',
        t.len() > 0 && is_spelled(t) ==> trimmed(t) == t && trimmed_of(t, '`') == t,
{
    let e = Seq::<char>::empty();
    assert forall|i: int| 0 <= i < t.len() implies (in_a_name(#[trigger] t[i]) <==> (
    crate::text::is_alnum(t[i]) || t[i] == '_')) by {
        characters_by_code(t[i]);
    }
    if t.len() > 0 {
        characters_by_code(t[0]);
        characters_by_code(t.last());
    }
    if is_spelled(t) {
        assert(in_a_name(t[0]) && in_a_name(t[t.len() - 1]));
        assert(!t.contains('.')) by {
            if t.contains('.') {
                let k = choose|k: int| 0 <= k < t.len() && t[k] == '.';
                assert(in_a_name(t[k]));
            }
        }
        assert(!t.contains('`')) by {
            if t.contains('`') {
                let k = choose|k: int| 0 <= k < t.len() && t[k] == '`';
                assert(in_a_name(t[k]));
            }
        }
        trimmed_is_core(e, t, e);
        trimmed_of_is_core(e, t, e, '`');
        assert(e + t + e =~= t);
    }
}

/// Every token that is spelled as a name and is no keyword names a table: itself, in lower
/// case. White space and backticks around it change nothing.
pub proof fn spelled_tokens_name_tables(a: Seq<char>, t: Seq<char>, b: Seq<char>)
    requires
        is_spelled(t),
        !is_keyword(lowered(t)),
        forall|i: int| 0 <= i < a.len() ==> is_white(#[trigger] a[i]),
        forall|i: int| 0 <= i < b.len() ==> is_white(#[trigger] b[i]),
    ensures
        table_name(t) == Some(lowered(t)),
        table_name(a + t + b) == Some(lowered(t)),
        table_name("`"@ + t + "`"@) == Some(lowered(t)),
{
    reveal_strlit("`");
    spelled_is_identifier(t);
    cuts_are_at_the_ends(t, t, '.');
    trimmed_is_core(a, t, b);
    let q = "`"@ + t + "`"@;
    let e = Seq::<char>::empty();
    assert(!is_white('`'));
    assert(q.last() == '`');
    trimmed_is_core(e, q, e);
    assert(e + q + e =~= q);
    trimmed_of_is_core("`"@, t, "`"@, '`');
}

/// A name behind a schema is the table's, unless the schema is a catalog of the engine.
pub proof fn schemas_are_dropped(schema: Seq<char>, t: Seq<char>)
    requires
        is_spelled(t),
        is_spelled(schema),
    ensures
        !is_engine_catalog(lowered(schema)) && !is_keyword(lowered(t)) ==> table_name(
            schema + "."@ + t,
        ) == Some(lowered(t)) && table_name("`"@ + schema + "`.`"@ + t + "`"@) == Some(lowered(t)),
        is_engine_catalog(lowered(schema)) ==> table_name(schema + "."@ + t) is None && table_name(
            "`"@ + schema + "`.`"@ + t + "`"@,
        ) is None,
{
    reveal_strlit("`");
    reveal_strlit(".");
    reveal_strlit("`.`");
    spelled_is_identifier(t);
    spelled_is_identifier(schema);
    let e = Seq::<char>::empty();
    let tick = "`"@;
    let raw = schema + "."@ + t;
    assert(raw =~= schema.push('.') + t);
    cuts_are_at_the_ends(schema, t, '.');
    assert(raw[0] == schema[0]);
    assert(raw.last() == t.last());
    trimmed_is_core(e, raw, e);
    trimmed_of_is_core(e, raw, e, '`');
    assert(e + raw + e =~= raw);
    assert(unquoted(raw) == raw);

    let inner = schema + "`.`"@ + t;
    let q = tick + schema + "`.`"@ + t + tick;
    assert(q =~= tick + inner + tick);
    assert(!is_white('`'));
    assert(q[0] == '`' && q.last() == '`');
    assert(inner[0] == schema[0] && inner.last() == t.last());
    trimmed_is_core(e, q, e);
    assert(e + q + e =~= q);
    trimmed_of_is_core(tick, inner, tick, '`');
    trimmed_is_core(e, inner, e);
    assert(e + inner + e =~= inner);
    assert(unquoted(q) == inner);
    let l = schema.push('`');
    let r = tick + t;
    assert(inner =~= l.push('.') + r);
    assert(!l.contains('.')) by {
        if l.contains('.') {
            let k = choose|k: int| 0 <= k < l.len() && l[k] == '.';
            assert(k < schema.len());
            assert(schema[k] == '.');
        }
    }
    assert(!r.contains('.')) by {
        if r.contains('.') {
            let k = choose|k: int| 0 <= k < r.len() && r[k] == '.';
            assert(k > 0);
            assert(t[k - 1] == '.');
        }
    }
    cuts_are_at_the_ends(l, r, '.');
    trimmed_of_is_core(e, schema, tick, '`');
    assert(e + schema + tick =~= l);
    trimmed_of_is_core(tick, t, e, '`');
    assert(tick + t + e =~= r);
}

/// Keywords, single characters, numbers and tokens with any other character name no table.
pub proof fn other_tokens_name_none(t: Seq<char>, k: int)
    requires
        t.len() > 0 && !t.contains('.') && !t.contains('`'),
        !is_white(t[0]) && !is_white(t.last()),
    ensures
        is_keyword(lowered(t)) ==> table_name(t) is None,
        t.len() == 1 ==> table_name(t) is None,
        48 <= t[0] as int <= 57 ==> table_name(t) is None,
        0 <= k < t.len() && !in_a_name(t[k]) ==> table_name(t) is None,
{
    let e = Seq::<char>::empty();
    trimmed_is_core(e, t, e);
    assert(t.contains(t[0]) && t.contains(t[t.len() - 1]));
    trimmed_of_is_core(e, t, e, '`');
    assert(e + t + e =~= t);
    cuts_are_at_the_ends(t, t, '.');
    spelled_is_identifier(t);
}

/// What is reported as a name is spelled as one, holds no upper-case letter and is no
/// keyword.
pub proof fn names_are_lower_case(raw: Seq<char>, i: int)
    requires
        table_name(raw) is Some,
    ensures
        is_spelled(table_name(raw)->0),
        !is_keyword(table_name(raw)->0),
        0 <= i < (table_name(raw)->0).len() ==> !(65 <= (table_name(raw)->0)[i] as int <= 90),
{
    let t = trimmed_of(crate::split::tail_of(unquoted(raw), '.'), '`');
    spelled_is_identifier(t);
    let n = lowered(t);
    assert forall|j: int| 0 <= j < n.len() implies in_a_name(#[trigger] n[j]) && !(65
        <= n[j] as int <= 90) by {
        lowered_by_place(t, j);
        assert(in_a_name(t[j]));
    }
    lowered_by_place(t, 0);
}

// ---------------------------------------------------------------------------
// Matches

/// Whether the match is one of an insertion, deletion, update or read.
pub open spec fn is_match(sql: Seq<char>, f: FoundView, op: TableOp) -> bool {
    match op {
        TableOp::Insert => matches_of(INSERT@, sql).contains(f) || matches_of(REPLACE@, sql)
            .contains(f),
        TableOp::Delete => matches_of(DELETE@, sql).contains(f),
        TableOp::Update => matches_of(UPDATE@, sql).contains(f),
        TableOp::Select => matches_of(FROM@, sql).contains(f) || matches_of(JOIN@, sql).contains(f),
    }
}

/// Whether the match's token names the table.
pub open spec fn names(f: FoundView, t: Seq<char>) -> bool {
    f.groups.len() > 1 && f.groups[1] is Some && table_name(f.groups[1]->0) == Some(t)
}

pub open spec fn overlap(f: FoundView, g: FoundView) -> bool {
    f.start < g.end && g.start < f.end
}

/// Whether the match overlaps no upsert clause.
pub open spec fn outside_upserts(sql: Seq<char>, f: FoundView) -> bool {
    forall|g: FoundView| #[trigger] matches_of(DUP_UPDATE@, sql).contains(g) ==> !overlap(f, g)
}

/// Whether the match overlaps neither an upsert clause nor another match.
pub open spec fn stands_alone(sql: Seq<char>, f: FoundView, op: TableOp) -> bool {
    &&& outside_upserts(sql, f)
    &&& forall|g: FoundView, o: TableOp| #[trigger]
        is_match(sql, g, o) && (g, o) != (f, op) ==> !overlap(f, g)
}

/// Whether the match overlaps neither an upsert clause nor another write.
pub open spec fn leads(sql: Seq<char>, f: FoundView, op: TableOp) -> bool {
    &&& outside_upserts(sql, f)
    &&& forall|g: FoundView, o: TableOp| #[trigger]
        is_match(sql, g, o) && !(o is Select) && (g, o) != (f, op) ==> !overlap(f, g)
}

proof fn with_op_members(ms: Seq<FoundView>, op: TableOp, c: Candidate)
    ensures
        with_op(ms, op).contains(c) <==> c.1 == op && ms.contains(c.0),
{
    let w = with_op(ms, op);
    if w.contains(c) {
        let k = choose|k: int| 0 <= k < w.len() && w[k] == c;
        assert(ms[k] == c.0);
    }
    if c.1 == op && ms.contains(c.0) {
        let k = choose|k: int| 0 <= k < ms.len() && ms[k] == c.0;
        assert(w[k] == c);
    }
}

spec fn writes(sql: Seq<char>) -> Seq<Candidate> {
    with_op(matches_of(INSERT@, sql), TableOp::Insert) + with_op(
        matches_of(REPLACE@, sql),
        TableOp::Insert,
    ) + with_op(matches_of(DELETE@, sql), TableOp::Delete) + with_op(
        matches_of(UPDATE@, sql),
        TableOp::Update,
    )
}

spec fn reads(sql: Seq<char>) -> Seq<Candidate> {
    with_op(matches_of(FROM@, sql), TableOp::Select) + with_op(
        matches_of(JOIN@, sql),
        TableOp::Select,
    )
}

proof fn candidates_are_matches(sql: Seq<char>, c: Candidate)
    ensures
        candidates(sql) == writes(sql) + reads(sql),
        writes(sql).contains(c) <==> is_match(sql, c.0, c.1) && !(c.1 is Select),
        reads(sql).contains(c) <==> is_match(sql, c.0, c.1) && c.1 is Select,
        candidates(sql).contains(c) <==> is_match(sql, c.0, c.1),
{
    let i = with_op(matches_of(INSERT@, sql), TableOp::Insert);
    let r = with_op(matches_of(REPLACE@, sql), TableOp::Insert);
    let d = with_op(matches_of(DELETE@, sql), TableOp::Delete);
    let u = with_op(matches_of(UPDATE@, sql), TableOp::Update);
    let f = with_op(matches_of(FROM@, sql), TableOp::Select);
    let j = with_op(matches_of(JOIN@, sql), TableOp::Select);
    with_op_members(matches_of(INSERT@, sql), TableOp::Insert, c);
    with_op_members(matches_of(REPLACE@, sql), TableOp::Insert, c);
    with_op_members(matches_of(DELETE@, sql), TableOp::Delete, c);
    with_op_members(matches_of(UPDATE@, sql), TableOp::Update, c);
    with_op_members(matches_of(FROM@, sql), TableOp::Select, c);
    with_op_members(matches_of(JOIN@, sql), TableOp::Select, c);
    concat_members(i, r, c);
    concat_members(i + r, d, c);
    concat_members(i + r + d, u, c);
    concat_members(f, j, c);
    concat_members(writes(sql), reads(sql), c);
    assert(i + r + d + u + f + j =~= (i + r + d + u) + (f + j));
}

/// Whether a claimed range is a base range or that of a candidate.
spec fn claims_from(base: Seq<(usize, usize)>, cs: Seq<Candidate>) -> bool {
    forall|x: (usize, usize)| #[trigger]
        scanned(base, cs).claimed.contains(x) ==> base.contains(x) || exists|k: int|
            0 <= k < cs.len() && x == ((#[trigger] cs[k]).0.start, cs[k].0.end)
}

proof fn claims_come_from(base: Seq<(usize, usize)>, cs: Seq<Candidate>)
    ensures
        claims_from(base, cs),
    decreases cs.len(),
{
    if cs.len() > 0 {
        let rest = cs.drop_last();
        claims_come_from(base, rest);
        let s0 = scanned(base, rest);
        let c = cs.last();
        assert(cs[cs.len() - 1] == c);
        assert forall|x: (usize, usize)| #[trigger]
            scanned(base, cs).claimed.contains(x) implies base.contains(x) || exists|k: int|
            0 <= k < cs.len() && x == ((#[trigger] cs[k]).0.start, cs[k].0.end) by {
            push_members(s0.claimed, (c.0.start, c.0.end), x);
            if s0.claimed.contains(x) && !base.contains(x) {
                let k = choose|k: int|
                    0 <= k < rest.len() && x == ((#[trigger] rest[k]).0.start, rest[k].0.end);
                assert(cs[k] == rest[k]);
            }
        }
    }
}

proof fn scans_grow(base: Seq<(usize, usize)>, cs: Seq<Candidate>, more: Seq<Candidate>)
    ensures
        forall|x: (usize, usize)| #[trigger]
            scanned(base, cs).claimed.contains(x) ==> scanned(base, cs + more).claimed.contains(x),
        forall|x: (Seq<char>, TableOp)| #[trigger]
            scanned(base, cs).hits.contains(x) ==> scanned(base, cs + more).hits.contains(x),
        forall|x: (usize, usize)| #[trigger]
            base.contains(x) ==> scanned(base, cs).claimed.contains(x),
    decreases more.len(), cs.len(),
{
    if more.len() > 0 {
        let all = cs + more;
        let less = more.drop_last();
        scans_grow(base, cs, less);
        assert(all.drop_last() =~= cs + less);
        let s0 = scanned(base, cs + less);
        let c = all.last();
        assert forall|x: (usize, usize)| #[trigger]
            scanned(base, cs).claimed.contains(x) implies scanned(base, all).claimed.contains(x) by {
            push_members(s0.claimed, (c.0.start, c.0.end), x);
        }
        assert forall|x: (Seq<char>, TableOp)| #[trigger]
            scanned(base, cs).hits.contains(x) implies scanned(base, all).hits.contains(x) by {
            assert(s0.hits.contains(x));
            match group_of(c.0, 1) {
                Some(token) => match table_name(token) {
                    Some(t) => {
                        push_members(s0.hits, (t, c.1), x);
                    },
                    None => {},
                },
                None => {},
            }
        }
    } else {
        assert(cs + more =~= cs);
        if cs.len() > 0 {
            let rest = cs.drop_last();
            scans_grow(base, rest, more);
            let c = cs.last();
            let s0 = scanned(base, rest);
            assert forall|x: (usize, usize)| #[trigger]
                base.contains(x) implies scanned(base, cs).claimed.contains(x) by {
                assert(s0.claimed.contains(x));
                push_members(s0.claimed, (c.0.start, c.0.end), x);
            }
        }
    }
}

/// A candidate that overlaps no base range and no other candidate is reported and claims
/// its range.
proof fn lone_is_reported(
    base: Seq<(usize, usize)>,
    cs: Seq<Candidate>,
    c: Candidate,
    t: Seq<char>,
)
    requires
        cs.contains(c),
        names(c.0, t),
        forall|x: (usize, usize)| #[trigger]
            base.contains(x) ==> !(c.0.start < x.1 && x.0 < c.0.end),
        forall|k: int|
            0 <= k < cs.len() && (#[trigger] cs[k]) != c ==> !overlap(c.0, cs[k].0),
    ensures
        scanned(base, cs).hits.contains((t, c.1)),
        scanned(base, cs).claimed.contains((c.0.start, c.0.end)),
    decreases cs.len(),
{
    let rest = cs.drop_last();
    let last = cs.last();
    let s0 = scanned(base, rest);
    assert(cs =~= rest + seq![last]);
    if rest.contains(c) {
        assert forall|k: int| 0 <= k < rest.len() && (#[trigger] rest[k]) != c implies !overlap(
            c.0,
            rest[k].0,
        ) by {
            assert(cs[k] == rest[k]);
        }
        lone_is_reported(base, rest, c, t);
        scans_grow(base, rest, seq![last]);
    } else {
        let k = choose|k: int| 0 <= k < cs.len() && cs[k] == c;
        assert(k == cs.len() - 1) by {
            if k < cs.len() - 1 {
                assert(rest[k] == c);
            }
        }
        claims_come_from(base, rest);
        assert(!is_claimed(s0.claimed, c.0.start, c.0.end)) by {
            if is_claimed(s0.claimed, c.0.start, c.0.end) {
                let i = choose|i: int|
                    0 <= i < s0.claimed.len() && c.0.start < (#[trigger] s0.claimed[i]).1
                        && s0.claimed[i].0 < c.0.end;
                let x = s0.claimed[i];
                assert(s0.claimed.contains(x));
                if !base.contains(x) {
                    let m = choose|m: int|
                        0 <= m < rest.len() && x == ((#[trigger] rest[m]).0.start, rest[m].0.end);
                    assert(cs[m] == rest[m]);
                    assert(rest[m] != c);
                    assert(overlap(c.0, cs[m].0));
                }
            }
        }
        push_members(s0.hits, (t, c.1), (t, c.1));
        push_members(s0.claimed, (c.0.start, c.0.end), (c.0.start, c.0.end));
    }
}

/// A match that names a table and overlaps no other is reported with its operation: what
/// is read `from` or by a `join` as read, what is written as written.
pub proof fn lone_matches_are_reported(sql: Seq<char>, f: FoundView, op: TableOp, t: Seq<char>)
    requires
        is_match(sql, f, op),
        names(f, t),
        stands_alone(sql, f, op),
    ensures
        tables_in(sql).contains((t, op)),
{
    let base = ranges(matches_of(DUP_UPDATE@, sql));
    let cs = candidates(sql);
    candidates_are_matches(sql, (f, op));
    bases_are_upserts(sql, f);
    assert forall|k: int| 0 <= k < cs.len() && (#[trigger] cs[k]) != (f, op) implies !overlap(
        f,
        cs[k].0,
    ) by {
        assert(cs.contains(cs[k]));
        candidates_are_matches(sql, cs[k]);
        assert(is_match(sql, cs[k].0, cs[k].1));
    }
    lone_is_reported(base, cs, (f, op), t);
    tables_are_reported(sql);
}

/// So a read of any name that is spelled as one is reported under it, in lower case.
pub proof fn reads_of_names_are_reported(sql: Seq<char>, f: FoundView, n: Seq<char>)
    requires
        is_match(sql, f, TableOp::Select),
        f.groups.len() > 1 && f.groups[1] == Some(n),
        is_spelled(n) && !is_keyword(lowered(n)),
        stands_alone(sql, f, TableOp::Select),
    ensures
        tables_in(sql).contains((lowered(n), TableOp::Select)),
{
    spelled_tokens_name_tables(Seq::empty(), n, Seq::empty());
    lone_matches_are_reported(sql, f, TableOp::Select, lowered(n));
}

proof fn bases_are_upserts(sql: Seq<char>, f: FoundView)
    requires
        outside_upserts(sql, f),
    ensures
        forall|x: (usize, usize)| #[trigger]
            ranges(matches_of(DUP_UPDATE@, sql)).contains(x) ==> !(f.start < x.1 && x.0 < f.end),
{
    let ms = matches_of(DUP_UPDATE@, sql);
    let base = ranges(ms);
    assert forall|x: (usize, usize)| #[trigger] base.contains(x) implies !(f.start < x.1 && x.0
        < f.end) by {
        let i = choose|i: int| 0 <= i < base.len() && base[i] == x;
        assert(ms.contains(ms[i]));
        assert(!overlap(f, ms[i]));
    }
}

/// What a hit comes from: a candidate that names the table and whose range was free.
spec fn is_source(
    base: Seq<(usize, usize)>,
    cs: Seq<Candidate>,
    i: int,
    x: (Seq<char>, TableOp),
) -> bool {
    &&& 0 <= i < cs.len()
    &&& cs[i].1 == x.1
    &&& names(cs[i].0, x.0)
    &&& !is_claimed(scanned(base, cs.take(i)).claimed, cs[i].0.start, cs[i].0.end)
}

proof fn hits_have_sources(base: Seq<(usize, usize)>, cs: Seq<Candidate>, x: (Seq<char>, TableOp))
    requires
        scanned(base, cs).hits.contains(x),
    ensures
        exists|i: int| #[trigger] is_source(base, cs, i, x),
    decreases cs.len(),
{
    if cs.len() > 0 {
        let rest = cs.drop_last();
        let n = rest.len() as int;
        let s0 = scanned(base, rest);
        let c = cs.last();
        assert(cs.take(n) =~= rest);
        if s0.hits.contains(x) {
            hits_have_sources(base, rest, x);
            let i = choose|i: int| #[trigger] is_source(base, rest, i, x);
            assert(rest.take(i) =~= cs.take(i));
            assert(is_source(base, cs, i, x));
        } else {
            let t = table_name(group_of(c.0, 1)->0)->0;
            push_members(s0.hits, (t, c.1), x);
            assert(is_source(base, cs, n, x));
        }
    }
}

/// Whether the match can be what a report comes from: it names the table, lies outside the
/// upsert clauses and, where it reads, outside every write that leads.
pub open spec fn can_report(
    sql: Seq<char>,
    f: FoundView,
    t: Seq<char>,
    op: TableOp,
) -> bool {
    &&& is_match(sql, f, op)
    &&& names(f, t)
    &&& outside_upserts(sql, f)
    &&& op is Select ==> forall|g: FoundView, o: TableOp, u: Seq<char>|
        #![trigger is_match(sql, g, o), names(g, u)]
        is_match(sql, g, o) && !(o is Select) && names(g, u) && leads(sql, g, o) ==> !overlap(f, g)
}

/// Every report comes from a match that can report it. So the table that a `delete from`
/// names is not read, and the column behind an upsert's `update` is no table.
pub proof fn reports_come_from_matches(sql: Seq<char>, t: Seq<char>, op: TableOp)
    requires
        tables_in(sql).contains((t, op)),
    ensures
        exists|f: FoundView| #[trigger] can_report(sql, f, t, op),
{
    tables_are_reported(sql);
    let base = ranges(matches_of(DUP_UPDATE@, sql));
    let cs = candidates(sql);
    let ws = writes(sql);
    let rs = reads(sql);
    hits_have_sources(base, cs, (t, op));
    let i = choose|i: int| #[trigger] is_source(base, cs, i, (t, op));
    let f = cs[i].0;
    assert(cs.contains(cs[i]));
    candidates_are_matches(sql, cs[i]);
    let before = scanned(base, cs.take(i)).claimed;
    assert(outside_upserts(sql, f)) by {
        assert forall|g: FoundView| #[trigger]
            matches_of(DUP_UPDATE@, sql).contains(g) implies !overlap(f, g) by {
            let ms = matches_of(DUP_UPDATE@, sql);
            let k = choose|k: int| 0 <= k < ms.len() && ms[k] == g;
            assert(base[k] == (g.start, g.end));
            assert(base.contains((g.start, g.end)));
            scans_grow(base, cs.take(i), Seq::empty());
            assert(before.contains((g.start, g.end)));
            let m = choose|m: int| 0 <= m < before.len() && before[m] == (g.start, g.end);
            assert(before[m].1 == g.end);
        }
    }
    if op is Select {
        assert(i >= ws.len()) by {
            if i < ws.len() {
                assert(ws[i] == cs[i]);
                assert(ws.contains(cs[i]));
            }
        }
        let later = rs.take(i - ws.len());
        assert(cs.take(i) =~= ws + later);
        assert forall|g: FoundView, o: TableOp, u: Seq<char>|
            #![trigger is_match(sql, g, o), names(g, u)]
            is_match(sql, g, o) && !(o is Select) && names(g, u) && leads(sql, g, o) implies !overlap(
            f,
            g,
        ) by {
            candidates_are_matches(sql, (g, o));
            bases_are_upserts(sql, g);
            assert forall|k: int| 0 <= k < ws.len() && (#[trigger] ws[k]) != (
                g,
                o,
            ) implies !overlap(g, ws[k].0) by {
                assert(ws.contains(ws[k]));
                candidates_are_matches(sql, ws[k]);
                assert(is_match(sql, ws[k].0, ws[k].1));
            }
            lone_is_reported(base, ws, (g, o), u);
            scans_grow(base, ws, later);
            assert(before.contains((g.start, g.end)));
            let m = choose|m: int| 0 <= m < before.len() && before[m] == (g.start, g.end);
            assert(before[m].1 == g.end);
        }
    }
    assert(can_report(sql, f, t, op));
}

} // verus!

//! Table-name and operation extraction from raw SQL text.
//!
//! MyBatis XML bodies are SQL with `<if>`/`<foreach>` fragments interleaved, so
//! a real SQL parser is the wrong tool: it would reject most statements. We scan
//! for the keywords that introduce table names instead, which is robust against
//! the dynamic-SQL noise and against the vendor dialects legacy projects use.
use crate::lists::{ascends_unique, order_exists};
use crate::pattern::{
    find_all, group_of, lowered_group, matches_of, same_but_case, Found, FoundView, DELETE,
    DUP_UPDATE, FROM, INSERT, JOIN, REPLACE, UPDATE,
};
use crate::split::{after_last, cut_once, split_once, tail_of};
use crate::store::model::TableOp;
use crate::text::{
    alnum, chars_of, digit, drop_while, find_from, find_from_is_first, is_alnum, is_digit, is_white,
    less, lex_irreflexive, lex_lt, lex_total, lex_transitive, lowered, lowered_char, only, rfind_to,
    rfind_to_is_last, same, skip_while, to_lower, trim, trim_of, trimmed, trimmed_of, whites,
};
use vstd::prelude::*;

verus! {

/// Words that appear where a table name would but are not tables.
pub open spec fn is_reserved(w: Seq<char>) -> bool {
    ||| w == "select"@
    ||| w == "dual"@
    ||| w == "information_schema"@
    ||| w == "values"@
    ||| w == "set"@
    ||| w == "where"@
    ||| w == "table"@
}

fn reserved(w: &str) -> (r: bool)
    ensures
        r == is_reserved(w@),
{
    same(w, "select") || same(w, "dual") || same(w, "information_schema") || same(w, "values")
        || same(w, "set") || same(w, "where") || same(w, "table")
}

/// Schemas whose contents are engine metadata rather than business data.
pub open spec fn is_meta_schema(w: Seq<char>) -> bool {
    ||| w == "information_schema"@
    ||| w == "performance_schema"@
    ||| w == "mysql"@
    ||| w == "sys"@
}

fn meta_schema(w: &str) -> (r: bool)
    ensures
        r == is_meta_schema(w@),
{
    same(w, "information_schema") || same(w, "performance_schema") || same(w, "mysql") || same(
        w,
        "sys",
    )
}

/// Whether `t` can name a table: two characters or more, letters, digits and
/// underscores only, no digit first. Placeholders and fragment references are
/// none of these.
pub open spec fn is_identifier(t: Seq<char>) -> bool {
    &&& t.len() >= 2
    &&& forall|i: int| 0 <= i < t.len() ==> is_alnum(#[trigger] t[i]) || t[i] == '_'
    &&& !is_digit(t[0])
}

/// A captured token without white space and backticks around it.
pub open spec fn unquoted(raw: Seq<char>) -> Seq<char> {
    trimmed(trimmed_of(trimmed(raw), '`'))
}

/// Whether the token is qualified by an engine catalog.
pub open spec fn in_catalog(t: Seq<char>) -> bool {
    match cut_once(t, '.') {
        Some(p) => is_meta_schema(lowered(trimmed_of(p.0, '`'))),
        None => false,
    }
}

/// The bare, lower-case table name that a captured token gives, if it gives one.
pub open spec fn table_name(raw: Seq<char>) -> Option<Seq<char>> {
    let t = trimmed_of(tail_of(unquoted(raw), '.'), '`');
    if !in_catalog(unquoted(raw)) && is_identifier(t) && !is_reserved(lowered(t)) {
        Some(lowered(t))
    } else {
        None
    }
}

fn identifier(t: &str) -> (r: bool)
    ensures
        r == is_identifier(t@),
{
    let v = chars_of(t);
    if v.len() < 2 || digit(v[0]) {
        return false;
    }
    let mut i: usize = 0;
    while i < v.len()
        invariant
            i <= v.len(),
            v@ == t@,
            forall|j: int| 0 <= j < i ==> is_alnum(#[trigger] t@[j]) || t@[j] == '_',
        decreases v.len() - i,
    {
        if !(alnum(v[i]) || v[i] == '_') {
            assert(!is_alnum(t@[i as int]) && t@[i as int] != '_');
            return false;
        }
        i += 1;
    }
    true
}

/// Normalize a captured token into a bare table name, or reject it.
pub fn normalize(raw: &str) -> (r: Option<String>)
    ensures
        r.deep_view() == table_name(raw@),
{
    let t = trim(trim_of(trim(raw), '`'));
    // Reject engine catalogs outright: `information_schema.tables` is a probe of
    // the database, not a table this project owns.
    match split_once(t, '.') {
        Some(p) => {
            if meta_schema(to_lower(trim_of(p.0, '`')).as_str()) {
                return None;
            }
        },
        None => {},
    }
    // Strip a schema qualifier: `db.t_coupon` → `t_coupon`.
    let t = trim_of(after_last(t, '.'), '`');
    if !identifier(t) {
        return None;
    }
    let lower = to_lower(t);
    if reserved(lower.as_str()) {
        return None;
    }
    Some(lower)
}

// ---------------------------------------------------------------------------
// Scanning

/// A match and the operation its keyword stands for.
pub type Candidate = (FoundView, TableOp);

pub open spec fn with_op(ms: Seq<FoundView>, op: TableOp) -> Seq<Candidate> {
    ms.map_values(|f: FoundView| (f, op))
}

/// The byte ranges that are taken, and what has been found.
pub struct Scan {
    pub claimed: Seq<(usize, usize)>,
    pub hits: Seq<(Seq<char>, TableOp)>,
}

/// Whether `start..end` overlaps a claimed range.
pub open spec fn is_claimed(claimed: Seq<(usize, usize)>, start: usize, end: usize) -> bool {
    exists|i: int|
        0 <= i < claimed.len() && start < (#[trigger] claimed[i]).1 && claimed[i].0 < end
}

/// One candidate: dropped where its range is taken or its token names no table,
/// else reported, its range claimed.
pub open spec fn consider(s: Scan, c: Candidate) -> Scan {
    if is_claimed(s.claimed, c.0.start, c.0.end) {
        s
    } else {
        match group_of(c.0, 1) {
            Some(token) => match table_name(token) {
                Some(t) => Scan {
                    claimed: s.claimed.push((c.0.start, c.0.end)),
                    hits: s.hits.push((t, c.1)),
                },
                None => s,
            },
            None => s,
        }
    }
}

pub open spec fn scanned(claimed: Seq<(usize, usize)>, cs: Seq<Candidate>) -> Scan
    decreases cs.len(),
{
    if cs.len() == 0 {
        Scan { claimed, hits: Seq::empty() }
    } else {
        consider(scanned(claimed, cs.drop_last()), cs.last())
    }
}

/// The ranges of the upsert clauses.
pub open spec fn ranges(ms: Seq<FoundView>) -> Seq<(usize, usize)> {
    ms.map_values(|f: FoundView| (f.start, f.end))
}

/// The candidates of a body, writes before reads.
pub open spec fn candidates(sql: Seq<char>) -> Seq<Candidate> {
    with_op(matches_of(INSERT@, sql), TableOp::Insert) + with_op(
        matches_of(REPLACE@, sql),
        TableOp::Insert,
    ) + with_op(matches_of(DELETE@, sql), TableOp::Delete) + with_op(
        matches_of(UPDATE@, sql),
        TableOp::Update,
    ) + with_op(matches_of(FROM@, sql), TableOp::Select) + with_op(
        matches_of(JOIN@, sql),
        TableOp::Select,
    )
}

/// What a body's scan reports.
pub open spec fn hits_of(sql: Seq<char>) -> Seq<(Seq<char>, TableOp)> {
    scanned(ranges(matches_of(DUP_UPDATE@, sql)), candidates(sql)).hits
}

// ---------------------------------------------------------------------------
// Order of the report

/// The operations in the order of their names.
pub open spec fn op_rank(op: TableOp) -> int {
    match op {
        TableOp::Delete => 0,
        TableOp::Insert => 1,
        TableOp::Select => 2,
        TableOp::Update => 3,
    }
}

/// The rank goes by the operations' names.
pub proof fn op_rank_by_name(a: TableOp, b: TableOp)
    ensures
        op_rank(a) < op_rank(b) <==> lex_lt(a.name(), b.name()),
{
    reveal_strlit("select");
    reveal_strlit("insert");
    reveal_strlit("update");
    reveal_strlit("delete");
    reveal_with_fuel(lex_lt, 2);
    lex_irreflexive(a.name());
}

fn rank(op: TableOp) -> (r: u8)
    ensures
        r == op_rank(op),
{
    match op {
        TableOp::Delete => 0,
        TableOp::Insert => 1,
        TableOp::Select => 2,
        TableOp::Update => 3,
    }
}

pub open spec fn pair_lt(a: (Seq<char>, TableOp), b: (Seq<char>, TableOp)) -> bool {
    lex_lt(a.0, b.0) || (a.0 == b.0 && op_rank(a.1) < op_rank(b.1))
}

/// Strictly ascending by table, then by operation.
pub open spec fn in_pair_order(s: Seq<(Seq<char>, TableOp)>) -> bool {
    forall|i: int, j: int| 0 <= i < j < s.len() ==> pair_lt(#[trigger] s[i], #[trigger] s[j])
}

/// The ascending list of the members of `hits`, each once.
pub open spec fn reports(
    r: Seq<(Seq<char>, TableOp)>,
    hits: Seq<(Seq<char>, TableOp)>,
) -> bool {
    &&& in_pair_order(r)
    &&& forall|x: (Seq<char>, TableOp)| #[trigger] r.contains(x) <==> hits.contains(x)
}

/// The ascending list of a body's hits.
pub open spec fn tables_in(sql: Seq<char>) -> Seq<(Seq<char>, TableOp)> {
    choose|r: Seq<(Seq<char>, TableOp)>| reports(r, hits_of(sql))
}

/// There is one ascending list of the same hits only.
pub proof fn reports_unique(
    a: Seq<(Seq<char>, TableOp)>,
    b: Seq<(Seq<char>, TableOp)>,
    hits: Seq<(Seq<char>, TableOp)>,
)
    requires
        reports(a, hits),
        reports(b, hits),
    ensures
        a == b,
{
    let lt = |x: (Seq<char>, TableOp), y: (Seq<char>, TableOp)| pair_lt(x, y);
    assert forall|x: (Seq<char>, TableOp)| !#[trigger] lt(x, x) by {
        lex_irreflexive(x.0);
    }
    assert forall|x: (Seq<char>, TableOp), y: (Seq<char>, TableOp), z: (Seq<char>, TableOp)|
        #[trigger] lt(x, y) && #[trigger] lt(y, z) implies lt(x, z) by {
        pair_lt_transitive(x, y, z);
    }
    ascends_unique(a, b, lt);
}

/// A table is reported only by a candidate outside every upsert clause: the columns
/// behind `ON DUPLICATE KEY UPDATE` are never tables.
pub proof fn upsert_columns_unreported(
    base: Seq<(usize, usize)>,
    cs: Seq<Candidate>,
    x: (Seq<char>, TableOp),
)
    requires
        scanned(base, cs).hits.contains(x),
    ensures
        exists|i: int|
            0 <= i < cs.len() && !is_claimed(base, (#[trigger] cs[i]).0.start, cs[i].0.end)
                && group_of(cs[i].0, 1) is Some && table_name(group_of(cs[i].0, 1)->0) == Some(x.0)
                && cs[i].1 == x.1,
    decreases cs.len(),
{
    let s0 = scanned(base, cs.drop_last());
    claims_grow(base, cs.drop_last());
    let n = cs.len() - 1;
    if s0.hits.contains(x) {
        upsert_columns_unreported(base, cs.drop_last(), x);
        let i = choose|i: int|
            0 <= i < cs.drop_last().len() && !is_claimed(
                base,
                (#[trigger] cs.drop_last()[i]).0.start,
                cs.drop_last()[i].0.end,
            ) && group_of(cs.drop_last()[i].0, 1) is Some && table_name(
                group_of(cs.drop_last()[i].0, 1)->0,
            ) == Some(x.0) && cs.drop_last()[i].1 == x.1;
        assert(cs[i] == cs.drop_last()[i]);
    } else {
        let s1 = scanned(base, cs);
        let k = choose|k: int| 0 <= k < s1.hits.len() && s1.hits[k] == x;
        if k < s0.hits.len() {
            assert(s0.hits[k] == x);
        }
        let c = cs[n];
        if is_claimed(base, c.0.start, c.0.end) {
            let j = choose|j: int|
                0 <= j < base.len() && c.0.start < (#[trigger] base[j]).1 && base[j].0 < c.0.end;
            assert(s0.claimed[j] == base[j]);
        }
    }
}

/// A scan only adds to the ranges that are claimed before it.
proof fn claims_grow(base: Seq<(usize, usize)>, cs: Seq<Candidate>)
    ensures
        scanned(base, cs).claimed.len() >= base.len(),
        forall|i: int| 0 <= i < base.len() ==> scanned(base, cs).claimed[i] == base[i],
    decreases cs.len(),
{
    if cs.len() > 0 {
        claims_grow(base, cs.drop_last());
    }
}

/// No range is claimed twice: what a scan claims overlaps nothing claimed before.
pub proof fn claims_disjoint(base: Seq<(usize, usize)>, cs: Seq<Candidate>)
    ensures
        forall|i: int, j: int|
            0 <= i < j < scanned(base, cs).claimed.len() && base.len() <= j ==> !(
            scanned(base, cs).claimed[j].0 < (#[trigger] scanned(base, cs).claimed[i]).1
                && scanned(base, cs).claimed[i].0 < (#[trigger] scanned(base, cs).claimed[j]).1),
    decreases cs.len(),
{
    if cs.len() > 0 {
        claims_disjoint(base, cs.drop_last());
        let s0 = scanned(base, cs.drop_last());
        let s1 = scanned(base, cs);
        assert forall|i: int, j: int|
            0 <= i < j < s1.claimed.len() && base.len() <= j implies !(s1.claimed[j].0 < (
        #[trigger] s1.claimed[i]).1 && s1.claimed[i].0 < (#[trigger] s1.claimed[j]).1) by {
            if j < s0.claimed.len() {
                assert(s1.claimed[i] == s0.claimed[i] && s1.claimed[j] == s0.claimed[j]);
            } else {
                assert(s1.claimed[i] == s0.claimed[i]);
                assert(!is_claimed(s0.claimed, cs.last().0.start, cs.last().0.end));
            }
        }
    }
}

/// The list of a body's tables holds its hits, in ascending order, each once.
pub proof fn tables_are_reported(sql: Seq<char>)
    ensures
        reports(tables_in(sql), hits_of(sql)),
{
    let lt = |x: (Seq<char>, TableOp), y: (Seq<char>, TableOp)| pair_lt(x, y);
    assert forall|x: (Seq<char>, TableOp)| !#[trigger] lt(x, x) by {
        lex_irreflexive(x.0);
    }
    assert forall|x: (Seq<char>, TableOp), y: (Seq<char>, TableOp), z: (Seq<char>, TableOp)|
        #[trigger] lt(x, y) && #[trigger] lt(y, z) implies lt(x, z) by {
        pair_lt_transitive(x, y, z);
    }
    assert forall|x: (Seq<char>, TableOp), y: (Seq<char>, TableOp)|
        #[trigger] lt(x, y) || x == y || lt(y, x) by {
        pair_lt_total(x, y);
    }
    let r = order_exists(hits_of(sql), lt);
    assert forall|i: int, j: int| 0 <= i < j < r.len() implies pair_lt(
        #[trigger] r[i],
        #[trigger] r[j],
    ) by {
        assert(lt(r[i], r[j]));
    }
    assert(reports(r, hits_of(sql)));
}

proof fn pair_lt_transitive(
    a: (Seq<char>, TableOp),
    b: (Seq<char>, TableOp),
    c: (Seq<char>, TableOp),
)
    requires
        pair_lt(a, b),
        pair_lt(b, c),
    ensures
        pair_lt(a, c),
{
    if lex_lt(a.0, b.0) && lex_lt(b.0, c.0) {
        lex_transitive(a.0, b.0, c.0);
    }
}

proof fn pair_lt_total(a: (Seq<char>, TableOp), b: (Seq<char>, TableOp))
    ensures
        pair_lt(a, b) || pair_lt(b, a) || a == b,
{
    lex_total(a.0, b.0);
}

/// Puts a pair at its place, unless it is there already.
pub(crate) fn put_pair(v: &mut Vec<(String, TableOp)>, t: String, op: TableOp)
    requires
        in_pair_order(old(v).deep_view()),
    ensures
        in_pair_order(final(v).deep_view()),
        forall|y: (Seq<char>, TableOp)| #[trigger]
            final(v).deep_view().contains(y) <==> old(v).deep_view().contains(y) || y == (t@, op),
{
    let ghost before = v.deep_view();
    let ghost x = (t@, op);
    let mut i: usize = 0;
    while i < v.len() && (less(v[i].0.as_str(), t.as_str()) || (same(v[i].0.as_str(), t.as_str())
        && rank(v[i].1) < rank(op)))
        invariant
            i <= v.len(),
            v.deep_view() == before,
            in_pair_order(before),
            x == (t@, op),
            forall|j: int| 0 <= j < i ==> pair_lt(#[trigger] before[j], x),
        decreases v.len() - i,
    {
        assert(before[i as int] == (v@[i as int].0@, v@[i as int].1));
        i += 1;
    }
    if i < v.len() && same(v[i].0.as_str(), t.as_str()) && rank(v[i].1) == rank(op) {
        assert(before[i as int] == x);
        return;
    }
    assert(i < before.len() ==> before[i as int] == (v@[i as int].0@, v@[i as int].1));
    v.insert(i, (t, op));
    let ghost after = v.deep_view();
    proof {
        assert(after =~= before.insert(i as int, x));
        assert forall|j: int| i <= j < before.len() implies pair_lt(x, #[trigger] before[j]) by {
            pair_lt_total(x, before[i as int]);
            if j > i {
                pair_lt_transitive(x, before[i as int], before[j]);
            }
        }
        assert forall|a: int, b: int| 0 <= a < b < after.len() implies pair_lt(
            #[trigger] after[a],
            #[trigger] after[b],
        ) by {
            if b < i {
                assert(after[a] == before[a] && after[b] == before[b]);
            } else if a < i && b > i {
                assert(after[a] == before[a] && after[b] == before[b - 1]);
            } else if a == i {
                assert(after[b] == before[b - 1]);
            } else if a > i {
                assert(after[a] == before[a - 1] && after[b] == before[b - 1]);
            }
        }
        assert forall|y: (Seq<char>, TableOp)| #[trigger] after.contains(y) <==> before.contains(y)
            || y == x by {
            if after.contains(y) {
                let k = choose|k: int| 0 <= k < after.len() && after[k] == y;
                if k < i {
                    assert(before[k] == y);
                } else if k > i {
                    assert(before[k - 1] == y);
                }
            }
            if before.contains(y) {
                let k = choose|k: int| 0 <= k < before.len() && before[k] == y;
                if k < i {
                    assert(after[k] == y);
                } else {
                    assert(after[k + 1] == y);
                }
            }
            if y == x {
                assert(after[i as int] == y);
            }
        }
    }
}

/// Whether `start..end` overlaps one of the ranges.
fn overlaps(claimed: &Vec<(usize, usize)>, start: usize, end: usize) -> (r: bool)
    ensures
        r == is_claimed(claimed@, start, end),
{
    let mut i: usize = 0;
    while i < claimed.len()
        invariant
            i <= claimed.len(),
            forall|j: int|
                0 <= j < i ==> !(start < (#[trigger] claimed@[j]).1 && claimed@[j].0 < end),
        decreases claimed.len() - i,
    {
        if start < claimed[i].1 && claimed[i].0 < end {
            assert(start < claimed@[i as int].1);
            return true;
        }
        i += 1;
    }
    false
}

/// What the matches of one keyword add to a scan.
fn scan_with(
    found: &Vec<Found>,
    op: TableOp,
    claimed: &mut Vec<(usize, usize)>,
    out: &mut Vec<(String, TableOp)>,
    Ghost(base): Ghost<Seq<(usize, usize)>>,
    Ghost(before): Ghost<Seq<Candidate>>,
)
    requires
        old(claimed)@ == scanned(base, before).claimed,
        reports(old(out).deep_view(), scanned(base, before).hits),
    ensures
        final(claimed)@ == scanned(base, before + with_op(found.deep_view(), op)).claimed,
        reports(
            final(out).deep_view(),
            scanned(base, before + with_op(found.deep_view(), op)).hits,
        ),
{
    let ghost cs = with_op(found.deep_view(), op);
    let mut i: usize = 0;
    assert(before + cs.take(0) =~= before);
    while i < found.len()
        invariant
            i <= found.len(),
            cs == with_op(found.deep_view(), op),
            claimed@ == scanned(base, before + cs.take(i as int)).claimed,
            reports(out.deep_view(), scanned(base, before + cs.take(i as int)).hits),
        decreases found.len() - i,
    {
        let ghost s0 = scanned(base, before + cs.take(i as int));
        proof {
            let next = before + cs.take(i + 1);
            assert(next.drop_last() =~= before + cs.take(i as int));
            assert(next.last() == cs[i as int]);
            assert(cs[i as int] == (found@[i as int].deep_view(), op));
        }
        let f = &found[i];
        i += 1;
        if overlaps(claimed, f.start, f.end) {
            continue;
        }
        match f.group(1) {
            Some(token) => match normalize(token.as_str()) {
                Some(t) => {
                    let ghost x = (t@, op);
                    claimed.push((f.start, f.end));
                    put_pair(out, t, op);
                    proof {
                        let h1 = s0.hits.push(x);
                        assert forall|y: (Seq<char>, TableOp)| #[trigger]
                            out.deep_view().contains(y) <==> h1.contains(y) by {
                            if s0.hits.contains(y) {
                                let k = choose|k: int| 0 <= k < s0.hits.len() && s0.hits[k] == y;
                                assert(h1[k] == y);
                            }
                            if h1.contains(y) {
                                let k = choose|k: int| 0 <= k < h1.len() && h1[k] == y;
                                if k < s0.hits.len() {
                                    assert(s0.hits[k] == y);
                                }
                            }
                            assert(h1[s0.hits.len() as int] == x);
                        }
                    }
                },
                None => {},
            },
            None => {},
        }
    }
    assert(cs.take(i as int) =~= cs);
}

/// Every (table, operation) pair that the matches report, given those of the upsert
/// clauses and those of each keyword.
pub fn tables_from(
    dup: &Vec<Found>,
    insert: &Vec<Found>,
    replace: &Vec<Found>,
    delete: &Vec<Found>,
    update: &Vec<Found>,
    from: &Vec<Found>,
    join: &Vec<Found>,
) -> (r: Vec<(String, TableOp)>)
    ensures
        reports(
            r.deep_view(),
            scanned(
                ranges(dup.deep_view()),
                with_op(insert.deep_view(), TableOp::Insert) + with_op(
                    replace.deep_view(),
                    TableOp::Insert,
                ) + with_op(delete.deep_view(), TableOp::Delete) + with_op(
                    update.deep_view(),
                    TableOp::Update,
                ) + with_op(from.deep_view(), TableOp::Select) + with_op(
                    join.deep_view(),
                    TableOp::Select,
                ),
            ).hits,
        ),
{
    let mut out: Vec<(String, TableOp)> = Vec::new();
    // Byte ranges already consumed by a higher-precedence keyword; upsert clauses
    // come first so that the plain-UPDATE pattern cannot read their column name as
    // a table.
    let mut claimed: Vec<(usize, usize)> = Vec::new();
    let mut i: usize = 0;
    while i < dup.len()
        invariant
            i <= dup.len(),
            claimed@ == ranges(dup.deep_view()).take(i as int),
        decreases dup.len() - i,
    {
        claimed.push((dup[i].start, dup[i].end));
        i += 1;
        assert(claimed@ =~= ranges(dup.deep_view()).take(i as int));
    }
    let ghost base = ranges(dup.deep_view());
    assert(base.take(i as int) =~= base);
    let ghost none: Seq<Candidate> = Seq::empty();
    let ghost c1 = with_op(insert.deep_view(), TableOp::Insert);
    let ghost c2 = c1 + with_op(replace.deep_view(), TableOp::Insert);
    let ghost c3 = c2 + with_op(delete.deep_view(), TableOp::Delete);
    let ghost c4 = c3 + with_op(update.deep_view(), TableOp::Update);
    let ghost c5 = c4 + with_op(from.deep_view(), TableOp::Select);
    assert(reports(out.deep_view(), scanned(base, none).hits));
    scan_with(insert, TableOp::Insert, &mut claimed, &mut out, Ghost(base), Ghost(none));
    assert(none + c1 =~= c1);
    scan_with(replace, TableOp::Insert, &mut claimed, &mut out, Ghost(base), Ghost(c1));
    scan_with(delete, TableOp::Delete, &mut claimed, &mut out, Ghost(base), Ghost(c2));
    scan_with(update, TableOp::Update, &mut claimed, &mut out, Ghost(base), Ghost(c3));
    scan_with(from, TableOp::Select, &mut claimed, &mut out, Ghost(base), Ghost(c4));
    scan_with(join, TableOp::Select, &mut claimed, &mut out, Ghost(base), Ghost(c5));
    out
}

// ---------------------------------------------------------------------------
// The scan ignores case

proof fn lowered_is_blind(c: char)
    ensures
        lowered_char(lowered_char(c)) == lowered_char(c),
        is_white(lowered_char(c)) == is_white(c),
        is_alnum(lowered_char(c)) == is_alnum(c),
        is_digit(lowered_char(c)) == is_digit(c),
        (lowered_char(c) == '`') == (c == '`'),
        (lowered_char(c) == '.') == (c == '.'),
        (lowered_char(c) == '_') == (c == '_'),
{
}

/// Whether the class holds a letter in both cases or in neither.
spec fn is_blind(p: spec_fn(char) -> bool) -> bool {
    forall|c: char| p(#[trigger] lowered_char(c)) == p(c)
}

proof fn skip_lowered(s: Seq<char>, p: spec_fn(char) -> bool)
    requires
        is_blind(p),
    ensures
        skip_while(lowered(s), p) == lowered(skip_while(s, p)),
    decreases s.len(),
{
    if s.len() > 0 {
        assert(p(lowered_char(s[0])) == p(s[0]));
        if p(s[0]) {
            skip_lowered(s.skip(1), p);
            assert(lowered(s).skip(1) =~= lowered(s.skip(1)));
        }
    }
}

proof fn drop_lowered(s: Seq<char>, p: spec_fn(char) -> bool)
    requires
        is_blind(p),
    ensures
        drop_while(lowered(s), p) == lowered(drop_while(s, p)),
    decreases s.len(),
{
    if s.len() > 0 {
        assert(p(lowered_char(s.last())) == p(s.last()));
        if p(s.last()) {
            drop_lowered(s.drop_last(), p);
            assert(lowered(s).drop_last() =~= lowered(s.drop_last()));
        }
    }
}

proof fn trimmed_lowered(s: Seq<char>)
    ensures
        trimmed(lowered(s)) == lowered(trimmed(s)),
        trimmed_of(lowered(s), '`') == lowered(trimmed_of(s, '`')),
{
    assert forall|c: char| whites()(#[trigger] lowered_char(c)) == whites()(c) by {
        lowered_is_blind(c);
    }
    assert forall|c: char| only('`')(#[trigger] lowered_char(c)) == only('`')(c) by {
        lowered_is_blind(c);
    }
    skip_lowered(s, whites());
    drop_lowered(skip_while(s, whites()), whites());
    skip_lowered(s, only('`'));
    drop_lowered(skip_while(s, only('`')), only('`'));
}

proof fn find_lowered(s: Seq<char>, i: int)
    ensures
        find_from(lowered(s), '.', i) == find_from(s, '.', i),
    decreases s.len() - i,
{
    if 0 <= i < s.len() {
        lowered_is_blind(s[i]);
        find_lowered(s, i + 1);
    }
}

proof fn rfind_lowered(s: Seq<char>, n: int)
    ensures
        rfind_to(lowered(s), '.', n) == rfind_to(s, '.', n),
    decreases n,
{
    if 0 < n <= s.len() {
        lowered_is_blind(s[n - 1]);
        rfind_lowered(s, n - 1);
    }
}

proof fn lowered_twice(s: Seq<char>)
    ensures
        lowered(lowered(s)) == lowered(s),
{
    assert forall|i: int| 0 <= i < s.len() implies lowered(lowered(s))[i] == lowered(s)[i] by {
        lowered_is_blind(s[i]);
    }
    assert(lowered(lowered(s)) =~= lowered(s));
}

proof fn identifier_lowered(t: Seq<char>)
    ensures
        is_identifier(lowered(t)) == is_identifier(t),
{
    let l = lowered(t);
    assert forall|i: int| 0 <= i < t.len() implies (is_alnum(#[trigger] l[i]) || l[i] == '_') == (
    is_alnum(t[i]) || t[i] == '_') by {
        lowered_is_blind(t[i]);
    }
    if t.len() > 0 {
        lowered_is_blind(t[0]);
    }
    if is_identifier(l) {
        assert forall|i: int| 0 <= i < t.len() implies is_alnum(#[trigger] t[i]) || t[i]
            == '_' by {
            assert(is_alnum(l[i]) || l[i] == '_');
        }
    }
}

/// A token names the same table in whatever case it is written.
proof fn name_lowered(raw: Seq<char>)
    ensures
        table_name(lowered(raw)) == table_name(raw),
{
    trimmed_lowered(raw);
    trimmed_lowered(trimmed(raw));
    trimmed_lowered(trimmed_of(trimmed(raw), '`'));
    let u = unquoted(raw);
    let l = lowered(u);
    assert(unquoted(lowered(raw)) == l);
    find_lowered(u, 0);
    find_from_is_first(u, '.', 0);
    match cut_once(u, '.') {
        Some(p) => {
            assert((cut_once(l, '.')->0).0 =~= lowered(p.0));
            trimmed_lowered(p.0);
            lowered_twice(trimmed_of(p.0, '`'));
        },
        None => {},
    }
    rfind_lowered(u, u.len() as int);
    rfind_to_is_last(u, '.', u.len() as int);
    let tail = tail_of(u, '.');
    assert(tail_of(l, '.') =~= lowered(tail));
    trimmed_lowered(tail);
    let t = trimmed_of(tail, '`');
    lowered_twice(t);
    identifier_lowered(t);
}

/// Whether two lists of candidates differ at most in the case of their tokens.
spec fn alike(a: Seq<Candidate>, b: Seq<Candidate>) -> bool {
    &&& a.len() == b.len()
    &&& forall|i: int|
        0 <= i < a.len() ==> {
            &&& (#[trigger] a[i]).0.start == b[i].0.start
            &&& a[i].0.end == b[i].0.end
            &&& a[i].1 == b[i].1
            &&& lowered_group(group_of(a[i].0, 1)) == lowered_group(group_of(b[i].0, 1))
        }
}

proof fn alike_scanned(base: Seq<(usize, usize)>, a: Seq<Candidate>, b: Seq<Candidate>)
    requires
        alike(a, b),
    ensures
        scanned(base, a) == scanned(base, b),
    decreases a.len(),
{
    if a.len() > 0 {
        let n = a.len() - 1;
        assert(a[n] == a.last() && b[n] == b.last());
        assert(alike(a.drop_last(), b.drop_last())) by {
            assert forall|i: int| 0 <= i < n implies a.drop_last()[i] == a[i]
                && b.drop_last()[i] == b[i] by {}
        }
        alike_scanned(base, a.drop_last(), b.drop_last());
        match (group_of(a[n].0, 1), group_of(b[n].0, 1)) {
            (Some(x), Some(y)) => {
                name_lowered(x);
                name_lowered(y);
            },
            _ => {},
        }
    }
}

proof fn alike_with(a: Seq<FoundView>, b: Seq<FoundView>, op: TableOp)
    requires
        same_but_case(a, b),
    ensures
        alike(with_op(a, op), with_op(b, op)),
{
    let x = with_op(a, op);
    let y = with_op(b, op);
    assert forall|i: int| 0 <= i < x.len() implies ({
        &&& (#[trigger] x[i]).0.start == y[i].0.start
        &&& x[i].0.end == y[i].0.end
        &&& x[i].1 == y[i].1
        &&& lowered_group(group_of(x[i].0, 1)) == lowered_group(group_of(y[i].0, 1))
    }) by {
        assert(x[i] == (a[i], op) && y[i] == (b[i], op));
        assert(lowered_group(group_of(a[i], 1)) == lowered_group(group_of(b[i], 1)));
    }
}

proof fn alike_concat(
    a: Seq<Candidate>,
    b: Seq<Candidate>,
    c: Seq<Candidate>,
    d: Seq<Candidate>,
)
    requires
        alike(a, b),
        alike(c, d),
    ensures
        alike(a + c, b + d),
{
    assert forall|i: int| 0 <= i < (a + c).len() implies ({
        let x = #[trigger] (a + c)[i];
        let y = (b + d)[i];
        &&& x.0.start == y.0.start
        &&& x.0.end == y.0.end
        &&& x.1 == y.1
        &&& lowered_group(group_of(x.0, 1)) == lowered_group(group_of(y.0, 1))
    }) by {
        if i < a.len() {
            assert((a + c)[i] == a[i] && (b + d)[i] == b[i]);
        } else {
            assert((a + c)[i] == c[i - a.len()] && (b + d)[i] == d[i - a.len()]);
        }
    }
}

/// Where every pattern matches two bodies at the same places, they report the same.
proof fn alike_bodies(a: Seq<char>, b: Seq<char>)
    requires
        same_but_case(matches_of(DUP_UPDATE@, a), matches_of(DUP_UPDATE@, b)),
        same_but_case(matches_of(INSERT@, a), matches_of(INSERT@, b)),
        same_but_case(matches_of(REPLACE@, a), matches_of(REPLACE@, b)),
        same_but_case(matches_of(DELETE@, a), matches_of(DELETE@, b)),
        same_but_case(matches_of(UPDATE@, a), matches_of(UPDATE@, b)),
        same_but_case(matches_of(FROM@, a), matches_of(FROM@, b)),
        same_but_case(matches_of(JOIN@, a), matches_of(JOIN@, b)),
    ensures
        hits_of(a) == hits_of(b),
{
    assert(ranges(matches_of(DUP_UPDATE@, a)) =~= ranges(matches_of(DUP_UPDATE@, b)));
    let a1 = with_op(matches_of(INSERT@, a), TableOp::Insert);
    let b1 = with_op(matches_of(INSERT@, b), TableOp::Insert);
    alike_with(matches_of(INSERT@, a), matches_of(INSERT@, b), TableOp::Insert);
    alike_with(matches_of(REPLACE@, a), matches_of(REPLACE@, b), TableOp::Insert);
    let a2 = a1 + with_op(matches_of(REPLACE@, a), TableOp::Insert);
    let b2 = b1 + with_op(matches_of(REPLACE@, b), TableOp::Insert);
    alike_concat(
        a1,
        b1,
        with_op(matches_of(REPLACE@, a), TableOp::Insert),
        with_op(matches_of(REPLACE@, b), TableOp::Insert),
    );
    alike_with(matches_of(DELETE@, a), matches_of(DELETE@, b), TableOp::Delete);
    let a3 = a2 + with_op(matches_of(DELETE@, a), TableOp::Delete);
    let b3 = b2 + with_op(matches_of(DELETE@, b), TableOp::Delete);
    alike_concat(
        a2,
        b2,
        with_op(matches_of(DELETE@, a), TableOp::Delete),
        with_op(matches_of(DELETE@, b), TableOp::Delete),
    );
    alike_with(matches_of(UPDATE@, a), matches_of(UPDATE@, b), TableOp::Update);
    let a4 = a3 + with_op(matches_of(UPDATE@, a), TableOp::Update);
    let b4 = b3 + with_op(matches_of(UPDATE@, b), TableOp::Update);
    alike_concat(
        a3,
        b3,
        with_op(matches_of(UPDATE@, a), TableOp::Update),
        with_op(matches_of(UPDATE@, b), TableOp::Update),
    );
    alike_with(matches_of(FROM@, a), matches_of(FROM@, b), TableOp::Select);
    let a5 = a4 + with_op(matches_of(FROM@, a), TableOp::Select);
    let b5 = b4 + with_op(matches_of(FROM@, b), TableOp::Select);
    alike_concat(
        a4,
        b4,
        with_op(matches_of(FROM@, a), TableOp::Select),
        with_op(matches_of(FROM@, b), TableOp::Select),
    );
    alike_with(matches_of(JOIN@, a), matches_of(JOIN@, b), TableOp::Select);
    alike_concat(
        a5,
        b5,
        with_op(matches_of(JOIN@, a), TableOp::Select),
        with_op(matches_of(JOIN@, b), TableOp::Select),
    );
    alike_scanned(ranges(matches_of(DUP_UPDATE@, b)), candidates(a), candidates(b));
}

/// Every (table, operation) pair referenced by a SQL body.
///
/// Write keywords are matched first and claim their byte range, so the `from` in
/// `DELETE FROM t` cannot also register `t` as a read. A table genuinely both
/// read and written by one statement — `UPDATE a SET x=(SELECT .. FROM a)` —
/// still gets both operations, because the second match sits elsewhere.
///
/// The case of letters is ignored: a body that differs in it alone reports the same.
pub fn tables_with_ops(sql: &str) -> (r: Vec<(String, TableOp)>)
    ensures
        r.deep_view() == tables_in(sql@),
        reports(r.deep_view(), hits_of(sql@)),
        forall|t: Seq<char>|
            lowered(t) == lowered(sql@) ==> #[trigger] tables_in(t) == r.deep_view(),
{
    let dup = find_all(DUP_UPDATE, sql);
    let insert = find_all(INSERT, sql);
    let replace = find_all(REPLACE, sql);
    let delete = find_all(DELETE, sql);
    let update = find_all(UPDATE, sql);
    let from = find_all(FROM, sql);
    let join = find_all(JOIN, sql);
    let r = tables_from(&dup, &insert, &replace, &delete, &update, &from, &join);
    proof {
        reports_unique(r.deep_view(), tables_in(sql@), hits_of(sql@));
        assert forall|t: Seq<char>| lowered(t) == lowered(sql@) implies #[trigger] tables_in(t)
            == r.deep_view() by {
            alike_bodies(t, sql@);
        }
    }
    r
}

} // verus!

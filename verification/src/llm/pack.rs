//! Evidence packs: the context assembled for one L2 task.
//!
//! A pack is a budgeted digest of L0/L1 facts for one domain. Budgeting matters
//! more than completeness: a 300k-token dump of a large domain would be both
//! expensive and worse, because the signal (enum comments, table structure,
//! traces) gets buried in boilerplate. So each section has its own allowance and
//! the highest-signal evidence is selected first.
use crate::idmap::IdMap;
use crate::lists::{flat, take_all, take_next};
use crate::number::{decimal_i64, integer_of, parse_i64, signed};
use crate::render::{given_or, text_or};
use crate::split::{cut_once, join, joined, lines, lines_of, split_once};
use crate::text::{
    drop_while, has_prefix, less, lex_lt, only, owned, same, starts_with, trim, trim_end_of,
    trim_start, trimmed, trimmed_start,
};
use crate::util::{
    estimate_tokens, has_cjk, hex_of, sha256_hex, sha256_of, truncate_chars, truncated,
};
use vstd::prelude::*;
use vstd::utf8::encode_utf8;

verus! {

// Per-section allowances in bytes. Chinese comments cost roughly 2.5 bytes per
// token, so these are deliberately conservative.

pub const ENUMS_BUDGET: usize = 12_000;

pub const TABLES_BUDGET: usize = 14_000;

pub const ENTRYPOINTS_BUDGET: usize = 8_000;

pub const TRACES_BUDGET: usize = 8_000;

pub const COMMITS_BUDGET: usize = 4_000;

pub const SOURCE_BUDGET: usize = 20_000;

/// The evidence on one domain, as it is shown to a model.
#[derive(Debug)]
pub struct Pack {
    pub domain_key: String,
    pub domain_id: i64,
    pub body: String,
    /// Digest of the evidence, so a note can be invalidated when it changes.
    pub source_digest: String,
    pub estimated_tokens: usize,
}

/// The content of a [`Pack`].
#[verifier::ext_equal]
pub struct PackView {
    pub domain_key: Seq<char>,
    pub domain_id: i64,
    pub body: Seq<char>,
    pub source_digest: Seq<char>,
    pub estimated_tokens: usize,
}

impl DeepView for Pack {
    type V = PackView;

    open spec fn deep_view(&self) -> PackView {
        PackView {
            domain_key: self.domain_key.deep_view(),
            domain_id: self.domain_id,
            body: self.body.deep_view(),
            source_digest: self.source_digest.deep_view(),
            estimated_tokens: self.estimated_tokens,
        }
    }
}

impl Clone for Pack {
    fn clone(&self) -> (r: Self)
        ensures
            r.deep_view() == self.deep_view(),
    {
        Pack {
            domain_key: self.domain_key.clone(),
            domain_id: self.domain_id,
            body: self.body.clone(),
            source_digest: self.source_digest.clone(),
            estimated_tokens: self.estimated_tokens,
        }
    }
}

/// A domain as its pack introduces it.
#[derive(Debug)]
pub struct PackHead {
    pub id: i64,
    pub key: String,
    pub label: Option<String>,
    /// Mean vote share of its files, to two decimals.
    pub confidence: String,
}

/// The content of a [`PackHead`].
#[verifier::ext_equal]
pub struct PackHeadView {
    pub id: i64,
    pub key: Seq<char>,
    pub label: Option<Seq<char>>,
    pub confidence: Seq<char>,
}

impl DeepView for PackHead {
    type V = PackHeadView;

    open spec fn deep_view(&self) -> PackHeadView {
        PackHeadView {
            id: self.id,
            key: self.key.deep_view(),
            label: self.label.deep_view(),
            confidence: self.confidence.deep_view(),
        }
    }
}

impl Clone for PackHead {
    fn clone(&self) -> (r: Self)
        ensures
            r.deep_view() == self.deep_view(),
    {
        PackHead {
            id: self.id,
            key: self.key.clone(),
            label: self.label.clone(),
            confidence: self.confidence.clone(),
        }
    }
}

/// An enum member or constant of the domain.
#[derive(Debug)]
pub struct ConstantRow {
    pub owner: String,
    pub name: String,
    pub signature: Option<String>,
    pub doc: Option<String>,
    /// How many domains hold a type of the owner's name.
    pub domain_span: i64,
}

/// The content of a [`ConstantRow`].
#[verifier::ext_equal]
pub struct ConstantRowView {
    pub owner: Seq<char>,
    pub name: Seq<char>,
    pub signature: Option<Seq<char>>,
    pub doc: Option<Seq<char>>,
    pub domain_span: i64,
}

impl DeepView for ConstantRow {
    type V = ConstantRowView;

    open spec fn deep_view(&self) -> ConstantRowView {
        ConstantRowView {
            owner: self.owner.deep_view(),
            name: self.name.deep_view(),
            signature: self.signature.deep_view(),
            doc: self.doc.deep_view(),
            domain_span: self.domain_span,
        }
    }
}

impl Clone for ConstantRow {
    fn clone(&self) -> (r: Self)
        ensures
            r.deep_view() == self.deep_view(),
    {
        ConstantRow {
            owner: self.owner.clone(),
            name: self.name.clone(),
            signature: self.signature.clone(),
            doc: self.doc.clone(),
            domain_span: self.domain_span,
        }
    }
}

/// A column of a table.
#[derive(Debug)]
pub struct PackColumn {
    pub name: String,
    pub java_type: Option<String>,
    pub doc: Option<String>,
    pub is_pk: bool,
}

/// The content of a [`PackColumn`].
#[verifier::ext_equal]
pub struct PackColumnView {
    pub name: Seq<char>,
    pub java_type: Option<Seq<char>>,
    pub doc: Option<Seq<char>>,
    pub is_pk: bool,
}

impl DeepView for PackColumn {
    type V = PackColumnView;

    open spec fn deep_view(&self) -> PackColumnView {
        PackColumnView {
            name: self.name.deep_view(),
            java_type: self.java_type.deep_view(),
            doc: self.doc.deep_view(),
            is_pk: self.is_pk,
        }
    }
}

impl Clone for PackColumn {
    fn clone(&self) -> (r: Self)
        ensures
            r.deep_view() == self.deep_view(),
    {
        PackColumn {
            name: self.name.clone(),
            java_type: self.java_type.clone(),
            doc: self.doc.clone(),
            is_pk: self.is_pk,
        }
    }
}

/// A table of the domain.
#[derive(Debug)]
pub struct PackTable {
    pub name: String,
    pub columns: Vec<PackColumn>,
}

/// The content of a [`PackTable`].
#[verifier::ext_equal]
pub struct PackTableView {
    pub name: Seq<char>,
    pub columns: Seq<PackColumnView>,
}

impl DeepView for PackTable {
    type V = PackTableView;

    open spec fn deep_view(&self) -> PackTableView {
        PackTableView {
            name: self.name.deep_view(),
            columns: self.columns.deep_view(),
        }
    }
}

impl Clone for PackTable {
    fn clone(&self) -> (r: Self)
        ensures
            r.deep_view() == self.deep_view(),
    {
        PackTable {
            name: self.name.clone(),
            columns: self.columns.clone(),
        }
    }
}

/// An entrypoint of the domain.
#[derive(Debug)]
pub struct PackEntry {
    pub kind: String,
    pub addr: String,
    pub doc: Option<String>,
}

/// The content of a [`PackEntry`].
#[verifier::ext_equal]
pub struct PackEntryView {
    pub kind: Seq<char>,
    pub addr: Seq<char>,
    pub doc: Option<Seq<char>>,
}

impl DeepView for PackEntry {
    type V = PackEntryView;

    open spec fn deep_view(&self) -> PackEntryView {
        PackEntryView {
            kind: self.kind.deep_view(),
            addr: self.addr.deep_view(),
            doc: self.doc.deep_view(),
        }
    }
}

impl Clone for PackEntry {
    fn clone(&self) -> (r: Self)
        ensures
            r.deep_view() == self.deep_view(),
    {
        PackEntry {
            kind: self.kind.clone(),
            addr: self.addr.clone(),
            doc: self.doc.clone(),
        }
    }
}

/// A trace from an entrypoint of the domain.
#[derive(Debug)]
pub struct PackTrace {
    pub addr: String,
    /// The hops; none where the stored path cannot be read.
    pub labels: Option<Vec<String>>,
    /// Row ids of the tables that it reaches, as they are stored, with the operations.
    pub tables: Vec<(String, Vec<String>)>,
}

/// The content of a [`PackTrace`].
#[verifier::ext_equal]
pub struct PackTraceView {
    pub addr: Seq<char>,
    pub labels: Option<Seq<Seq<char>>>,
    pub tables: Seq<(Seq<char>, Seq<Seq<char>>)>,
}

impl DeepView for PackTrace {
    type V = PackTraceView;

    open spec fn deep_view(&self) -> PackTraceView {
        PackTraceView {
            addr: self.addr.deep_view(),
            labels: self.labels.deep_view(),
            tables: self.tables.deep_view(),
        }
    }
}

/// A commit that touches the domain.
#[derive(Debug)]
pub struct PackCommit {
    pub subject: String,
    pub month: String,
}

/// The content of a [`PackCommit`].
#[verifier::ext_equal]
pub struct PackCommitView {
    pub subject: Seq<char>,
    pub month: Seq<char>,
}

impl DeepView for PackCommit {
    type V = PackCommitView;

    open spec fn deep_view(&self) -> PackCommitView {
        PackCommitView {
            subject: self.subject.deep_view(),
            month: self.month.deep_view(),
        }
    }
}

impl Clone for PackCommit {
    fn clone(&self) -> (r: Self)
        ensures
            r.deep_view() == self.deep_view(),
    {
        PackCommit {
            subject: self.subject.clone(),
            month: self.month.clone(),
        }
    }
}

/// One of the domain's most changed files.
#[derive(Debug)]
pub struct PackFile {
    pub path: String,
    pub churn: i64,
    /// Its text; none where it cannot be read.
    pub text: Option<String>,
}

/// The content of a [`PackFile`].
#[verifier::ext_equal]
pub struct PackFileView {
    pub path: Seq<char>,
    pub churn: i64,
    pub text: Option<Seq<char>>,
}

impl DeepView for PackFile {
    type V = PackFileView;

    open spec fn deep_view(&self) -> PackFileView {
        PackFileView {
            path: self.path.deep_view(),
            churn: self.churn,
            text: self.text.deep_view(),
        }
    }
}

impl Clone for PackFile {
    fn clone(&self) -> (r: Self)
        ensures
            r.deep_view() == self.deep_view(),
    {
        PackFile {
            path: self.path.clone(),
            churn: self.churn,
            text: self.text.clone(),
        }
    }
}

/// Whether the text has used up a section's allowance of characters.
pub open spec fn over(s: Seq<char>, budget: int) -> bool {
    s.len() >= budget
}

fn is_over(s: &str, budget: usize) -> (r: bool)
    ensures
        r == over(s@, budget as int),
{
    s.unicode_len() >= budget
}

// ---------------------------------------------------------------------------
// Docs on one line

/// The prose of a line, where there is any.
pub open spec fn prose_of(l: Seq<char>) -> Option<Seq<char>> {
    if has_prefix(trimmed_start(l), "@"@) || trimmed(l).len() == 0 {
        None
    } else {
        Some(trimmed(l))
    }
}

/// The prose of a doc comment on one line.
pub open spec fn on_one_line(doc: Seq<char>) -> Seq<char> {
    joined(crate::lists::pick(lines_of(doc), |l: Seq<char>| prose_of(l)), " "@)
}

pub fn one_line(doc: &str) -> (r: String)
    ensures
        r@ == on_one_line(doc@),
{
    let ls = lines(doc);
    let ghost d = ls.deep_view();
    let ghost f = |l: Seq<char>| prose_of(l);
    let mut out: Vec<String> = Vec::new();
    let mut i: usize = 0;
    assert(out.deep_view() =~= crate::lists::pick(d.take(0), f));
    while i < ls.len()
        invariant
            i <= ls.len(),
            d == ls.deep_view(),
            f == (|l: Seq<char>| prose_of(l)),
            out.deep_view() == crate::lists::pick(d.take(i as int), f),
        decreases ls.len() - i,
    {
        broadcast use take_next;

        let ghost before = out.deep_view();
        assert(d[i as int] == ls@[i as int]@);
        assert(d.take(i + 1).last() == d[i as int]);
        assert(f(d[i as int]) == prose_of(d[i as int]));
        let l = ls[i].as_str();
        let t = trim(l);
        if !starts_with(trim_start(l), "@") && !t.is_empty() {
            out.push(owned(t));
            assert(out.deep_view() =~= before.push(t@));
        }
        i += 1;
    }
    broadcast use take_all;

    assert(d.take(i as int) == d);
    join(&out, " ")
}

// ---------------------------------------------------------------------------
// Enums and constants

/// Documented entries first, Chinese-documented ones above the rest: an
/// undocumented constant tells the model nothing it cannot see elsewhere.
pub open spec fn rank_of(doc: Option<Seq<char>>) -> int {
    match doc {
        Some(d) => if crate::util::is_cjk_text(d) {
            0
        } else {
            1
        },
        None => 2,
    }
}

fn rank(doc: &Option<String>) -> (r: u8)
    ensures
        r == rank_of(doc.deep_view()),
{
    match doc {
        Some(d) => if has_cjk(d.as_str()) {
            0
        } else {
            1
        },
        None => 2,
    }
}

/// Whether `a` comes before `b`: by rank, then by the type that holds it.
pub open spec fn comes_before(a: ConstantRowView, b: ConstantRowView) -> bool {
    rank_of(a.doc) < rank_of(b.doc) || (rank_of(a.doc) == rank_of(b.doc) && lex_lt(
        a.owner,
        b.owner,
    ))
}

fn is_before(a: &ConstantRow, b: &ConstantRow) -> (r: bool)
    ensures
        r == comes_before(a.deep_view(), b.deep_view()),
{
    let x: u8 = rank(&a.doc);
    let y: u8 = rank(&b.doc);
    x < y || (x == y && less(a.owner.as_str(), b.owner.as_str()))
}

/// `x` put into an ordered list, behind what it does not come before.
pub open spec fn placed(l: Seq<ConstantRowView>, x: ConstantRowView) -> Seq<ConstantRowView>
    decreases l.len(),
{
    if l.len() == 0 || !comes_before(x, l.last()) {
        l.push(x)
    } else {
        placed(l.drop_last(), x).push(l.last())
    }
}

/// The rows in order, rows of one place in their own order.
pub open spec fn ordered(rows: Seq<ConstantRowView>) -> Seq<ConstantRowView>
    decreases rows.len(),
{
    if rows.len() == 0 {
        Seq::empty()
    } else {
        placed(ordered(rows.drop_last()), rows.last())
    }
}

proof fn placed_at(l: Seq<ConstantRowView>, x: ConstantRowView, k: int)
    requires
        0 <= k <= l.len(),
        k > 0 ==> !comes_before(x, l[k - 1]),
        forall|j: int| k <= j < l.len() ==> comes_before(x, #[trigger] l[j]),
    ensures
        placed(l, x) == l.insert(k, x),
    decreases l.len(),
{
    if l.len() == k {
        assert(l.insert(k, x) =~= l.push(x));
        if l.len() > 0 {
            assert(l.last() == l[k - 1]);
        }
    } else {
        let m = l.drop_last();
        assert(comes_before(x, l[l.len() - 1]));
        assert forall|j: int| k <= j < m.len() implies comes_before(x, #[trigger] m[j]) by {
            assert(m[j] == l[j]);
        }
        placed_at(m, x, k);
        assert(m.insert(k, x).push(l.last()) =~= l.insert(k, x));
    }
}

fn order_rows(rows: &Vec<ConstantRow>) -> (r: Vec<ConstantRow>)
    ensures
        r.deep_view() == ordered(rows.deep_view()),
{
    let ghost d = rows.deep_view();
    let mut out: Vec<ConstantRow> = Vec::new();
    let mut i: usize = 0;
    assert(out.deep_view() =~= ordered(d.take(0)));
    while i < rows.len()
        invariant
            i <= rows.len(),
            d == rows.deep_view(),
            out.deep_view() == ordered(d.take(i as int)),
        decreases rows.len() - i,
    {
        broadcast use take_next;

        let ghost before = out.deep_view();
        let x = rows[i].clone();
        let ghost xv = x.deep_view();
        assert(d[i as int] == xv);
        assert(d.take(i + 1).last() == d[i as int]);
        let mut k: usize = out.len();
        while k > 0 && is_before(&x, &out[k - 1])
            invariant
                k <= out.len(),
                out.deep_view() == before,
                xv == x.deep_view(),
                forall|j: int| k <= j < before.len() ==> comes_before(xv, #[trigger] before[j]),
            decreases k,
        {
            assert(before[k - 1] == out@[k - 1].deep_view());
            k -= 1;
        }
        assert(k > 0 ==> before[k - 1] == out@[k - 1].deep_view());
        proof {
            placed_at(before, xv, k as int);
        }
        out.insert(k, x);
        assert(out.deep_view() =~= before.insert(k as int, xv));
        i += 1;
    }
    broadcast use take_all;

    assert(d.take(i as int) == d);
    out
}

/// The value that a signature gives, where it gives one.
pub open spec fn value_of_signature(sig: Option<Seq<char>>) -> Option<Seq<char>> {
    match sig {
        Some(x) => match cut_once(x, '=') {
            Some(p) => Some(drop_while(trimmed(p.1), only(';'))),
            None => None,
        },
        None => None,
    }
}

pub open spec fn constant_text(c: ConstantRowView) -> Seq<char> {
    let head = "- `"@ + c.name + "`"@;
    let valued = match value_of_signature(c.signature) {
        Some(v) => head + " = "@ + v,
        None => head,
    };
    match c.doc {
        Some(d) => valued + " — "@ + on_one_line(d) + "\n"@,
        None => valued + "\n"@,
    }
}

fn write_constant(c: &ConstantRow) -> (r: String)
    ensures
        r@ == constant_text(c.deep_view()),
{
    let mut s = owned("- `");
    s.append(c.name.as_str());
    s.append("`");
    match &c.signature {
        Some(x) => match split_once(x.as_str(), '=') {
            Some(p) => {
                s.append(" = ");
                s.append(trim_end_of(trim(p.1), ';'));
            },
            None => {},
        },
        None => {},
    }
    match &c.doc {
        Some(d) => {
            s.append(" — ");
            s.append(one_line(d.as_str()).as_str());
        },
        None => {},
    }
    s.append("\n");
    s
}

pub open spec fn owner_heading(c: ConstantRowView) -> Seq<char> {
    if c.domain_span > 1 {
        "\n### "@ + c.owner + "（跨领域共享，被 "@ + signed(c.domain_span as int)
            + " 个领域引用）\n"@
    } else {
        "\n### "@ + c.owner + "\n"@
    }
}

fn write_owner(c: &ConstantRow) -> (r: String)
    ensures
        r@ == owner_heading(c.deep_view()),
{
    let mut s = owned("\n### ");
    s.append(c.owner.as_str());
    if c.domain_span > 1 {
        s.append("（跨领域共享，被 ");
        s.append(decimal_i64(c.domain_span).as_str());
        s.append(" 个领域引用）\n");
    } else {
        s.append("\n");
    }
    s
}

/// `s` with the constants from `i` on, as far as the budget goes; `current` is the type of
/// the one before.
pub open spec fn constants_after(
    s: Seq<char>,
    rows: Seq<ConstantRowView>,
    i: int,
    current: Seq<char>,
    budget: int,
) -> Seq<char>
    decreases rows.len() - i,
{
    if i < 0 || i >= rows.len() {
        s
    } else if over(s, budget) {
        s + "…（其余常量已省略）\n"@
    } else {
        let t = if rows[i].owner != current {
            s + owner_heading(rows[i])
        } else {
            s
        };
        constants_after(t + constant_text(rows[i]), rows, i + 1, rows[i].owner, budget)
    }
}

/// Enum members and documented constants — the densest business signal available.
///
/// Project-wide types are flagged rather than dropped. A file like
/// `PromotionTypeEnum` gets voted into whichever domain happens to win, and its
/// twenty unrelated activity types would then be attributed to that one domain.
/// The enum is still needed as context — it says where this domain sits among the
/// others — so it is labelled instead of removed.
pub fn enums(rows: &Vec<ConstantRow>, budget: usize) -> (r: String)
    ensures
        r@ == constants_after(
            Seq::empty(),
            ordered(rows.deep_view()),
            0,
            Seq::empty(),
            budget as int,
        ),
{
    let sorted = order_rows(rows);
    let ghost d = sorted.deep_view();
    let ghost whole = constants_after(Seq::empty(), d, 0, Seq::empty(), budget as int);
    let mut s = String::new();
    let mut current = String::new();
    let mut i: usize = 0;
    assert(s@ =~= Seq::empty());
    assert(current@ =~= Seq::empty());
    while i < sorted.len()
        invariant
            i <= sorted.len(),
            d == sorted.deep_view(),
            whole == constants_after(s@, d, i as int, current@, budget as int),
            whole == constants_after(
                Seq::empty(),
                ordered(rows.deep_view()),
                0,
                Seq::empty(),
                budget as int,
            ),
        decreases sorted.len() - i,
    {
        let c = &sorted[i];
        assert(d[i as int] == c.deep_view());
        if is_over(s.as_str(), budget) {
            s.append("…（其余常量已省略）\n");
            return s;
        }
        if !same(c.owner.as_str(), current.as_str()) {
            s.append(write_owner(c).as_str());
            current = c.owner.clone();
        }
        s.append(write_constant(c).as_str());
        i += 1;
    }
    s
}

// ---------------------------------------------------------------------------
// Tables

pub open spec fn key_note(is_pk: bool) -> Seq<char> {
    if is_pk {
        "（主键）"@
    } else {
        ""@
    }
}

pub open spec fn column_text(c: PackColumnView) -> Seq<char> {
    let head = "- `"@ + c.name + "`"@ + key_note(c.is_pk) + " "@ + given_or(c.java_type, ""@);
    match c.doc {
        Some(d) => head + " — "@ + on_one_line(d) + "\n"@,
        None => head + "\n"@,
    }
}

fn write_column(c: &PackColumn) -> (r: String)
    ensures
        r@ == column_text(c.deep_view()),
{
    let mut s = owned("- `");
    s.append(c.name.as_str());
    s.append("`");
    if c.is_pk {
        s.append("（主键）");
    } else {
        s.append("");
    }
    s.append(" ");
    s.append(text_or(&c.java_type, "").as_str());
    match &c.doc {
        Some(d) => {
            s.append(" — ");
            s.append(one_line(d.as_str()).as_str());
        },
        None => {},
    }
    s.append("\n");
    s
}

fn add_columns(s: &mut String, v: &Vec<PackColumn>)
    ensures
        final(s)@ == old(s)@ + flat(v.deep_view(), |x: PackColumnView| column_text(x)),
{
    let ghost start = s@;
    let ghost d = v.deep_view();
    let ghost f = |x: PackColumnView| column_text(x);
    let mut i: usize = 0;
    assert(start + flat(d.take(0), f) =~= start);
    while i < v.len()
        invariant
            i <= v.len(),
            d == v.deep_view(),
            f == (|x: PackColumnView| column_text(x)),
            s@ == start + flat(d.take(i as int), f),
        decreases v.len() - i,
    {
        broadcast use take_next;

        let ghost so_far = flat(d.take(i as int), f);
        assert(d[i as int] == v@[i as int].deep_view());
        assert(d.take(i + 1).last() == d[i as int]);
        let line = write_column(&v[i]);
        assert(f(d[i as int]) == line@);
        s.append(line.as_str());
        assert(start + (so_far + line@) =~= (start + so_far) + line@);
        i += 1;
    }
    broadcast use take_all;

    assert(d.take(i as int) == d);
}


pub open spec fn table_text(t: PackTableView) -> Seq<char> {
    let head = "\n### `"@ + t.name + "`\n"@;
    if t.columns.len() == 0 {
        head + "（字段未知：该表仅出现在 SQL 语句中，没有对应的 resultMap）\n"@
    } else {
        head + flat(t.columns, |x: PackColumnView| column_text(x))
    }
}

fn write_table(t: &PackTable) -> (r: String)
    ensures
        r@ == table_text(t.deep_view()),
{
    let mut s = owned("\n### `");
    s.append(t.name.as_str());
    s.append("`\n");
    if t.columns.len() == 0 {
        s.append("（字段未知：该表仅出现在 SQL 语句中，没有对应的 resultMap）\n");
    } else {
        add_columns(&mut s, &t.columns);
    }
    s
}

/// `s` with the rows from `i` on, as far as the budget goes.
pub open spec fn tables_after(
    s: Seq<char>,
    rows: Seq<PackTableView>,
    i: int,
    budget: int,
) -> Seq<char>
    decreases rows.len() - i,
{
    if i < 0 || i >= rows.len() {
        s
    } else if over(s, budget) {
        s + "…（其余表已省略）\n"@
    } else {
        tables_after(s + table_text(rows[i]), rows, i + 1, budget)
    }
}

pub fn tables(rows: &Vec<PackTable>, budget: usize) -> (r: String)
    ensures
        r@ == tables_after(Seq::empty(), rows.deep_view(), 0, budget as int),
{
    let ghost d = rows.deep_view();
    let ghost whole = tables_after(Seq::empty(), d, 0, budget as int);
    let mut s = String::new();
    let mut i: usize = 0;
    assert(s@ =~= Seq::empty());
    while i < rows.len()
        invariant
            i <= rows.len(),
            d == rows.deep_view(),
            whole == tables_after(s@, d, i as int, budget as int),
            whole == tables_after(Seq::empty(), rows.deep_view(), 0, budget as int),
        decreases rows.len() - i,
    {
        assert(d[i as int] == rows@[i as int].deep_view());
        if is_over(s.as_str(), budget) {
            s.append("…（其余表已省略）\n");
            return s;
        }
        let t = write_table(&rows[i]);
        s.append(t.as_str());
        i += 1;
    }
    s
}

// ---------------------------------------------------------------------------
// Entrypoints

pub open spec fn entry_text(e: PackEntryView) -> Seq<char> {
    let head = "- ["@ + e.kind + "] `"@ + e.addr + "`"@;
    match e.doc {
        Some(d) => head + " — "@ + on_one_line(d) + "\n"@,
        None => head + "\n"@,
    }
}

fn write_entry(e: &PackEntry) -> (r: String)
    ensures
        r@ == entry_text(e.deep_view()),
{
    let mut s = owned("- [");
    s.append(e.kind.as_str());
    s.append("] `");
    s.append(e.addr.as_str());
    s.append("`");
    match &e.doc {
        Some(d) => {
            s.append(" — ");
            s.append(one_line(d.as_str()).as_str());
        },
        None => {},
    }
    s.append("\n");
    s
}

/// `s` with the rows from `i` on, as far as the budget goes.
pub open spec fn entrypoints_after(
    s: Seq<char>,
    rows: Seq<PackEntryView>,
    i: int,
    budget: int,
) -> Seq<char>
    decreases rows.len() - i,
{
    if i < 0 || i >= rows.len() {
        s
    } else if over(s, budget) {
        s + "…（其余入口已省略）\n"@
    } else {
        entrypoints_after(s + entry_text(rows[i]), rows, i + 1, budget)
    }
}

pub fn entrypoints(rows: &Vec<PackEntry>, budget: usize) -> (r: String)
    ensures
        r@ == entrypoints_after(Seq::empty(), rows.deep_view(), 0, budget as int),
{
    let ghost d = rows.deep_view();
    let ghost whole = entrypoints_after(Seq::empty(), d, 0, budget as int);
    let mut s = String::new();
    let mut i: usize = 0;
    assert(s@ =~= Seq::empty());
    while i < rows.len()
        invariant
            i <= rows.len(),
            d == rows.deep_view(),
            whole == entrypoints_after(s@, d, i as int, budget as int),
            whole == entrypoints_after(Seq::empty(), rows.deep_view(), 0, budget as int),
        decreases rows.len() - i,
    {
        assert(d[i as int] == rows@[i as int].deep_view());
        if is_over(s.as_str(), budget) {
            s.append("…（其余入口已省略）\n");
            return s;
        }
        let t = write_entry(&rows[i]);
        s.append(t.as_str());
        i += 1;
    }
    s
}

// ---------------------------------------------------------------------------
// Traces

/// A table with the operations on it, where the id is one of a known table.
pub open spec fn table_reached(
    names: Map<i64, Seq<char>>,
    t: (Seq<char>, Seq<Seq<char>>),
) -> Option<Seq<char>> {
    match integer_of(t.0) {
        Some(id) => if names.dom().contains(id as i64) {
            Some(names[id as i64] + "("@ + joined(t.1, "/"@) + ")"@)
        } else {
            None
        },
        None => None,
    }
}

fn reach_table(names: &IdMap<String>, id: &str, ops: &Vec<String>) -> (r: Option<String>)
    ensures
        r.deep_view() == table_reached(names.deep_view(), (id@, ops.deep_view())),
{
    match parse_i64(id) {
        Some(n) => match names.get(&n) {
            Some(name) => {
                let mut s = name.clone();
                s.append("(");
                s.append(join(ops, "/").as_str());
                s.append(")");
                Some(s)
            },
            None => None,
        },
        None => None,
    }
}

pub open spec fn tables_reached(
    names: Map<i64, Seq<char>>,
    tables: Seq<(Seq<char>, Seq<Seq<char>>)>,
) -> Seq<Seq<char>> {
    crate::lists::pick(tables, |t: (Seq<char>, Seq<Seq<char>>)| table_reached(names, t))
}

fn reach_tables(names: &IdMap<String>, tables: &Vec<(String, Vec<String>)>) -> (r: Vec<String>)
    ensures
        r.deep_view() == tables_reached(names.deep_view(), tables.deep_view()),
{
    let ghost d = tables.deep_view();
    let ghost nv = names.deep_view();
    let ghost f = |t: (Seq<char>, Seq<Seq<char>>)| table_reached(nv, t);
    let mut out: Vec<String> = Vec::new();
    let mut i: usize = 0;
    assert(out.deep_view() =~= crate::lists::pick(d.take(0), f));
    while i < tables.len()
        invariant
            i <= tables.len(),
            d == tables.deep_view(),
            nv == names.deep_view(),
            f == (|t: (Seq<char>, Seq<Seq<char>>)| table_reached(nv, t)),
            out.deep_view() == crate::lists::pick(d.take(i as int), f),
        decreases tables.len() - i,
    {
        broadcast use take_next;

        let ghost before = out.deep_view();
        assert(d[i as int] == tables@[i as int].deep_view());
        assert(d.take(i + 1).last() == d[i as int]);
        assert(f(d[i as int]) == table_reached(nv, d[i as int]));
        match reach_table(names, tables[i].0.as_str(), &tables[i].1) {
            Some(t) => {
                let ghost x = t@;
                out.push(t);
                assert(out.deep_view() =~= before.push(x));
            },
            None => {},
        }
        i += 1;
    }
    broadcast use take_all;

    assert(d.take(i as int) == d);
    out
}

/// A trace; nothing where its path cannot be read.
pub open spec fn trace_text(names: Map<i64, Seq<char>>, t: PackTraceView) -> Seq<char> {
    match t.labels {
        None => Seq::empty(),
        Some(labels) => {
            let head = "- `"@ + t.addr + "`\n  "@ + joined(labels, " → "@) + "\n"@;
            let reached = tables_reached(names, t.tables);
            if reached.len() == 0 {
                head
            } else {
                head + "  触达表："@ + joined(reached, "、"@) + "\n"@
            }
        },
    }
}

fn write_trace(names: &IdMap<String>, t: &PackTrace) -> (r: String)
    ensures
        r@ == trace_text(names.deep_view(), t.deep_view()),
{
    match &t.labels {
        None => {
            let e = String::new();
            assert(e@ =~= Seq::empty());
            e
        },
        Some(labels) => {
            let mut s = owned("- `");
            s.append(t.addr.as_str());
            s.append("`\n  ");
            s.append(join(labels, " → ").as_str());
            s.append("\n");
            let reached = reach_tables(names, &t.tables);
            if reached.len() > 0 {
                s.append("  触达表：");
                s.append(join(&reached, "、").as_str());
                s.append("\n");
            }
            s
        },
    }
}

/// `s` with the rows from `i` on, as far as the budget goes.
pub open spec fn traces_after(
    s: Seq<char>,
    rows: Seq<PackTraceView>, names: Map<i64, Seq<char>>,
    i: int,
    budget: int,
) -> Seq<char>
    decreases rows.len() - i,
{
    if i < 0 || i >= rows.len() {
        s
    } else if over(s, budget) {
        s + "…（其余链路已省略）\n"@
    } else {
        traces_after(s + trace_text(names, rows[i]), rows, names, i + 1, budget)
    }
}

pub fn traces(rows: &Vec<PackTrace>, names: &IdMap<String>, budget: usize) -> (r: String)
    ensures
        r@ == traces_after(Seq::empty(), rows.deep_view(), names.deep_view(), 0, budget as int),
{
    let ghost d = rows.deep_view();
    let ghost nv = names.deep_view();
    let ghost whole = traces_after(Seq::empty(), d, nv, 0, budget as int);
    let mut s = String::new();
    let mut i: usize = 0;
    assert(s@ =~= Seq::empty());
    while i < rows.len()
        invariant
            i <= rows.len(),
            d == rows.deep_view(),
            nv == names.deep_view(),
            whole == traces_after(s@, d, nv, i as int, budget as int),
            whole == traces_after(Seq::empty(), rows.deep_view(), names.deep_view(), 0, budget as int),
        decreases rows.len() - i,
    {
        assert(d[i as int] == rows@[i as int].deep_view());
        if is_over(s.as_str(), budget) {
            s.append("…（其余链路已省略）\n");
            return s;
        }
        let t = write_trace(names, &rows[i]);
        s.append(t.as_str());
        i += 1;
    }
    s
}

// ---------------------------------------------------------------------------
// Commits

/// A commit subject, with the month it is from.
pub open spec fn commit_text(c: PackCommitView) -> Seq<char> {
    "- "@
        + c.month
        + " "@
        + truncated(trimmed(c.subject), 80)
        + "\n"@
}

fn write_commit(c: &PackCommit) -> (r: String)
    ensures
        r@ == commit_text(c.deep_view()),
{
    let mut s = owned("- ");
    s.append(c.month.as_str());
    s.append(" ");
    s.append(truncate_chars(trim(c.subject.as_str()), 80).as_str());
    s.append("\n");
    s
}


/// `s` with the rows from `i` on, as far as the budget goes.
pub open spec fn commits_after(
    s: Seq<char>,
    rows: Seq<PackCommitView>,
    i: int,
    budget: int,
) -> Seq<char>
    decreases rows.len() - i,
{
    if i < 0 || i >= rows.len() {
        s
    } else if over(s, budget) {
        s
    } else {
        commits_after(s + commit_text(rows[i]), rows, i + 1, budget)
    }
}

pub fn commits(rows: &Vec<PackCommit>, budget: usize) -> (r: String)
    ensures
        r@ == commits_after(Seq::empty(), rows.deep_view(), 0, budget as int),
{
    let ghost d = rows.deep_view();
    let ghost whole = commits_after(Seq::empty(), d, 0, budget as int);
    let mut s = String::new();
    let mut i: usize = 0;
    assert(s@ =~= Seq::empty());
    while i < rows.len()
        invariant
            i <= rows.len(),
            d == rows.deep_view(),
            whole == commits_after(s@, d, i as int, budget as int),
            whole == commits_after(Seq::empty(), rows.deep_view(), 0, budget as int),
        decreases rows.len() - i,
    {
        assert(d[i as int] == rows@[i as int].deep_view());
        if is_over(s.as_str(), budget) {
            return s;
        }
        let t = write_commit(&rows[i]);
        s.append(t.as_str());
        i += 1;
    }
    s
}

// ---------------------------------------------------------------------------
// Source

/// A file with its text cut to the allowance; nothing where it cannot be read.
pub open spec fn file_text(f: PackFileView, per_file: int) -> Seq<char> {
    match f.text {
        None => Seq::empty(),
        Some(t) => "\n### `"@ + f.path + "`（改动 "@ + signed(f.churn as int)
            + " 次）\n\n```java\n"@ + truncated(t, per_file) + "\n```\n"@,
    }
}

fn write_file(f: &PackFile, per_file: usize) -> (r: String)
    ensures
        r@ == file_text(f.deep_view(), per_file as int),
{
    match &f.text {
        None => {
            let e = String::new();
            assert(e@ =~= Seq::empty());
            e
        },
        Some(t) => {
            let mut s = owned("\n### `");
            s.append(f.path.as_str());
            s.append("`（改动 ");
            s.append(decimal_i64(f.churn).as_str());
            s.append(" 次）\n\n```java\n");
            s.append(truncate_chars(t.as_str(), per_file).as_str());
            s.append("\n```\n");
            s
        },
    }
}

/// What each of `n` files may take of the budget.
pub open spec fn allowance(budget: int, n: int) -> int {
    budget / (if n > 1 {
        n
    } else {
        1
    })
}

/// `s` with the files from `i` on, as far as the budget goes.
pub open spec fn files_after(
    s: Seq<char>,
    rows: Seq<PackFileView>,
    i: int,
    budget: int,
) -> Seq<char>
    decreases rows.len() - i,
{
    if i < 0 || i >= rows.len() || over(s, budget) {
        s
    } else {
        files_after(
            s + file_text(rows[i], allowance(budget, rows.len() as int)),
            rows,
            i + 1,
            budget,
        )
    }
}

/// Source of the domain's most-churned files, which is where the business logic
/// that keeps changing lives.
pub fn source(rows: &Vec<PackFile>, budget: usize) -> (r: String)
    ensures
        r@ == files_after(Seq::empty(), rows.deep_view(), 0, budget as int),
{
    let ghost d = rows.deep_view();
    let ghost whole = files_after(Seq::empty(), d, 0, budget as int);
    let n: usize = if rows.len() > 1 {
        rows.len()
    } else {
        1
    };
    let per_file: usize = budget / n;
    assert(per_file == allowance(budget as int, d.len() as int));
    let mut s = String::new();
    let mut i: usize = 0;
    assert(s@ =~= Seq::empty());
    while i < rows.len()
        invariant
            i <= rows.len(),
            d == rows.deep_view(),
            per_file == allowance(budget as int, d.len() as int),
            whole == files_after(s@, d, i as int, budget as int),
            whole == files_after(Seq::empty(), rows.deep_view(), 0, budget as int),
        decreases rows.len() - i,
    {
        assert(d[i as int] == rows@[i as int].deep_view());
        if is_over(s.as_str(), budget) {
            return s;
        }
        let t = write_file(&rows[i], per_file);
        s.append(t.as_str());
        i += 1;
    }
    s
}

// ---------------------------------------------------------------------------
// The pack

pub const ENUMS_HEADING: &'static str = "## 状态与常量定义\n\n这些注释是业务状态语义的原始出处，优先据此还原生命周期。\n\n标注「跨领域共享」的类型被全项目使用，其中只有与本领域直接相关的取值才属于本领域，不要把其它取值当作本领域的概念收录。";

pub const TABLES_HEADING: &'static str = "## 数据表结构\n\n项目无 DDL，以下结构由 mapper XML 与实体注解反推。";

pub const ENTRYPOINTS_HEADING: &'static str = "## 对外入口";

pub const TRACES_HEADING: &'static str = "## 入口到数据表的调用链路\n\n已包含接口到实现的动态分发跳转。";

pub const COMMITS_HEADING: &'static str = "## 相关 git 提交\n\n提交信息用团队自己的语言描述变更意图，是术语和业务规则的重要线索。";

pub const SOURCE_HEADING: &'static str = "## 关键源码节选";

/// A section under its heading; nothing where there is nothing to say.
pub open spec fn section_text(heading: Seq<char>, body: Seq<char>) -> Seq<char> {
    if trimmed(body).len() == 0 {
        Seq::empty()
    } else {
        heading + "\n\n"@ + body + "\n"@
    }
}

fn write_section(heading: &str, body: &str) -> (r: String)
    ensures
        r@ == section_text(heading@, body@),
{
    if trim(body).is_empty() {
        let e = String::new();
        assert(e@ =~= Seq::empty());
        return e;
    }
    let mut s = owned(heading);
    s.append("\n\n");
    s.append(body);
    s.append("\n");
    s
}

/// The rows that a pack is made from.
#[derive(Debug)]
pub struct Evidence {
    pub constants: Vec<ConstantRow>,
    pub tables: Vec<PackTable>,
    pub entrypoints: Vec<PackEntry>,
    pub traces: Vec<PackTrace>,
    /// Table row id → name.
    pub table_names: IdMap<String>,
    pub commits: Vec<PackCommit>,
    pub files: Vec<PackFile>,
}

/// The content of a [`Evidence`].
#[verifier::ext_equal]
pub struct EvidenceView {
    pub constants: Seq<ConstantRowView>,
    pub tables: Seq<PackTableView>,
    pub entrypoints: Seq<PackEntryView>,
    pub traces: Seq<PackTraceView>,
    pub table_names: Map<i64, Seq<char>>,
    pub commits: Seq<PackCommitView>,
    pub files: Seq<PackFileView>,
}

impl DeepView for Evidence {
    type V = EvidenceView;

    open spec fn deep_view(&self) -> EvidenceView {
        EvidenceView {
            constants: self.constants.deep_view(),
            tables: self.tables.deep_view(),
            entrypoints: self.entrypoints.deep_view(),
            traces: self.traces.deep_view(),
            table_names: self.table_names.deep_view(),
            commits: self.commits.deep_view(),
            files: self.files.deep_view(),
        }
    }
}

/// The text of a pack: what the domain is, and a section for each kind of evidence.
pub open spec fn pack_text(h: PackHeadView, e: EvidenceView) -> Seq<char> {
    "# 领域："@
        + given_or(h.label, h.key)
        + "\n领域键：`"@
        + h.key
        + "`（自动划分，置信度 "@
        + h.confidence
        + "）\n\n"@
        + section_text(ENUMS_HEADING@, constants_after(Seq::empty(), ordered(e.constants), 0, Seq::empty(), ENUMS_BUDGET as int))
        + section_text(TABLES_HEADING@, tables_after(Seq::empty(), e.tables, 0, TABLES_BUDGET as int))
        + section_text(ENTRYPOINTS_HEADING@, entrypoints_after(Seq::empty(), e.entrypoints, 0, ENTRYPOINTS_BUDGET as int))
        + section_text(TRACES_HEADING@, traces_after(Seq::empty(), e.traces, e.table_names, 0, TRACES_BUDGET as int))
        + section_text(COMMITS_HEADING@, commits_after(Seq::empty(), e.commits, 0, COMMITS_BUDGET as int))
        + section_text(SOURCE_HEADING@, files_after(Seq::empty(), e.files, 0, SOURCE_BUDGET as int))
}

fn write_pack(h: &PackHead, e: &Evidence) -> (r: String)
    ensures
        r@ == pack_text(h.deep_view(), e.deep_view()),
{
    let mut s = owned("# 领域：");
    s.append(text_or(&h.label, h.key.as_str()).as_str());
    s.append("\n领域键：`");
    s.append(h.key.as_str());
    s.append("`（自动划分，置信度 ");
    s.append(h.confidence.as_str());
    s.append("）\n\n");
    s.append(write_section(ENUMS_HEADING, enums(&e.constants, ENUMS_BUDGET).as_str()).as_str());
    s.append(write_section(TABLES_HEADING, tables(&e.tables, TABLES_BUDGET).as_str()).as_str());
    s.append(write_section(ENTRYPOINTS_HEADING, entrypoints(&e.entrypoints, ENTRYPOINTS_BUDGET).as_str()).as_str());
    s.append(write_section(TRACES_HEADING, traces(&e.traces, &e.table_names, TRACES_BUDGET).as_str()).as_str());
    s.append(write_section(COMMITS_HEADING, commits(&e.commits, COMMITS_BUDGET).as_str()).as_str());
    s.append(write_section(SOURCE_HEADING, source(&e.files, SOURCE_BUDGET).as_str()).as_str());
    s
}


/// Assembles the pack of a domain.
pub fn build(h: &PackHead, e: &Evidence) -> (r: Pack)
    ensures
        r.deep_view() == (PackView {
            domain_key: h.deep_view().key,
            domain_id: h.id,
            body: pack_text(h.deep_view(), e.deep_view()),
            source_digest: hex_of(sha256_of(encode_utf8(pack_text(h.deep_view(), e.deep_view())))),
            estimated_tokens: r.estimated_tokens,
        }),
        r.estimated_tokens == (2 * encode_utf8(pack_text(h.deep_view(), e.deep_view())).len() + 4)
            / 5,
{
    let body = write_pack(h, e);
    Pack {
        domain_key: h.key.clone(),
        domain_id: h.id,
        source_digest: sha256_hex(body.as_str().as_bytes()),
        estimated_tokens: estimate_tokens(body.as_str()),
        body,
    }
}

} // verus!


//! Insights: business claims captured from working sessions, human-confirmed
//! before they become searchable knowledge.
//!
//! An insight is what a coding session (or a person) learns while working
//! on the code — "cancelling an order does NOT release its coupon", "the -1
//! there is legacy compatibility" — knowledge that is expensive to rediscover
//! and currently evaporates with the session.
//!
//! The lifecycle is deliberately asymmetric, and mirrors how review works in
//! the rest of the tool:
//!
//! * [`propose`] makes a `candidate` note. Nothing machine-written enters the
//!   search index — a candidate the model keeps restating must not accumulate
//!   the appearance of confirmation.
//! * [`review`] is the human gate, exposed only through the CLI. There is
//!   deliberately no MCP confirm tool: the client that proposes cannot be the
//!   one that confirms.
//! * `confirmed` notes are indexed by [`crate::search`] like any other note;
//!   `rejected` ones stay for audit but are never indexed.
//!
//! Insights live in `notes` rows whose `kind` is one of [`kinds`]. They carry no
//! `source_digest`: invalidation is a human act, not automatic.
use crate::lists::{take_all, take_next};
use crate::number::{decimal_usize, digits};
use crate::text::{owned, same, trim, trimmed};
use crate::textmap::TextMap;
use vstd::prelude::*;

verus! {

/// The three insight kinds worth keeping, in the spirit of the dossier model.
pub open spec fn is_kind(kind: Seq<char>) -> bool {
    kind == "business_rule"@ || kind == "landmine"@ || kind == "term"@
}

/// Whether a note of this kind is an insight.
pub fn is_insight(kind: &str) -> (r: bool)
    ensures
        r == is_kind(kind@),
{
    same(kind, "business_rule") || same(kind, "landmine") || same(kind, "term")
}

pub open spec fn kind_name(kind: Seq<char>) -> Seq<char> {
    if kind == "business_rule"@ {
        "业务规则"@
    } else if kind == "landmine"@ {
        "坑"@
    } else if kind == "term"@ {
        "术语"@
    } else {
        "洞察"@
    }
}

/// Human label for a kind, matching the tone of [`crate::search::label`].
pub fn kind_label(kind: &str) -> (r: &'static str)
    ensures
        r@ == kind_name(kind@),
{
    if same(kind, "business_rule") {
        "业务规则"
    } else if same(kind, "landmine") {
        "坑"
    } else if same(kind, "term") {
        "术语"
    } else {
        "洞察"
    }
}

/// One code location backing a claim: enough for whoever reviews it to jump there.
#[derive(Debug)]
pub struct Evidence {
    /// Repository-relative file path, required.
    pub file: String,
    /// Symbol (fqn or simple name) when known.
    pub symbol: Option<String>,
    /// Line range when known, e.g. "120-145".
    pub lines: Option<String>,
}

/// The content of a [`Evidence`].
#[verifier::ext_equal]
pub struct EvidenceView {
    pub file: Seq<char>,
    pub symbol: Option<Seq<char>>,
    pub lines: Option<Seq<char>>,
}

impl DeepView for Evidence {
    type V = EvidenceView;

    open spec fn deep_view(&self) -> EvidenceView {
        EvidenceView {
            file: self.file.deep_view(),
            symbol: self.symbol.deep_view(),
            lines: self.lines.deep_view(),
        }
    }
}

impl Clone for Evidence {
    fn clone(&self) -> (r: Self)
        ensures
            r.deep_view() == self.deep_view(),
    {
        Evidence {
            file: self.file.clone(),
            symbol: self.symbol.clone(),
            lines: self.lines.clone(),
        }
    }
}

/// An incoming insight as proposed by a session.
#[derive(Debug)]
pub struct Insight {
    pub kind: String,
    /// One-sentence claim. Short by design: it doubles as the search title.
    pub title: String,
    /// Conditions, exceptions and unknowns as Markdown.
    pub body: String,
    /// Domain key to file the insight under, when the domain is known.
    pub domain: Option<String>,
    /// Code locations. At least one is required — an unverifiable claim
    /// cannot be reviewed, and confirmation without verification is theatre.
    pub evidence: Vec<Evidence>,
}

/// The content of a [`Insight`].
#[verifier::ext_equal]
pub struct InsightView {
    pub kind: Seq<char>,
    pub title: Seq<char>,
    pub body: Seq<char>,
    pub domain: Option<Seq<char>>,
    pub evidence: Seq<EvidenceView>,
}

impl DeepView for Insight {
    type V = InsightView;

    open spec fn deep_view(&self) -> InsightView {
        InsightView {
            kind: self.kind.deep_view(),
            title: self.title.deep_view(),
            body: self.body.deep_view(),
            domain: self.domain.deep_view(),
            evidence: self.evidence.deep_view(),
        }
    }
}

impl Clone for Insight {
    fn clone(&self) -> (r: Self)
        ensures
            r.deep_view() == self.deep_view(),
    {
        Insight {
            kind: self.kind.clone(),
            title: self.title.clone(),
            body: self.body.clone(),
            domain: self.domain.clone(),
            evidence: self.evidence.clone(),
        }
    }
}

/// A note to be stored for an insight.
#[derive(Debug)]
pub struct Proposal {
    pub kind: String,
    /// Row of the domain, where the insight names one.
    pub domain_id: Option<i64>,
    /// Key of the domain, empty where the insight names none.
    pub domain_key: String,
    pub title: String,
    pub body: String,
    pub status: String,
    pub model: String,
    /// Evidence locations as `path:symbol:lines` strings.
    pub evidence: Vec<String>,
}

/// The content of a [`Proposal`].
#[verifier::ext_equal]
pub struct ProposalView {
    pub kind: Seq<char>,
    pub domain_id: Option<i64>,
    pub domain_key: Seq<char>,
    pub title: Seq<char>,
    pub body: Seq<char>,
    pub status: Seq<char>,
    pub model: Seq<char>,
    pub evidence: Seq<Seq<char>>,
}

impl DeepView for Proposal {
    type V = ProposalView;

    open spec fn deep_view(&self) -> ProposalView {
        ProposalView {
            kind: self.kind.deep_view(),
            domain_id: self.domain_id.deep_view(),
            domain_key: self.domain_key.deep_view(),
            title: self.title.deep_view(),
            body: self.body.deep_view(),
            status: self.status.deep_view(),
            model: self.model.deep_view(),
            evidence: self.evidence.deep_view(),
        }
    }
}

impl Clone for Proposal {
    fn clone(&self) -> (r: Self)
        ensures
            r.deep_view() == self.deep_view(),
    {
        Proposal {
            kind: self.kind.clone(),
            domain_id: self.domain_id.clone(),
            domain_key: self.domain_key.clone(),
            title: self.title.clone(),
            body: self.body.clone(),
            status: self.status.clone(),
            model: self.model.clone(),
            evidence: self.evidence.clone(),
        }
    }
}

/// A listed insight, with everything a review needs on one screen.
#[derive(Debug)]
pub struct InsightRow {
    pub id: i64,
    pub kind: String,
    pub title: String,
    pub status: String,
    pub domain: Option<String>,
    pub body: String,
    pub created: String,
    /// Evidence locations as `path:symbol:lines` strings.
    pub evidence: Vec<String>,
}

/// The content of a [`InsightRow`].
#[verifier::ext_equal]
pub struct InsightRowView {
    pub id: i64,
    pub kind: Seq<char>,
    pub title: Seq<char>,
    pub status: Seq<char>,
    pub domain: Option<Seq<char>>,
    pub body: Seq<char>,
    pub created: Seq<char>,
    pub evidence: Seq<Seq<char>>,
}

impl DeepView for InsightRow {
    type V = InsightRowView;

    open spec fn deep_view(&self) -> InsightRowView {
        InsightRowView {
            id: self.id,
            kind: self.kind.deep_view(),
            title: self.title.deep_view(),
            status: self.status.deep_view(),
            domain: self.domain.deep_view(),
            body: self.body.deep_view(),
            created: self.created.deep_view(),
            evidence: self.evidence.deep_view(),
        }
    }
}

impl Clone for InsightRow {
    fn clone(&self) -> (r: Self)
        ensures
            r.deep_view() == self.deep_view(),
    {
        InsightRow {
            id: self.id,
            kind: self.kind.clone(),
            title: self.title.clone(),
            status: self.status.clone(),
            domain: self.domain.clone(),
            body: self.body.clone(),
            created: self.created.clone(),
            evidence: self.evidence.clone(),
        }
    }
}

// ---------------------------------------------------------------------------
// Proposing

/// Whether an evidence entry names a file.
pub open spec fn names_file(e: EvidenceView) -> bool {
    trimmed(e.file).len() > 0
}

/// The whole location in one text: a row id would dangle on the next build, which
/// makes the file rows anew.
pub open spec fn location(e: EvidenceView) -> Seq<char> {
    let file = trimmed(e.file);
    match (e.symbol, e.lines) {
        (Some(s), Some(l)) => file + ":"@ + s + ":"@ + l,
        (Some(s), None) => file + ":"@ + s,
        (None, Some(l)) => file + ":"@ + l,
        (None, None) => file,
    }
}

/// The locations of the entries that name a file.
pub open spec fn locations(evidence: Seq<EvidenceView>) -> Seq<Seq<char>>
    decreases evidence.len(),
{
    if evidence.len() == 0 {
        Seq::empty()
    } else if names_file(evidence.last()) {
        locations(evidence.drop_last()).push(location(evidence.last()))
    } else {
        locations(evidence.drop_last())
    }
}

/// The domain that the insight names, blank counting as none.
pub open spec fn domain_named(domain: Option<Seq<char>>) -> Option<Seq<char>> {
    match domain {
        Some(d) => if trimmed(d).len() > 0 {
            Some(trimmed(d))
        } else {
            None
        },
        None => None,
    }
}

/// What is missing from an insight, where anything is.
pub open spec fn flaw(ins: InsightView, domains: Map<Seq<char>, i64>) -> Option<Seq<char>> {
    let title = trimmed(ins.title);
    if !is_kind(ins.kind) {
        Some("kind 必须是 business_rule/landmine/term 之一，收到 `"@ + ins.kind + "`"@)
    } else if title.len() == 0 {
        Some("title 不能为空：用一句话概括这个结论"@)
    } else if title.len() > 120 {
        Some(
            "title 过长（"@ + digits(title.len())
                + " 字符），压缩到 120 以内——它同时是检索标题"@,
        )
    } else if trimmed(ins.body).len() == 0 {
        Some("body 不能为空：写清条件、例外或适用范围"@)
    } else if locations(ins.evidence).len() == 0 {
        Some(
            "至少一条证据：evidence[].file 不能为空——没有代码位置的结论无法复核"@,
        )
    } else {
        match domain_named(ins.domain) {
            Some(key) => if domains.dom().contains(key) {
                None
            } else {
                Some("领域 `"@ + key + "` 不存在，用 `catlas domains` 查看"@)
            },
            None => None,
        }
    }
}

/// The note of an insight: a candidate, whatever it says.
pub open spec fn proposal_of(
    ins: InsightView,
    domains: Map<Seq<char>, i64>,
    model: Seq<char>,
) -> ProposalView {
    let key = domain_named(ins.domain);
    ProposalView {
        kind: ins.kind,
        domain_id: match key {
            Some(k) => Some(domains[k]),
            None => None,
        },
        domain_key: match key {
            Some(k) => k,
            None => Seq::empty(),
        },
        title: trimmed(ins.title),
        body: trimmed(ins.body),
        status: "candidate"@,
        model,
        evidence: locations(ins.evidence),
    }
}

fn locate(e: &Evidence) -> (r: String)
    ensures
        r@ == location(e.deep_view()),
{
    let mut s = owned(trim(e.file.as_str()));
    match &e.symbol {
        Some(x) => {
            s.append(":");
            s.append(x.as_str());
        },
        None => {},
    }
    match &e.lines {
        Some(x) => {
            s.append(":");
            s.append(x.as_str());
        },
        None => {},
    }
    s
}

fn locate_all(evidence: &Vec<Evidence>) -> (r: Vec<String>)
    ensures
        r.deep_view() == locations(evidence.deep_view()),
{
    let ghost d = evidence.deep_view();
    let mut out: Vec<String> = Vec::new();
    let mut i: usize = 0;
    assert(out.deep_view() =~= locations(d.take(0)));
    while i < evidence.len()
        invariant
            i <= evidence.len(),
            d == evidence.deep_view(),
            out.deep_view() == locations(d.take(i as int)),
        decreases evidence.len() - i,
    {
        broadcast use take_next;

        let ghost before = out.deep_view();
        assert(d[i as int] == evidence@[i as int].deep_view());
        assert(d.take(i + 1).last() == d[i as int]);
        if !trim(evidence[i].file.as_str()).is_empty() {
            let l = locate(&evidence[i]);
            let ghost x = l@;
            out.push(l);
            assert(out.deep_view() =~= before.push(x));
        }
        i += 1;
    }
    broadcast use take_all;

    assert(d.take(i as int) == d);
    out
}

/// Checks an insight and makes the note for it, given the domains by key.
///
/// Failures say exactly what is missing so an MCP client can fix
/// the call and retry without a human in the loop.
pub fn propose(ins: &Insight, domains: &TextMap<i64>, model: &str) -> (r: Result<Proposal, String>)
    ensures
        match r {
            Ok(p) => flaw(ins.deep_view(), domains.deep_view()) is None && p.deep_view()
                == proposal_of(ins.deep_view(), domains.deep_view(), model@),
            Err(e) => flaw(ins.deep_view(), domains.deep_view()) == Some(e@),
        },
{
    if !is_insight(ins.kind.as_str()) {
        let mut e = owned("kind 必须是 business_rule/landmine/term 之一，收到 `");
        e.append(ins.kind.as_str());
        e.append("`");
        return Err(e);
    }
    let title = trim(ins.title.as_str());
    if title.is_empty() {
        return Err(owned("title 不能为空：用一句话概括这个结论"));
    }
    let n: usize = title.unicode_len();
    if n > 120 {
        let mut e = owned("title 过长（");
        e.append(decimal_usize(n).as_str());
        e.append(" 字符），压缩到 120 以内——它同时是检索标题");
        return Err(e);
    }
    let body = trim(ins.body.as_str());
    if body.is_empty() {
        return Err(owned("body 不能为空：写清条件、例外或适用范围"));
    }
    let evidence = locate_all(&ins.evidence);
    if evidence.len() == 0 {
        return Err(
            owned(
                "至少一条证据：evidence[].file 不能为空——没有代码位置的结论无法复核",
            ),
        );
    }
    let mut domain_id: Option<i64> = None;
    let mut domain_key = String::new();
    match &ins.domain {
        Some(d) => {
            let key = trim(d.as_str());
            if !key.is_empty() {
                match domains.get(key) {
                    Some(id) => {
                        domain_id = Some(*id);
                        domain_key = owned(key);
                    },
                    None => {
                        let mut e = owned("领域 `");
                        e.append(key);
                        e.append("` 不存在，用 `catlas domains` 查看");
                        return Err(e);
                    },
                }
            }
        },
        None => {},
    }
    let p = Proposal {
        kind: ins.kind.clone(),
        domain_id,
        domain_key,
        title: owned(title),
        body: owned(body),
        status: owned("candidate"),
        model: owned(model),
        evidence,
    };
    assert(p.deep_view() =~= proposal_of(ins.deep_view(), domains.deep_view(), model@));
    Ok(p)
}

// ---------------------------------------------------------------------------
// Listing

/// A stored note with its evidence.
#[derive(Debug)]
pub struct NoteRow {
    pub id: i64,
    pub kind: String,
    pub title: String,
    pub status: String,
    /// Key of the domain, empty or missing where there is none.
    pub domain: Option<String>,
    pub body: String,
    pub created: String,
    pub evidence: Vec<String>,
}

/// The content of a [`NoteRow`].
#[verifier::ext_equal]
pub struct NoteRowView {
    pub id: i64,
    pub kind: Seq<char>,
    pub title: Seq<char>,
    pub status: Seq<char>,
    pub domain: Option<Seq<char>>,
    pub body: Seq<char>,
    pub created: Seq<char>,
    pub evidence: Seq<Seq<char>>,
}

impl DeepView for NoteRow {
    type V = NoteRowView;

    open spec fn deep_view(&self) -> NoteRowView {
        NoteRowView {
            id: self.id,
            kind: self.kind.deep_view(),
            title: self.title.deep_view(),
            status: self.status.deep_view(),
            domain: self.domain.deep_view(),
            body: self.body.deep_view(),
            created: self.created.deep_view(),
            evidence: self.evidence.deep_view(),
        }
    }
}

impl Clone for NoteRow {
    fn clone(&self) -> (r: Self)
        ensures
            r.deep_view() == self.deep_view(),
    {
        NoteRow {
            id: self.id,
            kind: self.kind.clone(),
            title: self.title.clone(),
            status: self.status.clone(),
            domain: self.domain.clone(),
            body: self.body.clone(),
            created: self.created.clone(),
            evidence: self.evidence.clone(),
        }
    }
}

/// Whether a status can be asked for.
pub open spec fn is_status(status: Seq<char>) -> bool {
    status == "candidate"@ || status == "confirmed"@ || status == "rejected"@
}

/// Whether a note is listed under the status.
pub open spec fn listed(n: NoteRowView, status: Seq<char>) -> bool {
    is_kind(n.kind) && (status == "all"@ || n.status == status)
}

pub open spec fn row_of(n: NoteRowView) -> InsightRowView {
    InsightRowView {
        id: n.id,
        kind: n.kind,
        title: n.title,
        status: n.status,
        domain: match n.domain {
            Some(d) => if d.len() > 0 {
                Some(d)
            } else {
                None
            },
            None => None,
        },
        body: n.body,
        created: n.created,
        evidence: n.evidence,
    }
}

/// The insights of a status among the notes, the notes in reverse.
pub open spec fn listing(notes: Seq<NoteRowView>, status: Seq<char>) -> Seq<InsightRowView>
    decreases notes.len(),
{
    if notes.len() == 0 {
        Seq::empty()
    } else if listed(notes.last(), status) {
        seq![row_of(notes.last())] + listing(notes.drop_last(), status)
    } else {
        listing(notes.drop_last(), status)
    }
}

fn read_row(n: &NoteRow) -> (r: InsightRow)
    ensures
        r.deep_view() == row_of(n.deep_view()),
{
    let domain = match &n.domain {
        Some(d) => if d.as_str().is_empty() {
            None
        } else {
            Some(d.clone())
        },
        None => None,
    };
    InsightRow {
        id: n.id,
        kind: n.kind.clone(),
        title: n.title.clone(),
        status: n.status.clone(),
        domain,
        body: n.body.clone(),
        created: n.created.clone(),
        evidence: n.evidence.clone(),
    }
}

/// List insights by status: `candidate`, `confirmed`, `rejected`, `all`. The notes come
/// in the order of their ids; the newest insight is listed first.
pub fn list(notes: &Vec<NoteRow>, status: &str) -> (r: Result<Vec<InsightRow>, String>)
    ensures
        match r {
            Ok(v) => (is_status(status@) || status@ == "all"@) && v.deep_view() == listing(
                notes.deep_view(),
                status@,
            ),
            Err(e) => !is_status(status@) && status@ != "all"@ && e@
                == "status 必须是 candidate/confirmed/rejected/all，收到 `"@ + status@ + "`"@,
        },
{
    let all = same(status, "all");
    if !(all || same(status, "candidate") || same(status, "confirmed") || same(
        status,
        "rejected",
    )) {
        let mut e = owned("status 必须是 candidate/confirmed/rejected/all，收到 `");
        e.append(status);
        e.append("`");
        return Err(e);
    }
    let ghost d = notes.deep_view();
    let mut out: Vec<InsightRow> = Vec::new();
    let mut n: usize = notes.len();
    assert(d.take(n as int) =~= d);
    assert(out.deep_view() + listing(d, status@) =~= listing(d, status@));
    while n > 0
        invariant
            n <= notes.len(),
            d == notes.deep_view(),
            all == (status@ == "all"@),
            out.deep_view() + listing(d.take(n as int), status@) == listing(d, status@),
        decreases n,
    {
        let ghost before = out.deep_view();
        let x = &notes[n - 1];
        let ghost rest = listing(d.take(n - 1), status@);
        assert(d[n - 1] == x.deep_view());
        assert(d.take(n as int).last() == d[n - 1]);
        assert(d.take(n as int).drop_last() =~= d.take(n - 1));
        if is_insight(x.kind.as_str()) && (all || same(x.status.as_str(), status)) {
            let row = read_row(x);
            let ghost rv = row.deep_view();
            out.push(row);
            assert(out.deep_view() =~= before.push(rv));
            assert(before + (seq![rv] + rest) =~= before.push(rv) + rest);
        }
        n -= 1;
    }
    assert(out.deep_view() + Seq::<InsightRowView>::empty() =~= out.deep_view());
    assert(d.take(0) =~= Seq::empty());
    Ok(out)
}

// ---------------------------------------------------------------------------
// Reviewing

/// Whether a verdict on `id` concerns the note: only a candidate can get one.
pub open spec fn awaits(n: NoteRowView, id: i64) -> bool {
    n.id == id && is_kind(n.kind) && n.status == "candidate"@
}

/// The note after the verdict.
pub open spec fn judged(n: NoteRowView, id: i64, accept: bool) -> NoteRowView {
    if awaits(n, id) {
        NoteRowView {
            status: if accept {
                "confirmed"@
            } else {
                "rejected"@
            },
            ..n
        }
    } else {
        n
    }
}

/// Human verdict on one insight: `accept` lets it into the search index,
/// otherwise it is rejected but kept for audit.
///
/// Returns whether the verdict concerned a note, so the CLI can name an unknown id
/// instead of reporting success for a no-op.
pub fn review(notes: &mut Vec<NoteRow>, id: i64, accept: bool) -> (r: bool)
    ensures
        final(notes).deep_view() == old(notes).deep_view().map_values(
            |n: NoteRowView| judged(n, id, accept),
        ),
        r == exists|i: int|
            0 <= i < old(notes).deep_view().len() && awaits(
                #[trigger] old(notes).deep_view()[i],
                id,
            ),
{
    let ghost d = notes.deep_view();
    let ghost f = |n: NoteRowView| judged(n, id, accept);
    let mut found = false;
    let mut i: usize = 0;
    while i < notes.len()
        invariant
            i <= notes.len(),
            notes.len() == d.len(),
            f == (|n: NoteRowView| judged(n, id, accept)),
            forall|j: int| 0 <= j < i ==> #[trigger] notes.deep_view()[j] == f(d[j]),
            forall|j: int| i <= j < d.len() ==> #[trigger] notes.deep_view()[j] == d[j],
            found == exists|j: int| 0 <= j < i && awaits(#[trigger] d[j], id),
        decreases notes.len() - i,
    {
        let ghost before = notes.deep_view();
        assert(before[i as int] == d[i as int]);
        assert(before[i as int] == notes@[i as int].deep_view());
        if notes[i].id == id && is_insight(notes[i].kind.as_str()) && same(
            notes[i].status.as_str(),
            "candidate",
        ) {
            let mut n = notes[i].clone();
            n.status = if accept {
                owned("confirmed")
            } else {
                owned("rejected")
            };
            let ghost nv = n.deep_view();
            assert(nv =~= f(d[i as int]));
            notes.set(i, n);
            assert(notes.deep_view() =~= before.update(i as int, nv));
            assert(awaits(d[i as int], id));
            found = true;
        } else {
            assert(f(d[i as int]) == d[i as int]);
        }
        i += 1;
    }
    assert(notes.deep_view() =~= d.map_values(f));
    found
}

// ---------------------------------------------------------------------------
// Laws

/// A proposal is a candidate, whatever the session says: nothing it can write makes it
/// confirmed.
pub proof fn proposals_are_candidates(
    ins: InsightView,
    domains: Map<Seq<char>, i64>,
    model: Seq<char>,
)
    ensures
        proposal_of(ins, domains, model).status == "candidate"@,
{
}

/// A verdict is final: what it concerned awaits no other.
pub proof fn verdicts_are_final(n: NoteRowView, id: i64, accept: bool, again: bool)
    ensures
        !awaits(judged(n, id, accept), id),
        judged(judged(n, id, accept), id, again) == judged(n, id, accept),
{
    reveal_strlit("candidate");
    reveal_strlit("confirmed");
    reveal_strlit("rejected");
    assert("candidate"@[1] == 'a');
    assert("confirmed"@[1] == 'o');
    assert("rejected"@[1] == 'e');
}

/// A verdict changes nothing but the status, of nothing but the note it concerns.
pub proof fn verdicts_change_status_only(n: NoteRowView, id: i64, accept: bool)
    ensures
        judged(n, id, accept) == (NoteRowView { status: judged(n, id, accept).status, ..n }),
        n.id != id ==> judged(n, id, accept) == n,
{
}

/// Every insight that was proposed is listed until it is judged, and under its verdict
/// afterwards.
pub proof fn insights_stay_listed(n: NoteRowView, id: i64, accept: bool)
    requires
        awaits(n, id),
    ensures
        listed(n, "candidate"@),
        listed(n, "all"@),
        listed(
            judged(n, id, accept),
            if accept {
                "confirmed"@
            } else {
                "rejected"@
            },
        ),
        listed(judged(n, id, accept), "all"@),
{
}

} // verus!


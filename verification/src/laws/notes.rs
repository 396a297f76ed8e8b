//! Insights: what is accepted, and what becomes of it.
use crate::insight::{
    awaits, flaw, is_status, judged, kind_name, listing, location, locations, proposal_of, row_of,
    EvidenceView, InsightView, NoteRowView,
};
use crate::laws::basics::{push_members, trimmed_is_core};
use crate::laws::history::is_tight;
use crate::text::trimmed;
use vstd::prelude::*;

verus! {

/// Whether an insight is complete: of a known kind, with a title of at most 120 characters, a
/// text, a place in the code and, where it names a domain, one that there is.
pub open spec fn is_complete(ins: InsightView, domains: Map<Seq<char>, i64>) -> bool {
    &&& ins.kind == "business_rule"@ || ins.kind == "landmine"@ || ins.kind == "term"@
    &&& 1 <= trimmed(ins.title).len() <= 120
    &&& trimmed(ins.body).len() > 0
    &&& exists|i: int|
        0 <= i < ins.evidence.len() && trimmed((#[trigger] ins.evidence[i]).file).len() > 0
    &&& ins.domain matches Some(d) ==> trimmed(d).len() == 0 || domains.dom().contains(trimmed(d))
}

/// An insight is refused exactly where something is missing.
pub proof fn complete_insights_are_accepted(ins: InsightView, domains: Map<Seq<char>, i64>)
    ensures
        flaw(ins, domains) is None <==> is_complete(ins, domains),
{
    located_exactly(ins.evidence, Seq::empty());
}

/// What an insight is refused for: the first of what is missing.
pub proof fn refusals_say_what_is_missing(ins: InsightView, domains: Map<Seq<char>, i64>)
    ensures
        ({
            let known = ins.kind == "business_rule"@ || ins.kind == "landmine"@ || ins.kind
                == "term"@;
            let titled = 1 <= trimmed(ins.title).len() <= 120;
            &&& !known ==> flaw(ins, domains) == Some(
                "kind 必须是 business_rule/landmine/term 之一，收到 `"@ + ins.kind + "`"@,
            )
            &&& known && trimmed(ins.title).len() == 0 ==> flaw(ins, domains) == Some(
                "title 不能为空：用一句话概括这个结论"@,
            )
            &&& known && trimmed(ins.title).len() > 120 ==> flaw(ins, domains) == Some(
                "title 过长（"@ + crate::number::digits(trimmed(ins.title).len())
                    + " 字符），压缩到 120 以内——它同时是检索标题"@,
            )
            &&& known && titled && trimmed(ins.body).len() == 0 ==> flaw(ins, domains) == Some(
                "body 不能为空：写清条件、例外或适用范围"@,
            )
        }),
{
}

proof fn located_exactly(evidence: Seq<EvidenceView>, x: Seq<char>)
    ensures
        locations(evidence).len() > 0 <==> exists|i: int|
            0 <= i < evidence.len() && trimmed((#[trigger] evidence[i]).file).len() > 0,
        locations(evidence).contains(x) <==> exists|i: int|
            0 <= i < evidence.len() && trimmed((#[trigger] evidence[i]).file).len() > 0 && location(
                evidence[i],
            ) == x,
    decreases evidence.len(),
{
    if evidence.len() > 0 {
        let rest = evidence.drop_last();
        located_exactly(rest, x);
        push_members(locations(rest), location(evidence.last()), x);
        assert(evidence[evidence.len() - 1] == evidence.last());
        assert forall|i: int| 0 <= i < rest.len() implies #[trigger] rest[i] == evidence[i] by {}
        if locations(rest).len() > 0 {
            let i = choose|i: int|
                0 <= i < rest.len() && trimmed((#[trigger] rest[i]).file).len() > 0;
            assert(evidence[i] == rest[i]);
        }
        if locations(rest).contains(x) {
            let i = choose|i: int|
                0 <= i < rest.len() && trimmed((#[trigger] rest[i]).file).len() > 0 && location(
                    rest[i],
                ) == x;
            assert(evidence[i] == rest[i]);
        }
        if exists|i: int|
            0 <= i < evidence.len() && trimmed((#[trigger] evidence[i]).file).len() > 0 {
            let i = choose|i: int|
                0 <= i < evidence.len() && trimmed((#[trigger] evidence[i]).file).len() > 0;
            if i < rest.len() {
                assert(rest[i] == evidence[i]);
            }
        }
        if exists|i: int|
            0 <= i < evidence.len() && trimmed((#[trigger] evidence[i]).file).len() > 0 && location(
                evidence[i],
            ) == x {
            let i = choose|i: int|
                0 <= i < evidence.len() && trimmed((#[trigger] evidence[i]).file).len() > 0
                    && location(evidence[i]) == x;
            if i < rest.len() {
                assert(rest[i] == evidence[i]);
            }
        }
    }
}

/// A place in the code is its file, then its symbol, then its lines, as far as they are
/// given, with colons between them. Every place that names a file is kept.
pub proof fn places_are_kept(evidence: Seq<EvidenceView>, e: EvidenceView, x: Seq<char>)
    requires
        is_tight(e.file),
    ensures
        e.symbol is Some && e.lines is Some ==> location(e) == e.file + ":"@ + e.symbol->0 + ":"@
            + e.lines->0,
        e.symbol is Some && e.lines is None ==> location(e) == e.file + ":"@ + e.symbol->0,
        e.symbol is None && e.lines is Some ==> location(e) == e.file + ":"@ + e.lines->0,
        e.symbol is None && e.lines is None ==> location(e) == e.file,
        locations(evidence).contains(x) <==> exists|i: int|
            0 <= i < evidence.len() && trimmed((#[trigger] evidence[i]).file).len() > 0 && location(
                evidence[i],
            ) == x,
{
    let n = Seq::<char>::empty();
    trimmed_is_core(n, e.file, n);
    assert(n + e.file + n =~= e.file);
    located_exactly(evidence, x);
}

/// A proposal says what the insight says, without the white space around it, of the domain
/// that it names.
pub proof fn proposals_say_what_insights_say(
    ins: InsightView,
    domains: Map<Seq<char>, i64>,
    model: Seq<char>,
)
    ensures
        ({
            let p = proposal_of(ins, domains, model);
            let named = ins.domain is Some && trimmed(ins.domain->0).len() > 0;
            &&& p.kind == ins.kind && p.model == model
            &&& p.title == trimmed(ins.title) && p.body == trimmed(ins.body)
            &&& p.status == "candidate"@
            &&& p.evidence == locations(ins.evidence)
            &&& named ==> p.domain_key == trimmed(ins.domain->0) && p.domain_id == Some(
                domains[trimmed(ins.domain->0)],
            )
            &&& !named ==> p.domain_key.len() == 0 && p.domain_id is None
        }),
{
}

/// A verdict turns a candidate insight into a confirmed or a rejected one, and touches
/// nothing else.
pub proof fn verdicts_decide_candidates(n: NoteRowView, id: i64, accept: bool)
    ensures
        ({
            let insight = n.kind == "business_rule"@ || n.kind == "landmine"@ || n.kind == "term"@;
            let open = n.id == id && insight && n.status == "candidate"@;
            let v = judged(n, id, accept);
            &&& awaits(n, id) <==> open
            &&& open && accept ==> v.status == "confirmed"@
            &&& open && !accept ==> v.status == "rejected"@
            &&& !open ==> v == n
            &&& v.id == n.id && v.kind == n.kind && v.title == n.title && v.body == n.body
        }),
{
}

/// The list of a status holds the insights that have it, newest first, and that of all
/// statuses every insight.
pub proof fn lists_hold_the_insights_of_a_status(
    notes: Seq<NoteRowView>,
    n: NoteRowView,
    status: Seq<char>,
)
    ensures
        ({
            let insight = n.kind == "business_rule"@ || n.kind == "landmine"@ || n.kind == "term"@;
            let shown = insight && (status == "all"@ || n.status == status);
            &&& shown ==> listing(notes.push(n), status) == seq![row_of(n)] + listing(notes, status)
            &&& !shown ==> listing(notes.push(n), status) == listing(notes, status)
        }),
        listing(Seq::empty(), status).len() == 0,
        is_status(status) <==> status == "candidate"@ || status == "confirmed"@ || status
            == "rejected"@,
        row_of(n).id == n.id && row_of(n).kind == n.kind && row_of(n).title == n.title && row_of(
            n,
        ).status == n.status && row_of(n).body == n.body && row_of(n).created == n.created
            && row_of(n).evidence == n.evidence,
        n.domain is Some && n.domain->0.len() > 0 ==> row_of(n).domain == n.domain,
        n.domain is Some && n.domain->0.len() == 0 ==> row_of(n).domain is None,
{
    assert(notes.push(n).drop_last() =~= notes);
}

/// The kinds are called by their names.
pub proof fn kinds_have_names()
    ensures
        kind_name("business_rule"@) == "业务规则"@,
        kind_name("landmine"@) == "坑"@,
        kind_name("term"@) == "术语"@,
{
    reveal_strlit("business_rule");
    reveal_strlit("landmine");
    reveal_strlit("term");
    assert("business_rule"@.len() == 13 && "landmine"@.len() == 8 && "term"@.len() == 4);
}

} // verus!

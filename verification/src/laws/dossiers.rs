//! Deepening: which domains are taken, what is spent, and how a dossier reads.
use crate::laws::basics::{appears, searches_find_what_appears};
use crate::lists::flat;
use crate::llm::client::Usage;
use crate::llm::deepen::{
    concept_text, concepts_text, dossier_text, entry_of, evidence_text, is_low, is_thin,
    landmine_text, landmines_text, lifecycle_text, limited, mark_of, missing_from, note_of,
    question_text, questions_text, recorded, responsibility_text, rule_text, rules_text, spent,
    state_text, states_text, status_of, taken, takes, transitions_text, CandidateView,
    DeepenOptionsView, DeepenStatsView, Outcome,
};
use crate::llm::pack::PackView;
use crate::llm::prompt::{
    ConceptView, DossierResponseView, GlossaryTermView, LandmineView, LifecycleView, RuleView,
    StateView,
};
use crate::render::{cell_of, given_or};
use crate::split::joined;
use crate::text::{lowered, trimmed};
use vstd::prelude::*;

verus! {

/// A domain is taken where it is named, or none is, and has at least the files asked for.
pub proof fn domains_are_taken_by_name_and_size(
    o: DeepenOptionsView,
    rows: Seq<CandidateView>,
    c: CandidateView,
)
    ensures
        takes(o, c) <==> c.files >= o.min_files && (o.domains.len() == 0 || o.domains.contains(
            c.key,
        )),
        takes(o, c) ==> taken(o, rows.push(c)) == taken(o, rows).push(c),
        !takes(o, c) ==> taken(o, rows.push(c)) == taken(o, rows),
        taken(o, Seq::empty()).len() == 0,
{
    assert(rows.push(c).drop_last() =~= rows);
}

/// The first name that no domain has is reported; where every name has one, none is.
pub proof fn missing_names_are_reported(
    wants: Seq<Seq<char>>,
    rows: Seq<CandidateView>,
    from: int,
    k: int,
)
    requires
        0 <= from <= wants.len(),
    ensures
        from <= k < wants.len() && !is_candidate(rows, wants[k]) && (forall|j: int|
            from <= j < k ==> is_candidate(rows, #[trigger] wants[j])) ==> missing_from(
            wants,
            rows,
            from,
        ) == Some(wants[k]),
        (forall|j: int| from <= j < wants.len() ==> is_candidate(rows, #[trigger] wants[j]))
            ==> missing_from(wants, rows, from) is None,
    decreases wants.len() - from,
{
    if from < wants.len() {
        missing_names_are_reported(wants, rows, from + 1, k);
    }
}

/// Whether a domain has the name.
pub open spec fn is_candidate(rows: Seq<CandidateView>, key: Seq<char>) -> bool {
    exists|i: int| 0 <= i < rows.len() && (#[trigger] rows[i]).key == key
}

/// A limit keeps the first domains.
pub proof fn limits_keep_the_first(rows: Seq<CandidateView>, n: usize, i: int)
    ensures
        limited(rows, None) == rows,
        rows.len() <= n ==> limited(rows, Some(n)) == rows,
        rows.len() > n ==> limited(rows, Some(n)).len() == n,
        0 <= i < limited(rows, Some(n)).len() ==> limited(rows, Some(n))[i] == rows[i],
{
}

/// Each outcome is counted where it belongs.
pub proof fn outcomes_are_counted(s: DeepenStatsView, key: Seq<char>, n: usize, e: String)
    requires
        s.domains_skipped < usize::MAX,
        s.domains_processed < usize::MAX,
    ensures
        recorded(s, key, Outcome::Skipped).domains_skipped == s.domains_skipped + 1,
        recorded(s, key, Outcome::Skipped).domains_processed == s.domains_processed,
        recorded(s, key, Outcome::Processed).domains_processed == s.domains_processed + 1,
        recorded(s, key, Outcome::Processed).domains_skipped == s.domains_skipped,
        recorded(s, key, Outcome::Planned(n)).planned == s.planned.push((key, n)),
        recorded(s, key, Outcome::Planned(n)).domains_processed == s.domains_processed,
        recorded(s, key, Outcome::Failed(e)).failures == s.failures.push((key, e@)),
        recorded(s, key, Outcome::Failed(e)).domains_skipped == s.domains_skipped,
{
}

/// What an answer costs is counted as spent, what a cached one would have cost as saved.
pub proof fn answers_are_counted(s: DeepenStatsView, u: Usage)
    requires
        crate::llm::deepen::has_room(s, u),
    ensures
        spent(s, false, u).input_tokens == s.input_tokens + u.input_tokens,
        spent(s, false, u).output_tokens == s.output_tokens + u.output_tokens,
        spent(s, false, u).cache_hits == s.cache_hits,
        spent(s, true, u).saved_input_tokens == s.saved_input_tokens + u.input_tokens,
        spent(s, true, u).saved_output_tokens == s.saved_output_tokens + u.output_tokens,
        spent(s, true, u).cache_hits == s.cache_hits + 1,
{
}

/// A dossier is thin where it says nothing of what the domain is for, or owns not to know and
/// knows no rule. A thin one, like a weak term, is to be looked at.
pub proof fn thin_dossiers_need_a_look(d: DossierResponseView, c: Seq<char>)
    ensures
        trimmed(d.responsibility).len() == 0 ==> is_thin(d),
        appears(d.responsibility, "UNKNOWN"@) && d.rules.len() == 0 ==> is_thin(d),
        trimmed(d.responsibility).len() > 0 && d.rules.len() > 0 ==> !is_thin(d),
        trimmed(d.responsibility).len() > 0 && !appears(d.responsibility, "UNKNOWN"@) ==> !is_thin(
            d,
        ),
        status_of(true) == "needs_review"@,
        status_of(false) == "fresh"@,
        is_low(None) == false,
        is_low(Some(c)) <==> lowered(trimmed(c)) == "low"@,
{
    searches_find_what_appears(d.responsibility, "UNKNOWN"@);
}

/// A dossier's note carries the text of the dossier, and says whether it needs a look.
pub proof fn notes_carry_dossiers(
    model: Seq<char>,
    key: Seq<char>,
    p: PackView,
    d: DossierResponseView,
)
    ensures
        note_of(model, key, p, d).subject_key == key,
        note_of(model, key, p, d).title == "领域解读"@,
        note_of(model, key, p, d).body == dossier_text(d),
        note_of(model, key, p, d).model == model,
        note_of(model, key, p, d).source_digest == p.source_digest,
        is_thin(d) ==> note_of(model, key, p, d).status == "needs_review"@,
        !is_thin(d) ==> note_of(model, key, p, d).status == "fresh"@,
{
}

/// A term that is not blank becomes an entry of the glossary.
pub proof fn terms_become_entries(
    model: Seq<char>,
    key: Seq<char>,
    p: PackView,
    t: GlossaryTermView,
)
    ensures
        entry_of(model, key, p, t) is Some <==> trimmed(t.term).len() > 0,
        entry_of(model, key, p, t) matches Some(e) ==> e.term == trimmed(t.term) && e.definition
            == t.definition && e.domain_key == key && e.code_refs == t.code_refs && e.model == model
            && e.source_digest == p.source_digest && e.normalized == crate::util::snake(t.term),
        entry_of(model, key, p, t) matches Some(e) ==> t.confidence is None ==> e.status
            == "fresh"@,
        entry_of(model, key, p, t) matches Some(e) ==> t.confidence matches Some(c) ==> (lowered(
            trimmed(c),
        ) == "low"@ ==> e.status == "needs_review"@) && (lowered(trimmed(c)) != "low"@ ==> e.status
            == "fresh"@),
{
}

// ---------------------------------------------------------------------------
// The text of a dossier

/// A dossier's parts stand in their order, and what it does not say has no heading.
pub proof fn dossiers_read_in_order(d: DossierResponseView)
    ensures
        dossier_text(d) == responsibility_text(d) + concepts_text(d.key_concepts) + lifecycle_text(
            d.lifecycle,
        ) + rules_text(d.rules) + landmines_text(d.landmines) + questions_text(d.open_questions),
        trimmed(d.responsibility).len() == 0 ==> responsibility_text(d).len() == 0,
        trimmed(d.responsibility).len() > 0 ==> responsibility_text(d) == trimmed(d.responsibility)
            + "\n\n"@,
        concepts_text(Seq::empty()).len() == 0,
        rules_text(Seq::empty()).len() == 0,
        landmines_text(Seq::empty()).len() == 0,
        questions_text(Seq::empty()).len() == 0,
        states_text(Seq::empty()).len() == 0,
        lifecycle_text(None).len() == 0,
{
    reveal_strlit("");
}

/// Each concept, rule, trap and question has its own line, in order, under the heading.
pub proof fn dossier_lists_have_a_line_each(
    cs: Seq<ConceptView>,
    c: ConceptView,
    rs: Seq<RuleView>,
    r: RuleView,
    ls: Seq<LandmineView>,
    l: LandmineView,
    qs: Seq<Seq<char>>,
    q: Seq<char>,
    ss: Seq<StateView>,
    s: StateView,
)
    ensures
        concepts_text(cs.push(c)) == "### 核心概念\n\n"@ + (flat(
            cs,
            |x: ConceptView| concept_text(x),
        ) + concept_text(c)) + "\n"@,
        rules_text(rs.push(r)) == "### 业务规则\n\n"@ + (flat(rs, |x: RuleView| rule_text(x))
            + rule_text(r)) + "\n"@,
        landmines_text(ls.push(l)) == "### ⚠️ 已知陷阱\n\n"@ + (flat(
            ls,
            |x: LandmineView| landmine_text(x),
        ) + landmine_text(l)) + "\n"@,
        questions_text(qs.push(q)) == "### 待确认\n\n"@ + (flat(
            qs,
            |x: Seq<char>| question_text(x),
        ) + question_text(q)) + "\n"@,
        states_text(ss.push(s)) == "| 状态 | 取值 | 含义 | 可流转到 |\n|---|---|---|---|\n"@ + (flat(
            ss,
            |x: StateView| state_text(x),
        ) + state_text(s)) + "\n"@,
{
    assert(cs.push(c).drop_last() =~= cs);
    assert(rs.push(r).drop_last() =~= rs);
    assert(ls.push(l).drop_last() =~= ls);
    assert(qs.push(q).drop_last() =~= qs);
    assert(ss.push(s).drop_last() =~= ss);
}

/// How each line reads.
pub proof fn dossier_lines_read_so(
    c: ConceptView,
    r: RuleView,
    l: LandmineView,
    q: Seq<char>,
    s: StateView,
    e: Seq<char>,
)
    ensures
        concept_text(c) == "- **"@ + c.name + "** — "@ + trimmed(c.description) + "\n"@,
        rule_text(r) == "- "@ + trimmed(r.rule) + mark_of(r.confidence) + "\n"@ + evidence_text(
            r.evidence,
        ),
        landmine_text(l) == "- **"@ + trimmed(l.issue) + "**\n"@ + crate::llm::deepen::why_text(
            l.why,
        ) + evidence_text(l.evidence),
        question_text(q) == "- "@ + trimmed(q) + "\n"@,
        state_text(s) == "| "@ + cell_of(s.state) + " | "@ + given_or(s.code_value, "—"@) + " | "@
            + cell_of(s.meaning) + " | "@ + transitions_text(s.transitions_to) + " |\n"@,
        evidence_text(None).len() == 0,
        trimmed(e).len() == 0 ==> evidence_text(Some(e)).len() == 0,
        trimmed(e).len() > 0 ==> evidence_text(Some(e)) == "  - 依据："@ + trimmed(e) + "\n"@,
        trimmed(e).len() > 0 ==> crate::llm::deepen::why_text(e) == "  - 原因："@ + trimmed(e)
            + "\n"@,
        trimmed(e).len() == 0 ==> crate::llm::deepen::why_text(e).len() == 0,
        mark_of(Some("low"@)) == " *(依据较弱，需确认)*"@,
        mark_of(Some("medium"@)) == " *(依据一般)*"@,
        mark_of(None).len() == 0,
        mark_of(Some("high"@)).len() == 0,
        transitions_text(Seq::empty()) == "—"@,
        s.transitions_to.len() > 0 ==> transitions_text(s.transitions_to) == joined(
            s.transitions_to,
            "、"@,
        ),
{
    reveal_strlit("");
    reveal_strlit("low");
    reveal_strlit("medium");
    reveal_strlit("high");
    assert("low"@.len() == 3 && "medium"@.len() == 6 && "high"@.len() == 4);
}

/// A lifecycle has its description and the table of its states.
pub proof fn lifecycles_have_text_and_states(l: LifecycleView)
    ensures
        trimmed(l.description).len() == 0 && l.states.len() == 0 ==> lifecycle_text(Some(l)).len()
            == 0,
        trimmed(l.description).len() == 0 && l.states.len() > 0 ==> lifecycle_text(Some(l))
            == "### 生命周期\n\n"@ + states_text(l.states),
        trimmed(l.description).len() > 0 ==> lifecycle_text(Some(l)) == "### 生命周期\n\n"@ + trimmed(
            l.description,
        ) + "\n\n"@ + states_text(l.states),
{
    reveal_strlit("");
}

} // verus!

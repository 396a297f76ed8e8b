//! The `deepen` pipeline: turn evidence packs into stored notes and glossary
//! entries, each carrying the digest of the evidence it was derived from.
use crate::llm::client::Usage;
use crate::llm::pack::{Pack, PackView};
use crate::llm::prompt::{
    dossier_system, glossary_system, Concept, ConceptView, DossierResponse, DossierResponseView,
    GlossaryResponse, GlossaryTermView, Landmine, LandmineView, Lifecycle, LifecycleView, Rule,
    RuleView, State, StateView, DOSSIER_TASK, GLOSSARY_TASK, GROUND_RULES,
};
use crate::json::{json_listed, listed};
use crate::lists::{flat, holds, keep, pick, take_all, take_next};
use crate::number::{decimal_i64, signed};
use crate::render::{cell, cell_of, given_or, text_or};
use crate::split::{join, joined};
use crate::text::{contains_str, first_at, lowered, owned, same, to_lower, trim, trimmed};
use crate::util::{digest_parts, framed, hex_of, sha256_of, snake, to_snake};
use vstd::prelude::*;

verus! {

/// What a run is to do.
pub struct DeepenOptions {
    /// Restrict to these domain keys; empty means every domain.
    pub domains: Vec<String>,
    /// Print the plan and estimated cost without calling the API.
    pub dry_run: bool,
    /// Process at most this many domains.
    pub limit: Option<usize>,
    /// Skip domains that already have fresh notes.
    pub only_stale: bool,
    /// Minimum domain size worth spending tokens on.
    pub min_files: i64,
}

/// The content of a [`DeepenOptions`].
#[verifier::ext_equal]
pub struct DeepenOptionsView {
    pub domains: Seq<Seq<char>>,
    pub dry_run: bool,
    pub limit: Option<usize>,
    pub only_stale: bool,
    pub min_files: i64,
}

impl DeepView for DeepenOptions {
    type V = DeepenOptionsView;

    open spec fn deep_view(&self) -> DeepenOptionsView {
        DeepenOptionsView {
            domains: self.domains.deep_view(),
            dry_run: self.dry_run,
            limit: self.limit.deep_view(),
            only_stale: self.only_stale,
            min_files: self.min_files,
        }
    }
}

impl Clone for DeepenOptions {
    fn clone(&self) -> (r: Self)
        ensures
            r.deep_view() == self.deep_view(),
    {
        DeepenOptions {
            domains: self.domains.clone(),
            dry_run: self.dry_run,
            limit: self.limit.clone(),
            only_stale: self.only_stale,
            min_files: self.min_files,
        }
    }
}

impl Default for DeepenOptions {
    /// A domain of one or two files is faster to read than to document.
    fn default() -> (r: Self)
        ensures
            r.deep_view() == (DeepenOptionsView {
                domains: Seq::empty(),
                dry_run: false,
                limit: None,
                only_stale: true,
                min_files: 3,
            }),
    {
        let r = DeepenOptions {
            domains: Vec::new(),
            dry_run: false,
            limit: None,
            only_stale: true,
            min_files: 3,
        };
        assert(r.deep_view().domains =~= Seq::empty());
        r
    }
}

/// What a run did.
pub struct DeepenStats {
    pub domains_processed: usize,
    pub domains_skipped: usize,
    pub notes_written: usize,
    pub glossary_written: usize,
    /// Tokens actually billed by this run.
    pub input_tokens: usize,
    pub output_tokens: usize,
    /// Tokens the cache avoided spending.
    pub saved_input_tokens: usize,
    pub saved_output_tokens: usize,
    pub cache_hits: usize,
    pub failures: Vec<(String, String)>,
    /// Populated in dry-run mode.
    pub planned: Vec<(String, usize)>,
}

/// The content of a [`DeepenStats`].
#[verifier::ext_equal]
pub struct DeepenStatsView {
    pub domains_processed: usize,
    pub domains_skipped: usize,
    pub notes_written: usize,
    pub glossary_written: usize,
    pub input_tokens: usize,
    pub output_tokens: usize,
    pub saved_input_tokens: usize,
    pub saved_output_tokens: usize,
    pub cache_hits: usize,
    pub failures: Seq<(Seq<char>, Seq<char>)>,
    pub planned: Seq<(Seq<char>, usize)>,
}

impl DeepView for DeepenStats {
    type V = DeepenStatsView;

    open spec fn deep_view(&self) -> DeepenStatsView {
        DeepenStatsView {
            domains_processed: self.domains_processed,
            domains_skipped: self.domains_skipped,
            notes_written: self.notes_written,
            glossary_written: self.glossary_written,
            input_tokens: self.input_tokens,
            output_tokens: self.output_tokens,
            saved_input_tokens: self.saved_input_tokens,
            saved_output_tokens: self.saved_output_tokens,
            cache_hits: self.cache_hits,
            failures: self.failures.deep_view(),
            planned: self.planned.deep_view(),
        }
    }
}

impl Default for DeepenStats {
    fn default() -> (r: Self)
        ensures
            r.deep_view() == (DeepenStatsView {
                domains_processed: 0,
                domains_skipped: 0,
                notes_written: 0,
                glossary_written: 0,
                input_tokens: 0,
                output_tokens: 0,
                saved_input_tokens: 0,
                saved_output_tokens: 0,
                cache_hits: 0,
                failures: Seq::empty(),
                planned: Seq::empty(),
            }),
    {
        let r = DeepenStats {
            domains_processed: 0,
            domains_skipped: 0,
            notes_written: 0,
            glossary_written: 0,
            input_tokens: 0,
            output_tokens: 0,
            saved_input_tokens: 0,
            saved_output_tokens: 0,
            cache_hits: 0,
            failures: Vec::new(),
            planned: Vec::new(),
        };
        assert(r.deep_view().failures =~= Seq::empty());
        assert(r.deep_view().planned =~= Seq::empty());
        r
    }
}

/// A domain that may be processed.
#[derive(Debug)]
pub struct Candidate {
    pub id: i64,
    pub key: String,
    pub files: i64,
}

/// The content of a [`Candidate`].
#[verifier::ext_equal]
pub struct CandidateView {
    pub id: i64,
    pub key: Seq<char>,
    pub files: i64,
}

impl DeepView for Candidate {
    type V = CandidateView;

    open spec fn deep_view(&self) -> CandidateView {
        CandidateView {
            id: self.id,
            key: self.key.deep_view(),
            files: self.files,
        }
    }
}

impl Clone for Candidate {
    fn clone(&self) -> (r: Self)
        ensures
            r.deep_view() == self.deep_view(),
    {
        Candidate {
            id: self.id,
            key: self.key.clone(),
            files: self.files,
        }
    }
}

// ---------------------------------------------------------------------------
// Choosing domains

/// Whether the options take a domain.
pub open spec fn takes(o: DeepenOptionsView, c: CandidateView) -> bool {
    (o.domains.len() == 0 || o.domains.contains(c.key)) && c.files >= o.min_files
}

/// The domains that the options take.
pub open spec fn taken(o: DeepenOptionsView, rows: Seq<CandidateView>) -> Seq<CandidateView> {
    keep(rows, |c: CandidateView| takes(o, c))
}

pub open spec fn has_candidate(rows: Seq<CandidateView>, key: Seq<char>) -> bool {
    exists|i: int| 0 <= i < rows.len() && (#[trigger] rows[i]).key == key
}

/// The first domain, from place `i` on, that is asked for by name and not to be had.
pub open spec fn missing_from(
    wants: Seq<Seq<char>>,
    rows: Seq<CandidateView>,
    i: int,
) -> Option<Seq<char>>
    decreases wants.len() - i,
{
    if i < 0 || i >= wants.len() {
        None
    } else if has_candidate(rows, wants[i]) {
        missing_from(wants, rows, i + 1)
    } else {
        Some(wants[i])
    }
}

pub open spec fn limited<T>(rows: Seq<T>, limit: Option<usize>) -> Seq<T> {
    match limit {
        Some(n) => if rows.len() > n {
            rows.take(n as int)
        } else {
            rows
        },
        None => rows,
    }
}

/// What is said of a domain that cannot be had.
pub open spec fn missing_text(key: Seq<char>, min_files: i64) -> Seq<char> {
    "找不到领域 `"@
        + key
        + "`（或其文件数低于 "@
        + signed(min_files as int)
        + "）。用 `catlas domains` 查看可用领域"@
}

fn write_missing(key: &str, min_files: i64) -> (r: String)
    ensures
        r@ == missing_text(key@, min_files),
{
    let mut s = owned("找不到领域 `");
    s.append(key);
    s.append("`（或其文件数低于 ");
    s.append(decimal_i64(min_files).as_str());
    s.append("）。用 `catlas domains` 查看可用领域");
    s
}


fn find_key(rows: &Vec<Candidate>, key: &str) -> (r: bool)
    ensures
        r == has_candidate(rows.deep_view(), key@),
{
    let ghost d = rows.deep_view();
    let mut i: usize = 0;
    while i < rows.len()
        invariant
            i <= rows.len(),
            d == rows.deep_view(),
            forall|j: int| 0 <= j < i ==> (#[trigger] d[j]).key != key@,
        decreases rows.len() - i,
    {
        assert(d[i as int] == rows@[i as int].deep_view());
        if same(rows[i].key.as_str(), key) {
            return true;
        }
        i += 1;
    }
    false
}

fn take_rows(rows: &Vec<Candidate>, opts: &DeepenOptions) -> (r: Vec<Candidate>)
    ensures
        r.deep_view() == taken(opts.deep_view(), rows.deep_view()),
{
    let ghost d = rows.deep_view();
    let ghost o = opts.deep_view();
    let ghost f = |c: CandidateView| takes(o, c);
    let mut out: Vec<Candidate> = Vec::new();
    let mut i: usize = 0;
    assert(out.deep_view() =~= keep(d.take(0), f));
    while i < rows.len()
        invariant
            i <= rows.len(),
            d == rows.deep_view(),
            o == opts.deep_view(),
            f == (|c: CandidateView| takes(o, c)),
            out.deep_view() == keep(d.take(i as int), f),
        decreases rows.len() - i,
    {
        broadcast use take_next;

        let ghost before = out.deep_view();
        let c = &rows[i];
        assert(d[i as int] == c.deep_view());
        assert(d.take(i + 1).last() == d[i as int]);
        if (opts.domains.len() == 0 || holds(&opts.domains, c.key.as_str())) && c.files
            >= opts.min_files {
            assert(f(d[i as int]));
            out.push(c.clone());
            assert(out.deep_view() =~= before.push(d[i as int]));
        } else {
            assert(!f(d[i as int]));
        }
        i += 1;
    }
    broadcast use take_all;

    assert(d.take(i as int) == d);
    out
}

/// The domains to work on, in the order they come. A domain that is asked for by name and
/// not to be had is an error: better to surface a typo than to silently do nothing.
pub fn candidates(rows: &Vec<Candidate>, opts: &DeepenOptions) -> (r: Result<
    Vec<Candidate>,
    String,
>)
    ensures
        ({
            let t = taken(opts.deep_view(), rows.deep_view());
            let missing = missing_from(opts.deep_view().domains, t, 0);
            match r {
                Ok(v) => missing is None && v.deep_view() == limited(t, opts.limit),
                Err(e) => missing is Some && e@ == missing_text(missing->0, opts.min_files),
            }
        }),
{
    let mut todo = take_rows(rows, opts);
    let ghost t = todo.deep_view();
    let ghost wants = opts.deep_view().domains;
    let mut i: usize = 0;
    while i < opts.domains.len()
        invariant
            i <= opts.domains.len(),
            t == todo.deep_view(),
            t == taken(opts.deep_view(), rows.deep_view()),
            wants == opts.deep_view().domains,
            missing_from(wants, t, 0) == missing_from(wants, t, i as int),
        decreases opts.domains.len() - i,
    {
        assert(wants[i as int] == opts.domains@[i as int]@);
        if !find_key(&todo, opts.domains[i].as_str()) {
            return Err(write_missing(opts.domains[i].as_str(), opts.min_files));
        }
        i += 1;
    }
    match opts.limit {
        Some(n) => {
            if todo.len() > n {
                todo.truncate(n);
                assert(todo.deep_view() =~= t.take(n as int));
            }
        },
        None => {},
    }
    Ok(todo)
}

// ---------------------------------------------------------------------------
// One domain after the other

/// What is to be done with a domain.
#[derive(Debug, Clone, Copy, PartialEq, Eq, Structural)]
pub enum Action {
    /// Leave it: its notes were derived from the current evidence.
    Skip,
    /// Note what it would cost.
    Plan,
    /// Ask the model.
    Process,
}

/// What is to be done with a domain, given whether it has notes derived from the current
/// evidence.
pub fn next_action(opts: &DeepenOptions, fresh: bool) -> (r: Action)
    ensures
        r == (if opts.dry_run {
            Action::Plan
        } else if opts.only_stale && fresh {
            Action::Skip
        } else {
            Action::Process
        }),
{
    if opts.dry_run {
        Action::Plan
    } else if opts.only_stale && fresh {
        Action::Skip
    } else {
        Action::Process
    }
}

/// What came of a domain.
pub enum Outcome {
    Skipped,
    /// With the estimated tokens.
    Planned(usize),
    Processed,
    Failed(String),
}

/// The stats after a domain.
pub open spec fn recorded(s: DeepenStatsView, key: Seq<char>, o: Outcome) -> DeepenStatsView {
    match o {
        Outcome::Skipped => DeepenStatsView {
            domains_skipped: (s.domains_skipped + 1) as usize,
            ..s
        },
        Outcome::Planned(n) => DeepenStatsView { planned: s.planned.push((key, n)), ..s },
        Outcome::Processed => DeepenStatsView {
            domains_processed: (s.domains_processed + 1) as usize,
            ..s
        },
        Outcome::Failed(e) => DeepenStatsView { failures: s.failures.push((key, e@)), ..s },
    }
}

/// Records what came of a domain. A failure on one domain does not abandon the rest of the
/// run: these are expensive, independent units of work.
pub fn record(stats: &mut DeepenStats, key: &str, o: Outcome)
    requires
        o is Skipped ==> old(stats).domains_skipped < usize::MAX,
        o is Processed ==> old(stats).domains_processed < usize::MAX,
    ensures
        final(stats).deep_view() == recorded(old(stats).deep_view(), key@, o),
{
    let ghost before = stats.deep_view();
    match o {
        Outcome::Skipped => {
            stats.domains_skipped = stats.domains_skipped + 1;
        },
        Outcome::Planned(n) => {
            stats.planned.push((owned(key), n));
            assert(stats.planned.deep_view() =~= before.planned.push((key@, n)));
        },
        Outcome::Processed => {
            stats.domains_processed = stats.domains_processed + 1;
        },
        Outcome::Failed(e) => {
            let ghost ev = e@;
            stats.failures.push((owned(key), e));
            assert(stats.failures.deep_view() =~= before.failures.push((key@, ev)));
        },
    }
}

// ---------------------------------------------------------------------------
// Asking the model

/// How often a prompt is tried.
pub const ATTEMPTS: u8 = 2;

/// What a retry adds to the system prompt.
pub const RETRY_NOTE: &'static str = "\n\n重要：上一次响应不是合法 JSON。只输出 JSON 对象本身，不要有任何其它内容。";

/// The system prompt of an attempt, counted from zero. A retry restates the format
/// requirement rather than resending an identical prompt, which would fail the same way.
pub fn effective_system(system: &str, attempt: u8) -> (r: String)
    ensures
        r@ == (if attempt == 0 {
            system@
        } else {
            system@ + RETRY_NOTE@
        }),
{
    let mut s = owned(system);
    if attempt > 0 {
        s.append(RETRY_NOTE);
    }
    s
}

/// The stats after an answer. Cached responses cost nothing; counting them as spend would
/// misreport the one number an operator uses to decide whether to keep going.
pub open spec fn spent(s: DeepenStatsView, cached: bool, u: Usage) -> DeepenStatsView {
    if cached {
        DeepenStatsView {
            cache_hits: (s.cache_hits + 1) as usize,
            saved_input_tokens: (s.saved_input_tokens + u.input_tokens) as usize,
            saved_output_tokens: (s.saved_output_tokens + u.output_tokens) as usize,
            ..s
        }
    } else {
        DeepenStatsView {
            input_tokens: (s.input_tokens + u.input_tokens) as usize,
            output_tokens: (s.output_tokens + u.output_tokens) as usize,
            ..s
        }
    }
}

/// Whether the counts of the stats have room for an answer.
pub open spec fn has_room(s: DeepenStatsView, u: Usage) -> bool {
    &&& s.cache_hits < usize::MAX
    &&& s.saved_input_tokens + u.input_tokens <= usize::MAX
    &&& s.saved_output_tokens + u.output_tokens <= usize::MAX
    &&& s.input_tokens + u.input_tokens <= usize::MAX
    &&& s.output_tokens + u.output_tokens <= usize::MAX
}

/// Counts what an answer took, or what the cache saved.
pub fn count_usage(stats: &mut DeepenStats, cached: bool, usage: Usage)
    requires
        has_room(old(stats).deep_view(), usage),
    ensures
        final(stats).deep_view() == spent(old(stats).deep_view(), cached, usage),
{
    if cached {
        stats.cache_hits = stats.cache_hits + 1;
        stats.saved_input_tokens = stats.saved_input_tokens + usage.input_tokens;
        stats.saved_output_tokens = stats.saved_output_tokens + usage.output_tokens;
    } else {
        stats.input_tokens = stats.input_tokens + usage.input_tokens;
        stats.output_tokens = stats.output_tokens + usage.output_tokens;
    }
}

/// What is to be done with an answer.
#[derive(Debug, Clone, Copy, PartialEq, Eq, Structural)]
pub enum Verdict {
    /// Store it in the cache and take it.
    Keep,
    /// Ask again.
    Retry,
    /// Report why it could not be read.
    GiveUp,
}

/// Judges an answer by whether it could be read. Only what was read is kept: a truncated
/// response must not be replayed on every future run.
pub fn judge(attempt: u8, readable: bool) -> (r: Verdict)
    ensures
        (r == Verdict::Keep) == readable,
        (r == Verdict::Retry) == (!readable && attempt + 1 < ATTEMPTS),
        (r == Verdict::GiveUp) == (!readable && attempt + 1 >= ATTEMPTS),
{
    if readable {
        Verdict::Keep
    } else if attempt < ATTEMPTS - 1 {
        Verdict::Retry
    } else {
        Verdict::GiveUp
    }
}

// ---------------------------------------------------------------------------
// Status

pub open spec fn is_thin(d: DossierResponseView) -> bool {
    trimmed(d.responsibility).len() == 0 || (first_at(d.responsibility, "UNKNOWN"@) is Some
        && d.rules.len() == 0)
}

pub open spec fn status_of(thin: bool) -> Seq<char> {
    if thin {
        "needs_review"@
    } else {
        "fresh"@
    }
}

/// Note status: flag output that leaned on UNKNOWN for human review.
pub fn note_status(d: &DossierResponse) -> (r: &'static str)
    ensures
        r@ == status_of(is_thin(d.deep_view())),
{
    if trim(d.responsibility.as_str()).is_empty() || (contains_str(
        d.responsibility.as_str(),
        "UNKNOWN",
    ) && d.rules.len() == 0) {
        "needs_review"
    } else {
        "fresh"
    }
}

pub open spec fn is_low(c: Option<Seq<char>>) -> bool {
    c matches Some(s) && lowered(trimmed(s)) == "low"@
}

/// Glossary status: flag terms that the model is not sure of.
pub fn confidence_status(c: &Option<String>) -> (r: &'static str)
    ensures
        r@ == status_of(is_low(c.deep_view())),
{
    match c {
        Some(s) => if same(to_lower(trim(s.as_str())).as_str(), "low") {
            "needs_review"
        } else {
            "fresh"
        },
        None => "fresh",
    }
}

// ---------------------------------------------------------------------------
// The dossier as Markdown

pub open spec fn responsibility_text(d: DossierResponseView) -> Seq<char> {
    if trimmed(d.responsibility).len() == 0 {
        ""@
    } else {
        trimmed(d.responsibility) + "\n\n"@
    }
}

fn write_responsibility(d: &DossierResponse) -> (r: String)
    ensures
        r@ == responsibility_text(d.deep_view()),
{
    let t = trim(d.responsibility.as_str());
    if t.is_empty() {
        return owned("");
    }
    let mut s = owned(t);
    s.append("\n\n");
    s
}

pub open spec fn concept_text(c: ConceptView) -> Seq<char> {
    "- **"@
        + c.name
        + "** — "@
        + trimmed(c.description)
        + "\n"@
}

fn write_concept(c: &Concept) -> (r: String)
    ensures
        r@ == concept_text(c.deep_view()),
{
    let mut s = owned("- **");
    s.append(c.name.as_str());
    s.append("** — ");
    s.append(trim(c.description.as_str()));
    s.append("\n");
    s
}


fn add_concepts(s: &mut String, v: &Vec<Concept>)
    ensures
        final(s)@ == old(s)@ + flat(v.deep_view(), |x: ConceptView| concept_text(x)),
{
    let ghost start = s@;
    let ghost d = v.deep_view();
    let ghost f = |x: ConceptView| concept_text(x);
    let mut i: usize = 0;
    assert(start + flat(d.take(0), f) =~= start);
    while i < v.len()
        invariant
            i <= v.len(),
            d == v.deep_view(),
            f == (|x: ConceptView| concept_text(x)),
            s@ == start + flat(d.take(i as int), f),
        decreases v.len() - i,
    {
        broadcast use take_next;

        let ghost so_far = flat(d.take(i as int), f);
        assert(d[i as int] == v@[i as int].deep_view());
        assert(d.take(i + 1).last() == d[i as int]);
        let line = write_concept(&v[i]);
        assert(f(d[i as int]) == line@);
        s.append(line.as_str());
        assert(start + (so_far + line@) =~= (start + so_far) + line@);
        i += 1;
    }
    broadcast use take_all;

    assert(d.take(i as int) == d);
}


pub open spec fn concepts_text(rows: Seq<ConceptView>) -> Seq<char> {
    if rows.len() == 0 {
        ""@
    } else {
        "### 核心概念\n\n"@ + flat(rows, |x: ConceptView| concept_text(x)) + "\n"@
    }
}

fn write_concepts(rows: &Vec<Concept>) -> (r: String)
    ensures
        r@ == concepts_text(rows.deep_view()),
{
    if rows.len() == 0 {
        return owned("");
    }
    let mut s = owned("### 核心概念\n\n");
    add_concepts(&mut s, rows);
    s.append("\n");
    s
}

pub open spec fn transitions_text(t: Seq<Seq<char>>) -> Seq<char> {
    if t.len() == 0 {
        "—"@
    } else {
        joined(t, "、"@)
    }
}

fn write_transitions(t: &Vec<String>) -> (r: String)
    ensures
        r@ == transitions_text(t.deep_view()),
{
    if t.len() == 0 {
        owned("—")
    } else {
        join(t, "、")
    }
}

pub open spec fn state_text(st: StateView) -> Seq<char> {
    "| "@
        + cell_of(st.state)
        + " | "@
        + given_or(st.code_value, "—"@)
        + " | "@
        + cell_of(st.meaning)
        + " | "@
        + transitions_text(st.transitions_to)
        + " |\n"@
}

fn write_state(st: &State) -> (r: String)
    ensures
        r@ == state_text(st.deep_view()),
{
    let mut s = owned("| ");
    s.append(cell(st.state.as_str()).as_str());
    s.append(" | ");
    s.append(text_or(&st.code_value, "—").as_str());
    s.append(" | ");
    s.append(cell(st.meaning.as_str()).as_str());
    s.append(" | ");
    s.append(write_transitions(&st.transitions_to).as_str());
    s.append(" |\n");
    s
}


fn add_states(s: &mut String, v: &Vec<State>)
    ensures
        final(s)@ == old(s)@ + flat(v.deep_view(), |x: StateView| state_text(x)),
{
    let ghost start = s@;
    let ghost d = v.deep_view();
    let ghost f = |x: StateView| state_text(x);
    let mut i: usize = 0;
    assert(start + flat(d.take(0), f) =~= start);
    while i < v.len()
        invariant
            i <= v.len(),
            d == v.deep_view(),
            f == (|x: StateView| state_text(x)),
            s@ == start + flat(d.take(i as int), f),
        decreases v.len() - i,
    {
        broadcast use take_next;

        let ghost so_far = flat(d.take(i as int), f);
        assert(d[i as int] == v@[i as int].deep_view());
        assert(d.take(i + 1).last() == d[i as int]);
        let line = write_state(&v[i]);
        assert(f(d[i as int]) == line@);
        s.append(line.as_str());
        assert(start + (so_far + line@) =~= (start + so_far) + line@);
        i += 1;
    }
    broadcast use take_all;

    assert(d.take(i as int) == d);
}


pub open spec fn states_text(rows: Seq<StateView>) -> Seq<char> {
    if rows.len() == 0 {
        ""@
    } else {
        "| 状态 | 取值 | 含义 | 可流转到 |\n|---|---|---|---|\n"@ + flat(
            rows,
            |x: StateView| state_text(x),
        ) + "\n"@
    }
}

fn write_states(rows: &Vec<State>) -> (r: String)
    ensures
        r@ == states_text(rows.deep_view()),
{
    if rows.len() == 0 {
        return owned("");
    }
    let mut s = owned("| 状态 | 取值 | 含义 | 可流转到 |\n|---|---|---|---|\n");
    add_states(&mut s, rows);
    s.append("\n");
    s
}

pub open spec fn lifecycle_text(l: Option<LifecycleView>) -> Seq<char> {
    match l {
        Some(lc) => if trimmed(lc.description).len() == 0 && lc.states.len() == 0 {
            ""@
        } else if trimmed(lc.description).len() == 0 {
            "### 生命周期\n\n"@ + states_text(lc.states)
        } else {
            "### 生命周期\n\n"@ + trimmed(lc.description) + "\n\n"@ + states_text(lc.states)
        },
        None => ""@,
    }
}

fn write_lifecycle(l: &Option<Lifecycle>) -> (r: String)
    ensures
        r@ == lifecycle_text(l.deep_view()),
{
    match l {
        Some(lc) => {
            let t = trim(lc.description.as_str());
            if t.is_empty() && lc.states.len() == 0 {
                return owned("");
            }
            let mut s = owned("### 生命周期\n\n");
            if !t.is_empty() {
                s.append(t);
                s.append("\n\n");
            }
            s.append(write_states(&lc.states).as_str());
            s
        },
        None => owned(""),
    }
}

/// How a weak claim is marked, so that it is not presented as fact.
pub open spec fn mark_of(confidence: Option<Seq<char>>) -> Seq<char> {
    if confidence == Some("low"@) {
        " *(依据较弱，需确认)*"@
    } else if confidence == Some("medium"@) {
        " *(依据一般)*"@
    } else {
        ""@
    }
}

fn mark(confidence: &Option<String>) -> (r: &'static str)
    ensures
        r@ == mark_of(confidence.deep_view()),
{
    match confidence {
        Some(c) => if same(c.as_str(), "low") {
            " *(依据较弱，需确认)*"
        } else if same(c.as_str(), "medium") {
            " *(依据一般)*"
        } else {
            ""
        },
        None => "",
    }
}

pub open spec fn evidence_text(e: Option<Seq<char>>) -> Seq<char> {
    match e {
        Some(x) => if trimmed(x).len() == 0 {
            ""@
        } else {
            "  - 依据："@ + trimmed(x) + "\n"@
        },
        None => ""@,
    }
}

fn write_evidence(e: &Option<String>) -> (r: String)
    ensures
        r@ == evidence_text(e.deep_view()),
{
    match e {
        Some(x) => {
            let t = trim(x.as_str());
            if t.is_empty() {
                return owned("");
            }
            let mut s = owned("  - 依据：");
            s.append(t);
            s.append("\n");
            s
        },
        None => owned(""),
    }
}

pub open spec fn rule_text(r0: RuleView) -> Seq<char> {
    "- "@
        + trimmed(r0.rule)
        + mark_of(r0.confidence)
        + "\n"@
        + evidence_text(r0.evidence)
}

fn write_rule(r0: &Rule) -> (r: String)
    ensures
        r@ == rule_text(r0.deep_view()),
{
    let mut s = owned("- ");
    s.append(trim(r0.rule.as_str()));
    s.append(mark(&r0.confidence));
    s.append("\n");
    s.append(write_evidence(&r0.evidence).as_str());
    s
}


fn add_rules(s: &mut String, v: &Vec<Rule>)
    ensures
        final(s)@ == old(s)@ + flat(v.deep_view(), |x: RuleView| rule_text(x)),
{
    let ghost start = s@;
    let ghost d = v.deep_view();
    let ghost f = |x: RuleView| rule_text(x);
    let mut i: usize = 0;
    assert(start + flat(d.take(0), f) =~= start);
    while i < v.len()
        invariant
            i <= v.len(),
            d == v.deep_view(),
            f == (|x: RuleView| rule_text(x)),
            s@ == start + flat(d.take(i as int), f),
        decreases v.len() - i,
    {
        broadcast use take_next;

        let ghost so_far = flat(d.take(i as int), f);
        assert(d[i as int] == v@[i as int].deep_view());
        assert(d.take(i + 1).last() == d[i as int]);
        let line = write_rule(&v[i]);
        assert(f(d[i as int]) == line@);
        s.append(line.as_str());
        assert(start + (so_far + line@) =~= (start + so_far) + line@);
        i += 1;
    }
    broadcast use take_all;

    assert(d.take(i as int) == d);
}


pub open spec fn rules_text(rows: Seq<RuleView>) -> Seq<char> {
    if rows.len() == 0 {
        ""@
    } else {
        "### 业务规则\n\n"@ + flat(rows, |x: RuleView| rule_text(x)) + "\n"@
    }
}

fn write_rules(rows: &Vec<Rule>) -> (r: String)
    ensures
        r@ == rules_text(rows.deep_view()),
{
    if rows.len() == 0 {
        return owned("");
    }
    let mut s = owned("### 业务规则\n\n");
    add_rules(&mut s, rows);
    s.append("\n");
    s
}

pub open spec fn why_text(why: Seq<char>) -> Seq<char> {
    if trimmed(why).len() == 0 {
        ""@
    } else {
        "  - 原因："@ + trimmed(why) + "\n"@
    }
}

fn write_why(why: &str) -> (r: String)
    ensures
        r@ == why_text(why@),
{
    let t = trim(why);
    if t.is_empty() {
        return owned("");
    }
    let mut s = owned("  - 原因：");
    s.append(t);
    s.append("\n");
    s
}

pub open spec fn landmine_text(l: LandmineView) -> Seq<char> {
    "- **"@
        + trimmed(l.issue)
        + "**\n"@
        + why_text(l.why)
        + evidence_text(l.evidence)
}

fn write_landmine(l: &Landmine) -> (r: String)
    ensures
        r@ == landmine_text(l.deep_view()),
{
    let mut s = owned("- **");
    s.append(trim(l.issue.as_str()));
    s.append("**\n");
    s.append(write_why(l.why.as_str()).as_str());
    s.append(write_evidence(&l.evidence).as_str());
    s
}


fn add_landmines(s: &mut String, v: &Vec<Landmine>)
    ensures
        final(s)@ == old(s)@ + flat(v.deep_view(), |x: LandmineView| landmine_text(x)),
{
    let ghost start = s@;
    let ghost d = v.deep_view();
    let ghost f = |x: LandmineView| landmine_text(x);
    let mut i: usize = 0;
    assert(start + flat(d.take(0), f) =~= start);
    while i < v.len()
        invariant
            i <= v.len(),
            d == v.deep_view(),
            f == (|x: LandmineView| landmine_text(x)),
            s@ == start + flat(d.take(i as int), f),
        decreases v.len() - i,
    {
        broadcast use take_next;

        let ghost so_far = flat(d.take(i as int), f);
        assert(d[i as int] == v@[i as int].deep_view());
        assert(d.take(i + 1).last() == d[i as int]);
        let line = write_landmine(&v[i]);
        assert(f(d[i as int]) == line@);
        s.append(line.as_str());
        assert(start + (so_far + line@) =~= (start + so_far) + line@);
        i += 1;
    }
    broadcast use take_all;

    assert(d.take(i as int) == d);
}


pub open spec fn landmines_text(rows: Seq<LandmineView>) -> Seq<char> {
    if rows.len() == 0 {
        ""@
    } else {
        "### ⚠️ 已知陷阱\n\n"@ + flat(rows, |x: LandmineView| landmine_text(x)) + "\n"@
    }
}

fn write_landmines(rows: &Vec<Landmine>) -> (r: String)
    ensures
        r@ == landmines_text(rows.deep_view()),
{
    if rows.len() == 0 {
        return owned("");
    }
    let mut s = owned("### ⚠️ 已知陷阱\n\n");
    add_landmines(&mut s, rows);
    s.append("\n");
    s
}

pub open spec fn question_text(q: Seq<char>) -> Seq<char> {
    "- "@
        + trimmed(q)
        + "\n"@
}

fn write_question(q: &str) -> (r: String)
    ensures
        r@ == question_text(q@),
{
    let mut s = owned("- ");
    s.append(trim(q));
    s.append("\n");
    s
}


fn add_questions(s: &mut String, v: &Vec<String>)
    ensures
        final(s)@ == old(s)@ + flat(v.deep_view(), |x: Seq<char>| question_text(x)),
{
    let ghost start = s@;
    let ghost d = v.deep_view();
    let ghost f = |x: Seq<char>| question_text(x);
    let mut i: usize = 0;
    assert(start + flat(d.take(0), f) =~= start);
    while i < v.len()
        invariant
            i <= v.len(),
            d == v.deep_view(),
            f == (|x: Seq<char>| question_text(x)),
            s@ == start + flat(d.take(i as int), f),
        decreases v.len() - i,
    {
        broadcast use take_next;

        let ghost so_far = flat(d.take(i as int), f);
        assert(d[i as int] == v@[i as int].deep_view());
        assert(d.take(i + 1).last() == d[i as int]);
        let line = write_question(v[i].as_str());
        assert(f(d[i as int]) == line@);
        s.append(line.as_str());
        assert(start + (so_far + line@) =~= (start + so_far) + line@);
        i += 1;
    }
    broadcast use take_all;

    assert(d.take(i as int) == d);
}


pub open spec fn questions_text(rows: Seq<Seq<char>>) -> Seq<char> {
    if rows.len() == 0 {
        ""@
    } else {
        "### 待确认\n\n"@ + flat(rows, |x: Seq<char>| question_text(x)) + "\n"@
    }
}

fn write_questions(rows: &Vec<String>) -> (r: String)
    ensures
        r@ == questions_text(rows.deep_view()),
{
    if rows.len() == 0 {
        return owned("");
    }
    let mut s = owned("### 待确认\n\n");
    add_questions(&mut s, rows);
    s.append("\n");
    s
}

/// Render a dossier as the Markdown that lands in the domain page. What it does not say
/// gets no heading.
pub open spec fn dossier_text(d: DossierResponseView) -> Seq<char> {
    responsibility_text(d)
        + concepts_text(d.key_concepts)
        + lifecycle_text(d.lifecycle)
        + rules_text(d.rules)
        + landmines_text(d.landmines)
        + questions_text(d.open_questions)
}

/// Render a dossier as the Markdown that lands in the domain page. What it does not say
/// gets no heading.
pub fn render_dossier(d: &DossierResponse) -> (r: String)
    ensures
        r@ == dossier_text(d.deep_view()),
{
    let mut s = owned(write_responsibility(d).as_str());
    s.append(write_concepts(&d.key_concepts).as_str());
    s.append(write_lifecycle(&d.lifecycle).as_str());
    s.append(write_rules(&d.rules).as_str());
    s.append(write_landmines(&d.landmines).as_str());
    s.append(write_questions(&d.open_questions).as_str());
    s
}


// ---------------------------------------------------------------------------
// What is stored

/// A note on a domain, to be stored.
#[derive(Debug)]
pub struct DossierNote {
    pub subject_key: String,
    pub title: String,
    pub body: String,
    pub status: String,
    pub model: String,
    pub prompt_hash: String,
    pub source_digest: String,
}

/// The content of a [`DossierNote`].
#[verifier::ext_equal]
pub struct DossierNoteView {
    pub subject_key: Seq<char>,
    pub title: Seq<char>,
    pub body: Seq<char>,
    pub status: Seq<char>,
    pub model: Seq<char>,
    pub prompt_hash: Seq<char>,
    pub source_digest: Seq<char>,
}

impl DeepView for DossierNote {
    type V = DossierNoteView;

    open spec fn deep_view(&self) -> DossierNoteView {
        DossierNoteView {
            subject_key: self.subject_key.deep_view(),
            title: self.title.deep_view(),
            body: self.body.deep_view(),
            status: self.status.deep_view(),
            model: self.model.deep_view(),
            prompt_hash: self.prompt_hash.deep_view(),
            source_digest: self.source_digest.deep_view(),
        }
    }
}

impl Clone for DossierNote {
    fn clone(&self) -> (r: Self)
        ensures
            r.deep_view() == self.deep_view(),
    {
        DossierNote {
            subject_key: self.subject_key.clone(),
            title: self.title.clone(),
            body: self.body.clone(),
            status: self.status.clone(),
            model: self.model.clone(),
            prompt_hash: self.prompt_hash.clone(),
            source_digest: self.source_digest.clone(),
        }
    }
}

/// A glossary term, to be stored.
#[derive(Debug)]
pub struct GlossaryEntry {
    pub term: String,
    pub normalized: String,
    pub definition: String,
    /// The aliases as a JSON array.
    pub aliases_json: String,
    pub code_refs: Vec<String>,
    pub domain_key: String,
    pub status: String,
    pub model: String,
    pub prompt_hash: String,
    pub source_digest: String,
}

/// The content of a [`GlossaryEntry`].
#[verifier::ext_equal]
pub struct GlossaryEntryView {
    pub term: Seq<char>,
    pub normalized: Seq<char>,
    pub definition: Seq<char>,
    pub aliases_json: Seq<char>,
    pub code_refs: Seq<Seq<char>>,
    pub domain_key: Seq<char>,
    pub status: Seq<char>,
    pub model: Seq<char>,
    pub prompt_hash: Seq<char>,
    pub source_digest: Seq<char>,
}

impl DeepView for GlossaryEntry {
    type V = GlossaryEntryView;

    open spec fn deep_view(&self) -> GlossaryEntryView {
        GlossaryEntryView {
            term: self.term.deep_view(),
            normalized: self.normalized.deep_view(),
            definition: self.definition.deep_view(),
            aliases_json: self.aliases_json.deep_view(),
            code_refs: self.code_refs.deep_view(),
            domain_key: self.domain_key.deep_view(),
            status: self.status.deep_view(),
            model: self.model.deep_view(),
            prompt_hash: self.prompt_hash.deep_view(),
            source_digest: self.source_digest.deep_view(),
        }
    }
}

impl Clone for GlossaryEntry {
    fn clone(&self) -> (r: Self)
        ensures
            r.deep_view() == self.deep_view(),
    {
        GlossaryEntry {
            term: self.term.clone(),
            normalized: self.normalized.clone(),
            definition: self.definition.clone(),
            aliases_json: self.aliases_json.clone(),
            code_refs: self.code_refs.clone(),
            domain_key: self.domain_key.clone(),
            status: self.status.clone(),
            model: self.model.clone(),
            prompt_hash: self.prompt_hash.clone(),
            source_digest: self.source_digest.clone(),
        }
    }
}

pub open spec fn pair_digest(a: Seq<char>, b: Seq<char>) -> Seq<char> {
    hex_of(sha256_of(framed(seq![a, b])))
}

fn digest_pair(a: &str, b: &str) -> (r: String)
    ensures
        r@ == pair_digest(a@, b@),
{
    let mut parts: Vec<&str> = Vec::new();
    parts.push(a);
    parts.push(b);
    let list = parts.as_slice();
    assert(list.deep_view() =~= seq![a@, b@]);
    digest_parts(list)
}

pub open spec fn note_of(
    model: Seq<char>,
    key: Seq<char>,
    p: PackView,
    d: DossierResponseView,
) -> DossierNoteView {
    DossierNoteView {
        subject_key: key,
        title: "领域解读"@,
        body: dossier_text(d),
        status: status_of(is_thin(d)),
        model,
        prompt_hash: pair_digest(GROUND_RULES@ + DOSSIER_TASK@, p.body),
        source_digest: p.source_digest,
    }
}

/// The note that a dossier becomes.
pub fn dossier_note(model: &str, key: &str, p: &Pack, d: &DossierResponse) -> (r: DossierNote)
    ensures
        r.deep_view() == note_of(model@, key@, p.deep_view(), d.deep_view()),
{
    DossierNote {
        subject_key: owned(key),
        title: owned("领域解读"),
        body: render_dossier(d),
        status: owned(note_status(d)),
        model: owned(model),
        prompt_hash: digest_pair(dossier_system().as_str(), p.body.as_str()),
        source_digest: p.source_digest.clone(),
    }
}

/// The entry that a term becomes; none for a blank one.
pub open spec fn entry_of(
    model: Seq<char>,
    key: Seq<char>,
    p: PackView,
    t: GlossaryTermView,
) -> Option<GlossaryEntryView> {
    if trimmed(t.term).len() == 0 {
        None
    } else {
        Some(
            GlossaryEntryView {
                term: trimmed(t.term),
                normalized: snake(t.term),
                definition: t.definition,
                aliases_json: json_listed(t.aliases),
                code_refs: t.code_refs,
                domain_key: key,
                status: status_of(is_low(t.confidence)),
                model,
                prompt_hash: pair_digest(GROUND_RULES@ + GLOSSARY_TASK@, p.body),
                source_digest: p.source_digest,
            },
        )
    }
}

/// The glossary entries that the terms of a response become.
pub fn glossary_entries(model: &str, key: &str, p: &Pack, g: &GlossaryResponse) -> (r: Vec<
    GlossaryEntry,
>)
    ensures
        r.deep_view() == pick(
            g.deep_view().terms,
            |t: GlossaryTermView| entry_of(model@, key@, p.deep_view(), t),
        ),
{
    let hash = digest_pair(glossary_system().as_str(), p.body.as_str());
    let ghost d = g.deep_view().terms;
    let ghost pv = p.deep_view();
    let ghost f = |t: GlossaryTermView| entry_of(model@, key@, pv, t);
    let mut out: Vec<GlossaryEntry> = Vec::new();
    let mut i: usize = 0;
    assert(out.deep_view() =~= pick(d.take(0), f));
    while i < g.terms.len()
        invariant
            i <= g.terms.len(),
            d == g.terms.deep_view(),
            pv == p.deep_view(),
            hash@ == pair_digest(GROUND_RULES@ + GLOSSARY_TASK@, pv.body),
            f == (|t: GlossaryTermView| entry_of(model@, key@, pv, t)),
            out.deep_view() == pick(d.take(i as int), f),
        decreases g.terms.len() - i,
    {
        broadcast use take_next;

        let ghost before = out.deep_view();
        let t = &g.terms[i];
        assert(d[i as int] == t.deep_view());
        assert(d.take(i + 1).last() == d[i as int]);
        assert(f(d[i as int]) == entry_of(model@, key@, pv, d[i as int]));
        let name = trim(t.term.as_str());
        if !name.is_empty() {
            let e = GlossaryEntry {
                term: owned(name),
                normalized: to_snake(t.term.as_str()),
                definition: t.definition.clone(),
                aliases_json: listed(&t.aliases),
                code_refs: t.code_refs.clone(),
                domain_key: owned(key),
                status: owned(confidence_status(&t.confidence)),
                model: owned(model),
                prompt_hash: hash.clone(),
                source_digest: p.source_digest.clone(),
            };
            let ghost x = e.deep_view();
            assert(Some(x) == entry_of(model@, key@, pv, d[i as int]));
            out.push(e);
            assert(out.deep_view() =~= before.push(x));
        }
        i += 1;
    }
    broadcast use take_all;

    assert(d.take(i as int) == d);
    out
}

// ---------------------------------------------------------------------------
// Laws

/// What the cache saves and what is billed are kept apart: an answer adds to the one or to
/// the other, never to both.
pub proof fn saved_is_not_spent(s: DeepenStatsView, u: Usage)
    requires
        has_room(s, u),
    ensures
        spent(s, true, u).input_tokens == s.input_tokens,
        spent(s, true, u).output_tokens == s.output_tokens,
        spent(s, false, u).saved_input_tokens == s.saved_input_tokens,
        spent(s, false, u).saved_output_tokens == s.saved_output_tokens,
        spent(s, false, u).cache_hits == s.cache_hits,
{
}

/// A failure keeps what was done before it.
pub proof fn failures_keep_the_rest(s: DeepenStatsView, key: Seq<char>, e: String)
    ensures
        recorded(s, key, Outcome::Failed(e)).domains_processed == s.domains_processed,
        recorded(s, key, Outcome::Failed(e)).planned == s.planned,
        recorded(s, key, Outcome::Failed(e)).failures.drop_last() == s.failures,
{
    assert(s.failures.push((key, e@)).drop_last() =~= s.failures);
}

/// A note stands for the evidence it was made from: its digest is the pack's.
pub proof fn notes_carry_their_evidence(
    model: Seq<char>,
    key: Seq<char>,
    p: PackView,
    d: DossierResponseView,
    t: GlossaryTermView,
)
    ensures
        note_of(model, key, p, d).source_digest == p.source_digest,
        entry_of(model, key, p, t) is Some ==> entry_of(model, key, p, t)->0.source_digest
            == p.source_digest,
{
}

} // verus!


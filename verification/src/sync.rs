//! Incremental rebuild: the full build pipeline with parse-cache reuse.
//!
//! A naive "re-index only changed files" sync is not sound here: reference
//! resolution, domain voting and trace building are global over the whole
//! project, so re-indexing one file without re-running them would leave stale
//! call edges and corrupt the very facts this tool exists to be right about.
//!
//! Instead `sync` runs the *identical* pipeline as `build` and only skips the
//! one step that is genuinely per-file and expensive: tree-sitter parsing.
//! Every file is re-hashed; a file whose content was parsed by a build of the
//! current tool version is reused from `parse_cache` rather than re-parsed.
//! The result is byte-for-byte what a full `build` would produce.
use crate::store::model::JavaFile;
use crate::text::same;
use crate::textmap::TextMap;
use vstd::prelude::*;

verus! {

/// Whether the parse cache must be discarded, given the version that filled it. A tool
/// upgrade changes the tree-sitter grammar and possibly the schema, so parses cached by
/// another version must not be reused; neither must those of a database that does not
/// say which version filled it.
pub fn discards_cache(filled_by: Option<i64>, current: i64) -> (r: bool)
    ensures
        r == (filled_by != Some(current)),
{
    match filled_by {
        Some(v) => v != current,
        None => true,
    }
}

/// How the git signals of a build are had.
#[derive(Debug, Clone, Copy, PartialEq, Eq, Structural)]
pub enum HistoryPlan {
    /// Replay the cached walks: `HEAD` has not moved.
    Replay,
    /// Fold the commits since the cached walks into them.
    Extend,
    /// Walk the whole history.
    Walk,
}

/// Decides by the commit that the cached walks were made at, where there are any, and by
/// whether `HEAD` descends from it. Folding newer commits into a snapshot is only sound
/// where it does: after a rebase or force-push the whole history is walked again.
pub fn plan_history(head: &str, cached: &Option<String>, descends: bool) -> (r: HistoryPlan)
    ensures
        r == (match cached.deep_view() {
            Some(c) => if c == head@ {
                HistoryPlan::Replay
            } else if descends {
                HistoryPlan::Extend
            } else {
                HistoryPlan::Walk
            },
            None => HistoryPlan::Walk,
        }),
{
    match cached {
        Some(c) => if same(c.as_str(), head) {
            HistoryPlan::Replay
        } else if descends {
            HistoryPlan::Extend
        } else {
            HistoryPlan::Walk
        },
        None => HistoryPlan::Walk,
    }
}

/// The cached parse of a file, found by the digest of its content: equal content parses
/// alike, so it is reused. A file that was not parsed before, or not cleanly, is parsed.
pub fn reusable<'a>(sha: &str, cached: &'a TextMap<String>) -> (r: Option<&'a String>)
    ensures
        r.deep_view() == (if cached.deep_view().dom().contains(sha@) {
            Some(cached.deep_view()[sha@])
        } else {
            None
        }),
{
    cached.get(sha)
}

/// Whether a parse may be cached: only a clean one. A file with a syntax error is parsed
/// again next time rather than pinning a partial result.
pub fn cacheable(file: &JavaFile) -> (r: bool)
    ensures
        r == !file.deep_view().had_parse_error,
{
    !file.had_parse_error
}

} // verus!

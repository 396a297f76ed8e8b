//! Git history signals.
//!
//! Commit subjects and branch names are the highest-value domain vocabulary in
//! the projects we target: they are written in the team's own language and
//! describe intent, which code identifiers rarely do. Churn identifies which
//! files actually matter today, independent of how large they are.
//!
//! The functions here read what `git` prints; running it is the caller's part.
use crate::lists::{flat, keep, sort_unique, sorted_of, take_all, take_next};
use crate::number::{decimal_usize, digits};
use crate::split::{lines, lines_of, nonempty, pieces, split};
use crate::text::{
    after_prefix, contains_str, first_at, only, owned, skip_while, strip_prefix, trim,
    trim_prefixes, trim_start_of, trimmed, without_prefixes,
};
use crate::textmap::TextMap;
use vstd::prelude::*;

verus! {

#[derive(Debug)]
pub struct Commit {
    pub sha: String,
    pub authored_at: String,
    pub subject: String,
    /// Repo-relative paths touched, as reported by git.
    pub files: Vec<String>,
}

/// The content of a [`Commit`].
#[verifier::ext_equal]
pub struct CommitView {
    pub sha: Seq<char>,
    pub authored_at: Seq<char>,
    pub subject: Seq<char>,
    pub files: Seq<Seq<char>>,
}

impl DeepView for Commit {
    type V = CommitView;

    open spec fn deep_view(&self) -> CommitView {
        CommitView {
            sha: self.sha.deep_view(),
            authored_at: self.authored_at.deep_view(),
            subject: self.subject.deep_view(),
            files: self.files.deep_view(),
        }
    }
}

impl Clone for Commit {
    fn clone(&self) -> (r: Self)
        ensures
            r.deep_view() == self.deep_view(),
    {
        Commit {
            sha: self.sha.clone(),
            authored_at: self.authored_at.clone(),
            subject: self.subject.clone(),
            files: self.files.clone(),
        }
    }
}

#[derive(Debug)]
pub struct FileHistory {
    pub commit_count: u32,
    pub first_commit_at: Option<String>,
    pub last_commit_at: Option<String>,
}

/// The content of a [`FileHistory`].
#[verifier::ext_equal]
pub struct FileHistoryView {
    pub commit_count: u32,
    pub first_commit_at: Option<Seq<char>>,
    pub last_commit_at: Option<Seq<char>>,
}

impl DeepView for FileHistory {
    type V = FileHistoryView;

    open spec fn deep_view(&self) -> FileHistoryView {
        FileHistoryView {
            commit_count: self.commit_count,
            first_commit_at: self.first_commit_at.deep_view(),
            last_commit_at: self.last_commit_at.deep_view(),
        }
    }
}

impl Clone for FileHistory {
    fn clone(&self) -> (r: Self)
        ensures
            r.deep_view() == self.deep_view(),
    {
        FileHistory {
            commit_count: self.commit_count,
            first_commit_at: self.first_commit_at.clone(),
            last_commit_at: self.last_commit_at.clone(),
        }
    }
}

// ---------------------------------------------------------------------------
// Single values

/// What a command printed, without the white space around it, where that leaves
/// anything.
pub open spec fn printed(out: Option<Seq<char>>) -> Option<Seq<char>> {
    match out {
        Some(s) => if trimmed(s).len() > 0 {
            Some(trimmed(s))
        } else {
            None
        },
        None => None,
    }
}

fn printed_value(out: Option<&str>) -> (r: Option<String>)
    ensures
        r.deep_view() == printed(out.deep_view()),
{
    match out {
        Some(s) => {
            let t = trim(s);
            if t.is_empty() {
                None
            } else {
                Some(owned(t))
            }
        },
        None => None,
    }
}

/// The current `HEAD` commit, the key the git cache hangs off, from what
/// `git rev-parse HEAD` printed, if it succeeded.
///
/// Git history is a pure function of `HEAD` (ignoring remote branch pointers),
/// so a `HEAD` that has not moved means the two expensive walks — [`log`] and
/// [`file_history`] — can be replayed from cache instead of re-run.
pub fn head(out: Option<&str>) -> (r: Option<String>)
    ensures
        r.deep_view() == printed(out.deep_view()),
{
    printed_value(out)
}

/// The address of `origin`, from what `git remote get-url origin` printed, if it
/// succeeded.
pub fn remote_url(out: Option<&str>) -> (r: Option<String>)
    ensures
        r.deep_view() == printed(out.deep_view()),
{
    printed_value(out)
}

// ---------------------------------------------------------------------------
// Commits

/// The arguments of a log walk over `range`: a record separator before each commit
/// and a unit separator behind each field.
pub open spec fn walk_args(range: Seq<char>) -> Seq<Seq<char>> {
    seq![
        "log"@,
        range,
        "--no-merges"@,
        "--name-only"@,
        "--date=iso-strict"@,
        "--pretty=format:%x1e%H%x1f%ad%x1f%s%x1f"@,
    ]
}

fn args_for(range: String) -> (r: Vec<String>)
    ensures
        r.deep_view() == walk_args(range@),
{
    let mut v: Vec<String> = Vec::new();
    v.push(owned("log"));
    v.push(range);
    v.push(owned("--no-merges"));
    v.push(owned("--name-only"));
    v.push(owned("--date=iso-strict"));
    v.push(owned("--pretty=format:%x1e%H%x1f%ad%x1f%s%x1f"));
    assert(v.deep_view() =~= walk_args(range@));
    v
}

/// The `git` arguments that print the newest `limit` commits with the files they
/// touched.
///
/// `limit` bounds the walk: full history on a decade-old repository costs far
/// more than it adds, and the vocabulary signal saturates quickly.
pub fn log_args(limit: usize) -> (r: Vec<String>)
    ensures
        r.deep_view() == walk_args("-"@ + digits(limit as nat)),
{
    let mut s = owned("-");
    s.append(decimal_usize(limit).as_str());
    args_for(s)
}

/// The `git` arguments that print the commits strictly newer than `old` and
/// reachable from `new`.
///
/// This is the incremental slice that is fetched after a commit lands, instead of
/// re-walking the whole history.
pub fn log_range_args(old_head: &str, new_head: &str) -> (r: Vec<String>)
    ensures
        r.deep_view() == walk_args(old_head@ + ".."@ + new_head@),
{
    let mut s = owned(old_head);
    s.append("..");
    s.append(new_head);
    args_for(s)
}

/// The paths in a list of lines.
pub open spec fn paths_in(s: Seq<char>) -> Seq<Seq<char>> {
    keep(lines_of(s).map_values(|l: Seq<char>| trimmed(l)), |l: Seq<char>| nonempty(l))
}

fn paths(s: &str) -> (r: Vec<String>)
    ensures
        r.deep_view() == paths_in(s@),
{
    let all = lines(s);
    let ghost d = lines_of(s@).map_values(|l: Seq<char>| trimmed(l));
    let ghost f = |l: Seq<char>| nonempty(l);
    let mut out: Vec<String> = Vec::new();
    let mut i: usize = 0;
    while i < all.len()
        invariant
            i <= all.len(),
            all.deep_view() == lines_of(s@),
            d == lines_of(s@).map_values(|l: Seq<char>| trimmed(l)),
            f == (|l: Seq<char>| nonempty(l)),
            out.deep_view() == keep(d.take(i as int), f),
        decreases all.len() - i,
    {
        broadcast use take_next;

        assert(all@[i as int]@ == all.deep_view()[i as int]);
        let t = trim(all[i].as_str());
        let ghost before = out.deep_view();
        assert(d[i as int] == t@);
        assert(d.take(i + 1).last() == t@);
        if !t.is_empty() {
            assert(f(t@));
            out.push(owned(t));
            assert(out.deep_view() =~= before.push(t@));
        } else {
            assert(!f(t@));
        }
        i += 1;
    }
    broadcast use take_all;

    assert(d.take(i as int) == d);
    out
}

/// The commit that one record describes: the fields stand before unit separators,
/// and the paths follow the last.
pub open spec fn commit_of(rec: Seq<char>) -> Option<CommitView> {
    let body = skip_while(rec, only('\n'));
    let parts = pieces(body, '\u{1f}');
    if trimmed(body).len() == 0 || parts.len() < 3 {
        None
    } else {
        Some(
            CommitView {
                sha: trimmed(parts[0]),
                authored_at: trimmed(parts[1]),
                subject: trimmed(parts[2]),
                files: if parts.len() > 3 {
                    paths_in(parts[3])
                } else {
                    Seq::empty()
                },
            },
        )
    }
}

/// The commits in the records of a log.
pub open spec fn commits_in(recs: Seq<Seq<char>>) -> Seq<CommitView> {
    crate::lists::pick(recs, |r: Seq<char>| commit_of(r))
}

fn parse_commit(rec: &str) -> (r: Option<Commit>)
    ensures
        r.deep_view() == commit_of(rec@),
{
    let body = trim_start_of(rec, '\n');
    if trim(body).is_empty() {
        return None;
    }
    let parts = split(body, '\u{1f}');
    let ghost d = parts.deep_view();
    if parts.len() < 3 {
        return None;
    }
    assert(d[0] == parts@[0]@ && d[1] == parts@[1]@ && d[2] == parts@[2]@);
    let files: Vec<String> = if parts.len() > 3 {
        assert(d[3] == parts@[3]@);
        paths(parts[3].as_str())
    } else {
        Vec::new()
    };
    assert(parts.len() <= 3 ==> files.deep_view() =~= Seq::<Seq<char>>::empty());
    Some(
        Commit {
            sha: owned(trim(parts[0].as_str())),
            authored_at: owned(trim(parts[1].as_str())),
            subject: owned(trim(parts[2].as_str())),
            files,
        },
    )
}

/// Parse the record stream [`log`] and [`log_range`] share.
///
/// A record separator (rather than newlines) lets us parse subjects that
/// themselves contain newlines.
pub fn parse_commits(raw: &str) -> (r: Vec<Commit>)
    ensures
        r.deep_view() == commits_in(pieces(raw@, '\u{1e}')),
{
    let recs = split(raw, '\u{1e}');
    let ghost d = pieces(raw@, '\u{1e}');
    let ghost f = |r: Seq<char>| commit_of(r);
    let mut out: Vec<Commit> = Vec::new();
    let mut i: usize = 0;
    assert(out.deep_view() =~= crate::lists::pick(d.take(0), f));
    while i < recs.len()
        invariant
            i <= recs.len(),
            d == recs.deep_view(),
            f == (|r: Seq<char>| commit_of(r)),
            out.deep_view() == crate::lists::pick(d.take(i as int), f),
        decreases recs.len() - i,
    {
        broadcast use take_next;

        let ghost before = out.deep_view();
        assert(d[i as int] == recs@[i as int]@);
        assert(d.take(i + 1).last() == d[i as int]);
        assert(f(d[i as int]) == commit_of(d[i as int]));
        match parse_commit(recs[i].as_str()) {
            Some(c) => {
                let ghost x = c.deep_view();
                out.push(c);
                assert(out.deep_view() =~= before.push(x));
            },
            None => {},
        }
        i += 1;
    }
    broadcast use take_all;

    assert(d.take(i as int) == d);
    out
}

/// Recent commits with the files they touched, from what `git` printed for
/// [`log_args`].
pub fn log(raw: &str) -> (r: Vec<Commit>)
    ensures
        r.deep_view() == commits_in(pieces(raw@, '\u{1e}')),
{
    parse_commits(raw)
}

/// The commits of a range, from what `git` printed for [`log_range_args`].
pub fn log_range(raw: &str) -> (r: Vec<Commit>)
    ensures
        r.deep_view() == commits_in(pieces(raw@, '\u{1e}')),
{
    parse_commits(raw)
}

// ---------------------------------------------------------------------------
// Churn

/// One touch of a file: its path and the date. Touches are listed newest first.
pub type Touch = (Seq<char>, Seq<char>);

/// How often `p` is touched.
pub open spec fn touch_count(ts: Seq<Touch>, p: Seq<char>) -> nat
    decreases ts.len(),
{
    if ts.len() == 0 {
        0
    } else if ts.last().0 == p {
        touch_count(ts.drop_last(), p) + 1
    } else {
        touch_count(ts.drop_last(), p)
    }
}

/// The date of the newest touch of `p`.
pub open spec fn newest(ts: Seq<Touch>, p: Seq<char>) -> Option<Seq<char>>
    decreases ts.len(),
{
    if ts.len() == 0 {
        None
    } else if newest(ts.drop_last(), p) is Some {
        newest(ts.drop_last(), p)
    } else if ts.last().0 == p {
        Some(ts.last().1)
    } else {
        None
    }
}

/// The date of the oldest touch of `p`.
pub open spec fn oldest(ts: Seq<Touch>, p: Seq<char>) -> Option<Seq<char>>
    decreases ts.len(),
{
    if ts.len() == 0 {
        None
    } else if ts.last().0 == p {
        Some(ts.last().1)
    } else {
        oldest(ts.drop_last(), p)
    }
}

pub open spec fn untouched() -> FileHistoryView {
    FileHistoryView { commit_count: 0, first_commit_at: None, last_commit_at: None }
}

/// What is known of `p`.
pub open spec fn known(h: Map<Seq<char>, FileHistoryView>, p: Seq<char>) -> FileHistoryView {
    if h.dom().contains(p) {
        h[p]
    } else {
        untouched()
    }
}

/// What is known of `p` after touches newer than all before: the newest is its last
/// touch, and its first stays, unless it has none.
pub open spec fn after_touches(
    base: FileHistoryView,
    ts: Seq<Touch>,
    p: Seq<char>,
) -> FileHistoryView {
    FileHistoryView {
        commit_count: (base.commit_count + touch_count(ts, p)) as u32,
        first_commit_at: if base.first_commit_at is None {
            oldest(ts, p)
        } else {
            base.first_commit_at
        },
        last_commit_at: newest(ts, p),
    }
}

/// A history with touches newer than all before folded in.
pub open spec fn folded(
    h: Map<Seq<char>, FileHistoryView>,
    ts: Seq<Touch>,
) -> Map<Seq<char>, FileHistoryView> {
    Map::new(
        |p: Seq<char>| h.dom().contains(p) || touch_count(ts, p) > 0,
        |p: Seq<char>|
            if touch_count(ts, p) > 0 {
                after_touches(known(h, p), ts, p)
            } else {
                h[p]
            },
    )
}

/// The history that a full walk makes of all touches.
pub open spec fn full_history(ts: Seq<Touch>) -> Map<Seq<char>, FileHistoryView> {
    folded(Map::empty(), ts)
}

/// Whether the counts fit after the touches.
pub open spec fn counts_fit(h: Map<Seq<char>, FileHistoryView>, ts: Seq<Touch>) -> bool {
    forall|p: Seq<char>|
        #![trigger touch_count(ts, p)]
        known(h, p).commit_count + touch_count(ts, p) <= u32::MAX
}

proof fn count_prefix(ts: Seq<Touch>, n: int, p: Seq<char>)
    requires
        0 <= n <= ts.len(),
    ensures
        touch_count(ts.take(n), p) <= touch_count(ts, p),
        touch_count(ts, p) <= ts.len(),
    decreases ts.len(),
{
    if ts.len() > 0 {
        if n < ts.len() {
            count_prefix(ts.drop_last(), n, p);
            assert(ts.drop_last().take(n) =~= ts.take(n));
        } else {
            assert(ts.take(n) =~= ts);
            count_prefix(ts.drop_last(), n - 1, p);
        }
    }
}

proof fn touched_known(ts: Seq<Touch>, p: Seq<char>)
    ensures
        touch_count(ts, p) > 0 <==> newest(ts, p) is Some,
        touch_count(ts, p) > 0 <==> oldest(ts, p) is Some,
    decreases ts.len(),
{
    if ts.len() > 0 {
        touched_known(ts.drop_last(), p);
    }
}

proof fn touches_joined(new: Seq<Touch>, before: Seq<Touch>, p: Seq<char>)
    ensures
        touch_count(new + before, p) == touch_count(new, p) + touch_count(before, p),
        newest(new + before, p) == (if newest(new, p) is Some {
            newest(new, p)
        } else {
            newest(before, p)
        }),
        oldest(new + before, p) == (if oldest(before, p) is Some {
            oldest(before, p)
        } else {
            oldest(new, p)
        }),
    decreases before.len(),
{
    if before.len() == 0 {
        assert(new + before =~= new);
    } else {
        let all = new + before;
        assert(all.drop_last() =~= new + before.drop_last());
        touches_joined(new, before.drop_last(), p);
    }
}

/// Folding the newer touches into a full walk over the older ones gives what a full
/// walk over all of them gives.
pub proof fn fold_is_full_walk(new: Seq<Touch>, before: Seq<Touch>)
    requires
        counts_fit(Map::empty(), new + before),
    ensures
        folded(full_history(before), new) == full_history(new + before),
{
    let all = new + before;
    let a = folded(full_history(before), new);
    let b = full_history(all);
    assert forall|p: Seq<char>| #[trigger] a.dom().contains(p) <==> b.dom().contains(p) by {
        touches_joined(new, before, p);
    }
    assert forall|p: Seq<char>| a.dom().contains(p) implies #[trigger] a[p] == b[p] by {
        touches_joined(new, before, p);
        touched_known(new, p);
        touched_known(before, p);
        assert(touch_count(all, p) <= u32::MAX);
    }
    assert(a =~= b);
}

/// Cutting a list before commits are put in front of it changes nothing of the
/// newest `limit`.
pub proof fn truncation_keeps_newest(
    new: Seq<CommitView>,
    before: Seq<CommitView>,
    limit: nat,
)
    ensures
        newest_of(new + newest_of(before, limit), limit) == newest_of(new + before, limit),
{
    assert(newest_of(new + newest_of(before, limit), limit) =~= newest_of(new + before, limit));
}

/// The first `limit` commits.
pub open spec fn newest_of(cs: Seq<CommitView>, limit: nat) -> Seq<CommitView> {
    if cs.len() <= limit {
        cs
    } else {
        cs.take(limit as int)
    }
}

/// The touches of a commit.
pub open spec fn commit_touches(c: CommitView) -> Seq<Touch> {
    c.files.map_values(|f: Seq<char>| (f, c.authored_at))
}

/// The touches of commits that are listed newest first.
pub open spec fn touches_of(cs: Seq<CommitView>) -> Seq<Touch> {
    flat(cs, |c: CommitView| commit_touches(c))
}

/// Folds one more touch, older than those folded before, into `now`, which is `h`
/// with `ts` folded in.
fn add_touch(
    hist: &TextMap<FileHistory>,
    now: &mut TextMap<FileHistory>,
    path: &str,
    date: &str,
    Ghost(ts): Ghost<Seq<Touch>>,
)
    requires
        old(now).deep_view() == folded(hist.deep_view(), ts),
        known(hist.deep_view(), path@).commit_count + touch_count(ts, path@) < u32::MAX,
    ensures
        final(now).deep_view() == folded(hist.deep_view(), ts.push((path@, date@))),
{
    let ghost h = hist.deep_view();
    let ghost m = now.deep_view();
    let ghost ts1 = ts.push((path@, date@));
    let first = match hist.get(path) {
        Some(e) => e.first_commit_at.clone(),
        None => None,
    };
    let entry = match now.get(path) {
        Some(e) => e.clone(),
        None => FileHistory { commit_count: 0, first_commit_at: None, last_commit_at: None },
    };
    proof {
        assert(ts1.drop_last() =~= ts);
        touched_known(ts, path@);
        assert(first.deep_view() == known(h, path@).first_commit_at);
    }
    let seen = match now.get(path) {
        Some(e) => match hist.get(path) {
            Some(x) => e.commit_count > x.commit_count,
            None => true,
        },
        None => false,
    };
    assert(seen == (touch_count(ts, path@) > 0));
    let updated = FileHistory {
        commit_count: entry.commit_count + 1,
        first_commit_at: match first {
            Some(d) => Some(d),
            None => Some(owned(date)),
        },
        last_commit_at: if seen {
            entry.last_commit_at
        } else {
            Some(owned(date))
        },
    };
    let ghost u = updated.deep_view();
    now.insert(owned(path), updated);
    proof {
        assert(u =~= after_touches(known(h, path@), ts1, path@));
        assert forall|p: Seq<char>| p != path@ implies touch_count(ts1, p) == touch_count(ts, p)
            && newest(ts1, p) == newest(ts, p) && oldest(ts1, p) == oldest(ts, p) by {
            touched_known(ts, p);
        }
        assert(now.deep_view() =~= folded(h, ts1));
    }
}

/// Fold commits from `old..new` into a cached full-history snapshot.
///
/// `hist`/`commits` are the state up to `old`; `inc` is `old..new` (newest
/// first). The result is what a full walk at `new` would produce, without walking
/// the old history again.
pub fn apply_incremental(
    hist: &mut TextMap<FileHistory>,
    commits: &mut Vec<Commit>,
    inc: &Vec<Commit>,
    limit: usize,
)
    requires
        counts_fit(old(hist).deep_view(), touches_of(inc.deep_view())),
    ensures
        final(commits).deep_view() == newest_of(
            inc.deep_view() + old(commits).deep_view(),
            limit as nat,
        ),
        final(hist).deep_view() == folded(old(hist).deep_view(), touches_of(inc.deep_view())),
{
    // Subject list: every commit in `inc` is newer than everything cached, so it
    // goes in front; the cached tail is already the newest-`limit` of old history,
    // so truncating after the merge keeps the newest-`limit` of the combined tree.
    let ghost c0 = commits.deep_view();
    let ghost d = inc.deep_view();
    let mut merged: Vec<Commit> = inc.clone();
    let ghost m0 = merged.deep_view();
    assert(m0 =~= d);
    merged.append(commits);
    assert(merged.deep_view() =~= d + c0);
    let ghost m1 = merged.deep_view();
    merged.truncate(limit);
    assert(merged.deep_view() =~= newest_of(m1, limit as nat));
    *commits = merged;

    // Churn: touches are counted newest first.
    let ghost h = hist.deep_view();
    let ghost all = touches_of(d);
    let ghost f = |c: CommitView| commit_touches(c);
    let mut now = copy_history(hist);
    let mut i: usize = 0;
    assert(folded(h, flat(d.take(0), f)) =~= h);
    while i < inc.len()
        invariant
            i <= inc.len(),
            d == inc.deep_view(),
            h == hist.deep_view(),
            f == (|c: CommitView| commit_touches(c)),
            all == flat(d, f),
            counts_fit(h, all),
            now.deep_view() == folded(h, flat(d.take(i as int), f)),
        decreases inc.len() - i,
    {
        broadcast use take_next;

        let c = &inc[i];
        let ghost v = c.deep_view();
        assert(d[i as int] == v);
        let ghost base = flat(d.take(i as int), f);
        let ghost own = commit_touches(v);
        let ghost next = flat(d.take(i + 1), f);
        proof {
            assert(d.take(i + 1).last() == v);
            assert(next == base + own);
            flat_prefix(d, i + 1, f);
        }
        let mut k: usize = 0;
        assert(base + own.take(0) =~= base);
        while k < c.files.len()
            invariant
                k <= c.files.len(),
                h == hist.deep_view(),
                v == c.deep_view(),
                own == commit_touches(v),
                next == base + own,
                next.len() <= all.len(),
                all.take(next.len() as int) == next,
                counts_fit(h, all),
                now.deep_view() == folded(h, base + own.take(k as int)),
            decreases c.files.len() - k,
        {
            let ghost ts = base + own.take(k as int);
            let ghost p = c.files@[k as int]@;
            proof {
                assert(v.files[k as int] == p);
                assert(own[k as int] == (p, v.authored_at));
                assert(ts.push(own[k as int]) =~= base + own.take(k + 1));
                let ts1 = base + own.take(k + 1);
                assert(ts1 =~= all.take(ts1.len() as int)) by {
                    assert(next.take(ts1.len() as int) =~= ts1);
                }
                count_prefix(all, ts1.len() as int, p);
                assert(ts1.drop_last() =~= ts);
                assert(touch_count(ts1, p) == touch_count(ts, p) + 1);
                assert(known(h, p).commit_count + touch_count(all, p) <= u32::MAX);
            }
            add_touch(hist, &mut now, c.files[k].as_str(), c.authored_at.as_str(), Ghost(ts));
            k += 1;
        }
        assert(own.take(k as int) =~= own);
        i += 1;
    }
    broadcast use take_all;

    assert(d.take(i as int) == d);
    *hist = now;
}

proof fn flat_prefix<T, U>(s: Seq<T>, n: int, f: spec_fn(T) -> Seq<U>)
    requires
        0 <= n <= s.len(),
    ensures
        flat(s.take(n), f).len() <= flat(s, f).len(),
        flat(s, f).take(flat(s.take(n), f).len() as int) == flat(s.take(n), f),
    decreases s.len(),
{
    if n == s.len() {
        assert(s.take(n) =~= s);
        assert(flat(s, f).take(flat(s, f).len() as int) =~= flat(s, f));
    } else {
        flat_prefix(s.drop_last(), n, f);
        assert(s.drop_last().take(n) =~= s.take(n));
        let part = flat(s.take(n), f);
        assert(flat(s, f).take(part.len() as int) =~= flat(s.drop_last(), f).take(
            part.len() as int,
        ));
    }
}

fn copy_history(h: &TextMap<FileHistory>) -> (r: TextMap<FileHistory>)
    ensures
        r.deep_view() == h.deep_view(),
{
    let n: usize = h.len();
    let ghost l = h.list();
    let mut out: TextMap<FileHistory> = TextMap::new();
    let mut i: usize = 0;
    while i < n
        invariant
            i <= n,
            n == l.len(),
            l == h.list(),
            crate::textmap::in_order(l),
            forall|k: Seq<char>| #[trigger]
                out.deep_view().dom().contains(k) <==> crate::textmap::has_key(l.take(i as int), k),
            forall|j: int|
                0 <= j < i ==> out.deep_view()[(#[trigger] l[j]).0] == l[j].1,
        decreases n - i,
    {
        let ghost before = out.deep_view();
        out.insert(h.key_at(i).clone(), h.value_at(i).clone());
        proof {
            let t0 = l.take(i as int);
            let t1 = l.take(i + 1);
            assert forall|k: Seq<char>| #[trigger] out.deep_view().dom().contains(k)
                <==> crate::textmap::has_key(t1, k) by {
                if crate::textmap::has_key(t0, k) {
                    let j = choose|j: int| 0 <= j < t0.len() && (#[trigger] t0[j]).0 == k;
                    assert(t1[j].0 == k);
                }
                if crate::textmap::has_key(t1, k) {
                    let j = choose|j: int| 0 <= j < t1.len() && (#[trigger] t1[j]).0 == k;
                    if j < i {
                        assert(t0[j].0 == k);
                    }
                }
                assert(t1[i as int].0 == l[i as int].0);
                assert(before.dom().contains(k) <==> crate::textmap::has_key(t0, k));
            }
            assert forall|j: int| 0 <= j < i + 1 implies out.deep_view()[(#[trigger] l[j]).0]
                == l[j].1 by {
                if j < i {
                    assert(crate::text::lex_lt(l[j].0, l[i as int].0));
                    crate::text::lex_irreflexive(l[j].0);
                }
            }
        }
        i += 1;
    }
    proof {
        assert(l.take(i as int) =~= l);
        assert forall|k: Seq<char>| h.deep_view().dom().contains(k) implies #[trigger]
            out.deep_view()[k] == h.deep_view()[k] by {
            let j = choose|j: int| 0 <= j < l.len() && (#[trigger] l[j]).0 == k;
            crate::textmap::map_of_at(l, j);
        }
        assert(out.deep_view() =~= h.deep_view());
    }
    out
}

/// What a line of the history walk is: the date of the commit that follows, a path,
/// or nothing.
pub struct Walked {
    pub date: Option<Seq<char>>,
    pub touches: Seq<Touch>,
}

/// What one line does. Paths before the first date are passed over.
pub open spec fn walk_line(w: Walked, line: Seq<char>) -> Walked {
    match after_prefix(line, "\u{1f}"@) {
        Some(date) => Walked { date: Some(trimmed(date)), ..w },
        None => if trimmed(line).len() == 0 || w.date is None {
            w
        } else {
            Walked { touches: w.touches.push((trimmed(line), w.date->0)), ..w }
        },
    }
}

pub open spec fn walked(ls: Seq<Seq<char>>) -> Walked
    decreases ls.len(),
{
    if ls.len() == 0 {
        Walked { date: None, touches: Seq::empty() }
    } else {
        walk_line(walked(ls.drop_last()), ls.last())
    }
}

proof fn walked_len(ls: Seq<Seq<char>>)
    ensures
        walked(ls).touches.len() <= ls.len(),
    decreases ls.len(),
{
    if ls.len() > 0 {
        walked_len(ls.drop_last());
    }
}

/// Per-file churn and first/last touch, over the whole history, from what
/// `git log --name-only --date=iso-strict --pretty=format:%x1f%ad` printed.
///
/// This is a separate, cheaper walk than [`log`] because it needs no subjects
/// and can therefore cover all commits without holding them in memory. git walks
/// newest first, so the first date seen for a file is its latest.
pub fn file_history(raw: &str) -> (r: TextMap<FileHistory>)
    requires
        lines_of(raw@).len() <= u32::MAX,
    ensures
        r.deep_view() == full_history(walked(lines_of(raw@)).touches),
{
    let all = lines(raw);
    let ghost d = lines_of(raw@);
    let none: TextMap<FileHistory> = TextMap::new();
    let mut out: TextMap<FileHistory> = TextMap::new();
    let mut date: Option<String> = None;
    let mut i: usize = 0;
    assert(full_history(walked(d.take(0)).touches) =~= Map::<Seq<char>, FileHistoryView>::empty());
    while i < all.len()
        invariant
            i <= all.len(),
            all.len() <= u32::MAX,
            d == all.deep_view(),
            none.deep_view() == Map::<Seq<char>, FileHistoryView>::empty(),
            date.deep_view() == walked(d.take(i as int)).date,
            out.deep_view() == full_history(walked(d.take(i as int)).touches),
        decreases all.len() - i,
    {
        broadcast use take_next;

        let line = &all[i];
        assert(d[i as int] == line@);
        assert(d.take(i + 1).last() == line@);
        let ghost w = walked(d.take(i as int));
        proof {
            walked_len(d.take(i as int));
        }
        i += 1;
        match strip_prefix(line.as_str(), "\u{1f}") {
            Some(x) => {
                date = Some(owned(trim(x)));
                continue;
            },
            None => {},
        }
        let path = trim(line.as_str());
        if path.is_empty() {
            continue;
        }
        match &date {
            Some(at) => {
                proof {
                    count_prefix(w.touches, 0, path@);
                }
                add_touch(&none, &mut out, path, at.as_str(), Ghost(w.touches));
            },
            None => {},
        }
    }
    broadcast use take_all;

    assert(d.take(i as int) == d);
    out
}

// ---------------------------------------------------------------------------
// Branches

/// The branch that a line names, the alias `HEAD` excepted.
pub open spec fn branch_of(line: Seq<char>) -> Option<Seq<char>> {
    let l = trimmed(line);
    if l.len() == 0 || first_at(l, "HEAD"@) is Some {
        None
    } else {
        Some(without_prefixes(l, "remotes/"@))
    }
}

/// Local and remote branch names, which in these repositories encode the feature
/// vocabulary of every release ever shipped, from what
/// `git branch -a --format=%(refname:short)` printed.
pub fn branches(raw: &str) -> (r: Vec<String>)
    ensures
        r.deep_view() == sorted_of(
            crate::lists::pick(lines_of(raw@), |l: Seq<char>| branch_of(l)),
        ),
{
    let all = lines(raw);
    let ghost d = lines_of(raw@);
    let ghost f = |l: Seq<char>| branch_of(l);
    let mut out: Vec<String> = Vec::new();
    let mut i: usize = 0;
    assert(out.deep_view() =~= crate::lists::pick(d.take(0), f));
    while i < all.len()
        invariant
            i <= all.len(),
            d == all.deep_view(),
            f == (|l: Seq<char>| branch_of(l)),
            out.deep_view() == crate::lists::pick(d.take(i as int), f),
        decreases all.len() - i,
    {
        broadcast use take_next;

        let ghost before = out.deep_view();
        assert(d[i as int] == all@[i as int]@);
        assert(d.take(i + 1).last() == d[i as int]);
        assert(f(d[i as int]) == branch_of(d[i as int]));
        let l = trim(all[i].as_str());
        if !l.is_empty() && !contains_str(l, "HEAD") {
            let b = trim_prefixes(l, "remotes/");
            out.push(owned(b));
            assert(out.deep_view() =~= before.push(b@));
        }
        i += 1;
    }
    broadcast use take_all;

    assert(d.take(i as int) == d);
    sort_unique(&out)
}

} // verus!


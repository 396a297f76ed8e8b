//! Version history: what log records tell, and what is kept of each file.
use crate::extract::git::{
    branch_of, commit_of, commit_touches, folded, full_history, known, newest, newest_of, oldest,
    paths_in, printed, touch_count, touches_of, walked, CommitView, FileHistoryView, Touch,
};
use crate::laws::basics::{
    appears, ends_of_texts, first_line, flat_members, keep_first, one_piece, pieces_meet_at,
    searches_find_what_appears, skip_all, trimmed_is_core,
};
use crate::split::{lines_of, nonempty, pieces, pieces_by};
use crate::text::{is_white, only, skip_while, trimmed};
use vstd::prelude::*;

verus! {

/// Whether a text has no white space at its ends.
pub open spec fn is_tight(s: Seq<char>) -> bool {
    s.len() > 0 ==> !is_white(s[0]) && !is_white(s.last())
}

proof fn tight_is_trimmed(s: Seq<char>)
    requires
        is_tight(s),
    ensures
        trimmed(s) == s,
{
    let e = Seq::<char>::empty();
    trimmed_is_core(e, s, e);
    assert(e + s + e =~= s);
}

/// What a command printed counts where it is more than white space, without the white space
/// around it.
pub proof fn output_is_trimmed(a: Seq<char>, core: Seq<char>, b: Seq<char>)
    requires
        forall|i: int| 0 <= i < a.len() ==> is_white(#[trigger] a[i]),
        forall|i: int| 0 <= i < b.len() ==> is_white(#[trigger] b[i]),
        is_tight(core),
    ensures
        core.len() > 0 ==> printed(Some(a + core + b)) == Some(core),
        core.len() == 0 ==> printed(Some(a + core + b)) is None,
        printed(None) is None,
{
    trimmed_is_core(a, core, b);
}

/// A record tells its commit: the fields stand before unit separators, and the paths behind
/// the last.
pub proof fn records_tell_commits(
    feeds: Seq<char>,
    sha: Seq<char>,
    date: Seq<char>,
    subject: Seq<char>,
    rest: Seq<char>,
)
    requires
        forall|i: int| 0 <= i < feeds.len() ==> #[trigger] feeds[i] == '\n',
        sha.len() > 0,
        is_tight(sha) && is_tight(date) && is_tight(subject),
        !sha.contains('\u{1f}') && !date.contains('\u{1f}'),
        !subject.contains('\u{1f}') && !rest.contains('\u{1f}'),
    ensures
        ({
            let c = commit_of(
                feeds + (sha.push('\u{1f}') + (date.push('\u{1f}') + (subject.push('\u{1f}')
                    + rest))),
            );
            &&& c is Some
            &&& (c->0).sha == sha
            &&& (c->0).authored_at == date
            &&& (c->0).subject == subject
            &&& (c->0).files == paths_in(rest)
        }),
{
    let p = only('\u{1f}');
    let d = subject.push('\u{1f}') + rest;
    let c = date.push('\u{1f}') + d;
    let b = sha.push('\u{1f}') + c;
    skip_all(feeds, b, only('\n'));
    assert(b[0] == sha[0]);
    assert(sha[0] != '\n');
    assert(skip_while(b, only('\n')) == b);
    assert forall|s: Seq<char>| !s.contains('\u{1f}') implies #[trigger] pieces_by(s, p) == seq![
        s,
    ] by {
        assert forall|i: int| 0 <= i < s.len() implies !p(#[trigger] s[i]) by {
            assert(s.contains(s[i]));
        }
        one_piece(s, p);
    }
    pieces_meet_at(sha, '\u{1f}', c, p);
    pieces_meet_at(date, '\u{1f}', d, p);
    pieces_meet_at(subject, '\u{1f}', rest, p);
    assert(pieces_by(sha, p) == seq![sha]);
    assert(pieces_by(date, p) == seq![date]);
    assert(pieces_by(subject, p) == seq![subject]);
    assert(pieces_by(rest, p) == seq![rest]);
    assert(pieces(b, '\u{1f}') =~= seq![sha, date, subject, rest]);
    tight_is_trimmed(sha);
    tight_is_trimmed(date);
    tight_is_trimmed(subject);
    assert(trimmed(b).len() > 0) by {
        has_core(b, 0);
    }
}

proof fn has_core(s: Seq<char>, i: int)
    requires
        0 <= i < s.len(),
        !is_white(s[i]),
    ensures
        trimmed(s).len() > 0,
{
    skip_keeps(s, i);
    let t = crate::text::trimmed_start(s);
    let k = choose|k: int| 0 <= k < t.len() && t[k] == s[i];
    drop_keeps(t, k);
}

proof fn skip_keeps(s: Seq<char>, i: int)
    requires
        0 <= i < s.len(),
        !is_white(s[i]),
    ensures
        exists|k: int| 0 <= k < crate::text::trimmed_start(s).len() && crate::text::trimmed_start(s)[k]
            == s[i],
    decreases s.len(),
{
    let p = crate::text::whites();
    if p(s[0]) {
        assert(i > 0);
        let t = s.skip(1);
        assert(t[i - 1] == s[i]);
        skip_keeps(t, i - 1);
        let k = choose|k: int|
            0 <= k < crate::text::trimmed_start(t).len() && crate::text::trimmed_start(t)[k] == t[i
                - 1];
        assert(crate::text::trimmed_start(s) == crate::text::trimmed_start(t));
        assert(crate::text::trimmed_start(s)[k] == s[i]);
    } else {
        assert(crate::text::trimmed_start(s) == s);
        assert(skip_while(s, p)[i] == s[i]);
    }
}

proof fn drop_keeps(s: Seq<char>, i: int)
    requires
        0 <= i < s.len(),
        !is_white(s[i]),
    ensures
        crate::text::trimmed_end(s).len() > 0,
    decreases s.len(),
{
    let p = crate::text::whites();
    if p(s.last()) {
        assert(s.drop_last()[i] == s[i]);
        drop_keeps(s.drop_last(), i);
    }
}

/// A record with fewer than three fields tells no commit.
pub proof fn short_records_tell_nothing(a: Seq<char>, b: Seq<char>)
    requires
        !a.contains('\u{1f}') && !b.contains('\u{1f}'),
        a.len() > 0 && a[0] != '\n',
    ensures
        commit_of(a) is None,
        commit_of(a.push('\u{1f}') + b) is None,
        commit_of(Seq::empty()) is None,
{
    let p = only('\u{1f}');
    let s = a.push('\u{1f}') + b;
    assert(s[0] == a[0]);
    assert(skip_while(a, only('\n')) == a);
    assert(skip_while(s, only('\n')) == s);
    assert forall|i: int| 0 <= i < a.len() implies !p(#[trigger] a[i]) by {
        assert(a.contains(a[i]));
    }
    assert forall|i: int| 0 <= i < b.len() implies !p(#[trigger] b[i]) by {
        assert(b.contains(b[i]));
    }
    one_piece(a, p);
    one_piece(b, p);
    pieces_meet_at(a, '\u{1f}', b, p);
    tight_is_trimmed(Seq::empty());
}

/// Each line that is not blank is a path, without the white space around it.
pub proof fn lines_are_paths(l: Seq<char>, rest: Seq<char>)
    requires
        !l.contains('\n') && !l.contains('\r'),
    ensures
        trimmed(l).len() > 0 ==> paths_in(l.push('\n') + rest) == seq![trimmed(l)] + paths_in(rest),
        trimmed(l).len() == 0 ==> paths_in(l.push('\n') + rest) == paths_in(rest),
{
    first_line(l, rest);
    let f = |x: Seq<char>| trimmed(x);
    let g = |x: Seq<char>| nonempty(x);
    let all = lines_of(l.push('\n') + rest).map_values(f);
    let more = lines_of(rest).map_values(f);
    assert(all =~= seq![trimmed(l)] + more);
    keep_first(trimmed(l), more, g);
}

pub open spec fn touches(p: Seq<char>) -> spec_fn(Touch) -> bool {
    |t: Touch| t.0 == p
}

/// Touches are listed newest first: the first touch of a path is its newest and the last its
/// oldest, and each counts once.
pub proof fn touches_are_newest_first(ts: Seq<Touch>, p: Seq<char>, i: int)
    ensures
        touch_count(ts, p) == ts.filter(touches(p)).len(),
        0 <= i < ts.len() && ts[i].0 == p && (forall|j: int|
            0 <= j < i ==> (#[trigger] ts[j]).0 != p) ==> newest(ts, p) == Some(ts[i].1),
        0 <= i < ts.len() && ts[i].0 == p && (forall|j: int|
            i < j < ts.len() ==> (#[trigger] ts[j]).0 != p) ==> oldest(ts, p) == Some(ts[i].1),
        (forall|j: int| 0 <= j < ts.len() ==> (#[trigger] ts[j]).0 != p) ==> newest(ts, p) is None
            && oldest(ts, p) is None && touch_count(ts, p) == 0,
        0 <= i < ts.len() && ts[i].0 == p ==> touch_count(ts, p) > 0 && newest(ts, p) is Some,
    decreases ts.len(),
{
    reveal(Seq::filter);
    if ts.len() > 0 {
        let rest = ts.drop_last();
        touches_are_newest_first(rest, p, i);
        assert(ts[ts.len() - 1] == ts.last());
        assert forall|j: int| 0 <= j < rest.len() implies #[trigger] rest[j] == ts[j] by {}
    }
}

/// New touches count on top of what is known. The newest is the last touch of a file, the
/// first touch stays where there was one, and files without a new touch stay as they are.
pub proof fn histories_grow(h: Map<Seq<char>, FileHistoryView>, ts: Seq<Touch>, p: Seq<char>)
    requires
        h.dom().contains(p) ==> h[p].commit_count + touch_count(ts, p) <= u32::MAX,
        touch_count(ts, p) <= u32::MAX,
    ensures
        folded(h, ts).dom().contains(p) <==> h.dom().contains(p) || ts.filter(touches(p)).len() > 0,
        h.dom().contains(p) && touch_count(ts, p) == 0 ==> folded(h, ts)[p] == h[p],
        touch_count(ts, p) > 0 ==> folded(h, ts)[p].last_commit_at == newest(ts, p),
        touch_count(ts, p) > 0 && h.dom().contains(p) ==> folded(h, ts)[p].commit_count
            == h[p].commit_count + ts.filter(touches(p)).len(),
        touch_count(ts, p) > 0 && !h.dom().contains(p) ==> folded(h, ts)[p].commit_count
            == ts.filter(touches(p)).len() && folded(h, ts)[p].first_commit_at == oldest(ts, p),
        touch_count(ts, p) > 0 && h.dom().contains(p) && h[p].first_commit_at is Some ==> folded(
            h,
            ts,
        )[p].first_commit_at == h[p].first_commit_at,
        touch_count(ts, p) > 0 && h.dom().contains(p) && h[p].first_commit_at is None ==> folded(
            h,
            ts,
        )[p].first_commit_at == oldest(ts, p),
        full_history(ts).dom().contains(p) ==> full_history(ts)[p].commit_count == ts.filter(
            touches(p),
        ).len(),
{
    touches_are_newest_first(ts, p, 0);
}

/// A commit touches each of its files at its date, and commits touch nothing else.
pub proof fn commits_touch_their_files(cs: Seq<CommitView>, t: Touch)
    ensures
        touches_of(cs).contains(t) <==> exists|i: int|
            0 <= i < cs.len() && (#[trigger] cs[i]).files.contains(t.0) && cs[i].authored_at == t.1,
{
    let f = |c: CommitView| commit_touches(c);
    flat_members(cs, f, t);
    assert forall|c: CommitView| #[trigger] commit_touches(c).contains(t) <==> c.files.contains(t.0)
        && c.authored_at == t.1 by {
        let m = commit_touches(c);
        if m.contains(t) {
            let k = choose|k: int| 0 <= k < m.len() && m[k] == t;
            assert(c.files[k] == t.0);
        }
        if c.files.contains(t.0) && c.authored_at == t.1 {
            let k = choose|k: int| 0 <= k < c.files.len() && c.files[k] == t.0;
            assert(m[k] == t);
        }
    }
    if exists|i: int|
        0 <= i < cs.len() && (#[trigger] cs[i]).files.contains(t.0) && cs[i].authored_at == t.1 {
        let i = choose|i: int|
            0 <= i < cs.len() && (#[trigger] cs[i]).files.contains(t.0) && cs[i].authored_at == t.1;
        assert(commit_touches(cs[i]).contains(t));
        assert(f(cs[i]).contains(t));
    }
    if touches_of(cs).contains(t) {
        let i = choose|i: int| 0 <= i < cs.len() && f(#[trigger] cs[i]).contains(t);
        assert(commit_touches(cs[i]).contains(t));
    }
}

/// Of more commits than the limit the first are kept.
pub proof fn newest_commits_are_kept(cs: Seq<CommitView>, limit: nat, i: int)
    ensures
        newest_of(cs, limit).len() == (if cs.len() < limit {
            cs.len()
        } else {
            limit
        }),
        0 <= i < newest_of(cs, limit).len() ==> newest_of(cs, limit)[i] == cs[i],
{
}

/// A line that begins with a unit separator is a date; every other line that is not blank is
/// a path touched at the last date, and none before the first date.
pub proof fn lines_tell_touches(ls: Seq<Seq<char>>, date: Seq<char>, path: Seq<char>)
    requires
        is_tight(date) && is_tight(path),
        path.len() > 0 && path[0] != '\u{1f}',
    ensures
        walked(ls.push("\u{1f}"@ + date)).touches == walked(ls).touches,
        walked(ls.push("\u{1f}"@ + date)).date == Some(date),
        walked(ls.push("\u{1f}"@ + date).push(path)).touches == walked(ls).touches.push(
            (path, date),
        ),
        walked(ls.push(path)).date == walked(ls).date,
        walked(ls).date is Some ==> walked(ls.push(path)).touches == walked(ls).touches.push(
            (path, walked(ls).date->0),
        ),
        walked(ls).date is None ==> walked(ls.push(path)).touches == walked(ls).touches,
        walked(ls.push(Seq::empty())) == walked(ls),
{
    reveal_strlit("\u{1f}");
    let e = Seq::<char>::empty();
    let d = "\u{1f}"@ + date;
    ends_of_texts("\u{1f}"@, date);
    tight_is_trimmed(date);
    tight_is_trimmed(path);
    tight_is_trimmed(e);
    assert(ls.push(d).drop_last() =~= ls);
    assert(ls.push(path).drop_last() =~= ls);
    assert(ls.push(e).drop_last() =~= ls);
    assert(ls.push(d).push(path).drop_last() =~= ls.push(d));
    assert(path.take(1)[0] == path[0]);
    assert(!crate::text::has_prefix(path, "\u{1f}"@)) by {
        if crate::text::has_prefix(path, "\u{1f}"@) {
            assert(path.take(1)[0] == "\u{1f}"@[0]);
        }
    }
}

/// A line names a branch, local or remote, unless it is an alias of the head.
pub proof fn lines_name_branches(name: Seq<char>)
    requires
        is_tight(name) && name.len() > 0,
        !crate::text::has_prefix(name, "remotes/"@),
    ensures
        !appears(name, "HEAD"@) ==> branch_of(name) == Some(name),
        appears(name, "HEAD"@) ==> branch_of(name) is None,
        !appears("remotes/"@ + name, "HEAD"@) ==> branch_of("remotes/"@ + name) == Some(name),
        branch_of(Seq::empty()) is None,
{
    reveal_strlit("remotes/");
    let r = "remotes/"@ + name;
    tight_is_trimmed(name);
    assert(r[0] == 'r' && r.last() == name.last());
    tight_is_trimmed(r);
    tight_is_trimmed(Seq::empty());
    searches_find_what_appears(name, "HEAD"@);
    searches_find_what_appears(r, "HEAD"@);
    ends_of_texts("remotes/"@, name);
    reveal_with_fuel(crate::text::without_prefixes, 3);
    assert(r.skip(8) =~= name);
}

} // verus!

//! Cutting text into pieces and putting pieces together.
use crate::lists::{keep, take_all, take_next};
use crate::text::{
    chars_of, find_char, first_of, last_of, only, owned, rfind_char, strip_suffix, white, whites,
};
use vstd::prelude::*;

verus! {

/// `s` cut at every character of the class `p`: one piece more than there are
/// such characters, empty pieces included.
pub open spec fn pieces_by(s: Seq<char>, p: spec_fn(char) -> bool) -> Seq<Seq<char>>
    decreases s.len(),
{
    if s.len() == 0 {
        seq![Seq::empty()]
    } else {
        let before = pieces_by(s.drop_last(), p);
        if p(s.last()) {
            before.push(Seq::empty())
        } else {
            before.drop_last().push(before.last().push(s.last()))
        }
    }
}

/// `s` cut at every `c`.
pub open spec fn pieces(s: Seq<char>, c: char) -> Seq<Seq<char>> {
    pieces_by(s, only(c))
}

pub fn split(s: &str, c: char) -> (r: Vec<String>)
    ensures
        r.deep_view() == pieces(s@, c),
        r.len() > 0,
{
    let v = chars_of(s);
    let mut out: Vec<String> = Vec::new();
    let mut cur = String::new();
    let mut i: usize = 0;
    assert(out.deep_view().push(cur@) =~= pieces(s@.take(0), c));
    while i < v.len()
        invariant
            i <= v.len(),
            v@ == s@,
            out.deep_view().push(cur@) == pieces(s@.take(i as int), c),
        decreases v.len() - i,
    {
        broadcast use take_next;

        let ghost before = out.deep_view();
        let ghost now = cur@;
        if v[i] == c {
            out.push(cur);
            cur = String::new();
            assert(out.deep_view() =~= before.push(now));
        } else {
            cur.push(v[i]);
            assert(before.push(now).drop_last() =~= before);
        }
        i += 1;
        assert(s@.take(i as int) == s@.take((i - 1) + 1));
        assert(out.deep_view().push(cur@) =~= pieces(s@.take(i as int), c));
    }
    broadcast use take_all;

    let ghost before = out.deep_view();
    let ghost now = cur@;
    out.push(cur);
    assert(out.deep_view() =~= before.push(now));
    out
}

pub open spec fn nonempty(x: Seq<char>) -> bool {
    x.len() > 0
}

/// The runs of characters between white space.
pub open spec fn words_of(s: Seq<char>) -> Seq<Seq<char>> {
    keep(pieces_by(s, whites()), |x: Seq<char>| nonempty(x))
}

pub fn words(s: &str) -> (r: Vec<String>)
    ensures
        r.deep_view() == words_of(s@),
{
    let v = chars_of(s);
    let mut out: Vec<String> = Vec::new();
    let mut cur = String::new();
    let ghost f = |x: Seq<char>| nonempty(x);
    let mut i: usize = 0;
    proof {
        assert(pieces_by(s@.take(0), whites()) =~= seq![Seq::<char>::empty()]);
        assert(seq![Seq::<char>::empty()].drop_last() =~= Seq::<Seq<char>>::empty());
        assert(out.deep_view() =~= keep(Seq::<Seq<char>>::empty(), f));
    }
    while i < v.len()
        invariant
            i <= v.len(),
            v@ == s@,
            f == (|x: Seq<char>| nonempty(x)),
            pieces_by(s@.take(i as int), whites()).len() > 0,
            pieces_by(s@.take(i as int), whites()).last() == cur@,
            out.deep_view() == keep(pieces_by(s@.take(i as int), whites()).drop_last(), f),
        decreases v.len() - i,
    {
        broadcast use take_next;

        let ghost p0 = pieces_by(s@.take(i as int), whites());
        let ghost before = out.deep_view();
        let ghost now = cur@;
        let c = v[i];
        i += 1;
        assert(s@.take(i as int) == s@.take((i - 1) + 1));
        let ghost p1 = pieces_by(s@.take(i as int), whites());
        if white(c) {
            assert(p1.drop_last() =~= p0);
            assert(p0 =~= p0.drop_last().push(now));
            if cur.as_str().is_empty() {
                assert(!f(now));
            } else {
                assert(f(now));
                out.push(cur);
                assert(out.deep_view() =~= before.push(now));
            }
            cur = String::new();
        } else {
            cur.push(c);
            assert(p1.drop_last() =~= p0.drop_last());
        }
    }
    broadcast use take_all;

    let ghost p = pieces_by(s@, whites());
    let ghost before = out.deep_view();
    let ghost now = cur@;
    assert(s@.take(i as int) == s@);
    assert(p =~= p.drop_last().push(now));
    if cur.as_str().is_empty() {
        assert(!f(now));
    } else {
        assert(f(now));
        out.push(cur);
        assert(out.deep_view() =~= before.push(now));
    }
    out
}

/// A line without the carriage return before its line feed.
pub open spec fn without_cr(l: Seq<char>) -> Seq<char> {
    if l.len() > 0 && l.last() == '\r' {
        l.drop_last()
    } else {
        l
    }
}

/// The lines of `s`: every line feed, with a carriage return before it, ends one,
/// and an empty rest is none.
pub open spec fn lines_of(s: Seq<char>) -> Seq<Seq<char>> {
    let p = pieces(s, '\n');
    let ended = p.drop_last().map_values(|l: Seq<char>| without_cr(l));
    if p.last().len() == 0 {
        ended
    } else {
        ended.push(p.last())
    }
}

pub fn lines(s: &str) -> (r: Vec<String>)
    ensures
        r.deep_view() == lines_of(s@),
{
    let parts = split(s, '\n');
    let ghost p = pieces(s@, '\n');
    let n: usize = parts.len() - 1;
    let mut out: Vec<String> = Vec::new();
    let mut i: usize = 0;
    while i < n
        invariant
            i <= n,
            n == parts.len() - 1,
            parts.deep_view() == p,
            out.deep_view() == p.take(i as int).map_values(|l: Seq<char>| without_cr(l)),
        decreases n - i,
    {
        let ghost before = out.deep_view();
        let l = &parts[i];
        assert(l@ == p[i as int]);
        assert(l@.len() > 0 ==> (l@.skip(l@.len() - 1) =~= seq![l@.last()]));
        assert(l@.len() > 0 ==> l@.take(l@.len() - 1) =~= l@.drop_last());
        proof {
            reveal_strlit("\r");
            assert("\r"@ =~= seq!['\r']);
            assert(l@.len() > 0 && l@.last() != '\r' ==> seq![l@.last()][0] != seq!['\r'][0]);
        }
        let t = match strip_suffix(l.as_str(), "\r") {
            Some(t) => owned(t),
            None => l.clone(),
        };
        assert(t@ == without_cr(p[i as int]));
        let ghost now = t@;
        out.push(t);
        assert(out.deep_view() =~= before.push(now));
        i += 1;
        assert(p.take(i as int).map_values(|l: Seq<char>| without_cr(l)) =~= before.push(now));
    }
    assert(p.take(n as int) =~= p.drop_last());
    let last = &parts[n];
    assert(last@ == p.last());
    if !last.as_str().is_empty() {
        let ghost before = out.deep_view();
        out.push(last.clone());
        assert(out.deep_view() =~= before.push(p.last()));
    }
    out
}

// ---------------------------------------------------------------------------
// One cut

/// `s` before and after its first `c`.
pub open spec fn cut_once(s: Seq<char>, c: char) -> Option<(Seq<char>, Seq<char>)> {
    match first_of(s, c) {
        Some(i) => Some((s.take(i), s.skip(i + 1))),
        None => None,
    }
}

/// `s` before and after its last `c`.
pub open spec fn rcut_once(s: Seq<char>, c: char) -> Option<(Seq<char>, Seq<char>)> {
    match last_of(s, c) {
        Some(i) => Some((s.take(i), s.skip(i + 1))),
        None => None,
    }
}

/// What stands after the last `c`, or all of `s` where there is none.
pub open spec fn tail_of(s: Seq<char>, c: char) -> Seq<char> {
    match rcut_once(s, c) {
        Some(p) => p.1,
        None => s,
    }
}

/// What stands before the first `c`, or all of `s` where there is none.
pub open spec fn head_of(s: Seq<char>, c: char) -> Seq<char> {
    match cut_once(s, c) {
        Some(p) => p.0,
        None => s,
    }
}

pub fn split_once<'a>(s: &'a str, c: char) -> (r: Option<(&'a str, &'a str)>)
    ensures
        r.deep_view() == cut_once(s@, c),
{
    match find_char(s, c) {
        Some(i) => {
            let n: usize = s.unicode_len();
            let a = s.substring_char(0, i);
            let b = s.substring_char(i + 1, n);
            assert(a@ =~= s@.take(i as int));
            assert(b@ =~= s@.skip(i + 1));
            Some((a, b))
        },
        None => None,
    }
}

pub fn rsplit_once<'a>(s: &'a str, c: char) -> (r: Option<(&'a str, &'a str)>)
    ensures
        r.deep_view() == rcut_once(s@, c),
{
    match rfind_char(s, c) {
        Some(i) => {
            let n: usize = s.unicode_len();
            let a = s.substring_char(0, i);
            let b = s.substring_char(i + 1, n);
            assert(a@ =~= s@.take(i as int));
            assert(b@ =~= s@.skip(i + 1));
            Some((a, b))
        },
        None => None,
    }
}

pub fn after_last<'a>(s: &'a str, c: char) -> (r: &'a str)
    ensures
        r@ == tail_of(s@, c),
{
    match rsplit_once(s, c) {
        Some(p) => p.1,
        None => s,
    }
}

pub fn before_first<'a>(s: &'a str, c: char) -> (r: &'a str)
    ensures
        r@ == head_of(s@, c),
{
    match split_once(s, c) {
        Some(p) => p.0,
        None => s,
    }
}

// ---------------------------------------------------------------------------
// Replacing and joining

/// `s` with `with` in place of every `c`.
pub open spec fn replaced(s: Seq<char>, c: char, with: Seq<char>) -> Seq<char>
    decreases s.len(),
{
    if s.len() == 0 {
        s
    } else if s.last() == c {
        replaced(s.drop_last(), c, with) + with
    } else {
        replaced(s.drop_last(), c, with).push(s.last())
    }
}

pub fn replace(s: &str, c: char, with: &str) -> (r: String)
    ensures
        r@ == replaced(s@, c, with@),
{
    let v = chars_of(s);
    let mut out = String::new();
    let mut i: usize = 0;
    assert(s@.take(0) =~= Seq::<char>::empty());
    while i < v.len()
        invariant
            i <= v.len(),
            v@ == s@,
            out@ == replaced(s@.take(i as int), c, with@),
        decreases v.len() - i,
    {
        broadcast use take_next;

        if v[i] == c {
            out.append(with);
        } else {
            out.push(v[i]);
        }
        i += 1;
        assert(s@.take(i as int) == s@.take((i - 1) + 1));
    }
    broadcast use take_all;

    assert(s@.take(i as int) == s@);
    out
}

/// The texts of `s`, with `sep` between each two.
pub open spec fn joined(s: Seq<Seq<char>>, sep: Seq<char>) -> Seq<char>
    decreases s.len(),
{
    if s.len() == 0 {
        Seq::empty()
    } else if s.len() == 1 {
        s[0]
    } else {
        joined(s.drop_last(), sep) + sep + s.last()
    }
}

pub fn join(v: &Vec<String>, sep: &str) -> (r: String)
    ensures
        r@ == joined(v.deep_view(), sep@),
{
    let mut out = String::new();
    let ghost d = v.deep_view();
    let mut i: usize = 0;
    while i < v.len()
        invariant
            i <= v.len(),
            d == v.deep_view(),
            out@ == joined(d.take(i as int), sep@),
        decreases v.len() - i,
    {
        broadcast use take_next;

        let ghost before = out@;
        if i > 0 {
            out.append(sep);
        }
        out.append(v[i].as_str());
        i += 1;
        assert(d.take(i as int) == d.take((i - 1) + 1));
        assert(v@[i - 1]@ == d[i - 1]);
        assert(out@ =~= joined(d.take(i as int), sep@));
    }
    broadcast use take_all;

    assert(d.take(i as int) == d);
    out
}

/// Replacing goes character by character.
pub proof fn replaced_push(s: Seq<char>, x: char, c: char, with: Seq<char>)
    ensures
        replaced(s.push(x), c, with) == replaced(s, c, with) + (if x == c {
            with
        } else {
            seq![x]
        }),
{
    assert(s.push(x).drop_last() =~= s);
    assert(replaced(s.push(x), c, with) =~= replaced(s, c, with) + (if x == c {
        with
    } else {
        seq![x]
    }));
}

/// Replacing goes part by part.
pub proof fn replaced_concat(a: Seq<char>, b: Seq<char>, c: char, with: Seq<char>)
    ensures
        replaced(a + b, c, with) == replaced(a, c, with) + replaced(b, c, with),
    decreases b.len(),
{
    if b.len() == 0 {
        assert(a + b =~= a);
        assert(replaced(a, c, with) + replaced(b, c, with) =~= replaced(a, c, with));
    } else {
        let x = b.last();
        replaced_concat(a, b.drop_last(), c, with);
        assert(a + b =~= (a + b.drop_last()).push(x));
        assert(b =~= b.drop_last().push(x));
        replaced_push(a + b.drop_last(), x, c, with);
        replaced_push(b.drop_last(), x, c, with);
        let w = if x == c {
            with
        } else {
            seq![x]
        };
        assert(replaced(a, c, with) + replaced(b.drop_last(), c, with) + w =~= replaced(
            a,
            c,
            with,
        ) + (replaced(b.drop_last(), c, with) + w));
    }
}

/// What replacing makes of one character.
pub proof fn replaced_one(x: char, c: char, with: Seq<char>)
    ensures
        replaced(seq![x], c, with) == (if x == c {
            with
        } else {
            seq![x]
        }),
{
    assert(Seq::<char>::empty().push(x) =~= seq![x]);
    replaced_push(Seq::empty(), x, c, with);
    assert(replaced(Seq::empty(), c, with) =~= Seq::empty());
    assert(Seq::<char>::empty() + with =~= with);
    assert(Seq::<char>::empty() + seq![x] =~= seq![x]);
}

} // verus!

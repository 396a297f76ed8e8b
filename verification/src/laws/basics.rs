//! The vocabulary of the contracts: lists and texts.
use crate::lists::{first_where, flat, keep, pick, sorted_of, sorted_of_lists};
use crate::split::{
    cut_once, head_of, joined, lines_of, nonempty, pieces, pieces_by, rcut_once, replaced, tail_of,
    words_of,
};
use crate::text::{
    drop_while, find_from_is_first, first_at, first_of, lex_lt, occurs_at, search_from, has_prefix,
    has_suffix, is_alnum, is_digit, is_lower, is_upper, is_white, last_of, lowered, lowered_char,
    only, rfind_to_is_last, skip_while, trimmed, trimmed_of, whites,
};
use vstd::prelude::*;

verus! {

// ---------------------------------------------------------------------------
// Lists

/// Keeping is filtering: everything that qualifies stays, in order, and nothing else.
pub proof fn keep_is_filter<T>(s: Seq<T>, f: spec_fn(T) -> bool)
    ensures
        keep(s, f) == s.filter(f),
    decreases s.len(),
{
    reveal(Seq::filter);
    if s.len() > 0 {
        keep_is_filter(s.drop_last(), f);
    }
}

/// What is picked is what some item gives.
pub proof fn pick_members<T, U>(s: Seq<T>, f: spec_fn(T) -> Option<U>, x: U)
    ensures
        pick(s, f).contains(x) <==> exists|i: int| 0 <= i < s.len() && f(#[trigger] s[i]) == Some(x),
        pick(s, f).len() <= s.len(),
    decreases s.len(),
{
    if s.len() > 0 {
        let rest = s.drop_last();
        let n = rest.len() as int;
        pick_members(rest, f, x);
        let p = pick(rest, f);
        assert(s[n] == s.last());
        if p.contains(x) {
            let i = choose|i: int| 0 <= i < rest.len() && f(#[trigger] rest[i]) == Some(x);
            assert(s[i] == rest[i]);
        }
        match f(s.last()) {
            Some(y) => {
                assert(p.push(y)[p.len() as int] == y);
                if p.contains(x) {
                    let k = choose|k: int| 0 <= k < p.len() && p[k] == x;
                    assert(p.push(y)[k] == x);
                }
                if p.push(y).contains(x) {
                    let k = choose|k: int| 0 <= k < p.push(y).len() && p.push(y)[k] == x;
                    if k < p.len() {
                        assert(p[k] == x);
                    }
                }
            },
            None => {},
        }
        if exists|i: int| 0 <= i < s.len() && f(#[trigger] s[i]) == Some(x) {
            let i = choose|i: int| 0 <= i < s.len() && f(#[trigger] s[i]) == Some(x);
            if i < n {
                assert(rest[i] == s[i]);
            }
        }
    }
}

/// What the parts hold together is what some part holds.
pub proof fn flat_members<T, U>(s: Seq<T>, f: spec_fn(T) -> Seq<U>, x: U)
    ensures
        flat(s, f).contains(x) <==> exists|i: int| 0 <= i < s.len() && f(#[trigger] s[i]).contains(x),
    decreases s.len(),
{
    if s.len() > 0 {
        let rest = s.drop_last();
        let n = rest.len() as int;
        flat_members(rest, f, x);
        assert(s[n] == s.last());
        concat_members(flat(rest, f), f(s.last()), x);
        if flat(rest, f).contains(x) {
            let i = choose|i: int| 0 <= i < rest.len() && f(#[trigger] rest[i]).contains(x);
            assert(s[i] == rest[i]);
        }
        if exists|i: int| 0 <= i < s.len() && f(#[trigger] s[i]).contains(x) {
            let i = choose|i: int| 0 <= i < s.len() && f(#[trigger] s[i]).contains(x);
            if i < n {
                assert(rest[i] == s[i]);
            }
        }
    }
}

pub proof fn concat_members<U>(a: Seq<U>, b: Seq<U>, x: U)
    ensures
        (a + b).contains(x) <==> a.contains(x) || b.contains(x),
{
    if a.contains(x) {
        let k = choose|k: int| 0 <= k < a.len() && a[k] == x;
        assert((a + b)[k] == x);
    }
    if b.contains(x) {
        let k = choose|k: int| 0 <= k < b.len() && b[k] == x;
        assert((a + b)[a.len() + k] == x);
    }
    if (a + b).contains(x) {
        let k = choose|k: int| 0 <= k < (a + b).len() && (a + b)[k] == x;
        if k < a.len() {
            assert(a[k] == x);
        } else {
            assert(b[k - a.len()] == x);
        }
    }
}

pub proof fn push_members<U>(a: Seq<U>, y: U, x: U)
    ensures
        a.push(y).contains(x) <==> a.contains(x) || x == y,
{
    if a.contains(x) {
        let k = choose|k: int| 0 <= k < a.len() && a[k] == x;
        assert(a.push(y)[k] == x);
    }
    assert(a.push(y)[a.len() as int] == y);
    if a.push(y).contains(x) {
        let k = choose|k: int| 0 <= k < a.push(y).len() && a.push(y)[k] == x;
        if k < a.len() {
            assert(a[k] == x);
        }
    }
}

// ---------------------------------------------------------------------------
// Characters

/// The classes of characters, by their codes.
pub proof fn characters_by_code(c: char)
    ensures
        is_upper(c) <==> 65 <= c as int <= 90,
        is_lower(c) <==> 97 <= c as int <= 122,
        is_digit(c) <==> 48 <= c as int <= 57,
        is_alnum(c) <==> 65 <= c as int <= 90 || 97 <= c as int <= 122 || 48 <= c as int <= 57,
        lowered_char(c) as int == (if 65 <= c as int <= 90 {
            c as int + 32
        } else {
            c as int
        }),
        c as int <= 0x7f ==> (is_white(c) <==> c as int == 32 || 9 <= c as int <= 13),
{
}

/// Lowering changes upper-case letters only, each in its place.
pub proof fn lowered_by_place(s: Seq<char>, i: int)
    requires
        0 <= i < s.len(),
    ensures
        lowered(s).len() == s.len(),
        65 <= s[i] as int <= 90 ==> lowered(s)[i] as int == s[i] as int + 32,
        !(65 <= s[i] as int <= 90) ==> lowered(s)[i] == s[i],
{
}

// ---------------------------------------------------------------------------
// Trimming

/// Trimming takes white space from both ends and nothing else.
pub proof fn trimmed_is_core(a: Seq<char>, core: Seq<char>, b: Seq<char>)
    requires
        forall|i: int| 0 <= i < a.len() ==> is_white(#[trigger] a[i]),
        forall|i: int| 0 <= i < b.len() ==> is_white(#[trigger] b[i]),
        core.len() > 0 ==> !is_white(core[0]) && !is_white(core.last()),
    ensures
        trimmed(a + core + b) == core,
{
    let s = a + core + b;
    skip_all(a, core + b, whites());
    assert(a + (core + b) =~= s);
    if core.len() == 0 {
        skip_all(b, Seq::empty(), whites());
        assert(b + Seq::<char>::empty() =~= b);
        assert(core + b =~= b);
        assert(skip_while(Seq::<char>::empty(), whites()) =~= Seq::empty());
        assert(skip_while(b, whites()) =~= Seq::empty());
        assert(drop_while(Seq::<char>::empty(), whites()) =~= Seq::empty());
        assert(core =~= Seq::empty());
    } else {
        assert((core + b)[0] == core[0]);
        assert(skip_while(core + b, whites()) == core + b);
        drop_all(core, b, whites());
        assert(drop_while(core, whites()) == core);
    }
}

/// The like for one character.
pub proof fn trimmed_of_is_core(a: Seq<char>, core: Seq<char>, b: Seq<char>, c: char)
    requires
        forall|i: int| 0 <= i < a.len() ==> #[trigger] a[i] == c,
        forall|i: int| 0 <= i < b.len() ==> #[trigger] b[i] == c,
        core.len() > 0 ==> core[0] != c && core.last() != c,
    ensures
        trimmed_of(a + core + b, c) == core,
{
    let s = a + core + b;
    skip_all(a, core + b, only(c));
    assert(a + (core + b) =~= s);
    if core.len() == 0 {
        skip_all(b, Seq::empty(), only(c));
        assert(b + Seq::<char>::empty() =~= b);
        assert(core + b =~= b);
        assert(skip_while(Seq::<char>::empty(), only(c)) =~= Seq::empty());
        assert(skip_while(b, only(c)) =~= Seq::empty());
        assert(drop_while(Seq::<char>::empty(), only(c)) =~= Seq::empty());
        assert(core =~= Seq::empty());
    } else {
        assert((core + b)[0] == core[0]);
        assert(skip_while(core + b, only(c)) == core + b);
        drop_all(core, b, only(c));
        assert(drop_while(core, only(c)) == core);
    }
}

pub proof fn skip_all(a: Seq<char>, rest: Seq<char>, p: spec_fn(char) -> bool)
    requires
        forall|i: int| 0 <= i < a.len() ==> p(#[trigger] a[i]),
    ensures
        skip_while(a + rest, p) == skip_while(rest, p),
    decreases a.len(),
{
    if a.len() == 0 {
        assert(a + rest =~= rest);
    } else {
        assert((a + rest)[0] == a[0]);
        assert((a + rest).skip(1) =~= a.skip(1) + rest);
        assert forall|i: int| 0 <= i < a.skip(1).len() implies p(#[trigger] a.skip(1)[i]) by {
            assert(a.skip(1)[i] == a[i + 1]);
        }
        skip_all(a.skip(1), rest, p);
    }
}

pub proof fn drop_all(rest: Seq<char>, b: Seq<char>, p: spec_fn(char) -> bool)
    requires
        forall|i: int| 0 <= i < b.len() ==> p(#[trigger] b[i]),
    ensures
        drop_while(rest + b, p) == drop_while(rest, p),
    decreases b.len(),
{
    if b.len() == 0 {
        assert(rest + b =~= rest);
    } else {
        assert((rest + b).last() == b[b.len() - 1]);
        assert((rest + b).drop_last() =~= rest + b.drop_last());
        assert forall|i: int| 0 <= i < b.drop_last().len() implies p(
            #[trigger] b.drop_last()[i],
        ) by {
            assert(b.drop_last()[i] == b[i]);
        }
        drop_all(rest, b.drop_last(), p);
    }
}

// ---------------------------------------------------------------------------
// Cutting

/// A text is cut at the first and at the last of its separators.
pub proof fn cuts_are_at_the_ends(a: Seq<char>, b: Seq<char>, c: char)
    ensures
        !a.contains(c) ==> cut_once(a.push(c) + b, c) == Some((a, b)),
        !a.contains(c) ==> head_of(a.push(c) + b, c) == a,
        !b.contains(c) ==> rcut_once(a.push(c) + b, c) == Some((a, b)),
        !b.contains(c) ==> tail_of(a.push(c) + b, c) == b,
        !a.contains(c) ==> cut_once(a, c) is None && rcut_once(a, c) is None,
        !a.contains(c) ==> head_of(a, c) == a && tail_of(a, c) == a,
{
    let s = a.push(c) + b;
    let n = a.len() as int;
    assert(s[n] == c);
    find_from_is_first(s, c, 0);
    rfind_to_is_last(s, c, s.len() as int);
    find_from_is_first(a, c, 0);
    rfind_to_is_last(a, c, n);
    if !a.contains(c) {
        assert forall|k: int| 0 <= k < n implies s[k] != c by {
            assert(a.contains(a[k]));
        }
        assert(first_of(s, c) == Some(n));
        assert(s.take(n) =~= a);
        assert(s.skip(n + 1) =~= b);
        if first_of(a, c) is Some {
            assert(a.contains(a[first_of(a, c)->0]));
        }
        if last_of(a, c) is Some {
            assert(a.contains(a[last_of(a, c)->0]));
        }
    }
    if !b.contains(c) {
        assert forall|k: int| n < k < s.len() implies s[k] != c by {
            assert(b.contains(b[k - n - 1]));
        }
        assert(last_of(s, c) == Some(n));
        assert(s.take(n) =~= a);
        assert(s.skip(n + 1) =~= b);
    }
}

/// A text cut into pieces: where two texts meet at a separator, so do their pieces.
pub proof fn pieces_meet_at(a: Seq<char>, sep: char, b: Seq<char>, p: spec_fn(char) -> bool)
    requires
        p(sep),
    ensures
        pieces_by(a.push(sep) + b, p) == pieces_by(a, p) + pieces_by(b, p),
        pieces_by(b, p).len() > 0,
    decreases b.len(),
{
    let whole = a.push(sep) + b;
    let pa = pieces_by(a, p);
    if b.len() == 0 {
        assert(whole =~= a.push(sep));
        assert(whole.drop_last() =~= a);
        assert(pieces_by(whole, p) =~= pa + pieces_by(b, p));
    } else {
        pieces_meet_at(a, sep, b.drop_last(), p);
        assert(whole.drop_last() =~= a.push(sep) + b.drop_last());
        assert(whole.last() == b.last());
        let before = pieces_by(b.drop_last(), p);
        assert((pa + before).last() == before.last());
        assert((pa + before).drop_last() =~= pa + before.drop_last());
        assert(pieces_by(whole, p) =~= pa + pieces_by(b, p));
    }
}

/// A text without a separator is one piece.
pub proof fn one_piece(s: Seq<char>, p: spec_fn(char) -> bool)
    requires
        forall|i: int| 0 <= i < s.len() ==> !p(#[trigger] s[i]),
    ensures
        pieces_by(s, p) == seq![s],
    decreases s.len(),
{
    if s.len() == 0 {
        assert(s =~= Seq::empty());
    } else {
        assert(!p(s[s.len() - 1]));
        assert forall|i: int| 0 <= i < s.drop_last().len() implies !p(
            #[trigger] s.drop_last()[i],
        ) by {
            assert(s.drop_last()[i] == s[i]);
        }
        one_piece(s.drop_last(), p);
        assert(s.drop_last().push(s.last()) =~= s);
        assert(pieces_by(s, p) =~= seq![s]);
    }
}

/// Cutting and joining undo each other: what is joined from pieces without the separator
/// is cut into them again.
pub proof fn joined_is_cut(parts: Seq<Seq<char>>, c: char)
    requires
        parts.len() > 0,
        forall|i: int| 0 <= i < parts.len() ==> !(#[trigger] parts[i]).contains(c),
    ensures
        pieces(joined(parts, seq![c]), c) == parts,
    decreases parts.len(),
{
    let last = parts[parts.len() - 1];
    assert forall|i: int| 0 <= i < last.len() implies !only(c)(#[trigger] last[i]) by {
        assert(last.contains(last[i]));
    }
    one_piece(last, only(c));
    if parts.len() == 1 {
        assert(parts =~= seq![last]);
    } else {
        let rest = parts.drop_last();
        assert forall|i: int| 0 <= i < rest.len() implies !(#[trigger] rest[i]).contains(c) by {
            assert(rest[i] == parts[i]);
        }
        joined_is_cut(rest, c);
        let a = joined(rest, seq![c]);
        assert(joined(parts, seq![c]) =~= a.push(c) + last);
        pieces_meet_at(a, c, last, only(c));
        assert(rest + seq![last] =~= parts);
    }
}

/// The first word of a text is what stands before its first white space.
pub proof fn first_word(w: Seq<char>, sep: char, rest: Seq<char>)
    requires
        w.len() > 0,
        forall|i: int| 0 <= i < w.len() ==> !is_white(#[trigger] w[i]),
        is_white(sep),
    ensures
        words_of(w).len() == 1 && words_of(w)[0] == w,
        words_of(w.push(sep) + rest).len() > 0,
        words_of(w.push(sep) + rest)[0] == w,
        words_of(w.push(sep) + rest).len() == 1 + words_of(rest).len(),
{
    let f = |x: Seq<char>| nonempty(x);
    one_piece(w, whites());
    pieces_meet_at(w, sep, rest, whites());
    let all = pieces_by(rest, whites());
    keep_is_filter(seq![w], f);
    keep_is_filter(seq![w] + all, f);
    keep_is_filter(all, f);
    Seq::filter_distributes_over_add(seq![w], all, f);
    reveal(Seq::filter);
    assert(seq![w].drop_last() =~= Seq::empty());
    assert(seq![w].filter(f) =~= seq![w]);
    assert((seq![w] + all.filter(f))[0] == w);
}

/// A line ends at each line feed; the carriage return before it is not part of it.
pub proof fn first_line(l: Seq<char>, rest: Seq<char>)
    requires
        !l.contains('\n'),
        !l.contains('\r'),
    ensures
        lines_of(l.push('\n') + rest) == seq![l] + lines_of(rest),
        lines_of(l.push('\r').push('\n') + rest) == seq![l] + lines_of(rest),
        l.len() > 0 ==> lines_of(l) == seq![l],
{
    let cut = |x: Seq<char>| crate::split::without_cr(x);
    let cr = l.push('\r');
    assert forall|i: int| 0 <= i < l.len() implies !only('\n')(#[trigger] l[i]) by {
        assert(l.contains(l[i]));
    }
    assert forall|i: int| 0 <= i < cr.len() implies !only('\n')(#[trigger] cr[i]) by {
        if i < l.len() {
            assert(l.contains(l[i]));
        }
    }
    one_piece(l, only('\n'));
    one_piece(cr, only('\n'));
    pieces_meet_at(l, '\n', rest, only('\n'));
    pieces_meet_at(cr, '\n', rest, only('\n'));
    let p = pieces(rest, '\n');
    assert(crate::split::without_cr(l) == l) by {
        if l.len() > 0 {
            assert(l.contains(l[l.len() - 1]));
        }
    }
    assert(cr.drop_last() =~= l);
    assert((seq![l] + p).drop_last() =~= seq![l] + p.drop_last());
    assert((seq![cr] + p).drop_last() =~= seq![cr] + p.drop_last());
    assert((seq![l] + p.drop_last()).map_values(cut) =~= seq![l] + p.drop_last().map_values(cut));
    assert((seq![cr] + p.drop_last()).map_values(cut) =~= seq![l] + p.drop_last().map_values(cut));
    assert(lines_of(l.push('\n') + rest) =~= seq![l] + lines_of(rest));
    assert(lines_of(cr.push('\n') + rest) =~= seq![l] + lines_of(rest));
    if l.len() > 0 {
        assert(seq![l].drop_last().map_values(cut) =~= Seq::empty());
        assert(lines_of(l) =~= seq![l]);
    }
}

/// Replacing goes character by character.
pub proof fn replaced_by_parts(a: Seq<char>, b: Seq<char>, c: char, with: Seq<char>)
    ensures
        !a.contains(c) ==> replaced(a, c, with) == a,
        replaced(a.push(c) + b, c, with) == replaced(a, c, with) + with + replaced(b, c, with),
    decreases a.len() + b.len(),
{
    if !a.contains(c) && a.len() > 0 {
        assert(a.contains(a[a.len() - 1]));
        assert(!a.drop_last().contains(c)) by {
            if a.drop_last().contains(c) {
                let i = choose|i: int| 0 <= i < a.drop_last().len() && a.drop_last()[i] == c;
                assert(a[i] == c);
            }
        }
        replaced_by_parts(a.drop_last(), Seq::empty(), c, with);
        assert(a.drop_last().push(a.last()) =~= a);
    }
    let s = a.push(c) + b;
    if b.len() == 0 {
        assert(s =~= a.push(c));
        assert(s.drop_last() =~= a);
        assert(replaced(s, c, with) =~= replaced(a, c, with) + with + replaced(b, c, with));
    } else {
        replaced_by_parts(a, b.drop_last(), c, with);
        assert(s.drop_last() =~= a.push(c) + b.drop_last());
        assert(s.last() == b.last());
        assert(replaced(s, c, with) =~= replaced(a, c, with) + with + replaced(b, c, with));
    }
}

/// Prefixes and suffixes are what a text begins and ends with.
pub proof fn ends_of_texts(p: Seq<char>, rest: Seq<char>)
    ensures
        has_prefix(p + rest, p),
        has_suffix(rest + p, p),
        crate::text::after_prefix(p + rest, p) == Some(rest),
        crate::text::before_suffix(rest + p, p) == Some(rest),
{
    assert((p + rest).take(p.len() as int) =~= p);
    assert((p + rest).skip(p.len() as int) =~= rest);
    assert((rest + p).skip((rest + p).len() - p.len()) =~= p);
    assert((rest + p).take((rest + p).len() - p.len()) =~= rest);
}

/// The first item that qualifies is found, and none where none does.
pub proof fn first_where_is_first<T>(s: Seq<T>, f: spec_fn(T) -> bool)
    ensures
        first_where(s, f) is None <==> forall|i: int| 0 <= i < s.len() ==> !f(#[trigger] s[i]),
        forall|i: int|
            0 <= i < s.len() && f(#[trigger] s[i]) && (forall|j: int|
                0 <= j < i ==> !f(#[trigger] s[j])) ==> first_where(s, f) == Some(s[i]),
        first_where(s, f) matches Some(x) ==> f(x) && s.contains(x),
    decreases s.len(),
{
    if s.len() > 0 && !f(s[0]) {
        let r = s.skip(1);
        first_where_is_first(r, f);
        assert forall|i: int| 0 <= i < r.len() implies #[trigger] r[i] == s[i + 1] by {}
        assert forall|i: int| 0 < i < s.len() implies #[trigger] s[i] == r[i - 1] by {}
        if first_where(r, f) is None {
            assert forall|i: int| 0 <= i < s.len() implies !f(#[trigger] s[i]) by {
                if i > 0 {
                    assert(!f(r[i - 1]));
                }
            }
        } else {
            let x = first_where(r, f)->0;
            let k = choose|k: int| 0 <= k < r.len() && r[k] == x;
            assert(s[k + 1] == x);
        }
        assert forall|i: int|
            0 <= i < s.len() && f(#[trigger] s[i]) && (forall|j: int|
                0 <= j < i ==> !f(#[trigger] s[j])) implies first_where(s, f) == Some(s[i]) by {
            assert(i > 0);
            assert forall|j: int| 0 <= j < i - 1 implies !f(#[trigger] r[j]) by {
                assert(!f(s[j + 1]));
            }
            assert(f(r[i - 1]));
        }
    } else if s.len() > 0 {
        assert(s.contains(s[0]));
        assert forall|i: int|
            0 <= i < s.len() && f(#[trigger] s[i]) && (forall|j: int|
                0 <= j < i ==> !f(#[trigger] s[j])) implies first_where(s, f) == Some(s[i]) by {
            if i > 0 {
                assert(!f(s[0]));
            }
        }
    }
}

/// Whether `p` stands somewhere in `s`.
pub open spec fn appears(s: Seq<char>, p: Seq<char>) -> bool {
    exists|a: Seq<char>, b: Seq<char>| s == #[trigger] (a + p + b)
}

/// A search finds a text exactly where it appears.
pub proof fn searches_find_what_appears(s: Seq<char>, p: Seq<char>)
    ensures
        first_at(s, p) is Some <==> appears(s, p),
        first_at(s, p) matches Some(i) ==> 0 <= i && i + p.len() <= s.len() && s == s.take(i) + p
            + s.skip(i + p.len()),
{
    search_is_exact(s, p, 0);
    if appears(s, p) {
        let (a, b) = choose|a: Seq<char>, b: Seq<char>| s == #[trigger] (a + p + b);
        assert(s.subrange(a.len() as int, (a.len() + p.len()) as int) =~= p);
        assert(occurs_at(s, p, a.len() as int));
    }
    match first_at(s, p) {
        Some(i) => {
            assert(s =~= s.take(i) + p + s.skip(i + p.len())) by {
                assert forall|k: int| i <= k < i + p.len() implies s[k] == p[k - i] by {
                    assert(s.subrange(i, i + p.len())[k - i] == s[k]);
                }
            }
        },
        None => {},
    }
}

proof fn search_is_exact(s: Seq<char>, p: Seq<char>, i: int)
    requires
        0 <= i,
    ensures
        search_from(s, p, i) matches Some(k) ==> i <= k && occurs_at(s, p, k),
        search_from(s, p, i) is None ==> forall|k: int| i <= k ==> !#[trigger] occurs_at(s, p, k),
    decreases s.len() + 1 - i,
{
    if i + p.len() > s.len() {
    } else if !occurs_at(s, p, i) {
        search_is_exact(s, p, i + 1);
    }
}

/// The sorted list holds what was listed, each text once.
pub proof fn sorting_keeps_members(s: Seq<Seq<char>>, x: Seq<char>)
    ensures
        sorted_of(s).contains(x) <==> s.contains(x),
        forall|i: int, j: int|
            0 <= i < j < sorted_of(s).len() ==> lex_lt(
                #[trigger] sorted_of(s)[i],
                #[trigger] sorted_of(s)[j],
            ),
{
    sorted_of_lists(s);
    assert(s.to_set().contains(x) <==> s.contains(x));
}

/// The order of texts is that of their first different characters; a text stands behind
/// its beginnings.
pub proof fn order_is_by_character(common: Seq<char>, a: Seq<char>, b: Seq<char>)
    ensures
        a.len() > 0 && b.len() > 0 && a[0] != b[0] ==> (lex_lt(common + a, common + b) <==> (
        a[0] as int) < (b[0] as int)),
        b.len() > 0 ==> lex_lt(common, common + b),
        !lex_lt(common + b, common),
    decreases common.len(),
{
    if common.len() == 0 {
        assert(common + a =~= a);
        assert(common + b =~= b);
    } else {
        let c = common.skip(1);
        order_is_by_character(c, a, b);
        assert((common + a).skip(1) =~= c + a);
        assert((common + b).skip(1) =~= c + b);
    }
}

/// Whether a name is the simple one, bare or behind a prefix that ends in `sep`.
pub open spec fn is_local(name: Seq<char>, sep: char, simple: Seq<char>) -> bool {
    name == simple || exists|pre: Seq<char>| name == #[trigger] (pre.push(sep) + simple)
}

/// What stands behind the last separator is the local name.
pub proof fn local_names(name: Seq<char>, sep: char, simple: Seq<char>)
    requires
        !simple.contains(sep),
    ensures
        is_local(name, sep, simple) <==> tail_of(name, sep) == simple,
{
    cuts_are_at_the_ends(simple, simple, sep);
    if name != simple && is_local(name, sep, simple) {
        let pre = choose|pre: Seq<char>| name == #[trigger] (pre.push(sep) + simple);
        cuts_are_at_the_ends(pre, simple, sep);
    }
    if tail_of(name, sep) == simple && rcut_once(name, sep) is Some {
        let p = rcut_once(name, sep)->0;
        rfind_to_is_last(name, sep, name.len() as int);
        assert(name =~= p.0.push(sep) + simple);
    }
}

/// Picking is filtering, then mapping: what is picked keeps its order.
pub proof fn pick_is_filter_and_map<T, U>(s: Seq<T>, f: spec_fn(T) -> Option<U>)
    ensures
        pick(s, f) == s.filter(|x: T| f(x) is Some).map_values(|x: T| f(x)->0),
    decreases s.len(),
{
    reveal(Seq::filter);
    let g = |x: T| f(x) is Some;
    let h = |x: T| f(x)->0;
    if s.len() > 0 {
        let rest = s.drop_last();
        pick_is_filter_and_map(rest, f);
        if f(s.last()) is Some {
            assert(s.filter(g) == rest.filter(g).push(s.last()));
            assert(s.filter(g).map_values(h) =~= rest.filter(g).map_values(h).push(h(s.last())));
        }
        assert(pick(s, f) =~= s.filter(g).map_values(h));
    } else {
        assert(s.filter(g).map_values(h) =~= Seq::empty());
    }
}

/// What is kept of a list begins with its first item, where that qualifies.
pub proof fn keep_first<T>(x: T, s: Seq<T>, g: spec_fn(T) -> bool)
    ensures
        g(x) ==> keep(seq![x] + s, g) == seq![x] + keep(s, g),
        !g(x) ==> keep(seq![x] + s, g) == keep(s, g),
    decreases s.len(),
{
    let all = seq![x] + s;
    if s.len() == 0 {
        assert(all.drop_last() =~= Seq::empty());
        assert(all.last() == x);
        assert(keep(all.drop_last(), g) =~= Seq::empty());
        assert(keep(s, g) =~= Seq::empty());
        assert(seq![x] + keep(s, g) =~= seq![x]);
        assert(Seq::<T>::empty().push(x) =~= seq![x]);
    } else {
        keep_first(x, s.drop_last(), g);
        assert(all.drop_last() =~= seq![x] + s.drop_last());
        assert(all.last() == s.last());
        let k0 = keep(s.drop_last(), g);
        assert((seq![x] + k0).push(s.last()) =~= seq![x] + k0.push(s.last()));
    }
}

} // verus!

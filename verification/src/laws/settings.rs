//! Settings: how a line gives a key its value, and what stands for a placeholder.
use crate::extract::properties::{
    built, is_blank_or_comment, read_lines, resolved, separator_from, substituted, substitution,
    with_entry, ReadState,
};
use crate::laws::basics::{appears, ends_of_texts, searches_find_what_appears, trimmed_is_core};
use crate::laws::history::is_tight;
use crate::pattern::{between, matches_of, FoundView, PLACEHOLDER};
use crate::text::{is_white, trimmed, trimmed_start};
use vstd::prelude::*;
use vstd::utf8::encode_utf8;

verus! {

/// A line is cut at its first `=` or `:`; the key is what stands before it, the value what
/// stands behind, without the white space around them.
pub proof fn entries_are_cut_at_the_separator(
    m: Map<Seq<char>, Seq<char>>,
    k: Seq<char>,
    sep: char,
    v: Seq<char>,
)
    requires
        sep == '=' || sep == ':',
        !k.contains('=') && !k.contains(':'),
    ensures
        trimmed(k).len() > 0 ==> with_entry(m, k.push(sep) + v) == m.insert(trimmed(k), trimmed(v)),
        trimmed(k).len() == 0 ==> with_entry(m, k.push(sep) + v) == m,
        with_entry(m, k) == m,
{
    let line = k.push(sep) + v;
    separator_is_first(line, 0, k.len() as int);
    assert(line.take(k.len() as int) =~= k);
    assert(line.skip(k.len() + 1int) =~= v);
    no_separator(k, 0);
}

proof fn separator_is_first(s: Seq<char>, from: int, at: int)
    requires
        0 <= from <= at < s.len(),
        s[at] == '=' || s[at] == ':',
        forall|i: int| from <= i < at ==> #[trigger] s[i] != '=' && s[i] != ':',
    ensures
        separator_from(s, from) == Some(at),
    decreases at - from,
{
    if from < at {
        separator_is_first(s, from + 1, at);
    }
}

proof fn no_separator(s: Seq<char>, from: int)
    requires
        0 <= from <= s.len(),
        !s.contains('=') && !s.contains(':'),
    ensures
        separator_from(s, from) is None,
    decreases s.len() - from,
{
    if from < s.len() {
        assert(s.contains(s[from]));
        no_separator(s, from + 1);
    }
}

/// Whether nothing is to be continued and the line is indented by white space only.
pub open spec fn indents(a: Seq<char>) -> bool {
    forall|i: int| 0 <= i < a.len() ==> is_white(#[trigger] a[i])
}

proof fn indented(a: Seq<char>, s: Seq<char>)
    requires
        indents(a),
        s.len() > 0 ==> !is_white(s[0]),
    ensures
        trimmed_start(a + s) == s,
{
    crate::laws::basics::skip_all(a, s, crate::text::whites());
}

/// What one more line does. A comment begins with `#` or `!`; an entry is put under its key,
/// and a line that ends in a backslash goes on in the next, without that one's indentation.
pub proof fn lines_give_entries(
    ls: Seq<Seq<char>>,
    a: Seq<char>,
    k: Seq<char>,
    sep: char,
    v: Seq<char>,
    b: Seq<char>,
    w: Seq<char>,
)
    requires
        indents(a) && indents(b),
        sep == '=' || sep == ':',
        k.len() > 0 && is_tight(k) && !k.contains('=') && !k.contains(':'),
        k[0] != '#' && k[0] != '!',
        w.len() > 0 ==> !is_white(w[0]),
        read_lines(ls).pending.len() == 0,
    ensures
        v.len() == 0 || v.last() != '\\' ==> read_lines(ls.push(a + (k.push(sep) + v)))
            == (ReadState {
            entries: read_lines(ls).entries.insert(k, trimmed(v)),
            pending: Seq::empty(),
        }),
        w.len() > 0 && w.last() != '\\' ==> read_lines(
            ls.push(a + (k.push(sep) + v + "\\"@)).push(b + w),
        ).entries == read_lines(ls).entries.insert(k, trimmed(v + w)),
        read_lines(ls.push(a + ("#"@ + v))) == read_lines(ls),
        read_lines(ls.push(a + ("!"@ + v))) == read_lines(ls),
        read_lines(ls.push(a)) == read_lines(ls),
{
    reveal_strlit("\\");
    reveal_strlit("#");
    reveal_strlit("!");
    let line = k.push(sep) + v;
    let more = line + "\\"@;
    assert(line[0] == k[0] && more[0] == k[0]);
    indented(a, line);
    indented(a, more);
    indented(b, w);
    indented(a, "#"@ + v);
    indented(a, "!"@ + v);
    indented(a, Seq::empty());
    assert(a + Seq::<char>::empty() =~= a);
    ends_of_texts("#"@, v);
    ends_of_texts("!"@, v);
    ends_of_texts("\\"@, line);
    let e = Seq::<char>::empty();
    trimmed_is_core(e, k, e);
    assert(e + k + e =~= k);
    let s = read_lines(ls);
    assert(s.pending + line =~= line);
    assert(s.pending + more =~= more);
    assert(line.take(1)[0] == k[0]);
    assert(more.take(1)[0] == k[0]);
    not_comment(line);
    not_comment(more);
    entries_are_cut_at_the_separator(s.entries, k, sep, v);
    entries_are_cut_at_the_separator(s.entries, k, sep, v + w);
    assert(line + w =~= k.push(sep) + (v + w));
    assert(ls.push(a + line).drop_last() =~= ls);
    assert(ls.push(a + more).drop_last() =~= ls);
    assert(ls.push(a + more).push(b + w).drop_last() =~= ls.push(a + more));
    assert(ls.push(a + ("#"@ + v)).drop_last() =~= ls);
    assert(ls.push(a + ("!"@ + v)).drop_last() =~= ls);
    assert(ls.push(a).drop_last() =~= ls);
    if v.len() == 0 || v.last() != '\\' {
        assert(line.last() == (if v.len() == 0 {
            sep
        } else {
            v.last()
        }));
        no_backslash(line);
    }
    if w.len() > 0 && w.last() != '\\' {
        assert(read_lines(ls.push(a + more)).pending == line);
        let whole = line + w;
        assert(whole.last() == w.last());
        no_backslash(whole);
    }
}

proof fn not_comment(s: Seq<char>)
    requires
        s.len() > 0,
        s[0] != '#' && s[0] != '!',
    ensures
        !is_blank_or_comment(s),
{
    reveal_strlit("#");
    reveal_strlit("!");
    assert(s.take(1)[0] == s[0]);
    if crate::text::has_prefix(s, "#"@) {
        assert(s.take(1)[0] == "#"@[0]);
    }
    if crate::text::has_prefix(s, "!"@) {
        assert(s.take(1)[0] == "!"@[0]);
    }
}

proof fn no_backslash(s: Seq<char>)
    requires
        s.len() > 0,
        s.last() != '\\',
    ensures
        crate::text::before_suffix(s, "\\"@) is None,
{
    reveal_strlit("\\");
    if crate::text::has_suffix(s, "\\"@) {
        assert(s.skip(s.len() - 1)[0] == s.last());
    }
}

/// A placeholder gives way to the value of its key, else to its default; without either it
/// stays.
pub proof fn placeholders_give_way(f: FoundView, props: Map<Seq<char>, Seq<char>>, k: Seq<char>)
    requires
        f.groups.len() == 3,
        f.groups[0] is Some,
        f.groups[1] == Some(k) && is_tight(k),
    ensures
        props.dom().contains(k) ==> substitution(f, props) == props[k],
        !props.dom().contains(k) && f.groups[2] is Some ==> substitution(f, props)
            == f.groups[2]->0,
        !props.dom().contains(k) && f.groups[2] is None ==> substitution(f, props)
            == f.groups[0]->0,
{
    let e = Seq::<char>::empty();
    trimmed_is_core(e, k, e);
    assert(e + k + e =~= k);
}

/// The text around the placeholders stays, in its order.
pub proof fn text_around_placeholders_stays(
    text: Seq<char>,
    f: FoundView,
    g: FoundView,
    props: Map<Seq<char>, Seq<char>>,
)
    ensures
        substituted(text, seq![f], props) == between(text, 0, f.start as int) + substitution(
            f,
            props,
        ) + between(text, f.end as int, encode_utf8(text).len() as int),
        substituted(text, seq![f, g], props) == between(text, 0, f.start as int) + substitution(
            f,
            props,
        ) + between(text, f.end as int, g.start as int) + substitution(g, props) + between(
            text,
            g.end as int,
            encode_utf8(text).len() as int,
        ),
        substituted(text, Seq::empty(), props) == between(text, 0, encode_utf8(text).len() as int),
{
    reveal_with_fuel(built, 3);
    assert(substituted(text, seq![f], props) =~= between(text, 0, f.start as int) + substitution(
        f,
        props,
    ) + between(text, f.end as int, encode_utf8(text).len() as int));
    assert(substituted(text, seq![f, g], props) =~= between(text, 0, f.start as int)
        + substitution(f, props) + between(text, f.end as int, g.start as int) + substitution(
        g,
        props,
    ) + between(text, g.end as int, encode_utf8(text).len() as int));
    assert(substituted(text, Seq::empty(), props) =~= between(
        text,
        0,
        encode_utf8(text).len() as int,
    ));
}

/// Resolving goes round by round, until no placeholder is left, nothing changes any more or
/// the rounds are used up.
pub proof fn resolving_goes_in_rounds(text: Seq<char>, props: Map<Seq<char>, Seq<char>>, n: nat)
    ensures
        !appears(text, "${"@) ==> resolved(text, props, n) == text,
        resolved(text, props, 0) == text,
        ({
            let next = substituted(text, matches_of(PLACEHOLDER@, text), props);
            n > 0 && appears(text, "${"@) ==> resolved(text, props, n) == resolved(
                next,
                props,
                (n - 1) as nat,
            ) || next == text && resolved(text, props, n) == text
        }),
{
    searches_find_what_appears(text, "${"@);
}

} // verus!

//! Java `.properties` parsing and `${placeholder}` resolution.
use crate::pattern::{
    between, find_all, group_of, in_sequence, is_range, matches_of, slice, Found, FoundView,
    PLACEHOLDER,
};
use crate::split::{lines, lines_of, pieces, without_cr};
use crate::text::{
    before_suffix, chars_of, contains_str, first_at, has_prefix, has_suffix, is_white, owned, same,
    skip_while, starts_with, strip_suffix, trim, trim_start, trimmed, trimmed_start, whites,
};
use crate::textmap::TextMap;
use vstd::prelude::*;
use vstd::utf8::{encode_utf8, is_char_boundary_start_end_of_seq, encode_utf8_valid_utf8};

verus! {

/// A line that says nothing: blank, or a comment.
pub open spec fn is_blank_or_comment(line: Seq<char>) -> bool {
    line.len() == 0 || has_prefix(line, "#"@) || has_prefix(line, "!"@)
}

/// The first position of `=` or `:` at or after `i`.
pub open spec fn separator_from(s: Seq<char>, i: int) -> Option<int>
    decreases s.len() - i,
{
    if i < 0 || i >= s.len() {
        None
    } else if s[i] == '=' || s[i] == ':' {
        Some(i)
    } else {
        separator_from(s, i + 1)
    }
}

/// What has been read: the entries, and a line that awaits its continuation.
pub struct ReadState {
    pub entries: Map<Seq<char>, Seq<char>>,
    pub pending: Seq<char>,
}

/// One logical line put into the entries, where it has a key.
pub open spec fn with_entry(m: Map<Seq<char>, Seq<char>>, line: Seq<char>) -> Map<
    Seq<char>,
    Seq<char>,
> {
    match separator_from(line, 0) {
        Some(i) => {
            let key = trimmed(line.take(i));
            if key.len() > 0 {
                m.insert(key, trimmed(line.skip(i + 1)))
            } else {
                m
            }
        },
        None => m,
    }
}

/// What one physical line does. A trailing backslash continues onto the next line,
/// whose indentation is not part of the value.
pub open spec fn read_line(s: ReadState, raw: Seq<char>) -> ReadState {
    let line = trimmed_start(raw);
    if s.pending.len() == 0 && is_blank_or_comment(line) {
        s
    } else {
        let whole = s.pending + line;
        match before_suffix(whole, "\\"@) {
            Some(p) => ReadState { entries: s.entries, pending: p },
            None => ReadState {
                entries: with_entry(s.entries, whole),
                pending: Seq::empty(),
            },
        }
    }
}

pub open spec fn read_lines(ls: Seq<Seq<char>>) -> ReadState
    decreases ls.len(),
{
    if ls.len() == 0 {
        ReadState { entries: Map::empty(), pending: Seq::empty() }
    } else {
        read_line(read_lines(ls.drop_last()), ls.last())
    }
}

fn find_separator(v: &Vec<char>) -> (r: Option<usize>)
    ensures
        crate::text::as_pos(r) == separator_from(v@, 0),
        r matches Some(i) ==> i < v.len(),
{
    let mut i: usize = 0;
    while i < v.len()
        invariant
            i <= v.len(),
            separator_from(v@, 0) == separator_from(v@, i as int),
        decreases v.len() - i,
    {
        if v[i] == '=' || v[i] == ':' {
            return Some(i);
        }
        i += 1;
    }
    None
}

/// Parse `key=value` / `key:value` lines, honoring comments and line continuations.
pub fn parse(text: &str) -> (r: TextMap<String>)
    ensures
        r.deep_view() == read_lines(lines_of(text@)).entries,
{
    let all = lines(text);
    let mut out: TextMap<String> = TextMap::new();
    let mut pending = String::new();
    let ghost d = all.deep_view();
    let mut i: usize = 0;
    assert(d.take(0) =~= Seq::<Seq<char>>::empty());
    while i < all.len()
        invariant
            i <= all.len(),
            d == all.deep_view(),
            out.deep_view() == read_lines(d.take(i as int)).entries,
            pending@ == read_lines(d.take(i as int)).pending,
        decreases all.len() - i,
    {
        let ghost s0 = read_lines(d.take(i as int));
        proof {
            assert(d.take(i + 1).drop_last() =~= d.take(i as int));
            assert(d.take(i + 1).last() == all@[i as int]@);
        }
        let line = trim_start(all[i].as_str());
        i += 1;
        if pending.as_str().is_empty() && (line.is_empty() || starts_with(line, "#")
            || starts_with(line, "!")) {
            continue;
        }
        let mut joined = pending.clone();
        joined.append(line);
        // A trailing backslash continues onto the next line.
        match strip_suffix(joined.as_str(), "\\") {
            Some(stripped) => {
                pending = owned(stripped);
                continue;
            },
            None => {},
        }
        pending = String::new();
        let v = chars_of(joined.as_str());
        match find_separator(&v) {
            Some(idx) => {
                let head = joined.as_str().substring_char(0, idx);
                let tail = joined.as_str().substring_char(idx + 1, v.len());
                assert(head@ =~= joined@.take(idx as int));
                assert(tail@ =~= joined@.skip(idx + 1));
                let key = trim(head);
                let value = trim(tail);
                if !key.is_empty() {
                    out.insert(owned(key), owned(value));
                }
            },
            None => {},
        }
    }
    assert(d.take(i as int) =~= d);
    out
}

// ---------------------------------------------------------------------------
// Placeholders

/// What stands for one placeholder: the value of its key, else its default, else
/// its own text.
pub open spec fn substitution(f: FoundView, props: Map<Seq<char>, Seq<char>>) -> Seq<char> {
    let key = match group_of(f, 1) {
        Some(k) => trimmed(k),
        None => Seq::empty(),
    };
    if props.dom().contains(key) {
        props[key]
    } else {
        match group_of(f, 2) {
            Some(d) => d,
            None => match group_of(f, 0) {
                Some(whole) => whole,
                None => Seq::empty(),
            },
        }
    }
}

/// Where the first `k` matches end.
pub open spec fn end_of(ms: Seq<FoundView>, k: int) -> int {
    if k <= 0 {
        0
    } else {
        ms[k - 1].end as int
    }
}

/// `text` up to the end of the `k`-th match, with the matches substituted.
pub open spec fn built(
    text: Seq<char>,
    ms: Seq<FoundView>,
    props: Map<Seq<char>, Seq<char>>,
    k: int,
) -> Seq<char>
    decreases k,
{
    if k <= 0 {
        Seq::empty()
    } else {
        built(text, ms, props, k - 1) + between(text, end_of(ms, k - 1), ms[k - 1].start as int)
            + substitution(ms[k - 1], props)
    }
}

/// `text` with every match substituted, and the rest as it was.
pub open spec fn substituted(
    text: Seq<char>,
    ms: Seq<FoundView>,
    props: Map<Seq<char>, Seq<char>>,
) -> Seq<char> {
    built(text, ms, props, ms.len() as int) + between(
        text,
        end_of(ms, ms.len() as int),
        encode_utf8(text).len() as int,
    )
}

fn substitute(f: &Found, props: &TextMap<String>) -> (r: String)
    ensures
        r@ == substitution(f.deep_view(), props.deep_view()),
{
    let key = match f.group(1) {
        Some(k) => trim(k.as_str()),
        None => "",
    };
    proof {
        reveal_strlit("");
        assert(""@ =~= Seq::<char>::empty());
    }
    match props.get(key) {
        Some(v) => v.clone(),
        None => match f.group(2) {
            Some(d) => d.clone(),
            None => match f.group(0) {
                Some(whole) => whole.clone(),
                None => String::new(),
            },
        },
    }
}

/// Put a value in place of each match.
pub fn substitute_all(text: &str, found: &Vec<Found>, props: &TextMap<String>) -> (r: String)
    requires
        in_sequence(found.deep_view(), text@),
    ensures
        r@ == substituted(text@, found.deep_view(), props.deep_view()),
{
    let ghost ms = found.deep_view();
    let ghost p = props.deep_view();
    let total: usize = text.as_bytes().len();
    let mut out = String::new();
    let mut done: usize = 0;
    let mut i: usize = 0;
    proof {
        encode_utf8_valid_utf8(text@);
        is_char_boundary_start_end_of_seq(encode_utf8(text@));
    }
    while i < found.len()
        invariant
            i <= found.len(),
            ms == found.deep_view(),
            p == props.deep_view(),
            in_sequence(ms, text@),
            done == end_of(ms, i as int),
            total == encode_utf8(text@).len(),
            is_range(text@, done as int, total as int),
            out@ == built(text@, ms, p, i as int),
        decreases found.len() - i,
    {
        let f = &found[i];
        assert(ms[i as int] == f.deep_view());
        assert(is_range(text@, ms[i as int].start as int, ms[i as int].end as int));
        if i > 0 {
            assert(ms[i - 1].end <= ms[i as int].start);
        }
        out.append(slice(text, done, f.start));
        let s = substitute(f, props);
        out.append(s.as_str());
        done = f.end;
        i += 1;
    }
    out.append(slice(text, done, total));
    out
}

/// `text` after at most `n` rounds of substitution.
pub open spec fn resolved(text: Seq<char>, props: Map<Seq<char>, Seq<char>>, n: nat) -> Seq<char>
    decreases n,
{
    if n == 0 || first_at(text, "${"@) is None {
        text
    } else {
        let next = substituted(text, matches_of(PLACEHOLDER@, text), props);
        if next == text {
            text
        } else {
            resolved(next, props, (n - 1) as nat)
        }
    }
}

/// Substitute `${key}` references using `props`, honoring `${key:default}`.
/// Unresolvable placeholders are left verbatim so the raw config stays visible.
pub fn resolve(expr: &str, props: &TextMap<String>) -> (r: String)
    ensures
        r@ == resolved(expr@, props.deep_view(), 8),
{
    let mut cur = owned(expr);
    // Bounded to stop placeholder cycles in hand-written legacy configs.
    let mut left: usize = 8;
    while left > 0
        invariant
            left <= 8,
            resolved(expr@, props.deep_view(), 8) == resolved(
                cur@,
                props.deep_view(),
                left as nat,
            ),
        decreases left,
    {
        if !contains_str(cur.as_str(), "${") {
            return cur;
        }
        let found = find_all(PLACEHOLDER, cur.as_str());
        let next = substitute_all(cur.as_str(), &found, props);
        if same(next.as_str(), cur.as_str()) {
            return cur;
        }
        cur = next;
        left -= 1;
    }
    cur
}

// ---------------------------------------------------------------------------
// Reading one text after another

proof fn pieces_len(s: Seq<char>)
    ensures
        pieces(s, '\n').len() > 0,
    decreases s.len(),
{
    if s.len() > 0 {
        pieces_len(s.drop_last());
    }
}

/// A text cut at its line feeds, cut in two at one of them.
proof fn pieces_meet(a: Seq<char>, b: Seq<char>)
    ensures
        pieces(a.push('\n') + b, '\n') == pieces(a, '\n') + pieces(b, '\n'),
    decreases b.len(),
{
    let whole = a.push('\n') + b;
    let pa = pieces(a, '\n');
    let pb = pieces(b, '\n');
    if b.len() == 0 {
        assert(whole =~= a.push('\n'));
        assert(whole.drop_last() =~= a);
        assert(pieces(whole, '\n') =~= pa + pb);
    } else {
        pieces_meet(a, b.drop_last());
        assert(whole.drop_last() =~= a.push('\n') + b.drop_last());
        assert(whole.last() == b.last());
        pieces_len(b.drop_last());
        let before = pieces(b.drop_last(), '\n');
        assert((pa + before).last() == before.last());
        assert((pa + before).drop_last() =~= pa + before.drop_last());
        assert(pieces(whole, '\n') =~= pa + pb);
    }
}

/// No piece holds a character that the text does not hold.
proof fn pieces_hold(s: Seq<char>, c: char)
    requires
        !s.contains(c),
    ensures
        forall|i: int| 0 <= i < pieces(s, '\n').len() ==> !(#[trigger] pieces(s, '\n')[i]).contains(
            c,
        ),
    decreases s.len(),
{
    if s.len() > 0 {
        let rest = s.drop_last();
        assert(!rest.contains(c)) by {
            if rest.contains(c) {
                let i = choose|i: int| 0 <= i < rest.len() && rest[i] == c;
                assert(s[i] == c);
            }
        }
        assert(s.contains(s.last())) by {
            assert(s[s.len() - 1] == s.last());
        }
        pieces_hold(rest, c);
        pieces_len(rest);
        let before = pieces(rest, '\n');
        let all = pieces(s, '\n');
        assert forall|i: int| 0 <= i < all.len() implies !(#[trigger] all[i]).contains(c) by {
            if i < before.len() - 1 {
                assert(all[i] == before[i]);
            } else if i < before.len() && s.last() == '\n' {
                assert(all[i] == before[i]);
            } else if s.last() != '\n' {
                let last = before[before.len() - 1];
                assert(all[i] == last.push(s.last()));
                if all[i].contains(c) {
                    let k = choose|k: int| 0 <= k < all[i].len() && all[i][k] == c;
                    if k < last.len() {
                        assert(last[k] == c);
                    }
                }
            }
        }
    }
}

proof fn skip_push(s: Seq<char>, x: char)
    requires
        is_white(x),
    ensures
        trimmed_start(s.push(x)) == (if trimmed_start(s).len() == 0 {
            Seq::empty()
        } else {
            trimmed_start(s).push(x)
        }),
    decreases s.len(),
{
    if s.len() == 0 {
        assert(s.push(x)[0] == x);
        assert(s.push(x).skip(1) =~= Seq::empty());
        assert(skip_while(s.push(x).skip(1), whites()) =~= Seq::empty());
    } else {
        assert(s.push(x)[0] == s[0]);
        if is_white(s[0]) {
            assert(s.push(x).skip(1) =~= s.skip(1).push(x));
            skip_push(s.skip(1), x);
        }
    }
}

proof fn trimmed_push(s: Seq<char>, x: char)
    requires
        is_white(x),
    ensures
        trimmed(s.push(x)) == trimmed(s),
{
    skip_push(s, x);
    let t = trimmed_start(s);
    if t.len() > 0 {
        assert(t.push(x).drop_last() =~= t);
    }
}

proof fn skip_holds(s: Seq<char>, c: char)
    requires
        !s.contains(c),
    ensures
        !trimmed_start(s).contains(c),
    decreases s.len(),
{
    if s.len() > 0 && is_white(s[0]) {
        assert(!s.skip(1).contains(c)) by {
            if s.skip(1).contains(c) {
                let i = choose|i: int| 0 <= i < s.skip(1).len() && s.skip(1)[i] == c;
                assert(s[i + 1] == c);
            }
        }
        skip_holds(s.skip(1), c);
    }
}

proof fn separator_push(s: Seq<char>, i: int)
    requires
        0 <= i <= s.len(),
    ensures
        separator_from(s.push('\r'), i) == separator_from(s, i),
        separator_from(s, i) matches Some(k) ==> i <= k < s.len(),
    decreases s.len() - i,
{
    if i < s.len() {
        assert(s.push('\r')[i] == s[i]);
        separator_push(s, i + 1);
    } else {
        assert(s.push('\r')[i] == '\r');
        assert(separator_from(s.push('\r'), i + 1) is None);
    }
}

proof fn prefix_push(s: Seq<char>, x: char, p: Seq<char>)
    requires
        0 < p.len() <= s.len(),
    ensures
        has_prefix(s.push(x), p) == has_prefix(s, p),
{
    assert(s.push(x).take(p.len() as int) =~= s.take(p.len() as int));
}

/// A line that continues nothing and holds no backslash.
spec fn plain_read(m: Map<Seq<char>, Seq<char>>, raw: Seq<char>) -> Map<Seq<char>, Seq<char>> {
    let line = trimmed_start(raw);
    if is_blank_or_comment(line) {
        m
    } else {
        with_entry(m, line)
    }
}

proof fn read_plain(s: ReadState, raw: Seq<char>)
    requires
        s.pending == Seq::<char>::empty(),
        !raw.contains('\\'),
    ensures
        read_line(s, raw) == (ReadState {
            entries: plain_read(s.entries, raw),
            pending: Seq::empty(),
        }),
{
    let line = trimmed_start(raw);
    skip_holds(raw, '\\');
    assert(s.pending + line =~= line);
    reveal_strlit("\\");
    if has_suffix(line, "\\"@) {
        assert(line.skip(line.len() - 1)[0] == '\\');
        assert(line[line.len() - 1] == '\\');
        assert(line.contains('\\'));
    }
}

/// A carriage return at the end of a line changes nothing.
proof fn read_without_cr(m: Map<Seq<char>, Seq<char>>, raw: Seq<char>)
    ensures
        plain_read(m, without_cr(raw)) == plain_read(m, raw),
{
    if raw.len() > 0 && raw.last() == '\r' {
        let short = raw.drop_last();
        assert(short.push('\r') =~= raw);
        skip_push(short, '\r');
        let line = trimmed_start(short);
        if line.len() > 0 {
            reveal_strlit("#");
            reveal_strlit("!");
            prefix_push(line, '\r', "#"@);
            prefix_push(line, '\r', "!"@);
            separator_push(line, 0);
            match separator_from(line, 0) {
                Some(i) => {
                    assert(line.push('\r').take(i) =~= line.take(i));
                    assert(line.push('\r').skip(i + 1) =~= line.skip(i + 1).push('\r'));
                    trimmed_push(line.skip(i + 1), '\r');
                },
                None => {},
            }
        }
    }
}

/// Lines without a backslash leave nothing pending.
proof fn plain_lines(ls: Seq<Seq<char>>)
    requires
        forall|i: int| 0 <= i < ls.len() ==> !(#[trigger] ls[i]).contains('\\'),
    ensures
        read_lines(ls).pending == Seq::<char>::empty(),
    decreases ls.len(),
{
    if ls.len() > 0 {
        let rest = ls.drop_last();
        assert forall|i: int| 0 <= i < rest.len() implies !(#[trigger] rest[i]).contains('\\') by {
            assert(rest[i] == ls[i]);
        }
        plain_lines(rest);
        assert(!ls[ls.len() - 1].contains('\\'));
        read_plain(read_lines(rest), ls.last());
    }
}

/// What is read after lines that left nothing pending is added to what they gave.
proof fn read_after(la: Seq<Seq<char>>, lb: Seq<Seq<char>>)
    requires
        read_lines(la).pending == Seq::<char>::empty(),
    ensures
        read_lines(la + lb).pending == read_lines(lb).pending,
        read_lines(la + lb).entries == read_lines(la).entries.union_prefer_right(
            read_lines(lb).entries,
        ),
    decreases lb.len(),
{
    let m = read_lines(la).entries;
    if lb.len() == 0 {
        assert(la + lb =~= la);
        assert(m.union_prefer_right(Map::empty()) =~= m);
    } else {
        read_after(la, lb.drop_last());
        assert((la + lb).drop_last() =~= la + lb.drop_last());
        assert((la + lb).last() == lb.last());
        let e = read_lines(lb.drop_last()).entries;
        assert forall|line: Seq<char>| #[trigger] with_entry(m.union_prefer_right(e), line)
            == m.union_prefer_right(with_entry(e, line)) by {
            assert(with_entry(m.union_prefer_right(e), line) =~= m.union_prefer_right(
                with_entry(e, line),
            ));
        }
    }
}

/// Reading one text and then another gives what both give, the later winning where both
/// give a key. The first may hold no backslash: one at its end would draw in the second.
pub proof fn later_text_wins(a: Seq<char>, b: Seq<char>)
    requires
        !a.contains('\\'),
    ensures
        read_lines(lines_of(a + "\n"@ + b)).entries == read_lines(
            lines_of(a),
        ).entries.union_prefer_right(read_lines(lines_of(b)).entries),
{
    reveal_strlit("\n");
    assert(a + "\n"@ + b =~= a.push('\n') + b);
    pieces_meet(a, b);
    pieces_len(a);
    pieces_len(b);
    pieces_hold(a, '\\');
    let cut = |l: Seq<char>| without_cr(l);
    let pa = pieces(a, '\n');
    let pb = pieces(b, '\n');
    let ended = pa.drop_last().map_values(cut);
    let last = pa[pa.len() - 1];
    let la = ended.push(without_cr(last));
    assert((pa + pb).drop_last() =~= pa + pb.drop_last());
    assert((pa + pb).last() == pb.last());
    assert((pa + pb.drop_last()).map_values(cut) =~= la + pb.drop_last().map_values(cut));
    assert(lines_of(a + "\n"@ + b) =~= la + lines_of(b));
    assert forall|i: int| 0 <= i < la.len() implies !(#[trigger] la[i]).contains('\\') by {
        let p = pa[i];
        assert(la[i] == without_cr(p));
        assert(!p.contains('\\'));
        if la[i].contains('\\') {
            let k = choose|k: int| 0 <= k < la[i].len() && la[i][k] == '\\';
            assert(p[k] == '\\');
        }
    }
    plain_lines(la);
    read_after(la, lines_of(b));
    assert(la.drop_last() =~= ended);
    assert forall|i: int| 0 <= i < ended.len() implies !(#[trigger] ended[i]).contains('\\') by {
        assert(la[i] == ended[i]);
    }
    plain_lines(ended);
    let s = read_lines(ended);
    assert(!la[la.len() - 1].contains('\\'));
    read_plain(s, without_cr(last));
    read_without_cr(s.entries, last);
    if last.len() == 0 {
        assert(lines_of(a) == ended);
    } else {
        assert(lines_of(a) == ended.push(last));
        assert(ended.push(last).drop_last() =~= ended);
        read_plain(s, last);
    }
}

/// A text without a placeholder is its own resolution.
pub proof fn resolved_plain(text: Seq<char>, props: Map<Seq<char>, Seq<char>>, n: nat)
    requires
        first_at(text, "${"@) is None,
    ensures
        resolved(text, props, n) == text,
{
}

} // verus!

//! Numbers, orders, comments and the small rules that the rest stands on.
use crate::build::{dir_key, nearest_above};
use crate::extract::git::{commit_of, commits_in, walk_args};
use crate::extract::sql::pair_lt;
use crate::extract::xmlutil::{
    decoded, document, tag_of, unescaped, xml_events, RawEventView, XmlEventView,
};
use crate::json::entry_map;
use crate::laws::basics::{ends_of_texts, first_line, keep_first, push_members, trimmed_is_core};
use crate::laws::history::is_tight;
use crate::lists::{stable_order, placed_by};
use crate::llm::progress::{nearest, tokens_text};
use crate::number::{all_digits, digit_char, digits, integer_of, signed, unsigned_of, value_of};
use crate::path::parent_of;
use crate::split::{joined, lines_of, nonempty};
use crate::store::model::TableOp;
use crate::store::{owner_from, version_read};
use crate::text::{is_digit, is_white, last_at, lex_lt, occurs_at, search_back};
use crate::util::{doc_line, doc_lines, javadoc, less_prefix, less_star, less_suffix};
use vstd::prelude::*;

verus! {

// ---------------------------------------------------------------------------
// Numbers

proof fn digits_write(n: nat)
    ensures
        all_digits(digits(n)),
        value_of(digits(n)) == n,
        digits(n).len() > 0,
        n >= 10 ==> digits(n)[0] != '0',
        n > 0 ==> digits(n)[0] != '0',
    decreases n,
{
    reveal_with_fuel(value_of, 2);
    if n < 10 {
        let s = digits(n);
        assert(s =~= seq![digit_char(n)]);
        assert(s.drop_last() =~= Seq::empty());
        assert(digit_char(n) as int == 48 + n);
        assert(value_of(s) == n);
    } else {
        let t = digits(n / 10);
        let s = digits(n);
        digits_write(n / 10);
        assert(s == t.push(digit_char(n % 10)));
        assert(s.drop_last() =~= t);
        assert(digit_char(n % 10) as int == 48 + n % 10);
        assert forall|i: int| 0 <= i < s.len() implies is_digit(#[trigger] s[i]) by {
            if i < t.len() {
                assert(s[i] == t[i]);
            }
        }
        assert(s[0] == t[0]);
    }
}

/// A number is read back as it was written, with a plus sign too, as far as it fits; it is
/// written without leading zeros.
pub proof fn numbers_are_read_as_written(n: nat)
    ensures
        n <= u64::MAX ==> unsigned_of(digits(n)) == Some(n),
        n <= u64::MAX ==> unsigned_of(seq!['+'] + digits(n)) == Some(n),
        n > u64::MAX ==> unsigned_of(digits(n)) is None,
        n > 0 ==> digits(n)[0] != '0',
        digits(0) == seq!['0'],
{
    digits_write(n);
    let s = digits(n);
    assert(is_digit(s[0]));
    assert((seq!['+'] + s).skip(1) =~= s);
    assert(digits(0) =~= seq!['0']);
}

/// The like for numbers with a sign.
pub proof fn signed_numbers_are_read_as_written(n: int)
    ensures
        i64::MIN <= n <= i64::MAX ==> integer_of(signed(n)) == Some(n),
        n > i64::MAX || n < i64::MIN ==> integer_of(signed(n)) is None,
        n < 0 ==> signed(n)[0] == '-',
{
    if n < 0 {
        digits_write((-n) as nat);
        assert(signed(n).skip(1) =~= digits((-n) as nat));
    } else {
        digits_write(n as nat);
        assert(is_digit(signed(n)[0]));
    }
}

/// A text with anything but digits behind its sign is no number, nor is an empty one.
pub proof fn other_texts_are_no_numbers(s: Seq<char>, i: int)
    requires
        0 <= i < s.len(),
        !(48 <= s[i] as int <= 57),
        i > 0 || (s[0] != '+' && s[0] != '-'),
    ensures
        unsigned_of(s) is None,
        integer_of(s) is None,
        unsigned_of(Seq::empty()) is None,
        integer_of(Seq::empty()) is None,
{
    let t = s.skip(1);
    if i > 0 {
        assert(t[i - 1] == s[i]);
        assert(!is_digit(t[i - 1]));
    }
    assert(!is_digit(s[i]));
}

/// Small counts are shown as they are.
pub proof fn small_counts_are_shown_whole(n: nat, a: nat, b: nat)
    requires
        b > 0,
    ensures
        n < 1000 ==> tokens_text(n) == digits(n),
        2 * a <= 2 * b * nearest(a, b) + b,
        2 * b * nearest(a, b) <= 2 * a + b,
{
    let q = a / b;
    let r = a % b;
    assert(a == b * q + r) by {
        vstd::arithmetic::div_mod::lemma_fundamental_div_mod(a as int, b as int);
    }
    assert(0 <= r < b);
    assert(2 * b * (q + 1) == 2 * (b * q) + 2 * b) by (nonlinear_arith);
    assert(2 * b * q == 2 * (b * q)) by (nonlinear_arith);
}

// ---------------------------------------------------------------------------
// Orders and maps

/// Of two entries with one key the later counts.
pub proof fn later_entries_count(es: Seq<(Seq<char>, Seq<char>)>, i: int, k: Seq<char>)
    ensures
        0 <= i < es.len() && es[i].0 == k && (forall|j: int|
            i < j < es.len() ==> (#[trigger] es[j]).0 != k) ==> entry_map(es).dom().contains(k)
            && entry_map(es)[k] == es[i].1,
        (forall|j: int| 0 <= j < es.len() ==> (#[trigger] es[j]).0 != k) ==> !entry_map(
            es,
        ).dom().contains(k),
    decreases es.len(),
{
    if es.len() > 0 {
        let rest = es.drop_last();
        later_entries_count(rest, i, k);
        assert(es[es.len() - 1] == es.last());
        assert forall|j: int| 0 <= j < rest.len() implies #[trigger] rest[j] == es[j] by {}
    }
}

/// Items are ordered by their keys, those with one key as they stood; each is there once.
pub proof fn orders_are_stable(keys: Seq<u64>, n: nat, x: int)
    requires
        n <= keys.len(),
    ensures
        stable_order(keys, n).len() == n,
        stable_order(keys, n).contains(x) <==> 0 <= x < n,
        forall|i: int, j: int|
            0 <= i < j < n ==> goes_before(
                keys,
                #[trigger] stable_order(keys, n)[i],
                #[trigger] stable_order(keys, n)[j],
            ),
    decreases n,
{
    if n > 0 {
        let m = (n - 1) as nat;
        orders_are_stable(keys, m, x);
        let o = stable_order(keys, m);
        assert forall|i: int| 0 <= i < o.len() implies 0 <= #[trigger] o[i] < m by {
            orders_are_stable(keys, m, o[i]);
            assert(o.contains(o[i]));
        }
        placed_stays_in_order(o, m as int, keys, x);
    }
}

/// Whether item `a` goes before item `b`: its key is smaller, or the same and it stood
/// first.
pub open spec fn goes_before(keys: Seq<u64>, a: int, b: int) -> bool {
    keys[a] < keys[b] || (keys[a] == keys[b] && a < b)
}

proof fn placed_stays_in_order(o: Seq<int>, y: int, keys: Seq<u64>, x: int)
    requires
        forall|i: int| 0 <= i < o.len() ==> 0 <= #[trigger] o[i] < y,
        forall|i: int, j: int|
            0 <= i < j < o.len() ==> goes_before(keys, #[trigger] o[i], #[trigger] o[j]),
    ensures
        placed_by(o, y, keys).len() == o.len() + 1,
        placed_by(o, y, keys).contains(x) <==> o.contains(x) || x == y,
        forall|i: int, j: int|
            0 <= i < j < placed_by(o, y, keys).len() ==> goes_before(
                keys,
                #[trigger] placed_by(o, y, keys)[i],
                #[trigger] placed_by(o, y, keys)[j],
            ),
        forall|i: int|
            0 <= i < placed_by(o, y, keys).len() ==> o.contains(
                #[trigger] placed_by(o, y, keys)[i],
            ) || placed_by(o, y, keys)[i] == y,
    decreases o.len(),
{
    let p = placed_by(o, y, keys);
    if o.len() == 0 || keys[o.last()] <= keys[y] {
        push_members(o, y, x);
        assert forall|i: int, j: int| 0 <= i < j < p.len() implies goes_before(
            keys,
            #[trigger] p[i],
            #[trigger] p[j],
        ) by {
            if j == o.len() {
                if i < o.len() - 1 {
                    assert(goes_before(keys, o[i], o[o.len() - 1]));
                }
                assert(o[i] < y);
            } else {
                assert(goes_before(keys, o[i], o[j]));
            }
        }
        assert forall|i: int| 0 <= i < p.len() implies o.contains(#[trigger] p[i]) || p[i] == y by {
            if i < o.len() {
                assert(p[i] == o[i]);
                assert(o.contains(o[i]));
            }
        }
    } else {
        let rest = o.drop_last();
        let z = o.last();
        assert(o[o.len() - 1] == z);
        assert forall|i: int| 0 <= i < rest.len() implies 0 <= #[trigger] rest[i] < y by {
            assert(rest[i] == o[i]);
        }
        assert forall|i: int, j: int| 0 <= i < j < rest.len() implies goes_before(
            keys,
            #[trigger] rest[i],
            #[trigger] rest[j],
        ) by {
            assert(goes_before(keys, o[i], o[j]));
        }
        placed_stays_in_order(rest, y, keys, x);
        let q = placed_by(rest, y, keys);
        push_members(q, z, x);
        push_members(rest, z, x);
        assert(o =~= rest.push(z));
        assert forall|i: int| 0 <= i < p.len() implies o.contains(#[trigger] p[i]) || p[i] == y by {
            if i < q.len() {
                assert(p[i] == q[i]);
                if q[i] != y {
                    let k = choose|k: int| 0 <= k < rest.len() && rest[k] == q[i];
                    assert(o[k] == q[i]);
                }
            }
        }
        assert forall|i: int, j: int| 0 <= i < j < p.len() implies goes_before(
            keys,
            #[trigger] p[i],
            #[trigger] p[j],
        ) by {
            if j < q.len() {
                assert(goes_before(keys, q[i], q[j]));
            } else {
                assert(p[j] == z && p[i] == q[i]);
                if q[i] != y {
                    let k = choose|k: int| 0 <= k < rest.len() && rest[k] == q[i];
                    assert(goes_before(keys, o[k], o[o.len() - 1]));
                }
            }
        }
    }
}

/// Reports are ordered by table, those of one table by operation: deletions, insertions,
/// reads, updates.
pub proof fn reports_are_ordered_by_table(a: Seq<char>, b: Seq<char>, x: TableOp, y: TableOp)
    ensures
        lex_lt(a, b) ==> pair_lt((a, x), (b, y)),
        pair_lt((a, TableOp::Delete), (a, TableOp::Insert)),
        pair_lt((a, TableOp::Insert), (a, TableOp::Select)),
        pair_lt((a, TableOp::Select), (a, TableOp::Update)),
        lex_lt(b, a) ==> !pair_lt((a, x), (b, y)),
        !pair_lt((a, x), (a, x)),
{
    crate::text::lex_irreflexive(a);
    if lex_lt(b, a) && lex_lt(a, b) {
        crate::text::lex_transitive(a, b, a);
    }
    if lex_lt(b, a) && a == b {
        assert(false);
    }
}

/// The white space characters, by their codes.
pub proof fn white_space_by_code(c: char)
    ensures
        is_white(c) <==> 9 <= c as int <= 13 || c as int == 32 || c as int == 0x85 || c as int
            == 0xa0 || c as int == 0x1680 || 0x2000 <= c as int <= 0x200a || c as int == 0x2028
            || c as int == 0x2029 || c as int == 0x202f || c as int == 0x205f || c as int == 0x3000,
{
}

/// The last place of a text is found: nothing of it begins further on.
pub proof fn the_last_place_is_found(s: Seq<char>, p: Seq<char>, k: int)
    requires
        p.len() <= s.len(),
    ensures
        last_at(s, p) matches Some(i) ==> 0 <= i && i + p.len() <= s.len() && s.subrange(
            i,
            i + p.len(),
        ) == p && (i < k && k + p.len() <= s.len() ==> s.subrange(k, k + p.len()) != p),
        last_at(s, p) is None && 0 <= k && k + p.len() <= s.len() ==> s.subrange(k, k + p.len())
            != p,
{
    back_is_exact(s, p, s.len() - p.len(), k);
}

proof fn back_is_exact(s: Seq<char>, p: Seq<char>, from: int, k: int)
    requires
        from + p.len() <= s.len(),
    ensures
        search_back(s, p, from) matches Some(i) ==> 0 <= i <= from && occurs_at(s, p, i) && (i < k
            <= from ==> !occurs_at(s, p, k)),
        search_back(s, p, from) is None && 0 <= k <= from ==> !occurs_at(s, p, k),
    decreases from + 1,
{
    if from >= 0 && !occurs_at(s, p, from) {
        back_is_exact(s, p, from - 1, k);
    }
}

// ---------------------------------------------------------------------------
// Directories and databases

/// The nearest directory that holds a knowledge base is the first in the list that does.
pub proof fn the_nearest_directory_is_found(
    dirs: Seq<(Seq<char>, bool)>,
    from: int,
    k: int,
)
    requires
        0 <= from <= dirs.len(),
    ensures
        from <= k < dirs.len() && dirs[k].1 && (forall|j: int|
            from <= j < k ==> !(#[trigger] dirs[j]).1) ==> owner_from(dirs, from) == Some(
            dirs[k].0,
        ),
        (forall|j: int| from <= j < dirs.len() ==> !(#[trigger] dirs[j]).1) ==> owner_from(
            dirs,
            from,
        ) is None,
    decreases dirs.len() - from,
{
    if from < dirs.len() && !dirs[from].1 {
        the_nearest_directory_is_found(dirs, from + 1, k);
    }
}

/// The version of a database is the number it holds; without one it counts as the oldest.
pub proof fn versions_are_numbers(n: int, s: Seq<char>)
    ensures
        i64::MIN <= n <= i64::MAX ==> version_read(signed(n)) == n,
        integer_of(s) is None ==> version_read(s) == 0,
{
    signed_numbers_are_read_as_written(n);
}

/// A module lies in the nearest directory above it that is one: its parent where that is
/// known, else what is nearest to the parent, and the root last.
pub proof fn modules_lie_in_the_nearest_directory(dir: Seq<char>, known: Set<Seq<char>>)
    ensures
        parent_of(dir) is None ==> nearest_above(dir, known) is None,
        parent_of(dir) matches Some(p) ==> known.contains(dir_key(p)) ==> nearest_above(dir, known)
            == Some(dir_key(p)),
        parent_of(dir) matches Some(p) ==> !known.contains(dir_key(p)) && dir_key(p) != "."@
            ==> nearest_above(dir, known) == nearest_above(p, known),
        parent_of(dir) matches Some(p) ==> !known.contains(dir_key(p)) && dir_key(p) == "."@
            ==> nearest_above(dir, known) is None,
        dir_key(Seq::empty()) == "."@,
        dir.len() > 0 && !dir.contains('\\') ==> dir_key(dir) == dir,
{
    crate::path::parent_is_shorter(dir);
    crate::laws::basics::replaced_by_parts(dir, Seq::empty(), '\\', "/"@);
}

// ---------------------------------------------------------------------------
// Logs and documents

/// A log's commits are those of its records, in order; a record that tells none is passed
/// over.
pub proof fn logs_hold_the_commits_of_their_records(recs: Seq<Seq<char>>, r: Seq<char>)
    ensures
        commit_of(r) is Some ==> commits_in(recs.push(r)) == commits_in(recs).push(commit_of(r)->0),
        commit_of(r) is None ==> commits_in(recs.push(r)) == commits_in(recs),
        commits_in(Seq::empty()).len() == 0,
{
    assert(recs.push(r).drop_last() =~= recs);
}

/// What the log is asked for: the range, without merges, with the names of the files.
pub proof fn logs_are_asked_for_so(range: Seq<char>)
    ensures
        walk_args(range).len() == 6,
        walk_args(range)[0] == "log"@,
        walk_args(range)[1] == range,
        walk_args(range)[2] == "--no-merges"@,
        walk_args(range)[3] == "--name-only"@,
        walk_args(range)[4] == "--date=iso-strict"@,
        walk_args(range)[5] == "--pretty=format:%x1e%H%x1f%ad%x1f%s%x1f"@,
{
}

/// A document's events are decoded one for one: tags with their attributes, texts without
/// their escapes, and the rest as it is.
pub proof fn events_are_decoded_one_for_one(
    xml: Seq<char>,
    i: int,
    n: Seq<char>,
    a: Seq<char>,
    t: Seq<char>,
)
    requires
        0 <= i < xml_events(xml).len(),
    ensures
        document(xml).len() == xml_events(xml).len(),
        document(xml)[i] == decoded(xml_events(xml)[i]),
        xml_events(xml)[i] == RawEventView::Start(n, a) ==> document(xml)[i] == XmlEventView::Start(
            tag_of(n, a),
        ),
        xml_events(xml)[i] == RawEventView::Empty(n, a) ==> document(xml)[i] == XmlEventView::Empty(
            tag_of(n, a),
        ),
        xml_events(xml)[i] == RawEventView::End(n) ==> document(xml)[i] == XmlEventView::End(n),
        xml_events(xml)[i] == RawEventView::CData(t) ==> document(xml)[i] == XmlEventView::CData(t),
        xml_events(xml)[i] == RawEventView::Comment(t) ==> document(xml)[i]
            == XmlEventView::Comment(t),
        xml_events(xml)[i] == RawEventView::Text(t) && unescaped(t) is Some ==> document(xml)[i]
            == XmlEventView::Text(unescaped(t)->0),
        xml_events(xml)[i] == RawEventView::Text(t) && unescaped(t) is None ==> document(xml)[i]
            == XmlEventView::Text(t),
{
}

// ---------------------------------------------------------------------------
// Comments

/// Whether a text is the prose of a comment's line.
pub open spec fn is_said(x: Seq<char>) -> bool {
    &&& x.len() > 0 && is_tight(x)
    &&& x[0] != '*' && x[0] != '/'
    &&& x.last() != '/' && x.last() != '*'
}

proof fn not_prefix(s: Seq<char>, p: Seq<char>, i: int)
    requires
        0 <= i < p.len(),
        s.len() <= i || s[i] != p[i],
    ensures
        less_prefix(s, p) == s,
        !crate::text::has_prefix(s, p),
{
    if crate::text::has_prefix(s, p) {
        assert(s.take(p.len() as int)[i] == s[i]);
    }
}

proof fn not_suffix(s: Seq<char>, p: Seq<char>)
    requires
        p.len() > 0 && s.len() > 0,
        s.last() != p.last(),
    ensures
        less_suffix(s, p) == s,
{
    if crate::text::has_suffix(s, p) {
        assert(s.skip(s.len() - p.len())[p.len() - 1] == s.last());
    }
}

/// A comment's line is its prose, without the marks that make it a comment.
pub proof fn comment_marks_are_no_prose(x: Seq<char>)
    requires
        is_said(x),
    ensures
        doc_line(x) == x,
        doc_line(" * "@ + x) == x,
        doc_line("// "@ + x) == x,
        doc_line("/** "@ + x + " */"@) == x,
{
    reveal_strlit("/**");
    reveal_strlit("/*");
    reveal_strlit("*/");
    reveal_strlit("* ");
    reveal_strlit("*");
    reveal_strlit("//");
    reveal_strlit(" * ");
    reveal_strlit("// ");
    reveal_strlit("/** ");
    reveal_strlit(" */");
    reveal_strlit(" ");
    let e = Seq::<char>::empty();
    let sp = " "@;
    let w = crate::text::whites();
    assert(is_white(' '));
    assert(!is_white('*') && !is_white('/'));
    trimmed_is_core(e, x, e);
    assert(e + x + e =~= x);
    trimmed_is_core(sp, x, e);
    assert(sp + x + e =~= sp + x);
    trimmed_is_core(e, x, sp);
    assert(e + x + sp =~= x + sp);
    assert(crate::text::trimmed_start(x) == x);
    // The prose alone.
    not_prefix(x, "/**"@, 0);
    not_prefix(x, "/*"@, 0);
    not_suffix(x, "*/"@);
    not_prefix(x, "* "@, 0);
    not_prefix(x, "*"@, 0);
    not_prefix(x, "//"@, 0);
    assert(doc_line(x) == x);
    // Behind a star.
    let a = "* "@ + x;
    assert(" * "@ + x =~= sp + a);
    assert(a[0] == '*' && a.last() == x.last());
    trimmed_is_core(sp, a, e);
    assert(sp + a + e =~= sp + a);
    not_prefix(a, "/**"@, 0);
    not_prefix(a, "/*"@, 0);
    not_suffix(a, "*/"@);
    assert(crate::text::trimmed_start(a) == a);
    ends_of_texts("* "@, x);
    assert(less_star(a) == x);
    assert(doc_line(" * "@ + x) == x);
    // Behind two slashes.
    let b = "// "@ + x;
    assert(b =~= "//"@ + (sp + x));
    assert(b[0] == '/' && b[1] == '/' && b.last() == x.last());
    trimmed_is_core(e, b, e);
    assert(e + b + e =~= b);
    not_prefix(b, "/**"@, 1);
    not_prefix(b, "/*"@, 1);
    not_suffix(b, "*/"@);
    assert(crate::text::trimmed_start(b) == b);
    not_prefix(b, "* "@, 0);
    not_prefix(b, "*"@, 0);
    ends_of_texts("//"@, sp + x);
    assert(less_prefix(less_star(b), "//"@) == sp + x);
    assert(doc_line(b) == x);
    // Between the marks of a block.
    let c = "/** "@ + x + " */"@;
    let inner = sp + x + sp;
    assert(c =~= "/**"@ + (inner + "*/"@));
    assert(c[0] == '/' && c.last() == '/');
    trimmed_is_core(e, c, e);
    assert(e + c + e =~= c);
    ends_of_texts("/**"@, inner + "*/"@);
    assert((inner + "*/"@)[0] == ' ');
    not_prefix(inner + "*/"@, "/*"@, 0);
    ends_of_texts("*/"@, inner);
    assert(inner =~= sp + (x + sp));
    crate::laws::basics::skip_all(sp, x + sp, w);
    assert((x + sp)[0] == x[0]);
    assert(crate::text::trimmed_start(inner) == x + sp);
    not_prefix(x + sp, "* "@, 0);
    not_prefix(x + sp, "*"@, 0);
    not_prefix(x + sp, "//"@, 0);
    assert(doc_line(c) == x);
}

/// A comment is the prose of its lines, in order; lines that say nothing are left out, and a
/// comment that says nothing is none.
pub proof fn comments_are_their_prose(l: Seq<char>, rest: Seq<char>, x: Seq<char>)
    requires
        !l.contains('\n') && !l.contains('\r'),
    ensures
        doc_line(l).len() > 0 ==> doc_lines(l.push('\n') + rest) == seq![doc_line(l)] + doc_lines(
            rest,
        ),
        doc_line(l).len() == 0 ==> doc_lines(l.push('\n') + rest) == doc_lines(rest),
        javadoc(rest) is None <==> doc_lines(rest).len() == 0,
        doc_lines(rest) == seq![x] ==> javadoc(rest) == Some(x),
        javadoc(rest) matches Some(d) ==> d == joined(doc_lines(rest), "\n"@),
{
    first_line(l, rest);
    let f = |x: Seq<char>| doc_line(x);
    let g = |x: Seq<char>| nonempty(x);
    let all = lines_of(l.push('\n') + rest).map_values(f);
    let more = lines_of(rest).map_values(f);
    assert(all =~= seq![doc_line(l)] + more);
    keep_first(doc_line(l), more, g);
}

} // verus!

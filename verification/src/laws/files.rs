//! Paths, languages and words.
use crate::extract::walk::{
    extension, found, is_skipped, lang_of, placed, selected, FoundView, Lang,
};
use crate::laws::basics::{cuts_are_at_the_ends, push_members, trimmed_of_is_core};
use crate::path::{base_of, component_end, end_before, name_of, name_start, parent_of};
use crate::split::replaced;
use crate::text::{last_of, lowered_char, rfind_to_is_last};
use crate::util::{hex_of, snake, snake_raw, starts_word, truncated};
use vstd::prelude::*;

verus! {

// ---------------------------------------------------------------------------
// Paths

/// Whether a text is the name of a file or directory.
pub open spec fn is_name(n: Seq<char>) -> bool {
    n.len() > 0 && !n.contains('/') && n != "."@ && n != ".."@
}

proof fn bare_name(n: Seq<char>)
    requires
        is_name(n),
    ensures
        base_of(n) == 0,
        component_end(n, n.len() as int) == n.len(),
        name_start(n, n.len() as int) == 0,
{
    reveal_strlit(".");
    rfind_to_is_last(n, '/', n.len() as int);
    assert(n.contains(n[0]));
    if n.len() > 1 {
        assert(n.contains(n[1]));
    }
    if n.len() == 1 && n[0] == '.' {
        assert(n =~= "."@);
    }
    if last_of(n, '/') is Some {
        assert(n.contains('/'));
    }
    assert(n.subrange(0, n.len() as int) =~= n);
}

proof fn name_behind(dir: Seq<char>, n: Seq<char>)
    requires
        dir.len() > 0,
        is_name(n),
    ensures
        ({
            let p = dir.push('/') + n;
            &&& component_end(p, p.len() as int) == p.len()
            &&& name_start(p, p.len() as int) == dir.len() + 1
            &&& p.subrange(dir.len() + 1int, p.len() as int) == n
            &&& base_of(p) <= 1
        }),
{
    let p = dir.push('/') + n;
    let len = p.len() as int;
    rfind_to_is_last(p, '/', len);
    assert(p[dir.len() as int] == '/');
    match crate::text::rfind_to(p, '/', len) {
        Some(i) => {
            assert(i == dir.len()) by {
                if i > dir.len() {
                    assert(n[i - dir.len() - 1] == '/');
                    assert(n.contains('/'));
                }
            }
        },
        None => {},
    }
    assert(p.subrange(dir.len() + 1int, len) =~= n);
}

/// A path's name is what stands behind its last slash, and its parent what stands before.
pub proof fn names_stand_behind_the_slash(dir: Seq<char>, sub: Seq<char>, n: Seq<char>)
    requires
        is_name(sub),
        is_name(n),
        dir.len() > 0,
    ensures
        name_of(n) == Some(n),
        parent_of(n) == Some(Seq::<char>::empty()),
        name_of(dir.push('/') + n) == Some(n),
        parent_of(sub.push('/') + n) == Some(sub),
        parent_of((dir.push('/') + sub).push('/') + n) == Some(dir.push('/') + sub),
{
    bare_name(n);
    assert(n.subrange(0, n.len() as int) =~= n);
    assert(n.take(0) =~= Seq::empty());
    name_behind(dir, n);
    name_behind(sub, n);
    let a = sub.push('/') + n;
    bare_name(sub);
    assert(base_of(a) == 0) by {
        assert(a[0] == sub[0]);
        assert(sub.contains(sub[0]));
        if sub.len() == 1 {
            reveal_strlit(".");
            if sub[0] == '.' {
                assert(sub =~= "."@);
            }
        } else {
            assert(a[1] == sub[1]);
            assert(sub.contains(sub[1]));
        }
    }
    ends_alike(a, sub, sub.len() as int);
    assert(a.take(sub.len() as int) =~= sub);
    let q = dir.push('/') + sub;
    let b = q.push('/') + n;
    name_behind(q, n);
    name_behind(dir, sub);
    ends_alike(b, q, q.len() as int);
    assert(base_of(b) == base_of(q)) by {
        assert(b[0] == q[0]);
        assert(b[1] == q[1]);
    }
    assert(b.take(q.len() as int) =~= q);
}

/// The components of a path's beginning are those of the path.
proof fn ends_alike(p: Seq<char>, q: Seq<char>, n: int)
    requires
        0 < n <= q.len() < p.len(),
        forall|i: int| 0 <= i < q.len() ==> p[i] == #[trigger] q[i],
        component_end(q, n) == n,
        n > base_of(q),
        base_of(p) == base_of(q) || (q.len() >= 2),
    ensures
        component_end(p, n) == n,
        base_of(p) == base_of(q),
{
    if q.len() >= 2 {
        assert(p[0] == q[0] && p[1] == q[1]);
    }
    assert(base_of(p) == base_of(q));
    rfind_to_is_last(p, '/', n);
    rfind_to_is_last(q, '/', n);
    assert(crate::text::rfind_to(p, '/', n) == crate::text::rfind_to(q, '/', n)) by {
        match crate::text::rfind_to(p, '/', n) {
            Some(i) => match crate::text::rfind_to(q, '/', n) {
                Some(j) => {
                    assert(p[i] == q[i] && p[j] == q[j]);
                },
                None => {
                    assert(p[i] == q[i]);
                },
            },
            None => match crate::text::rfind_to(q, '/', n) {
                Some(j) => {
                    assert(p[j] == q[j]);
                },
                None => {},
            },
        }
    }
    let at = name_start(p, n);
    assert(at == name_start(q, n));
    crate::path::name_start_bounds(q, n);
    assert(p.subrange(at, n) =~= q.subrange(at, n));
    if at == n || q.subrange(at, n) == "."@ {
        crate::path::component_end_bounds(q, end_before(q, at));
    }
}

/// A file's language goes by what follows the last dot of its name; a file without a stem
/// has none.
pub proof fn languages_go_by_extension(dir: Seq<char>, stem: Seq<char>, ext: Seq<char>)
    requires
        dir.len() > 0,
        stem.len() > 0 && ext.len() > 0,
        !stem.contains('/') && !ext.contains('/') && !ext.contains('.'),
    ensures
        ({
            let n = stem.push('.') + ext;
            let p = dir.push('/') + n;
            &&& extension(p) == Some(ext) && extension(n) == Some(ext)
            &&& ext == "java"@ ==> lang_of(p) == Some(Lang::Java)
            &&& ext == "xml"@ ==> lang_of(p) == Some(Lang::Xml)
            &&& ext == "properties"@ ==> lang_of(p) == Some(Lang::Properties)
            &&& ext == "yml"@ || ext == "yaml"@ ==> lang_of(p) == Some(Lang::Yaml)
            &&& ext == "sql"@ ==> lang_of(p) == Some(Lang::Sql)
            &&& ext != "java"@ && ext != "xml"@ && ext != "properties"@ && ext != "yml"@ && ext
                != "yaml"@ && ext != "sql"@ ==> lang_of(p) is None
        }),
        extension(dir.push('/') + (seq!['.'] + ext)) is None,
{
    reveal_strlit(".");
    reveal_strlit("..");
    let n = stem.push('.') + ext;
    let p = dir.push('/') + n;
    assert(!n.contains('/')) by {
        if n.contains('/') {
            let k = choose|k: int| 0 <= k < n.len() && n[k] == '/';
            if k < stem.len() {
                assert(stem[k] == '/');
            } else if k > stem.len() {
                assert(ext[k - stem.len() - 1] == '/');
            }
        }
    }
    assert(n.last() == ext.last());
    assert(ext.contains(ext[ext.len() - 1]));
    assert(n != "."@ && n != ".."@) by {
        if n == ".."@ {
            assert(n.last() == '.');
        }
    }
    names_stand_behind_the_slash(dir, n, n);
    cuts_are_at_the_ends(stem, ext, '.');
    rfind_to_is_last(n, '.', n.len() as int);
    assert(n[stem.len() as int] == '.');
    assert(n.skip(stem.len() + 1int) =~= ext);
    match last_of(n, '.') {
        Some(i) => {
            assert(i == stem.len()) by {
                if i > stem.len() {
                    assert(ext[i - stem.len() - 1] == '.');
                    assert(ext.contains('.'));
                }
            }
        },
        None => {},
    }
    let h = seq!['.'] + ext;
    assert(!h.contains('/')) by {
        if h.contains('/') {
            let k = choose|k: int| 0 <= k < h.len() && h[k] == '/';
            assert(ext[k - 1] == '/');
        }
    }
    assert(h.last() == ext.last());
    assert(h != "."@ && h != ".."@) by {
        if h == ".."@ {
            assert(h.last() == '.');
        }
    }
    names_stand_behind_the_slash(dir, h, h);
    rfind_to_is_last(h, '.', h.len() as int);
    match last_of(h, '.') {
        Some(i) => {
            if i > 0 {
                assert(ext[i - 1] == '.');
                assert(ext.contains('.'));
            }
        },
        None => {},
    }
    language_words();
}

proof fn language_words()
    ensures
        "java"@ != "xml"@ && "java"@ != "properties"@ && "java"@ != "yml"@ && "java"@ != "yaml"@
            && "java"@ != "sql"@,
        "xml"@ != "properties"@ && "xml"@ != "yml"@ && "xml"@ != "yaml"@ && "xml"@ != "sql"@,
        "properties"@ != "yml"@ && "properties"@ != "yaml"@ && "properties"@ != "sql"@,
        "yml"@ != "sql"@ && "yaml"@ != "sql"@,
{
    reveal_strlit("java");
    reveal_strlit("xml");
    reveal_strlit("properties");
    reveal_strlit("yml");
    reveal_strlit("yaml");
    reveal_strlit("sql");
    assert("java"@.len() == 4 && "yaml"@.len() == 4 && "java"@[0] == 'j' && "yaml"@[0] == 'y');
    assert("xml"@.len() == 3 && "yml"@.len() == 3 && "sql"@.len() == 3);
    assert("xml"@[0] == 'x' && "yml"@[0] == 'y' && "sql"@[0] == 's');
    assert("properties"@.len() == 10);
}

/// The directories that a walk passes over.
pub proof fn build_directories_are_skipped(n: Seq<char>)
    ensures
        is_skipped(n) <==> n == ".git"@ || n == ".codeatlas"@ || n == ".codegraph"@ || n
            == ".idea"@ || n == ".vscode"@ || n == "target"@ || n == "build"@ || n == "out"@ || n
            == "node_modules"@ || n == "dist"@ || n == ".mvn"@ || n == ".settings"@ || n
            == "logs"@,
{
}

/// Every file with a known language is found, under its path with forward slashes, and no
/// other.
pub proof fn known_files_are_found(files: Seq<(Seq<char>, Seq<char>)>, x: FoundView)
    ensures
        selected(files).contains(x) <==> exists|i: int|
            0 <= i < files.len() && lang_of((#[trigger] files[i]).0) == Some(x.lang) && x.path
                == files[i].0 && x.rel == replaced(files[i].1, '\\', "/"@),
    decreases files.len(),
{
    if files.len() > 0 {
        let rest = files.drop_last();
        let last = files.last();
        known_files_are_found(rest, x);
        assert(files[files.len() - 1] == last);
        assert forall|i: int| 0 <= i < rest.len() implies #[trigger] rest[i] == files[i] by {}
        match found(last) {
            Some(y) => {
                placed_members(selected(rest), y, x);
            },
            None => {},
        }
        if selected(rest).contains(x) {
            let i = choose|i: int|
                0 <= i < rest.len() && lang_of((#[trigger] rest[i]).0) == Some(x.lang) && x.path
                    == rest[i].0 && x.rel == replaced(rest[i].1, '\\', "/"@);
            assert(files[i] == rest[i]);
        }
        if exists|i: int|
            0 <= i < files.len() && lang_of((#[trigger] files[i]).0) == Some(x.lang) && x.path
                == files[i].0 && x.rel == replaced(files[i].1, '\\', "/"@) {
            let i = choose|i: int|
                0 <= i < files.len() && lang_of((#[trigger] files[i]).0) == Some(x.lang) && x.path
                    == files[i].0 && x.rel == replaced(files[i].1, '\\', "/"@);
            if i < rest.len() {
                assert(rest[i] == files[i]);
            }
        }
    }
}

proof fn placed_members(s: Seq<FoundView>, y: FoundView, x: FoundView)
    ensures
        placed(s, y).contains(x) <==> s.contains(x) || x == y,
    decreases s.len(),
{
    if s.len() == 0 || !crate::text::lex_lt(y.rel, s.last().rel) {
        push_members(s, y, x);
    } else {
        let rest = s.drop_last();
        placed_members(rest, y, x);
        push_members(placed(rest, y), s.last(), x);
        push_members(rest, s.last(), x);
        assert(s =~= rest.push(s.last()));
    }
}

// ---------------------------------------------------------------------------
// Words

/// Whether a text holds lower-case letters and digits only.
pub open spec fn is_plain(w: Seq<char>) -> bool {
    w.len() > 0 && forall|i: int| 0 <= i < w.len() ==> plain_char(#[trigger] w[i])
}

pub open spec fn plain_char(c: char) -> bool {
    97 <= c as int <= 122 || 48 <= c as int <= 57
}

proof fn plain_is_copied(s: Seq<char>, from: int, n: int)
    requires
        0 <= from <= n <= s.len(),
        forall|i: int| from <= i < n ==> plain_char(#[trigger] s[i]),
    ensures
        snake_raw(s, n) == snake_raw(s, from) + s.subrange(from, n),
    decreases n - from,
{
    if from < n {
        plain_is_copied(s, from, n - 1);
        assert(plain_char(s[n - 1]));
        assert(s.subrange(from, n) =~= s.subrange(from, n - 1).push(s[n - 1]));
        assert(snake_raw(s, n) =~= snake_raw(s, from) + s.subrange(from, n));
    } else {
        assert(snake_raw(s, n) =~= snake_raw(s, from) + s.subrange(from, n));
    }
}

proof fn no_rims(s: Seq<char>)
    requires
        s.len() > 0 && s[0] != '_' && s.last() != '_',
    ensures
        crate::text::trimmed_of(s, '_') == s,
{
    let e = Seq::<char>::empty();
    trimmed_of_is_core(e, s, e, '_');
    assert(e + s + e =~= s);
}

/// Snake case keeps plain words, parts them where a capital begins a word or a separator
/// stands, and lowers the capitals.
pub proof fn snake_case_parts_words(a: Seq<char>, c: char, b: Seq<char>, sep: char)
    requires
        is_plain(a) && is_plain(b),
        65 <= c as int <= 90,
        sep == '-' || sep == '_' || sep == ' ' || sep == '.',
    ensures
        snake(a) == a,
        snake(a.push(c) + b) == a.push('_').push((c as int + 32) as char) + b,
        snake(seq![c] + b) == seq![(c as int + 32) as char] + b,
        snake(a.push(sep) + b) == a.push('_') + b,
{
    let e = Seq::<char>::empty();
    let l = (c as int + 32) as char;
    assert(plain_char(a[0]) && plain_char(a[a.len() - 1]) && plain_char(b[b.len() - 1]));
    plain_is_copied(a, 0, a.len() as int);
    assert(a.subrange(0, a.len() as int) =~= a);
    assert(snake_raw(a, 0) + a =~= a);
    no_rims(a);
    // A capital behind a lower-case letter.
    let s = a.push(c) + b;
    let n = a.len() as int;
    assert forall|i: int| 0 <= i < n implies plain_char(#[trigger] s[i]) by {
        assert(s[i] == a[i]);
    }
    plain_is_copied(s, 0, n);
    assert(s.subrange(0, n) =~= a);
    assert(snake_raw(s, n) =~= a);
    assert(s[n] == c && s[n - 1] == a[n - 1]);
    assert(starts_word(s, n));
    assert(lowered_char(c) == l);
    assert(snake_raw(s, n + 1) =~= a.push('_').push(l));
    assert forall|i: int| n + 1 <= i < s.len() implies plain_char(#[trigger] s[i]) by {
        assert(s[i] == b[i - n - 1]);
    }
    plain_is_copied(s, n + 1, s.len() as int);
    assert(s.subrange(n + 1, s.len() as int) =~= b);
    let r = a.push('_').push(l) + b;
    assert(snake_raw(s, s.len() as int) =~= r);
    assert(r[0] == a[0] && r.last() == b.last());
    no_rims(r);
    // A capital at the start.
    let t = seq![c] + b;
    assert(t[0] == c);
    assert(snake_raw(t, 0) =~= e);
    assert(!starts_word(t, 0));
    assert(snake_raw(t, 1) =~= seq![l]);
    assert forall|i: int| 1 <= i < t.len() implies plain_char(#[trigger] t[i]) by {
        assert(t[i] == b[i - 1]);
    }
    plain_is_copied(t, 1, t.len() as int);
    assert(t.subrange(1, t.len() as int) =~= b);
    let q = seq![l] + b;
    assert(snake_raw(t, t.len() as int) =~= q);
    assert(q[0] == l && q.last() == b.last());
    no_rims(q);
    // A separator.
    let u = a.push(sep) + b;
    assert forall|i: int| 0 <= i < n implies plain_char(#[trigger] u[i]) by {
        assert(u[i] == a[i]);
    }
    plain_is_copied(u, 0, n);
    assert(u.subrange(0, n) =~= a);
    assert(snake_raw(u, n) =~= a);
    assert(u[n] == sep);
    assert(snake_raw(u, n + 1) =~= a.push('_'));
    assert forall|i: int| n + 1 <= i < u.len() implies plain_char(#[trigger] u[i]) by {
        assert(u[i] == b[i - n - 1]);
    }
    plain_is_copied(u, n + 1, u.len() as int);
    assert(u.subrange(n + 1, u.len() as int) =~= b);
    let v = a.push('_') + b;
    assert(snake_raw(u, u.len() as int) =~= v);
    assert(v[0] == a[0] && v.last() == b.last());
    no_rims(v);
}

/// A digest is written with two hexadecimal digits for each byte, the higher half first.
pub proof fn bytes_are_two_digits(bytes: Seq<u8>, b: u8)
    ensures
        hex_of(bytes.push(b)).len() == hex_of(bytes).len() + 2,
        hex_of(bytes.push(b)).take(hex_of(bytes).len() as int) == hex_of(bytes),
        b as int / 16 < 10 ==> hex_of(bytes.push(b))[hex_of(bytes).len() as int] as int == 48
            + b as int / 16,
        b as int / 16 >= 10 ==> hex_of(bytes.push(b))[hex_of(bytes).len() as int] as int == 97
            + b as int / 16 - 10,
        b as int % 16 < 10 ==> hex_of(bytes.push(b)).last() as int == 48 + b as int % 16,
        b as int % 16 >= 10 ==> hex_of(bytes.push(b)).last() as int == 97 + b as int % 16 - 10,
{
    assert(bytes.push(b).drop_last() =~= bytes);
    assert(hex_of(bytes.push(b)).take(hex_of(bytes).len() as int) =~= hex_of(bytes));
}

/// A text that fits stays; one that does not is cut to its beginning and marked.
pub proof fn long_texts_are_cut_and_marked(s: Seq<char>, max: int)
    requires
        0 <= max,
    ensures
        s.len() <= max ==> truncated(s, max) == s,
        s.len() > max && !s.take(max).contains('\n') ==> truncated(s, max) == s.take(max)
            + "…（已截断）"@,
        s.len() > max ==> exists|k: int|
            0 <= k <= max && (truncated(s, max) == #[trigger] s.take(k) + "…（已截断）"@
                || truncated(s, max) == s.take(k) + "\n…（已截断）"@),
{
    if s.len() > max {
        let cut = s.take(max);
        rfind_to_is_last(cut, '\n', cut.len() as int);
        match last_of(cut, '\n') {
            Some(i) => {
                assert(cut[i] == '\n');
                assert(cut.take(i) =~= s.take(i));
                assert(s.take(max).len() == max);
            },
            None => {
                assert(s.take(max).len() == max);
            },
        }
    }
}

} // verus!

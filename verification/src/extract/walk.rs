//! File discovery.
use crate::lists::{take_all, take_next};
use crate::path::{file_name, name_of};
use crate::split::{replace, replaced};
use crate::text::{last_of, less, lex_lt, rfind_char, same};
use vstd::prelude::*;

verus! {

/// Directories that never contain source worth indexing.
pub open spec fn is_skipped(name: Seq<char>) -> bool {
    ||| name == ".git"@
    ||| name == ".codeatlas"@
    ||| name == ".codegraph"@
    ||| name == ".idea"@
    ||| name == ".vscode"@
    ||| name == "target"@
    ||| name == "build"@
    ||| name == "out"@
    ||| name == "node_modules"@
    ||| name == "dist"@
    ||| name == ".mvn"@
    ||| name == ".settings"@
    ||| name == "logs"@
}

/// Whether a walk enters an entry: build output and VCS metadata are skipped, but
/// never the root itself.
pub fn enters(depth: usize, is_dir: bool, name: &str) -> (r: bool)
    ensures
        r == !(depth > 0 && is_dir && is_skipped(name@)),
{
    !(depth > 0 && is_dir && (same(name, ".git") || same(name, ".codeatlas") || same(
        name,
        ".codegraph",
    ) || same(name, ".idea") || same(name, ".vscode") || same(name, "target") || same(
        name,
        "build",
    ) || same(name, "out") || same(name, "node_modules") || same(name, "dist") || same(
        name,
        ".mvn",
    ) || same(name, ".settings") || same(name, "logs")))
}

#[derive(Debug, Clone, Copy, PartialEq, Eq, Structural)]
pub enum Lang {
    Java,
    Xml,
    Properties,
    Yaml,
    Sql,
}

impl DeepView for Lang {
    type V = Lang;

    open spec fn deep_view(&self) -> Lang {
        *self
    }
}

/// The extension of a path's file name: what follows its last dot, unless that is
/// its first character.
pub open spec fn extension(p: Seq<char>) -> Option<Seq<char>> {
    match name_of(p) {
        Some(name) => match last_of(name, '.') {
            Some(i) => if i > 0 {
                Some(name.skip(i + 1))
            } else {
                None
            },
            None => None,
        },
        None => None,
    }
}

/// The language that a path's extension stands for.
pub open spec fn lang_of(p: Seq<char>) -> Option<Lang> {
    match extension(p) {
        Some(e) => if e == "java"@ {
            Some(Lang::Java)
        } else if e == "xml"@ {
            Some(Lang::Xml)
        } else if e == "properties"@ {
            Some(Lang::Properties)
        } else if e == "yml"@ || e == "yaml"@ {
            Some(Lang::Yaml)
        } else if e == "sql"@ {
            Some(Lang::Sql)
        } else {
            None
        },
        None => None,
    }
}

impl Lang {
    pub open spec fn name(self) -> Seq<char> {
        match self {
            Lang::Java => "java"@,
            Lang::Xml => "xml"@,
            Lang::Properties => "properties"@,
            Lang::Yaml => "yaml"@,
            Lang::Sql => "sql"@,
        }
    }

    pub fn as_str(self) -> (r: &'static str)
        ensures
            r@ == self.name(),
    {
        match self {
            Lang::Java => "java",
            Lang::Xml => "xml",
            Lang::Properties => "properties",
            Lang::Yaml => "yaml",
            Lang::Sql => "sql",
        }
    }

    pub fn of_path(p: &str) -> (r: Option<Self>)
        ensures
            r == lang_of(p@),
    {
        let found = match file_name(p) {
            Some(n) => n,
            None => {
                return None;
            },
        };
        let name = found.as_str();
        match rfind_char(name, '.') {
            Some(i) => {
                if i == 0 {
                    return None;
                }
                let n: usize = name.unicode_len();
                let e = name.substring_char(i + 1, n);
                assert(e@ =~= name@.skip(i + 1));
                if same(e, "java") {
                    Some(Lang::Java)
                } else if same(e, "xml") {
                    Some(Lang::Xml)
                } else if same(e, "properties") {
                    Some(Lang::Properties)
                } else if same(e, "yml") || same(e, "yaml") {
                    Some(Lang::Yaml)
                } else if same(e, "sql") {
                    Some(Lang::Sql)
                } else {
                    None
                }
            },
            None => None,
        }
    }
}

#[derive(Debug)]
pub struct Found {
    pub path: String,
    /// Path relative to the project root, with `/` separators.
    pub rel: String,
    pub lang: Lang,
}

/// The content of a [`Found`].
#[verifier::ext_equal]
pub struct FoundView {
    pub path: Seq<char>,
    pub rel: Seq<char>,
    pub lang: Lang,
}

impl DeepView for Found {
    type V = FoundView;

    open spec fn deep_view(&self) -> FoundView {
        FoundView {
            path: self.path.deep_view(),
            rel: self.rel.deep_view(),
            lang: self.lang,
        }
    }
}

impl Clone for Found {
    fn clone(&self) -> (r: Self)
        ensures
            r.deep_view() == self.deep_view(),
    {
        Found {
            path: self.path.clone(),
            rel: self.rel.clone(),
            lang: self.lang,
        }
    }
}

/// A file that a walk reached, by its path and its path relative to the root.
pub open spec fn found(f: (Seq<char>, Seq<char>)) -> Option<FoundView> {
    match lang_of(f.0) {
        Some(lang) => Some(FoundView { path: f.0, rel: replaced(f.1, '\\', "/"@), lang }),
        None => None,
    }
}

/// `x` put behind the files that do not stand after it.
pub open spec fn placed(s: Seq<FoundView>, x: FoundView) -> Seq<FoundView>
    decreases s.len(),
{
    if s.len() == 0 || !lex_lt(x.rel, s.last().rel) {
        s.push(x)
    } else {
        placed(s.drop_last(), x).push(s.last())
    }
}

/// The indexable ones of the files that a walk reached, ordered by their relative
/// paths, files with one path in the order they were reached.
pub open spec fn selected(files: Seq<(Seq<char>, Seq<char>)>) -> Seq<FoundView>
    decreases files.len(),
{
    if files.len() == 0 {
        Seq::empty()
    } else {
        match found(files.last()) {
            Some(x) => placed(selected(files.drop_last()), x),
            None => selected(files.drop_last()),
        }
    }
}

proof fn placed_at(s: Seq<FoundView>, x: FoundView, i: int)
    requires
        0 <= i <= s.len(),
        i > 0 ==> !lex_lt(x.rel, s[i - 1].rel),
        forall|j: int| i <= j < s.len() ==> lex_lt(x.rel, (#[trigger] s[j]).rel),
    ensures
        placed(s, x) == s.insert(i, x),
    decreases s.len(),
{
    if i < s.len() {
        assert(lex_lt(x.rel, s.last().rel));
        placed_at(s.drop_last(), x, i);
        assert(placed(s, x) =~= s.insert(i, x));
    } else {
        assert(placed(s, x) =~= s.insert(i, x));
    }
}

/// Every indexable file among those that a walk reached, in stable order.
pub fn scan(files: &Vec<(String, String)>) -> (r: Vec<Found>)
    ensures
        r.deep_view() == selected(files.deep_view()),
{
    let ghost d = files.deep_view();
    let mut out: Vec<Found> = Vec::new();
    let mut n: usize = 0;
    assert(out.deep_view() =~= selected(d.take(0)));
    while n < files.len()
        invariant
            n <= files.len(),
            d == files.deep_view(),
            out.deep_view() == selected(d.take(n as int)),
        decreases files.len() - n,
    {
        broadcast use take_next;

        let ghost before = out.deep_view();
        assert(d[n as int] == (files@[n as int].0@, files@[n as int].1@));
        assert(d.take(n + 1).last() == d[n as int]);
        match Lang::of_path(files[n].0.as_str()) {
            Some(lang) => {
                let x = Found {
                    path: files[n].0.clone(),
                    rel: replace(files[n].1.as_str(), '\\', "/"),
                    lang,
                };
                let ghost v = x.deep_view();
                let mut i: usize = out.len();
                while i > 0 && less(x.rel.as_str(), out[i - 1].rel.as_str())
                    invariant
                        i <= out.len(),
                        out.deep_view() == before,
                        v == x.deep_view(),
                        forall|j: int|
                            i <= j < before.len() ==> lex_lt(v.rel, (#[trigger] before[j]).rel),
                    decreases i,
                {
                    assert(before[i - 1].rel == out@[i - 1].rel@);
                    i -= 1;
                }
                assert(i > 0 ==> before[i - 1].rel == out@[i - 1].rel@);
                out.insert(i, x);
                proof {
                    placed_at(before, v, i as int);
                    assert(out.deep_view() =~= before.insert(i as int, v));
                }
            },
            None => {},
        }
        n += 1;
    }
    broadcast use take_all;

    assert(d.take(n as int) == d);
    out
}

/// A scan lists the files in ascending order of their relative paths.
pub proof fn scan_sorted(files: Seq<(Seq<char>, Seq<char>)>)
    ensures
        forall|i: int, j: int|
            0 <= i < j < selected(files).len() ==> !lex_lt(
                (#[trigger] selected(files)[j]).rel,
                (#[trigger] selected(files)[i]).rel,
            ),
    decreases files.len(),
{
    if files.len() > 0 {
        scan_sorted(files.drop_last());
        match found(files.last()) {
            Some(x) => {
                placed_sorted(selected(files.drop_last()), x);
            },
            None => {},
        }
    }
}

spec fn in_rel_order(s: Seq<FoundView>) -> bool {
    forall|i: int, j: int|
        0 <= i < j < s.len() ==> !lex_lt((#[trigger] s[j]).rel, (#[trigger] s[i]).rel)
}

proof fn placed_members(s: Seq<FoundView>, x: FoundView)
    ensures
        placed(s, x).len() == s.len() + 1,
        forall|k: int|
            0 <= k < placed(s, x).len() ==> #[trigger] placed(s, x)[k] == x || s.contains(
                placed(s, x)[k],
            ),
    decreases s.len(),
{
    if s.len() > 0 && lex_lt(x.rel, s.last().rel) {
        placed_members(s.drop_last(), x);
        let p = placed(s.drop_last(), x);
        assert forall|k: int| 0 <= k < placed(s, x).len() implies #[trigger] placed(s, x)[k] == x
            || s.contains(placed(s, x)[k]) by {
            if k < p.len() {
                assert(placed(s, x)[k] == p[k]);
                if p[k] != x {
                    let m = choose|m: int|
                        0 <= m < s.drop_last().len() && s.drop_last()[m] == p[k];
                    assert(s[m] == p[k]);
                }
            } else {
                assert(placed(s, x)[k] == s.last());
                assert(s[s.len() - 1] == s.last());
            }
        }
    } else {
        assert forall|k: int| 0 <= k < placed(s, x).len() implies #[trigger] placed(s, x)[k] == x
            || s.contains(placed(s, x)[k]) by {
            if k < s.len() {
                assert(s[k] == placed(s, x)[k]);
            }
        }
    }
}

proof fn placed_sorted(s: Seq<FoundView>, x: FoundView)
    requires
        in_rel_order(s),
    ensures
        in_rel_order(placed(s, x)),
    decreases s.len(),
{
    if s.len() > 0 && lex_lt(x.rel, s.last().rel) {
        placed_sorted(s.drop_last(), x);
        placed_members(s.drop_last(), x);
        let p = placed(s.drop_last(), x);
        let q = placed(s, x);
        assert forall|i: int, j: int| 0 <= i < j < q.len() implies !lex_lt(
            (#[trigger] q[j]).rel,
            (#[trigger] q[i]).rel,
        ) by {
            if j < p.len() {
                assert(q[i] == p[i] && q[j] == p[j]);
            } else {
                assert(q[i] == p[i]);
                if p[i] == x {
                    crate::text::lex_asymmetric(x.rel, s.last().rel);
                } else {
                    let m = choose|m: int|
                        0 <= m < s.drop_last().len() && s.drop_last()[m] == p[i];
                    assert(s[m] == p[i]);
                    assert(s[s.len() - 1] == s.last());
                }
            }
        }
    } else {
        let q = placed(s, x);
        assert forall|i: int, j: int| 0 <= i < j < q.len() implies !lex_lt(
            (#[trigger] q[j]).rel,
            (#[trigger] q[i]).rel,
        ) by {
            if j < s.len() {
                assert(q[i] == s[i] && q[j] == s[j]);
            } else {
                assert(q[i] == s[i]);
                if lex_lt(x.rel, s[i].rel) {
                    if i < s.len() - 1 {
                        crate::text::lex_total(s[i].rel, s.last().rel);
                        assert(s[s.len() - 1] == s.last());
                        if lex_lt(s[i].rel, s.last().rel) {
                            crate::text::lex_transitive(x.rel, s[i].rel, s.last().rel);
                        }
                    }
                }
            }
        }
    }
}

} // verus!


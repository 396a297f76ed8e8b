//! L0 build pipeline: what the probes found, put into the rows that are stored.
pub mod entry;
pub mod java_pass;
pub mod xml_pass;

use crate::lists::{as_ints, order_by, stable_order};
use crate::path::{file_name, name_of, parent, parent_is_shorter, parent_of};
use crate::split::{replace, replaced};
use crate::text::{
    count_char, count_of, drop_while, ends_with, has_prefix, has_suffix, only, owned, same,
    starts_with, strip_suffix, trim_end_of,
};
use crate::textmap::TextMap;
use vstd::prelude::*;

verus! {

/// What a build counted.
#[derive(Debug)]
pub struct BuildStats {
    pub modules: usize,
    pub files: usize,
    pub symbols: usize,
    pub refs: usize,
    pub refs_resolved: usize,
    pub tables: usize,
    pub columns: usize,
    pub table_access: usize,
    pub entrypoints: usize,
    pub config_props: usize,
    pub commits: usize,
    pub parse_errors: usize,
    pub domains: usize,
    pub traces: usize,
}

/// The content of a [`BuildStats`].
#[verifier::ext_equal]
pub struct BuildStatsView {
    pub modules: usize,
    pub files: usize,
    pub symbols: usize,
    pub refs: usize,
    pub refs_resolved: usize,
    pub tables: usize,
    pub columns: usize,
    pub table_access: usize,
    pub entrypoints: usize,
    pub config_props: usize,
    pub commits: usize,
    pub parse_errors: usize,
    pub domains: usize,
    pub traces: usize,
}

impl DeepView for BuildStats {
    type V = BuildStatsView;

    open spec fn deep_view(&self) -> BuildStatsView {
        BuildStatsView {
            modules: self.modules,
            files: self.files,
            symbols: self.symbols,
            refs: self.refs,
            refs_resolved: self.refs_resolved,
            tables: self.tables,
            columns: self.columns,
            table_access: self.table_access,
            entrypoints: self.entrypoints,
            config_props: self.config_props,
            commits: self.commits,
            parse_errors: self.parse_errors,
            domains: self.domains,
            traces: self.traces,
        }
    }
}

impl Clone for BuildStats {
    fn clone(&self) -> (r: Self)
        ensures
            r.deep_view() == self.deep_view(),
    {
        BuildStats {
            modules: self.modules,
            files: self.files,
            symbols: self.symbols,
            refs: self.refs,
            refs_resolved: self.refs_resolved,
            tables: self.tables,
            columns: self.columns,
            table_access: self.table_access,
            entrypoints: self.entrypoints,
            config_props: self.config_props,
            commits: self.commits,
            parse_errors: self.parse_errors,
            domains: self.domains,
            traces: self.traces,
        }
    }
}

impl Default for BuildStats {
    fn default() -> (r: Self)
        ensures
            r.deep_view() == (BuildStatsView {
                modules: 0,
                files: 0,
                symbols: 0,
                refs: 0,
                refs_resolved: 0,
                tables: 0,
                columns: 0,
                table_access: 0,
                entrypoints: 0,
                config_props: 0,
                commits: 0,
                parse_errors: 0,
                domains: 0,
                traces: 0,
            }),
    {
        BuildStats {
            modules: 0,
            files: 0,
            symbols: 0,
            refs: 0,
            refs_resolved: 0,
            tables: 0,
            columns: 0,
            table_access: 0,
            entrypoints: 0,
            config_props: 0,
            commits: 0,
            parse_errors: 0,
            domains: 0,
            traces: 0,
        }
    }
}

/// How much git history to mine for vocabulary. Subjects saturate well before
/// this on the repositories we target, and a full walk of a decade-old history
/// costs minutes for no extra signal.
pub const GIT_LOG_LIMIT: usize = 4000;

// ---------------------------------------------------------------------------
// Modules

/// Whether a relative path is a POM's.
pub fn is_pom(rel: &str) -> (r: bool)
    ensures
        r == (rel@ == "pom.xml"@ || has_suffix(rel@, "/pom.xml"@)),
{
    same(rel, "pom.xml") || ends_with(rel, "/pom.xml")
}

/// The order in which POMs are registered: by the depth of their paths, so that
/// parents come before children.
pub fn module_order(rels: &Vec<String>) -> (r: Vec<usize>)
    ensures
        as_ints(r@) == stable_order(
            Seq::new(rels@.len(), |i: int| count_of(rels.deep_view()[i], '/') as u64),
            rels@.len(),
        ),
        r.len() == rels.len(),
        forall|i: int| 0 <= i < r.len() ==> #[trigger] r@[i] < rels.len(),
{
    let ghost want = Seq::new(rels@.len(), |i: int| count_of(rels.deep_view()[i], '/') as u64);
    let mut keys: Vec<u64> = Vec::new();
    let mut i: usize = 0;
    while i < rels.len()
        invariant
            i <= rels.len(),
            want == Seq::new(rels@.len(), |i: int| count_of(rels.deep_view()[i], '/') as u64),
            keys@ == want.take(i as int),
        decreases rels.len() - i,
    {
        let n: usize = count_char(rels[i].as_str(), '/');
        assert(rels.deep_view()[i as int] == rels@[i as int]@);
        keys.push(n as u64);
        i += 1;
        assert(keys@ =~= want.take(i as int));
    }
    assert(keys@ =~= want);
    order_by(&keys)
}

/// A module's path: the directory of its POM, relative to the root.
pub open spec fn dir_of_pom(rel: Seq<char>) -> Seq<char> {
    let dir = match crate::text::before_suffix(rel, "pom.xml"@) {
        Some(d) => drop_while(d, only('/')),
        None => Seq::empty(),
    };
    if dir.len() == 0 {
        "."@
    } else {
        dir
    }
}

pub fn module_dir(rel: &str) -> (r: String)
    ensures
        r@ == dir_of_pom(rel@),
{
    match strip_suffix(rel, "pom.xml") {
        Some(d) => {
            let dir = trim_end_of(d, '/');
            if dir.is_empty() {
                owned(".")
            } else {
                owned(dir)
            }
        },
        None => owned("."),
    }
}

/// A module's name: its artifact's, else that of its directory.
pub fn module_name(artifact_id: &Option<String>, dir: &str) -> (r: String)
    ensures
        r@ == (match artifact_id.deep_view() {
            Some(a) => a,
            None => match name_of(dir@) {
                Some(n) => n,
                None => dir@,
            },
        }),
{
    match artifact_id {
        Some(a) => a.clone(),
        None => match file_name(dir) {
            Some(n) => n,
            None => owned(dir),
        },
    }
}

/// What a directory is called: the root `.`, any other by its path with `/` between the
/// names.
pub open spec fn dir_key(p: Seq<char>) -> Seq<char> {
    if p.len() == 0 {
        "."@
    } else {
        replaced(p, '\\', "/"@)
    }
}

/// The nearest directory above `dir` that is known.
pub open spec fn nearest_above(dir: Seq<char>, known: Set<Seq<char>>) -> Option<Seq<char>>
    decreases dir.len(),
{
    match parent_of(dir) {
        Some(p) => {
            proof {
                parent_is_shorter(dir);
            }
            if known.contains(dir_key(p)) {
                Some(dir_key(p))
            } else if dir_key(p) == "."@ {
                None
            } else {
                nearest_above(p, known)
            }
        },
        None => None,
    }
}

/// The nearest already-registered ancestor directory of `dir`.
pub fn parent_module_dir(dir: &str, known: &TextMap<i64>) -> (r: Option<String>)
    ensures
        r.deep_view() == (if dir@ == "."@ {
            None
        } else {
            nearest_above(dir@, known.deep_view().dom())
        }),
{
    if same(dir, ".") {
        return None;
    }
    let mut cur = owned(dir);
    loop
        invariant
            dir@ != "."@,
            nearest_above(dir@, known.deep_view().dom()) == nearest_above(
                cur@,
                known.deep_view().dom(),
            ),
        decreases cur@.len(),
    {
        proof {
            parent_is_shorter(cur@);
        }
        let p = match parent(cur.as_str()) {
            Some(p) => p,
            None => {
                return None;
            },
        };
        let key = if p.as_str().is_empty() {
            owned(".")
        } else {
            replace(p.as_str(), '\\', "/")
        };
        if known.contains_key(key.as_str()) {
            return Some(key);
        }
        if same(key.as_str(), ".") {
            return None;
        }
        cur = p;
    }
}

/// Whether the module directory `dir` contains the file `rel`.
pub open spec fn contains_file(dir: Seq<char>, rel: Seq<char>) -> bool {
    dir == "."@ || has_prefix(rel, dir + "/"@)
}

/// How deep a module directory is.
pub open spec fn module_depth(dir: Seq<char>) -> nat {
    if dir == "."@ {
        0
    } else {
        count_of(dir, '/') + 1
    }
}

/// The deepest of the modules that contain `rel`, with its depth.
pub open spec fn best_module(l: Seq<(Seq<char>, i64)>, rel: Seq<char>) -> Option<(nat, i64)>
    decreases l.len(),
{
    if l.len() == 0 {
        None
    } else {
        let before = best_module(l.drop_last(), rel);
        let m = l.last();
        if contains_file(m.0, rel) && (before is None || module_depth(m.0) > (before->0).0) {
            Some((module_depth(m.0), m.1))
        } else {
            before
        }
    }
}

/// The most specific module whose directory contains this file.
pub fn owning_module(rel: &str, modules: &TextMap<i64>) -> (r: Option<i64>)
    ensures
        r == (match best_module(modules.list(), rel@) {
            Some(b) => Some(b.1),
            None => None,
        }),
{
    let n: usize = modules.len();
    let ghost l = modules.list();
    let mut best: Option<(u128, i64)> = None;
    let mut i: usize = 0;
    while i < n
        invariant
            i <= n,
            n == l.len(),
            l == modules.list(),
            match best {
                Some(b) => best_module(l.take(i as int), rel@) == Some((b.0 as nat, b.1)),
                None => best_module(l.take(i as int), rel@) is None,
            },
        decreases n - i,
    {
        proof {
            assert(l.take(i + 1).drop_last() =~= l.take(i as int));
            assert(l.take(i + 1).last() == l[i as int]);
        }
        let dir = modules.key_at(i);
        let id: i64 = *modules.value_at(i);
        let mut prefix = dir.clone();
        prefix.append("/");
        if same(dir.as_str(), ".") || starts_with(rel, prefix.as_str()) {
            let depth: u128 = if same(dir.as_str(), ".") {
                0
            } else {
                count_char(dir.as_str(), '/') as u128 + 1
            };
            let deeper = match best {
                Some(b) => depth > b.0,
                None => true,
            };
            if deeper {
                best = Some((depth, id));
            }
        }
        i += 1;
    }
    assert(l.take(i as int) =~= l);
    match best {
        Some(b) => Some(b.1),
        None => None,
    }
}

/// The owning module contains the file, and no module that contains it is deeper;
/// a file has none only where no module contains it.
pub proof fn owner_is_deepest(l: Seq<(Seq<char>, i64)>, rel: Seq<char>)
    ensures
        match best_module(l, rel) {
            Some(b) => {
                &&& exists|i: int|
                    0 <= i < l.len() && contains_file((#[trigger] l[i]).0, rel) && l[i].1 == b.1
                        && module_depth(l[i].0) == b.0
                &&& forall|i: int|
                    0 <= i < l.len() && contains_file((#[trigger] l[i]).0, rel) ==> module_depth(
                        l[i].0,
                    ) <= b.0
            },
            None => forall|i: int|
                0 <= i < l.len() ==> !contains_file((#[trigger] l[i]).0, rel),
        },
    decreases l.len(),
{
    if l.len() > 0 {
        let m = l.drop_last();
        owner_is_deepest(m, rel);
        assert(forall|i: int| 0 <= i < m.len() ==> m[i] == l[i]);
        let before = best_module(m, rel);
        if best_module(l, rel) == before {
            if before is Some {
                let b = before->0;
                let i = choose|i: int|
                    0 <= i < m.len() && contains_file((#[trigger] m[i]).0, rel) && m[i].1 == b.1
                        && module_depth(m[i].0) == b.0;
                assert(l[i] == m[i]);
            }
            assert forall|i: int|
                0 <= i < l.len() && contains_file((#[trigger] l[i]).0, rel) implies before is Some
                && module_depth(l[i].0) <= (before->0).0 by {
                if i < m.len() {
                    assert(m[i] == l[i]);
                }
            }
        } else {
            assert(l[l.len() - 1] == l.last());
            assert forall|i: int|
                0 <= i < l.len() && contains_file((#[trigger] l[i]).0, rel) implies module_depth(
                l[i].0,
            ) <= module_depth(l.last().0) by {
                if i < m.len() {
                    assert(m[i] == l[i]);
                }
            }
        }
    }
}

// ---------------------------------------------------------------------------
// Files

/// How many line feeds the bytes hold.
pub open spec fn line_feeds(bytes: Seq<u8>) -> nat
    decreases bytes.len(),
{
    if bytes.len() == 0 {
        0
    } else if bytes.last() == 10 {
        line_feeds(bytes.drop_last()) + 1
    } else {
        line_feeds(bytes.drop_last())
    }
}

/// The number of lines in a file.
pub fn count_lines(bytes: &[u8]) -> (r: usize)
    requires
        bytes@.len() < usize::MAX,
    ensures
        r == line_feeds(bytes@) + 1,
{
    let mut n: usize = 0;
    let mut i: usize = 0;
    while i < bytes.len()
        invariant
            i <= bytes.len() < usize::MAX,
            n <= i,
            n == line_feeds(bytes@.take(i as int)),
        decreases bytes.len() - i,
    {
        assert(bytes@.take(i + 1).drop_last() =~= bytes@.take(i as int));
        if bytes[i] == 10 {
            n += 1;
        }
        i += 1;
    }
    assert(bytes@.take(i as int) =~= bytes@);
    n + 1
}

/// The ids of the files that have a row: paths of files deleted since a commit have
/// none.
pub open spec fn ids_of(files: Seq<Seq<char>>, ids: Map<Seq<char>, i64>) -> Seq<i64>
    decreases files.len(),
{
    if files.len() == 0 {
        Seq::empty()
    } else if ids.dom().contains(files.last()) {
        ids_of(files.drop_last(), ids).push(ids[files.last()])
    } else {
        ids_of(files.drop_last(), ids)
    }
}

/// The rows of the files that a commit touched.
pub fn touched_ids(files: &Vec<String>, ids: &TextMap<i64>) -> (r: Vec<i64>)
    ensures
        r@ == ids_of(files.deep_view(), ids.deep_view()),
{
    let ghost d = files.deep_view();
    let mut out: Vec<i64> = Vec::new();
    let mut i: usize = 0;
    assert(out@ =~= ids_of(d.take(0), ids.deep_view()));
    while i < files.len()
        invariant
            i <= files.len(),
            d == files.deep_view(),
            out@ == ids_of(d.take(i as int), ids.deep_view()),
        decreases files.len() - i,
    {
        proof {
            assert(d.take(i + 1).drop_last() =~= d.take(i as int));
            assert(d.take(i + 1).last() == files@[i as int]@);
        }
        match ids.get(files[i].as_str()) {
            Some(id) => {
                out.push(*id);
            },
            None => {},
        }
        i += 1;
    }
    assert(d.take(i as int) =~= d);
    out
}

} // verus!


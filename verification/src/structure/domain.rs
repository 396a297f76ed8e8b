//! Domain partitioning.
//!
//! Legacy projects have no explicit domain boundaries, but they leave four
//! independent traces of them: package names, table-name prefixes, which files
//! change together, and who calls whom. Each is individually unreliable —
//! packages lie after refactors, table prefixes collide, churn couples unrelated
//! code through shared utilities — so they are combined by weighted vote and a
//! curated file overrides the result. This module decides what is voted for and
//! what the outcome means; the weights are summed by the caller.
use crate::idmap::IdMap;
use crate::lists::{holds, sort_unique, sorted_of, take_all, take_next};
use crate::split::{joined, pieces, replace, replaced, split};
use crate::text::{
    contains_str, first_at, has_prefix, less, lex_irreflexive, lex_lt, lex_transitive, lowered,
    owned, same, starts_with, strip_prefix, strip_suffix, to_lower, before_suffix,
};
use crate::textmap::{entries_of, has_key, in_order, map_of, map_of_at, TextMap};
use crate::util::{less_prefix, snake, to_snake};
use vstd::prelude::*;
use vstd::utf8::encode_utf8;

verus! {

/// Package segments that describe layering or mechanics, never a business domain.
pub open spec fn infra_segments() -> Seq<Seq<char>> {
    seq![
        "impl"@,
        "util"@,
        "utils"@,
        "dto"@,
        "dtos"@,
        "bean"@,
        "beans"@,
        "vo"@,
        "po"@,
        "pojo"@,
        "entity"@,
        "common"@,
        "config"@,
        "constant"@,
        "constants"@,
        "enums"@,
        "interfaces"@,
        "service"@,
        "services"@,
        "model"@,
        "models"@,
        "web"@,
        "controller"@,
        "job"@,
        "jobs"@,
        "adapter"@,
        "pub"@,
        "mapper"@,
        "dao"@,
        "listener"@,
        "domain"@,
        "application"@,
        "infrastructure"@,
        "core"@,
        "api"@,
        "client"@,
        "remote"@,
        "facade"@,
        "manager"@,
        "helper"@,
        "support"@,
        "exception"@,
        "filter"@,
        "aspect"@,
        "handler"@,
        "convert"@,
        "converter"@,
        "builder"@,
        "factory"@,
        "request"@,
        "response"@,
        "query"@,
        "command"@,
        "event"@,
        "task"@,
        "test"@,
        "tests"@,
        "persistence"@,
        "repository"@,
        "resources"@,
        "req"@,
        "rsp"@,
        "res"@,
        "resp"@,
        "result"@,
        "param"@,
        "params"@,
        "form"@,
        "view"@,
        "webapp"@,
        "web_inf"@,
        "meta_inf"@,
        "static"@,
        "assets"@,
        "jsp"@,
        "spock"@,
        "groovy"@,
        "dubbo"@,
        "rpc"@,
        "http"@,
        "mq"@,
        "gateway"@,
        "spi"@,
        "external"@,
        "interceptor"@,
        "annotation"@,
        "excel"@,
        "excel_import"@,
        "excel_export"@,
        "import"@,
        "export"@,
    ]
}

fn infra_list() -> (r: Vec<String>)
    ensures
        r.deep_view() == infra_segments(),
{
    let mut v: Vec<String> = Vec::new();
    v.push(owned("impl"));
    v.push(owned("util"));
    v.push(owned("utils"));
    v.push(owned("dto"));
    v.push(owned("dtos"));
    v.push(owned("bean"));
    v.push(owned("beans"));
    v.push(owned("vo"));
    v.push(owned("po"));
    v.push(owned("pojo"));
    v.push(owned("entity"));
    v.push(owned("common"));
    v.push(owned("config"));
    v.push(owned("constant"));
    v.push(owned("constants"));
    v.push(owned("enums"));
    v.push(owned("interfaces"));
    v.push(owned("service"));
    v.push(owned("services"));
    v.push(owned("model"));
    v.push(owned("models"));
    v.push(owned("web"));
    v.push(owned("controller"));
    v.push(owned("job"));
    v.push(owned("jobs"));
    v.push(owned("adapter"));
    v.push(owned("pub"));
    v.push(owned("mapper"));
    v.push(owned("dao"));
    v.push(owned("listener"));
    v.push(owned("domain"));
    v.push(owned("application"));
    v.push(owned("infrastructure"));
    v.push(owned("core"));
    v.push(owned("api"));
    v.push(owned("client"));
    v.push(owned("remote"));
    v.push(owned("facade"));
    v.push(owned("manager"));
    v.push(owned("helper"));
    v.push(owned("support"));
    v.push(owned("exception"));
    v.push(owned("filter"));
    v.push(owned("aspect"));
    v.push(owned("handler"));
    v.push(owned("convert"));
    v.push(owned("converter"));
    v.push(owned("builder"));
    v.push(owned("factory"));
    v.push(owned("request"));
    v.push(owned("response"));
    v.push(owned("query"));
    v.push(owned("command"));
    v.push(owned("event"));
    v.push(owned("task"));
    v.push(owned("test"));
    v.push(owned("tests"));
    v.push(owned("persistence"));
    v.push(owned("repository"));
    v.push(owned("resources"));
    v.push(owned("req"));
    v.push(owned("rsp"));
    v.push(owned("res"));
    v.push(owned("resp"));
    v.push(owned("result"));
    v.push(owned("param"));
    v.push(owned("params"));
    v.push(owned("form"));
    v.push(owned("view"));
    v.push(owned("webapp"));
    v.push(owned("web_inf"));
    v.push(owned("meta_inf"));
    v.push(owned("static"));
    v.push(owned("assets"));
    v.push(owned("jsp"));
    v.push(owned("spock"));
    v.push(owned("groovy"));
    v.push(owned("dubbo"));
    v.push(owned("rpc"));
    v.push(owned("http"));
    v.push(owned("mq"));
    v.push(owned("gateway"));
    v.push(owned("spi"));
    v.push(owned("external"));
    v.push(owned("interceptor"));
    v.push(owned("annotation"));
    v.push(owned("excel"));
    v.push(owned("excel_import"));
    v.push(owned("excel_export"));
    v.push(owned("import"));
    v.push(owned("export"));
    assert(v.deep_view() =~= infra_segments());
    v
}

/// Table prefix carried by every table in the projects we target.
pub const TABLE_PREFIX: &'static str = "t_";

/// Minimum files before a package segment is taken seriously as a domain.
pub const MIN_SEED_FILES: u64 = 3;

/// Operator-maintained overrides, read from `.codeatlas/domains.toml`.
pub struct DomainConfig {
    /// Domain key → human label.
    pub labels: TextMap<String>,
    /// Domain key → alternative spellings to fold into it.
    pub aliases: TextMap<Vec<String>>,
    /// Domain key → path prefixes that belong to it regardless of voting.
    pub paths: TextMap<Vec<String>>,
    /// Domain key → table names that belong to it regardless of voting.
    pub tables: TextMap<Vec<String>>,
    /// Keys to drop entirely, for segments that survive the infra filter but
    /// still carry no business meaning in this codebase.
    pub exclude: Vec<String>,
}

/// The content of a [`DomainConfig`].
#[verifier::ext_equal]
pub struct DomainConfigView {
    pub labels: Map<Seq<char>, Seq<char>>,
    pub aliases: Map<Seq<char>, Seq<Seq<char>>>,
    pub paths: Map<Seq<char>, Seq<Seq<char>>>,
    pub tables: Map<Seq<char>, Seq<Seq<char>>>,
    pub exclude: Seq<Seq<char>>,
}

impl DeepView for DomainConfig {
    type V = DomainConfigView;

    open spec fn deep_view(&self) -> DomainConfigView {
        DomainConfigView {
            labels: self.labels.deep_view(),
            aliases: self.aliases.deep_view(),
            paths: self.paths.deep_view(),
            tables: self.tables.deep_view(),
            exclude: self.exclude.deep_view(),
        }
    }
}

impl Default for DomainConfig {
    fn default() -> (r: Self)
        ensures
            r.deep_view() == (DomainConfigView {
                labels: Map::empty(),
                aliases: Map::empty(),
                paths: Map::empty(),
                tables: Map::empty(),
                exclude: Seq::empty(),
            }),
            r.aliases.list() == Seq::<(Seq<char>, Seq<Seq<char>>)>::empty(),
    {
        let r = DomainConfig {
            labels: TextMap::new(),
            aliases: TextMap::new(),
            paths: TextMap::new(),
            tables: TextMap::new(),
            exclude: Vec::new(),
        };
        assert(r.deep_view().exclude =~= Seq::empty());
        r
    }
}

// ---------------------------------------------------------------------------
// Spellings

/// A key without its word boundaries.
pub open spec fn flattened(key: Seq<char>) -> Seq<char> {
    replaced(snake(key), '_', Seq::empty())
}

/// Whether an alias entry covers the flattened segment: by its key or by one of its
/// spellings.
pub open spec fn covers(e: (Seq<char>, Seq<Seq<char>>), flat: Seq<char>) -> bool {
    flattened(e.0) == flat || exists|i: int|
        0 <= i < e.1.len() && flattened(#[trigger] e.1[i]) == flat
}

/// The key of the first alias entry from `i` on that covers the segment.
pub open spec fn alias_from(
    l: Seq<(Seq<char>, Seq<Seq<char>>)>,
    flat: Seq<char>,
    i: int,
) -> Option<Seq<char>>
    decreases l.len() - i,
{
    if i < 0 || i >= l.len() {
        None
    } else if covers(l[i], flat) {
        Some(l[i].0)
    } else {
        alias_from(l, flat, i + 1)
    }
}

/// The canonical domain key of a raw segment, given the aliases in key order.
pub open spec fn canonical_of(l: Seq<(Seq<char>, Seq<Seq<char>>)>, raw: Seq<char>) -> Seq<char> {
    match alias_from(l, flattened(raw), 0) {
        Some(k) => k,
        None => snake(raw),
    }
}

fn flatten(s: &str) -> (r: String)
    ensures
        r@ == flattened(s@),
{
    proof {
        reveal_strlit("");
        assert(""@ =~= Seq::<char>::empty());
    }
    replace(to_snake(s).as_str(), '_', "")
}

/// Compare an alias spelling to an already-flattened segment.
pub fn flatten_eq(alias: &str, flat_segment: &str) -> (r: bool)
    ensures
        r == (flattened(alias@) == flat_segment@),
{
    same(flatten(alias).as_str(), flat_segment)
}

impl DomainConfig {
    /// Map a raw segment to its canonical domain key.
    ///
    /// Alias matching ignores separators, because the variants that actually
    /// occur differ only in where word boundaries were drawn: `groupBuying`,
    /// `groupbuying` and `group_buying` are one domain spelled three ways, and
    /// an operator should not have to enumerate all of them.
    pub fn canonical(&self, raw: &str) -> (r: String)
        ensures
            r@ == canonical_of(self.aliases.list(), raw@),
    {
        let flat = flatten(raw);
        let n: usize = self.aliases.len();
        let ghost l = self.aliases.list();
        let mut i: usize = 0;
        while i < n
            invariant
                i <= n,
                n == l.len(),
                l == self.aliases.list(),
                flat@ == flattened(raw@),
                alias_from(l, flat@, 0) == alias_from(l, flat@, i as int),
            decreases n - i,
        {
            let key = self.aliases.key_at(i);
            let alts = self.aliases.value_at(i);
            let mut hit = flatten_eq(key.as_str(), flat.as_str());
            let mut k: usize = 0;
            while k < alts.len() && !hit
                invariant
                    k <= alts.len(),
                    i < l.len(),
                    key@ == l[i as int].0,
                    alts.deep_view() == l[i as int].1,
                    hit ==> covers(l[i as int], flat@),
                    !hit ==> flattened(key@) != flat@ && forall|j: int|
                        0 <= j < k ==> flattened(#[trigger] l[i as int].1[j]) != flat@,
                decreases alts.len() - k,
            {
                assert(l[i as int].1[k as int] == alts@[k as int]@);
                hit = flatten_eq(alts[k].as_str(), flat.as_str());
                k += 1;
            }
            if hit {
                return key.clone();
            }
            i += 1;
        }
        to_snake(raw)
    }
}

/// Separator-free, de-suffixed form shared by spelling variants of one word:
/// `buying` and `buy` share a stem, and so do `coupons` and `coupon`.
pub open spec fn shape(key: Seq<char>) -> Seq<char> {
    let flat = replaced(key, '_', Seq::empty());
    let stem = |suffix: Seq<char>|
        match before_suffix(flat, suffix) {
            Some(s) => if encode_utf8(s).len() >= 4 {
                Some(s)
            } else {
                None
            },
            None => None,
        };
    match stem("ing"@) {
        Some(s) => s,
        None => match stem("es"@) {
            Some(s) => s,
            None => match stem("s"@) {
                Some(s) => s,
                None => flat,
            },
        },
    }
}

/// Separator-free, de-suffixed form shared by spelling variants of one word.
pub fn variant_shape(key: &str) -> (r: String)
    ensures
        r@ == shape(key@),
{
    proof {
        reveal_strlit("");
        assert(""@ =~= Seq::<char>::empty());
    }
    let flat = replace(key, '_', "");
    match strip_suffix(flat.as_str(), "ing") {
        Some(stem) => {
            if stem.as_bytes().len() >= 4 {
                return owned(stem);
            }
        },
        None => {},
    }
    match strip_suffix(flat.as_str(), "es") {
        Some(stem) => {
            if stem.as_bytes().len() >= 4 {
                return owned(stem);
            }
        },
        None => {},
    }
    match strip_suffix(flat.as_str(), "s") {
        Some(stem) => {
            if stem.as_bytes().len() >= 4 {
                return owned(stem);
            }
        },
        None => {},
    }
    flat
}

/// Shape → key, of two keys with one shape the later.
pub open spec fn shapes_of(l: Seq<(Seq<char>, u64)>) -> Map<Seq<char>, Seq<char>>
    decreases l.len(),
{
    if l.len() == 0 {
        Map::empty()
    } else {
        shapes_of(l.drop_last()).insert(shape(l.last().0), l.last().0)
    }
}

/// Variant shape → the seed key that survived folding.
pub fn variant_index(seeds: &TextMap<u64>) -> (r: TextMap<String>)
    ensures
        r.deep_view() == shapes_of(seeds.list()),
{
    let n: usize = seeds.len();
    let ghost l = seeds.list();
    let mut out: TextMap<String> = TextMap::new();
    let mut i: usize = 0;
    while i < n
        invariant
            i <= n,
            n == l.len(),
            l == seeds.list(),
            out.deep_view() == shapes_of(l.take(i as int)),
        decreases n - i,
    {
        broadcast use take_next;

        assert(l.take(i + 1).last() == l[i as int]);
        let key = seeds.key_at(i);
        out.insert(variant_shape(key.as_str()), key.clone());
        i += 1;
    }
    broadcast use take_all;

    assert(l.take(i as int) == l);
    out
}

// ---------------------------------------------------------------------------
// Files

/// A file's identity as far as partitioning is concerned.
#[derive(Debug)]
pub struct FileRow {
    pub id: i64,
    pub path: String,
    /// Package-path segments, lowercased and de-camelised.
    pub segments: Vec<String>,
}

/// The content of a [`FileRow`].
#[verifier::ext_equal]
pub struct FileRowView {
    pub id: i64,
    pub path: Seq<char>,
    pub segments: Seq<Seq<char>>,
}

impl DeepView for FileRow {
    type V = FileRowView;

    open spec fn deep_view(&self) -> FileRowView {
        FileRowView {
            id: self.id,
            path: self.path.deep_view(),
            segments: self.segments.deep_view(),
        }
    }
}

impl Clone for FileRow {
    fn clone(&self) -> (r: Self)
        ensures
            r.deep_view() == self.deep_view(),
    {
        FileRow {
            id: self.id,
            path: self.path.clone(),
            segments: self.segments.clone(),
        }
    }
}

/// Directory patterns whose files never describe business behaviour. Tests and web
/// assets would otherwise create domains of their own and pull real files toward
/// them through churn.
pub open spec fn excluded(path: Seq<char>) -> bool {
    let padded = "/"@ + path;
    ||| first_at(padded, "/src/test/"@) is Some
    ||| first_at(padded, "/webapp/"@) is Some
    ||| first_at(padded, "/WEB-INF/"@) is Some
    ||| first_at(padded, "/META-INF/"@) is Some
}

/// True for paths that hold no business behaviour.
pub fn is_excluded(path: &str) -> (r: bool)
    ensures
        r == excluded(path@),
{
    let mut padded = owned("/");
    padded.append(path);
    let p = padded.as_str();
    contains_str(p, "/src/test/") || contains_str(p, "/webapp/") || contains_str(p, "/WEB-INF/")
        || contains_str(p, "/META-INF/")
}

/// Where the build layout among the first `n` parts ends: behind the last `java` or
/// `resources`.
pub open spec fn layout_end(parts: Seq<Seq<char>>, n: int) -> int
    decreases n,
{
    if n <= 0 || n > parts.len() {
        0
    } else if parts[n - 1] == "java"@ || parts[n - 1] == "resources"@ {
        n
    } else {
        layout_end(parts, n - 1)
    }
}

/// The snake-case forms of the parts that have one.
pub open spec fn snakes(parts: Seq<Seq<char>>) -> Seq<Seq<char>>
    decreases parts.len(),
{
    if parts.len() == 0 {
        Seq::empty()
    } else if snake(parts.last()).len() > 0 {
        snakes(parts.drop_last()).push(snake(parts.last()))
    } else {
        snakes(parts.drop_last())
    }
}

/// The meaningful segments of a path: those behind the build layout, the file name
/// excepted.
pub open spec fn segments_of(path: Seq<char>) -> Seq<Seq<char>> {
    let parts = pieces(path, '/');
    let end = parts.len() - 1;
    let start = layout_end(parts, parts.len() as int);
    if start >= end {
        Seq::empty()
    } else {
        snakes(parts.subrange(start, end))
    }
}

/// Meaningful path segments of a source file, in order.
///
/// Everything up to and including `java`/`resources` is build layout, and the
/// filename itself is too specific to vote with.
pub fn path_segments(path: &str) -> (r: Vec<String>)
    ensures
        r.deep_view() == segments_of(path@),
{
    let parts = split(path, '/');
    let ghost p = parts.deep_view();
    let mut n: usize = parts.len();
    while n > 0 && !(same(parts[n - 1].as_str(), "java") || same(
        parts[n - 1].as_str(),
        "resources",
    ))
        invariant
            n <= parts.len(),
            p == parts.deep_view(),
            layout_end(p, p.len() as int) == layout_end(p, n as int),
        decreases n,
    {
        assert(p[n - 1] == parts@[n - 1]@);
        n -= 1;
    }
    assert(n > 0 ==> p[n - 1] == parts@[n - 1]@);
    let start: usize = n;
    let end: usize = parts.len() - 1;
    let mut out: Vec<String> = Vec::new();
    assert(out.deep_view() =~= Seq::empty());
    if start >= end {
        return out;
    }
    let ghost mid = p.subrange(start as int, end as int);
    let mut i: usize = start;
    assert(mid.take(0) =~= Seq::empty());
    while i < end
        invariant
            start <= i <= end < parts.len(),
            p == parts.deep_view(),
            mid == p.subrange(start as int, end as int),
            out.deep_view() == snakes(mid.take(i - start)),
        decreases end - i,
    {
        let ghost before = out.deep_view();
        let ghost k = i - start;
        proof {
            assert(mid.take(k + 1).drop_last() =~= mid.take(k));
            assert(mid.take(k + 1).last() == parts@[i as int]@);
        }
        let s = to_snake(parts[i].as_str());
        if !s.as_str().is_empty() {
            let ghost x = s@;
            out.push(s);
            assert(out.deep_view() =~= before.push(x));
        }
        i += 1;
    }
    assert(mid.take(i - start) =~= mid);
    out
}

/// The files that take part, of those that are stored.
pub open spec fn files_of(rows: Seq<(i64, Seq<char>)>) -> Seq<FileRowView>
    decreases rows.len(),
{
    if rows.len() == 0 {
        Seq::empty()
    } else if excluded(rows.last().1) {
        files_of(rows.drop_last())
    } else {
        files_of(rows.drop_last()).push(
            FileRowView {
                id: rows.last().0,
                path: rows.last().1,
                segments: segments_of(rows.last().1),
            },
        )
    }
}

pub fn load_files(rows: &Vec<(i64, String)>) -> (r: Vec<FileRow>)
    ensures
        r.deep_view() == files_of(rows.deep_view()),
{
    let ghost d = rows.deep_view();
    let mut out: Vec<FileRow> = Vec::new();
    let mut i: usize = 0;
    assert(out.deep_view() =~= files_of(d.take(0)));
    while i < rows.len()
        invariant
            i <= rows.len(),
            d == rows.deep_view(),
            out.deep_view() == files_of(d.take(i as int)),
        decreases rows.len() - i,
    {
        broadcast use take_next;

        let ghost before = out.deep_view();
        assert(d[i as int] == (rows@[i as int].0, rows@[i as int].1@));
        assert(d.take(i + 1).last() == d[i as int]);
        if !is_excluded(rows[i].1.as_str()) {
            let f = FileRow {
                id: rows[i].0,
                path: rows[i].1.clone(),
                segments: path_segments(rows[i].1.as_str()),
            };
            let ghost x = f.deep_view();
            out.push(f);
            assert(out.deep_view() =~= before.push(x));
        }
        i += 1;
    }
    broadcast use take_all;

    assert(d.take(i as int) == d);
    out
}

// ---------------------------------------------------------------------------
// The namespace

/// How many files have `seg` at the given depth.
pub open spec fn seg_count(files: Seq<FileRowView>, depth: int, seg: Seq<char>) -> nat
    decreases files.len(),
{
    if files.len() == 0 {
        0
    } else {
        let f = files.last();
        let before = seg_count(files.drop_last(), depth, seg);
        if 0 <= depth < f.segments.len() && f.segments[depth] == seg {
            before + 1
        } else {
            before
        }
    }
}

/// Whether `seg` stands at the depth in nine files of ten, or more.
pub open spec fn dominates(files: Seq<FileRowView>, depth: int, seg: Seq<char>) -> bool {
    seg_count(files, depth, seg) > 0 && 10 * seg_count(files, depth, seg) >= 9 * files.len()
}

/// The segment that dominates a depth; there is at most one.
pub open spec fn dominant(files: Seq<FileRowView>, depth: int) -> Option<Seq<char>> {
    if exists|s: Seq<char>| #[trigger] dominates(files, depth, s) {
        Some(choose|s: Seq<char>| #[trigger] dominates(files, depth, s))
    } else {
        None
    }
}

proof fn two_segments(files: Seq<FileRowView>, depth: int, a: Seq<char>, b: Seq<char>)
    requires
        a != b,
    ensures
        seg_count(files, depth, a) + seg_count(files, depth, b) <= files.len(),
    decreases files.len(),
{
    if files.len() > 0 {
        two_segments(files.drop_last(), depth, a, b);
    }
}

/// One segment at most dominates a depth.
pub proof fn dominant_unique(files: Seq<FileRowView>, depth: int, s: Seq<char>)
    requires
        dominates(files, depth, s),
    ensures
        dominant(files, depth) == Some(s),
{
    let t = choose|t: Seq<char>| #[trigger] dominates(files, depth, t);
    if t != s {
        two_segments(files, depth, s, t);
    }
}

/// The greatest number of segments of a file.
pub open spec fn max_segments(files: Seq<FileRowView>) -> nat
    decreases files.len(),
{
    if files.len() == 0 {
        0
    } else if files.last().segments.len() > max_segments(files.drop_last()) {
        files.last().segments.len()
    } else {
        max_segments(files.drop_last())
    }
}

/// The segments of the common prefix, from the given depth on: the first depth
/// without a dominant segment ends it.
pub open spec fn namespace_from(files: Seq<FileRowView>, depth: nat) -> Seq<Seq<char>>
    decreases max_segments(files) - depth,
{
    if depth >= max_segments(files) {
        Seq::empty()
    } else {
        match dominant(files, depth as int) {
            Some(s) => seq![s] + namespace_from(files, depth + 1),
            None => Seq::empty(),
        }
    }
}

/// How often each segment stands at the depth.
fn count_depth(files: &Vec<FileRow>, depth: usize) -> (r: TextMap<u64>)
    ensures
        forall|s: Seq<char>| #[trigger]
            r.deep_view().dom().contains(s) <==> seg_count(
                files.deep_view(),
                depth as int,
                s,
            ) > 0,
        forall|s: Seq<char>|
            r.deep_view().dom().contains(s) ==> #[trigger] r.deep_view()[s] == seg_count(
                files.deep_view(),
                depth as int,
                s,
            ),
{
    let ghost d = files.deep_view();
    let mut m: TextMap<u64> = TextMap::new();
    let mut i: usize = 0;
    while i < files.len()
        invariant
            i <= files.len(),
            d == files.deep_view(),
            forall|s: Seq<char>| #[trigger]
                m.deep_view().dom().contains(s) <==> seg_count(
                    d.take(i as int),
                    depth as int,
                    s,
                ) > 0,
            forall|s: Seq<char>|
                m.deep_view().dom().contains(s) ==> #[trigger] m.deep_view()[s] == seg_count(
                    d.take(i as int),
                    depth as int,
                    s,
                ),
        decreases files.len() - i,
    {
        let ghost t0 = d.take(i as int);
        let ghost t1 = d.take(i + 1);
        let ghost before = m.deep_view();
        proof {
            assert(t1.drop_last() =~= t0);
            assert(t1.last() == files@[i as int].deep_view());
        }
        let segs = &files[i].segments;
        if depth < segs.len() {
            let ghost s = segs@[depth as int]@;
            assert(t1.last().segments[depth as int] == s);
            let n: u64 = match m.get(segs[depth].as_str()) {
                Some(x) => *x,
                None => 0,
            };
            proof {
                count_at_most(t0, depth as int, s);
                assert(n == seg_count(t0, depth as int, s)) by {
                    assert(before.dom().contains(s) <==> seg_count(t0, depth as int, s) > 0);
                }
            }
            m.insert(segs[depth].clone(), n + 1);
            assert forall|x: Seq<char>| #[trigger] m.deep_view().dom().contains(x) <==> seg_count(
                t1,
                depth as int,
                x,
            ) > 0 by {
                assert(before.dom().contains(x) <==> seg_count(t0, depth as int, x) > 0);
            }
            assert forall|x: Seq<char>| m.deep_view().dom().contains(x) implies #[trigger]
                m.deep_view()[x] == seg_count(t1, depth as int, x) by {
                assert(x != s ==> before.dom().contains(x));
                if x != s {
                    assert(before[x] == seg_count(t0, depth as int, x));
                }
            }
        } else {
            assert forall|x: Seq<char>| seg_count(t1, depth as int, x) == seg_count(
                t0,
                depth as int,
                x,
            ) by {}
            assert forall|x: Seq<char>| #[trigger] m.deep_view().dom().contains(x) <==> seg_count(
                t1,
                depth as int,
                x,
            ) > 0 by {
                assert(before.dom().contains(x) <==> seg_count(t0, depth as int, x) > 0);
            }
        }
        i += 1;
    }
    assert(d.take(i as int) =~= d);
    m
}

proof fn count_at_most(files: Seq<FileRowView>, depth: int, seg: Seq<char>)
    ensures
        seg_count(files, depth, seg) <= files.len(),
    decreases files.len(),
{
    if files.len() > 0 {
        count_at_most(files.drop_last(), depth, seg);
    }
}

/// The segment that dominates the depth.
fn find_dominant(files: &Vec<FileRow>, depth: usize) -> (r: Option<String>)
    ensures
        r.deep_view() == dominant(files.deep_view(), depth as int),
{
    let ghost d = files.deep_view();
    let counts = count_depth(files, depth);
    let n: usize = counts.len();
    let ghost l = counts.list();
    let total: u128 = files.len() as u128;
    let mut i: usize = 0;
    while i < n
        invariant
            i <= n,
            n == l.len(),
            l == counts.list(),
            in_order(l),
            d == files.deep_view(),
            total == d.len(),
            total == files.len(),
            counts.deep_view() == map_of(l),
            forall|s: Seq<char>|
                counts.deep_view().dom().contains(s) ==> #[trigger] counts.deep_view()[s]
                    == seg_count(d, depth as int, s),
            forall|s: Seq<char>| #[trigger]
                counts.deep_view().dom().contains(s) <==> seg_count(d, depth as int, s) > 0,
            forall|j: int| 0 <= j < i ==> !dominates(d, depth as int, (#[trigger] l[j]).0),
        decreases n - i,
    {
        let key = counts.key_at(i);
        let c: u64 = *counts.value_at(i);
        proof {
            map_of_at(l, i as int);
            assert(counts.deep_view().dom().contains(l[i as int].0));
            assert(counts.deep_view()[l[i as int].0] == seg_count(d, depth as int, l[i as int].0));
        }
        if 10 * (c as u128) >= 9 * total {
            proof {
                dominant_unique(d, depth as int, key@);
            }
            return Some(key.clone());
        }
        i += 1;
    }
    proof {
        assert forall|s: Seq<char>| !#[trigger] dominates(d, depth as int, s) by {
            if dominates(d, depth as int, s) {
                assert(counts.deep_view().dom().contains(s));
                let j = choose|j: int| 0 <= j < l.len() && (#[trigger] l[j]).0 == s;
                assert(!dominates(d, depth as int, l[j].0));
            }
        }
    }
    None
}

/// Segments that form the project's own namespace prefix, sorted.
///
/// A segment present in nearly every file at one depth is the project's own
/// namespace (`com`, `yaoex`, `promotion`) rather than a domain within it. Detected
/// from the data because the namespace differs per project and hardcoding it would
/// make the tool non-portable — which is the whole point of the exercise. `coupon`
/// may appear in most files of a coupon-centric project, but it appears at varying
/// depths; `com`/`yaoex`/`promotion` always lead.
pub fn namespace_segments(files: &Vec<FileRow>) -> (r: Vec<String>)
    ensures
        r.deep_view() == sorted_of(namespace_from(files.deep_view(), 0)),
{
    let ghost d = files.deep_view();
    let mut max_len: usize = 0;
    let mut i: usize = 0;
    while i < files.len()
        invariant
            i <= files.len(),
            d == files.deep_view(),
            max_len == max_segments(d.take(i as int)),
        decreases files.len() - i,
    {
        broadcast use take_next;

        assert(d[i as int] == files@[i as int].deep_view());
        assert(d.take(i + 1).last() == d[i as int]);
        if files[i].segments.len() > max_len {
            max_len = files[i].segments.len();
        }
        i += 1;
    }
    broadcast use take_all;

    assert(d.take(i as int) == d);
    let mut out: Vec<String> = Vec::new();
    let mut depth: usize = 0;
    assert(out.deep_view() + namespace_from(d, 0) =~= namespace_from(d, 0));
    while depth < max_len
        invariant
            depth <= max_len,
            d == files.deep_view(),
            max_len == max_segments(d),
            out.deep_view() + namespace_from(d, depth as nat) == namespace_from(d, 0),
        decreases max_len - depth,
    {
        match find_dominant(files, depth) {
            Some(s) => {
                let ghost before = out.deep_view();
                let ghost x = s@;
                out.push(s);
                assert(out.deep_view() =~= before.push(x));
                assert(before + (seq![x] + namespace_from(d, (depth + 1) as nat)) =~= before.push(x)
                    + namespace_from(d, (depth + 1) as nat));
            },
            None => {
                assert(out.deep_view() + Seq::empty() =~= out.deep_view());
                return sort_unique(&out);
            },
        }
        depth += 1;
    }
    assert(out.deep_view() + Seq::empty() =~= out.deep_view());
    sort_unique(&out)
}

// ---------------------------------------------------------------------------
// Seeds

/// The key that a segment counts for, where it looks like business vocabulary.
pub open spec fn seed_key(
    aliases: Seq<(Seq<char>, Seq<Seq<char>>)>,
    exclude: Seq<Seq<char>>,
    namespace: Seq<Seq<char>>,
    seg: Seq<char>,
) -> Option<Seq<char>> {
    let key = canonical_of(aliases, seg);
    if infra_segments().contains(seg) || namespace.contains(seg) || exclude.contains(key)
        || encode_utf8(key).len() < 3 {
        None
    } else {
        Some(key)
    }
}

/// All segments of the files, one file after the other.
pub open spec fn all_segments(files: Seq<FileRowView>) -> Seq<Seq<char>> {
    crate::lists::flat(files, |f: FileRowView| f.segments)
}

/// The keys that the segments count for.
pub open spec fn seed_keys(
    aliases: Seq<(Seq<char>, Seq<Seq<char>>)>,
    exclude: Seq<Seq<char>>,
    namespace: Seq<Seq<char>>,
    segs: Seq<Seq<char>>,
) -> Seq<Seq<char>> {
    crate::lists::pick(segs, |s: Seq<char>| seed_key(aliases, exclude, namespace, s))
}

/// How many of the files hold a segment that counts for `k`.
pub open spec fn files_counting(
    aliases: Seq<(Seq<char>, Seq<Seq<char>>)>,
    exclude: Seq<Seq<char>>,
    namespace: Seq<Seq<char>>,
    files: Seq<FileRowView>,
    k: Seq<char>,
) -> nat
    decreases files.len(),
{
    if files.len() == 0 {
        0
    } else {
        files_counting(aliases, exclude, namespace, files.drop_last(), k) + (if seed_keys(
            aliases,
            exclude,
            namespace,
            files.last().segments,
        ).contains(k) {
            1nat
        } else {
            0
        })
    }
}

/// Each item of `s` once, where it first stands.
pub open spec fn distinct(s: Seq<Seq<char>>) -> Seq<Seq<char>>
    decreases s.len(),
{
    if s.len() == 0 {
        Seq::empty()
    } else {
        let before = distinct(s.drop_last());
        if before.contains(s.last()) {
            before
        } else {
            before.push(s.last())
        }
    }
}

/// The keys that the files count for, those of each file once.
pub open spec fn counted_keys(
    aliases: Seq<(Seq<char>, Seq<Seq<char>>)>,
    exclude: Seq<Seq<char>>,
    namespace: Seq<Seq<char>>,
    files: Seq<FileRowView>,
) -> Seq<Seq<char>>
    decreases files.len(),
{
    if files.len() == 0 {
        Seq::empty()
    } else {
        counted_keys(aliases, exclude, namespace, files.drop_last()) + distinct(
            seed_keys(aliases, exclude, namespace, files.last().segments),
        )
    }
}

/// How often `k` is among the keys.
pub open spec fn times(keys: Seq<Seq<char>>, k: Seq<char>) -> nat
    decreases keys.len(),
{
    if keys.len() == 0 {
        0
    } else if keys.last() == k {
        times(keys.drop_last(), k) + 1
    } else {
        times(keys.drop_last(), k)
    }
}

/// Whether a map counts the keys: it holds each key that occurs, with how often.
pub open spec fn counts(m: Map<Seq<char>, u64>, keys: Seq<Seq<char>>) -> bool {
    &&& forall|k: Seq<char>| #[trigger] m.dom().contains(k) <==> times(keys, k) > 0
    &&& forall|k: Seq<char>| m.dom().contains(k) ==> #[trigger] m[k] == times(keys, k)
}

/// Seeds are neither rare nor all over the project.
pub open spec fn is_seed_count(n: nat, files: nat) -> bool {
    let ceiling = 17 * files / 20;
    n >= MIN_SEED_FILES && n <= (if ceiling > MIN_SEED_FILES {
        ceiling
    } else {
        MIN_SEED_FILES as nat
    })
}

/// The entries of `l` whose counts make them seeds.
pub open spec fn seed_entries(l: Seq<(Seq<char>, u64)>, files: nat) -> Seq<(Seq<char>, u64)> {
    crate::lists::keep(l, |e: (Seq<char>, u64)| is_seed_count(e.1 as nat, files))
}

/// Adds one to the count of a key.
fn count_key(m: &mut TextMap<u64>, key: String, Ghost(keys): Ghost<Seq<Seq<char>>>)
    requires
        counts(old(m).deep_view(), keys),
        keys.len() < u64::MAX,
    ensures
        counts(final(m).deep_view(), keys.push(key@)),
{
    let ghost before = m.deep_view();
    let ghost k = key@;
    let ghost more = keys.push(k);
    let n: u64 = match m.get(key.as_str()) {
        Some(x) => *x,
        None => 0,
    };
    proof {
        times_at_most(keys, k);
        assert(before.dom().contains(k) <==> times(keys, k) > 0);
        assert(more.drop_last() =~= keys);
    }
    m.insert(key, n + 1);
    assert forall|x: Seq<char>| #[trigger] m.deep_view().dom().contains(x) <==> times(more, x)
        > 0 by {
        assert(before.dom().contains(x) <==> times(keys, x) > 0);
    }
    assert forall|x: Seq<char>| m.deep_view().dom().contains(x) implies #[trigger]
        m.deep_view()[x] == times(more, x) by {
        if x != k {
            assert(before.dom().contains(x));
            assert(before[x] == times(keys, x));
        }
    }
}

proof fn times_at_most(keys: Seq<Seq<char>>, k: Seq<char>)
    ensures
        times(keys, k) <= keys.len(),
    decreases keys.len(),
{
    if keys.len() > 0 {
        times_at_most(keys.drop_last(), k);
    }
}

proof fn pick_at_most<T, U>(s: Seq<T>, f: spec_fn(T) -> Option<U>)
    ensures
        crate::lists::pick(s, f).len() <= s.len(),
    decreases s.len(),
{
    if s.len() > 0 {
        pick_at_most(s.drop_last(), f);
    }
}

proof fn times_concat(a: Seq<Seq<char>>, b: Seq<Seq<char>>, k: Seq<char>)
    ensures
        times(a + b, k) == times(a, k) + times(b, k),
    decreases b.len(),
{
    if b.len() == 0 {
        assert(a + b =~= a);
    } else {
        times_concat(a, b.drop_last(), k);
        assert((a + b).drop_last() =~= a + b.drop_last());
    }
}

/// What stands in `s` stands once among its distinct items.
proof fn distinct_once(s: Seq<Seq<char>>, k: Seq<char>)
    ensures
        distinct(s).contains(k) <==> s.contains(k),
        times(distinct(s), k) == (if s.contains(k) {
            1nat
        } else {
            0
        }),
        distinct(s).len() <= s.len(),
    decreases s.len(),
{
    if s.len() > 0 {
        let rest = s.drop_last();
        let before = distinct(rest);
        distinct_once(rest, k);
        assert(s =~= rest.push(s.last()));
        assert(s.contains(k) <==> rest.contains(k) || s.last() == k) by {
            if rest.contains(k) {
                let i = choose|i: int| 0 <= i < rest.len() && rest[i] == k;
                assert(s[i] == k);
            }
            if s.last() == k {
                assert(s[s.len() - 1] == k);
            }
        }
        if !before.contains(s.last()) {
            let after = before.push(s.last());
            assert(after.drop_last() =~= before);
            assert(after.contains(k) <==> before.contains(k) || s.last() == k) by {
                if before.contains(k) {
                    let i = choose|i: int| 0 <= i < before.len() && before[i] == k;
                    assert(after[i] == k);
                }
                assert(after[after.len() - 1] == s.last());
            }
        }
    }
}

/// A key is counted as often as files hold it.
pub proof fn counted_by_file(
    aliases: Seq<(Seq<char>, Seq<Seq<char>>)>,
    exclude: Seq<Seq<char>>,
    namespace: Seq<Seq<char>>,
    files: Seq<FileRowView>,
    k: Seq<char>,
)
    ensures
        times(counted_keys(aliases, exclude, namespace, files), k) == files_counting(
            aliases,
            exclude,
            namespace,
            files,
            k,
        ),
    decreases files.len(),
{
    if files.len() > 0 {
        let own = seed_keys(aliases, exclude, namespace, files.last().segments);
        counted_by_file(aliases, exclude, namespace, files.drop_last(), k);
        times_concat(
            counted_keys(aliases, exclude, namespace, files.drop_last()),
            distinct(own),
            k,
        );
        distinct_once(own, k);
    }
}

/// The files count for no more keys than they have segments.
proof fn counted_at_most(
    aliases: Seq<(Seq<char>, Seq<Seq<char>>)>,
    exclude: Seq<Seq<char>>,
    namespace: Seq<Seq<char>>,
    files: Seq<FileRowView>,
    n: int,
)
    requires
        0 <= n <= files.len(),
    ensures
        counted_keys(aliases, exclude, namespace, files.take(n)).len() <= all_segments(files).len(),
    decreases files.len(),
{
    if files.len() > 0 {
        let last = files.last().segments;
        let own = seed_keys(aliases, exclude, namespace, last);
        let rest = files.drop_last();
        pick_at_most(last, |s: Seq<char>| seed_key(aliases, exclude, namespace, s));
        distinct_once(own, Seq::empty());
        if n == files.len() {
            counted_at_most(aliases, exclude, namespace, rest, n - 1);
            assert(files.take(n) =~= files);
            assert(rest.take(n - 1) =~= rest);
        } else {
            counted_at_most(aliases, exclude, namespace, rest, n);
            assert(rest.take(n) =~= files.take(n));
        }
    } else {
        assert(files.take(n) =~= files);
    }
}

/// How many files count for each key.
fn count_seeds(files: &Vec<FileRow>, cfg: &DomainConfig, namespace: &Vec<String>) -> (r: TextMap<
    u64,
>)
    requires
        all_segments(files.deep_view()).len() < u64::MAX,
    ensures
        counts(
            r.deep_view(),
            counted_keys(
                cfg.aliases.list(),
                cfg.exclude.deep_view(),
                namespace.deep_view(),
                files.deep_view(),
            ),
        ),
{
    let ghost d = files.deep_view();
    let ghost al = cfg.aliases.list();
    let ghost ex = cfg.exclude.deep_view();
    let ghost ns = namespace.deep_view();
    let ghost f = |s: Seq<char>| seed_key(al, ex, ns, s);
    let infra = infra_list();
    let mut m: TextMap<u64> = TextMap::new();
    let mut i: usize = 0;
    assert(counts(m.deep_view(), counted_keys(al, ex, ns, d.take(0))));
    while i < files.len()
        invariant
            i <= files.len(),
            d == files.deep_view(),
            al == cfg.aliases.list(),
            ex == cfg.exclude.deep_view(),
            ns == namespace.deep_view(),
            infra.deep_view() == infra_segments(),
            f == (|s: Seq<char>| seed_key(al, ex, ns, s)),
            all_segments(d).len() < u64::MAX,
            counts(m.deep_view(), counted_keys(al, ex, ns, d.take(i as int))),
        decreases files.len() - i,
    {
        let segs = &files[i].segments;
        let ghost base = counted_keys(al, ex, ns, d.take(i as int));
        let ghost own = segs.deep_view();
        proof {
            assert(d.take(i + 1).drop_last() =~= d.take(i as int));
            assert(d.take(i + 1).last() == files@[i as int].deep_view());
            assert(seed_keys(al, ex, ns, own) == crate::lists::pick(own, f));
            counted_at_most(al, ex, ns, d, i + 1);
        }
        let ghost all = base + distinct(crate::lists::pick(own, f));
        let mut found: Vec<String> = Vec::new();
        let mut k: usize = 0;
        assert(found.deep_view() =~= distinct(crate::lists::pick(own.take(0), f)));
        assert(base + found.deep_view() =~= base);
        while k < segs.len()
            invariant
                k <= segs.len(),
                own == segs.deep_view(),
                al == cfg.aliases.list(),
                ex == cfg.exclude.deep_view(),
                ns == namespace.deep_view(),
                infra.deep_view() == infra_segments(),
                f == (|s: Seq<char>| seed_key(al, ex, ns, s)),
                all == base + distinct(crate::lists::pick(own, f)),
                all.len() < u64::MAX,
                found.deep_view() == distinct(crate::lists::pick(own.take(k as int), f)),
                counts(m.deep_view(), base + found.deep_view()),
            decreases segs.len() - k,
        {
            let seg = &segs[k];
            let ghost so_far = crate::lists::pick(own.take(k as int), f);
            let ghost next = crate::lists::pick(own.take(k + 1), f);
            let ghost before = found.deep_view();
            proof {
                assert(own[k as int] == seg@);
                assert(own.take(k + 1).drop_last() =~= own.take(k as int));
                assert(own.take(k + 1).last() == seg@);
                assert(f(seg@) == seed_key(al, ex, ns, seg@));
                distinct_grows(own, f, k + 1);
            }
            if !holds(&infra, seg.as_str()) && !holds(namespace, seg.as_str()) {
                let key = cfg.canonical(seg.as_str());
                if !holds(&cfg.exclude, key.as_str()) && key.as_str().as_bytes().len() >= 3 {
                    assert(next == so_far.push(key@));
                    assert(next.drop_last() =~= so_far);
                    if !holds(&found, key.as_str()) {
                        let ghost x = key@;
                        found.push(key.clone());
                        assert(found.deep_view() =~= before.push(x));
                        assert((base + before).push(x) =~= base + found.deep_view());
                        count_key(&mut m, key, Ghost(base + before));
                    }
                }
            }
            k += 1;
        }
        assert(own.take(k as int) =~= own);
        i += 1;
    }
    assert(d.take(i as int) =~= d);
    m
}

proof fn distinct_grows(own: Seq<Seq<char>>, f: spec_fn(Seq<char>) -> Option<Seq<char>>, n: int)
    requires
        0 <= n <= own.len(),
    ensures
        distinct(crate::lists::pick(own.take(n), f)).len() <= distinct(
            crate::lists::pick(own, f),
        ).len(),
    decreases own.len() - n,
{
    if n == own.len() {
        assert(own.take(n) =~= own);
    } else {
        distinct_grows(own, f, n + 1);
        let next = own.take(n + 1);
        assert(next.drop_last() =~= own.take(n));
        match f(next.last()) {
            Some(x) => {
                let before = crate::lists::pick(own.take(n), f);
                assert(before.push(x).drop_last() =~= before);
            },
            None => {},
        }
    }
}

/// How many files count for each key.
pub open spec fn seed_counts(
    files: Seq<FileRowView>,
    aliases: Seq<(Seq<char>, Seq<Seq<char>>)>,
    exclude: Seq<Seq<char>>,
) -> Map<Seq<char>, u64> {
    let namespace = sorted_of(namespace_from(files, 0));
    Map::new(
        |k: Seq<char>| files_counting(aliases, exclude, namespace, files, k) > 0,
        |k: Seq<char>| files_counting(aliases, exclude, namespace, files, k) as u64,
    )
}

/// Candidate domain keys: package segments that look like business vocabulary, each
/// with how many files count for it, the rare and the all too common ones left out, spelling
/// variants folded.
pub open spec fn seeds_of(
    files: Seq<FileRowView>,
    aliases: Seq<(Seq<char>, Seq<Seq<char>>)>,
    exclude: Seq<Seq<char>>,
) -> Map<Seq<char>, u64> {
    folded(seed_entries(entries_of(seed_counts(files, aliases, exclude)), files.len()))
}

/// Candidate domain keys: package segments that look like business vocabulary.
pub fn seed_candidates(files: &Vec<FileRow>, cfg: &DomainConfig) -> (r: TextMap<u64>)
    requires
        all_segments(files.deep_view()).len() < u64::MAX,
    ensures
        r.deep_view() == seeds_of(
            files.deep_view(),
            cfg.aliases.list(),
            cfg.exclude.deep_view(),
        ),
{
    let namespace = namespace_segments(files);
    let counted = count_seeds(files, cfg, &namespace);
    let ghost total = files.deep_view().len();
    let n: usize = counted.len();
    let ghost l = counted.list();
    let size: u128 = files.len() as u128;
    let ceiling: u128 = 17 * size / 20;
    let top: u128 = if ceiling > MIN_SEED_FILES as u128 {
        ceiling
    } else {
        MIN_SEED_FILES as u128
    };
    let mut kept: Vec<(String, u64)> = Vec::new();
    let ghost f = |e: (Seq<char>, u64)| is_seed_count(e.1 as nat, total);
    let mut i: usize = 0;
    assert(kept.deep_view() =~= crate::lists::keep(l.take(0), f));
    while i < n
        invariant
            i <= n,
            n == l.len(),
            l == counted.list(),
            total == size,
            ceiling == 17 * size / 20,
            top == (if ceiling > MIN_SEED_FILES {
                ceiling
            } else {
                MIN_SEED_FILES as u128
            }),
            f == (|e: (Seq<char>, u64)| is_seed_count(e.1 as nat, total)),
            kept.deep_view() == crate::lists::keep(l.take(i as int), f),
        decreases n - i,
    {
        broadcast use take_next;

        let ghost before = kept.deep_view();
        let c: u64 = *counted.value_at(i);
        assert(l.take(i + 1).last() == l[i as int]);
        if c >= MIN_SEED_FILES && c as u128 <= top {
            assert(f(l[i as int]));
            kept.push((counted.key_at(i).clone(), c));
            assert(kept.deep_view() =~= before.push(l[i as int]));
        } else {
            assert(!f(l[i as int]));
        }
        i += 1;
    }
    broadcast use take_all;

    assert(l.take(i as int) == l);
    proof {
        let al = cfg.aliases.list();
        let ex = cfg.exclude.deep_view();
        let ns = namespace.deep_view();
        let ks = counted_keys(al, ex, ns, files.deep_view());
        counted_at_most(al, ex, ns, files.deep_view(), files.deep_view().len() as int);
        assert(files.deep_view().take(files.deep_view().len() as int) =~= files.deep_view());
        assert forall|k: Seq<char>| #[trigger] files_counting(al, ex, ns, files.deep_view(), k) == times(
            ks,
            k,
        ) && times(ks, k) <= u64::MAX by {
            counted_by_file(al, ex, ns, files.deep_view(), k);
            times_at_most(ks, k);
        }
        assert(counted.deep_view() =~= seed_counts(
            files.deep_view(),
            cfg.aliases.list(),
            cfg.exclude.deep_view(),
        ));
        kept_sum(l, ks);
        keep_order(l, f);
        keep_sum(l, f);
    }
    fold_list(&kept)
}

// ---------------------------------------------------------------------------
// Folding variants

/// The counts of all entries together.
pub open spec fn sum_of(l: Seq<(Seq<char>, u64)>) -> nat
    decreases l.len(),
{
    if l.len() == 0 {
        0
    } else {
        sum_of(l.drop_last()) + l.last().1 as nat
    }
}

/// The counts of the entries with the given shape together.
pub open spec fn shape_sum(l: Seq<(Seq<char>, u64)>, s: Seq<char>) -> nat
    decreases l.len(),
{
    if l.len() == 0 {
        0
    } else if shape(l.last().0) == s {
        shape_sum(l.drop_last(), s) + l.last().1 as nat
    } else {
        shape_sum(l.drop_last(), s)
    }
}

/// Whether `a` is preferred to `b`: the more used spelling, ties broken by name.
pub open spec fn preferred(a: (Seq<char>, u64), b: (Seq<char>, u64)) -> bool {
    a.1 > b.1 || (a.1 == b.1 && lex_lt(a.0, b.0))
}

/// The preferred entry with the given shape.
pub open spec fn best_with(l: Seq<(Seq<char>, u64)>, s: Seq<char>) -> Option<(Seq<char>, u64)>
    decreases l.len(),
{
    if l.len() == 0 {
        None
    } else {
        let before = best_with(l.drop_last(), s);
        if shape(l.last().0) == s && (before is None || preferred(l.last(), before->0)) {
            Some(l.last())
        } else {
            before
        }
    }
}

/// Whether `k` survives folding: it is the preferred spelling of its shape.
pub open spec fn survives(l: Seq<(Seq<char>, u64)>, k: Seq<char>) -> bool {
    best_with(l, shape(k)) matches Some(e) && e.0 == k
}

/// The entries with variants of one word merged: the preferred spelling stands for
/// all, with their counts together.
pub open spec fn folded(l: Seq<(Seq<char>, u64)>) -> Map<Seq<char>, u64> {
    Map::new(
        |k: Seq<char>| survives(l, k),
        |k: Seq<char>| shape_sum(l, shape(k)) as u64,
    )
}

proof fn shape_sum_at_most(l: Seq<(Seq<char>, u64)>, s: Seq<char>)
    ensures
        shape_sum(l, s) <= sum_of(l),
    decreases l.len(),
{
    if l.len() > 0 {
        shape_sum_at_most(l.drop_last(), s);
    }
}

proof fn best_has_shape(l: Seq<(Seq<char>, u64)>, s: Seq<char>)
    ensures
        best_with(l, s) matches Some(e) ==> shape(e.0) == s && l.contains(e),
        best_with(l, s) is None ==> forall|i: int|
            0 <= i < l.len() ==> shape((#[trigger] l[i]).0) != s,
    decreases l.len(),
{
    if l.len() > 0 {
        best_has_shape(l.drop_last(), s);
        assert(l[l.len() - 1] == l.last());
        let before = best_with(l.drop_last(), s);
        match before {
            Some(e) => {
                let i = choose|i: int| 0 <= i < l.drop_last().len() && l.drop_last()[i] == e;
                assert(l[i] == e);
            },
            None => {
                assert forall|i: int| 0 <= i < l.len() && best_with(l, s) is None implies shape(
                    (#[trigger] l[i]).0,
                ) != s by {
                    if i < l.len() - 1 {
                        assert(l.drop_last()[i] == l[i]);
                    }
                }
            },
        }
    }
}

proof fn kept_sum(l: Seq<(Seq<char>, u64)>, keys: Seq<Seq<char>>)
    requires
        in_order(l),
        counts(map_of(l), keys),
    ensures
        sum_of(l) <= keys.len(),
{
    list_sum(l, l.len() as int, keys);
    assert(l.take(l.len() as int) =~= l);
}

/// How many of the keys are among the first `n` entries.
spec fn hits(l: Seq<(Seq<char>, u64)>, n: int, keys: Seq<Seq<char>>) -> nat
    decreases keys.len(),
{
    if keys.len() == 0 {
        0
    } else if has_key(l.take(n), keys.last()) {
        hits(l, n, keys.drop_last()) + 1
    } else {
        hits(l, n, keys.drop_last())
    }
}

proof fn hits_at_most(l: Seq<(Seq<char>, u64)>, n: int, keys: Seq<Seq<char>>)
    ensures
        hits(l, n, keys) <= keys.len(),
    decreases keys.len(),
{
    if keys.len() > 0 {
        hits_at_most(l, n, keys.drop_last());
    }
}

proof fn hits_next(l: Seq<(Seq<char>, u64)>, n: int, keys: Seq<Seq<char>>)
    requires
        in_order(l),
        0 <= n < l.len(),
    ensures
        hits(l, n + 1, keys) == hits(l, n, keys) + times(keys, l[n].0),
    decreases keys.len(),
{
    if keys.len() > 0 {
        hits_next(l, n, keys.drop_last());
        let k = keys.last();
        let t0 = l.take(n);
        let t1 = l.take(n + 1);
        if has_key(t0, k) {
            let j = choose|j: int| 0 <= j < t0.len() && (#[trigger] t0[j]).0 == k;
            assert(t1[j].0 == k);
            assert(lex_lt(l[j].0, l[n].0));
            lex_irreflexive(k);
        }
        if has_key(t1, k) {
            let j = choose|j: int| 0 <= j < t1.len() && (#[trigger] t1[j]).0 == k;
            if j < n {
                assert(t0[j].0 == k);
            }
        }
        if k == l[n].0 {
            assert(t1[n].0 == k);
        }
    }
}

proof fn list_sum(l: Seq<(Seq<char>, u64)>, n: int, keys: Seq<Seq<char>>)
    requires
        in_order(l),
        counts(map_of(l), keys),
        0 <= n <= l.len(),
    ensures
        sum_of(l.take(n)) == hits(l, n, keys),
        hits(l, n, keys) <= keys.len(),
    decreases n,
{
    hits_at_most(l, n, keys);
    if n > 0 {
        list_sum(l, n - 1, keys);
        hits_next(l, n - 1, keys);
        assert(l.take(n).drop_last() =~= l.take(n - 1));
        map_of_at(l, n - 1);
        assert(map_of(l).dom().contains(l[n - 1].0));
        assert(map_of(l)[l[n - 1].0] == times(keys, l[n - 1].0));
    } else {
        none_hit(l, keys);
        assert(l.take(0) =~= Seq::empty());
    }
}

proof fn none_hit(l: Seq<(Seq<char>, u64)>, keys: Seq<Seq<char>>)
    ensures
        hits(l, 0, keys) == 0,
    decreases keys.len(),
{
    if keys.len() > 0 {
        none_hit(l, keys.drop_last());
    }
}

proof fn keep_order(l: Seq<(Seq<char>, u64)>, f: spec_fn((Seq<char>, u64)) -> bool)
    requires
        in_order(l),
    ensures
        in_order(crate::lists::keep(l, f)),
        forall|i: int|
            0 <= i < crate::lists::keep(l, f).len() ==> l.contains(
                #[trigger] crate::lists::keep(l, f)[i],
            ),
    decreases l.len(),
{
    if l.len() > 0 {
        let m = l.drop_last();
        assert forall|i: int, j: int| 0 <= i < j < m.len() implies lex_lt(
            (#[trigger] m[i]).0,
            (#[trigger] m[j]).0,
        ) by {
            assert(m[i] == l[i] && m[j] == l[j]);
        }
        keep_order(m, f);
        let before = crate::lists::keep(m, f);
        let all = crate::lists::keep(l, f);
        assert forall|i: int| 0 <= i < before.len() implies l.contains(#[trigger] before[i])
            && lex_lt(before[i].0, l.last().0) by {
            let k = choose|k: int| 0 <= k < m.len() && m[k] == before[i];
            assert(l[k] == before[i]);
            assert(lex_lt(l[k].0, l[l.len() - 1].0));
        }
        assert(l[l.len() - 1] == l.last());
        assert forall|i: int, j: int| 0 <= i < j < all.len() implies lex_lt(
            (#[trigger] all[i]).0,
            (#[trigger] all[j]).0,
        ) by {
            if j < before.len() {
                assert(all[i] == before[i] && all[j] == before[j]);
            } else {
                assert(all[i] == before[i]);
            }
        }
        assert forall|i: int| 0 <= i < all.len() implies l.contains(#[trigger] all[i]) by {
            if i < before.len() {
                assert(all[i] == before[i]);
            }
        }
    }
}

proof fn keep_sum(l: Seq<(Seq<char>, u64)>, f: spec_fn((Seq<char>, u64)) -> bool)
    ensures
        sum_of(crate::lists::keep(l, f)) <= sum_of(l),
    decreases l.len(),
{
    if l.len() > 0 {
        keep_sum(l.drop_last(), f);
        let before = crate::lists::keep(l.drop_last(), f);
        assert(before.push(l.last()).drop_last() =~= before);
    }
}

/// The entry and the sum of each shape.
fn fold_groups(l: &Vec<(String, u64)>) -> (r: TextMap<(String, u64, u64)>)
    requires
        sum_of(l.deep_view()) <= u64::MAX,
    ensures
        forall|s: Seq<char>| #[trigger]
            r.deep_view().dom().contains(s) <==> best_with(l.deep_view(), s) is Some,
        forall|s: Seq<char>|
            r.deep_view().dom().contains(s) ==> {
                let e = #[trigger] r.deep_view()[s];
                best_with(l.deep_view(), s) == Some((e.0, e.1)) && e.2 == shape_sum(
                    l.deep_view(),
                    s,
                )
            },
{
    let ghost d = l.deep_view();
    let mut m: TextMap<(String, u64, u64)> = TextMap::new();
    let mut i: usize = 0;
    while i < l.len()
        invariant
            i <= l.len(),
            d == l.deep_view(),
            sum_of(d) <= u64::MAX,
            forall|s: Seq<char>| #[trigger]
                m.deep_view().dom().contains(s) <==> best_with(d.take(i as int), s) is Some,
            forall|s: Seq<char>|
                m.deep_view().dom().contains(s) ==> {
                    let e = #[trigger] m.deep_view()[s];
                    best_with(d.take(i as int), s) == Some((e.0, e.1)) && e.2 == shape_sum(
                        d.take(i as int),
                        s,
                    )
                },
        decreases l.len() - i,
    {
        let ghost t0 = d.take(i as int);
        let ghost t1 = d.take(i + 1);
        let ghost x = d[i as int];
        let ghost before = m.deep_view();
        proof {
            assert(t1.drop_last() =~= t0);
            assert(x == (l@[i as int].0@, l@[i as int].1));
            assert(t1.last() == x);
            take_sum(d, i + 1);
            shape_sum_at_most(t1, shape(x.0));
        }
        let key = &l[i].0;
        let n: u64 = l[i].1;
        let s = variant_shape(key.as_str());
        let ghost sh = s@;
        let entry = match m.get(s.as_str()) {
            Some(e) => {
                assert(before[sh].2 == shape_sum(t0, sh));
                let better = n > e.1 || (n == e.1 && less(key.as_str(), e.0.as_str()));
                if better {
                    (key.clone(), n, e.2 + n)
                } else {
                    (e.0.clone(), e.1, e.2 + n)
                }
            },
            None => {
                proof {
                    assert(!before.dom().contains(sh));
                    no_shape_sum(t0, sh);
                }
                (key.clone(), n, n)
            },
        };
        let ghost ev = entry.deep_view();
        m.insert(s, entry);
        proof {
            assert forall|y: Seq<char>| #[trigger] m.deep_view().dom().contains(y) <==> best_with(
                t1,
                y,
            ) is Some by {
                assert(before.dom().contains(y) <==> best_with(t0, y) is Some);
            }
            assert forall|y: Seq<char>| m.deep_view().dom().contains(y) implies ({
                let e = #[trigger] m.deep_view()[y];
                best_with(t1, y) == Some((e.0, e.1)) && e.2 == shape_sum(t1, y)
            }) by {
                if y != sh {
                    assert(before.dom().contains(y));
                    assert(before[y] == m.deep_view()[y]);
                }
            }
        }
        i += 1;
    }
    assert(d.take(i as int) =~= d);
    m
}

proof fn take_sum(l: Seq<(Seq<char>, u64)>, n: int)
    requires
        0 <= n <= l.len(),
    ensures
        sum_of(l.take(n)) <= sum_of(l),
    decreases l.len(),
{
    if n == l.len() {
        assert(l.take(n) =~= l);
    } else {
        take_sum(l.drop_last(), n);
        assert(l.drop_last().take(n) =~= l.take(n));
    }
}

proof fn no_shape_sum(l: Seq<(Seq<char>, u64)>, s: Seq<char>)
    requires
        best_with(l, s) is None,
    ensures
        shape_sum(l, s) == 0,
    decreases l.len(),
{
    if l.len() > 0 {
        no_shape_sum(l.drop_last(), s);
    }
}

fn fold_list(l: &Vec<(String, u64)>) -> (r: TextMap<u64>)
    requires
        sum_of(l.deep_view()) <= u64::MAX,
    ensures
        r.deep_view() == folded(l.deep_view()),
{
    let ghost d = l.deep_view();
    let groups = fold_groups(l);
    let n: usize = groups.len();
    let ghost g = groups.list();
    let ghost gm = groups.deep_view();
    let mut out: TextMap<u64> = TextMap::new();
    let mut i: usize = 0;
    while i < n
        invariant
            i <= n,
            n == g.len(),
            g == groups.list(),
            in_order(g),
            gm == map_of(g),
            gm == groups.deep_view(),
            d == l.deep_view(),
            forall|s: Seq<char>|
                gm.dom().contains(s) ==> {
                    let e = #[trigger] gm[s];
                    best_with(d, s) == Some((e.0, e.1)) && e.2 == shape_sum(d, s)
                },
            forall|k: Seq<char>| #[trigger]
                out.deep_view().dom().contains(k) <==> survives(d, k) && has_key(
                    g.take(i as int),
                    shape(k),
                ),
            forall|k: Seq<char>|
                out.deep_view().dom().contains(k) ==> #[trigger] out.deep_view()[k] == shape_sum(
                    d,
                    shape(k),
                ),
        decreases n - i,
    {
        let ghost before = out.deep_view();
        let e = groups.value_at(i);
        let ghost s = g[i as int].0;
        let ghost k0 = e.0@;
        proof {
            map_of_at(g, i as int);
            assert(gm[s] == g[i as int].1);
            best_has_shape(d, s);
            assert(shape(k0) == s);
            assert(survives(d, k0));
        }
        out.insert(e.0.clone(), e.2);
        proof {
            let t0 = g.take(i as int);
            let t1 = g.take(i + 1);
            assert forall|k: Seq<char>| #[trigger] out.deep_view().dom().contains(k) <==> survives(
                d,
                k,
            ) && has_key(t1, shape(k)) by {
                assert(before.dom().contains(k) <==> survives(d, k) && has_key(t0, shape(k)));
                if has_key(t0, shape(k)) {
                    let j = choose|j: int| 0 <= j < t0.len() && (#[trigger] t0[j]).0 == shape(k);
                    assert(t1[j].0 == shape(k));
                }
                if has_key(t1, shape(k)) {
                    let j = choose|j: int| 0 <= j < t1.len() && (#[trigger] t1[j]).0 == shape(k);
                    if j < i {
                        assert(t0[j].0 == shape(k));
                    }
                }
                assert(t1[i as int].0 == s);
            }
            assert forall|k: Seq<char>| out.deep_view().dom().contains(k) implies #[trigger]
                out.deep_view()[k] == shape_sum(d, shape(k)) by {
                if k != k0 {
                    assert(before.dom().contains(k));
                    assert(before[k] == shape_sum(d, shape(k)));
                }
            }
        }
        i += 1;
    }
    proof {
        assert(g.take(i as int) =~= g);
        assert forall|k: Seq<char>| survives(d, k) implies has_key(g, shape(k)) by {
            assert(gm.dom().contains(shape(k)));
        }
        assert forall|k: Seq<char>| shape_sum(d, shape(k)) <= u64::MAX by {
            shape_sum_at_most(d, shape(k));
        }
        assert(out.deep_view() =~= folded(d));
    }
    out
}

/// Merge candidates that differ only in word boundaries or a plural.
///
/// The same domain is genuinely spelled several ways across a codebase this old:
/// `groupbuying`, `group_buying` and `groupBuy` are one thing, as are
/// `buytogether` and `buy_together`. Folding them automatically means an operator
/// only has to curate the cases the tool cannot see, not the obvious ones.
pub fn fold_variants(counts: &TextMap<u64>) -> (r: TextMap<u64>)
    requires
        sum_of(counts.list()) <= u64::MAX,
    ensures
        r.deep_view() == folded(counts.list()),
{
    let n: usize = counts.len();
    let ghost l = counts.list();
    let mut v: Vec<(String, u64)> = Vec::new();
    let mut i: usize = 0;
    while i < n
        invariant
            i <= n,
            n == l.len(),
            l == counts.list(),
            v.deep_view() == l.take(i as int),
        decreases n - i,
    {
        let ghost before = v.deep_view();
        v.push((counts.key_at(i).clone(), *counts.value_at(i)));
        assert(v.deep_view() =~= before.push(l[i as int]));
        i += 1;
        assert(l.take(i as int) =~= before.push(l[i - 1]));
    }
    assert(l.take(i as int) =~= l);
    fold_list(&v)
}

// ---------------------------------------------------------------------------
// Tables

/// The seed that a candidate stands for: itself, else a seed of its shape. A table's
/// wording rarely matches a package's exactly: `t_group_buying_*` must still reach a
/// `groupBuy` package.
pub open spec fn seed_for(
    seeds: Map<Seq<char>, u64>,
    variants: Map<Seq<char>, Seq<char>>,
    cand: Seq<char>,
) -> Option<Seq<char>> {
    if seeds.dom().contains(cand) {
        Some(cand)
    } else if variants.dom().contains(shape(cand)) {
        Some(variants[shape(cand)])
    } else {
        None
    }
}

fn find_seed(seeds: &TextMap<u64>, variants: &TextMap<String>, cand: String) -> (r: Option<String>)
    ensures
        r.deep_view() == seed_for(seeds.deep_view(), variants.deep_view(), cand@),
{
    if seeds.contains_key(cand.as_str()) {
        return Some(cand);
    }
    match variants.get(variant_shape(cand.as_str()).as_str()) {
        Some(k) => Some(k.clone()),
        None => None,
    }
}

/// The domain that a package segment votes for.
pub fn resolve_key(
    cfg: &DomainConfig,
    seeds: &TextMap<u64>,
    variants: &TextMap<String>,
    seg: &str,
) -> (r: Option<String>)
    ensures
        r.deep_view() == seed_for(
            seeds.deep_view(),
            variants.deep_view(),
            canonical_of(cfg.aliases.list(), seg@),
        ),
{
    find_seed(seeds, variants, cfg.canonical(seg))
}

/// What the run of `len` tokens at `start` names.
pub open spec fn run_key(
    aliases: Seq<(Seq<char>, Seq<Seq<char>>)>,
    seeds: Map<Seq<char>, u64>,
    variants: Map<Seq<char>, Seq<char>>,
    tokens: Seq<Seq<char>>,
    len: int,
    start: int,
) -> Option<Seq<char>> {
    seed_for(
        seeds,
        variants,
        canonical_of(aliases, joined(tokens.subrange(start, start + len), "_"@)),
    )
}

/// What the leftmost run of `len` tokens at or after `start` that names anything
/// names.
pub open spec fn run_from(
    aliases: Seq<(Seq<char>, Seq<Seq<char>>)>,
    seeds: Map<Seq<char>, u64>,
    variants: Map<Seq<char>, Seq<char>>,
    tokens: Seq<Seq<char>>,
    len: int,
    start: int,
) -> Option<Seq<char>>
    decreases tokens.len() + 1 - start,
{
    if start < 0 || start + len > tokens.len() || len < 1 {
        None
    } else if run_key(aliases, seeds, variants, tokens, len, start) is Some {
        run_key(aliases, seeds, variants, tokens, len, start)
    } else {
        run_from(aliases, seeds, variants, tokens, len, start + 1)
    }
}

/// What the longest and leftmost run of at most `len` tokens that names anything
/// names.
pub open spec fn longest_run(
    aliases: Seq<(Seq<char>, Seq<Seq<char>>)>,
    seeds: Map<Seq<char>, u64>,
    variants: Map<Seq<char>, Seq<char>>,
    tokens: Seq<Seq<char>>,
    len: nat,
) -> Option<Seq<char>>
    decreases len,
{
    if len == 0 {
        None
    } else if run_from(aliases, seeds, variants, tokens, len as int, 0) is Some {
        run_from(aliases, seeds, variants, tokens, len as int, 0)
    } else {
        longest_run(aliases, seeds, variants, tokens, (len - 1) as nat)
    }
}

/// The domain that a table's name tells. Every contiguous run of up to three tokens
/// counts, longest and leftmost first. The domain word is not always at the front:
/// `t_promotion_defective_area` names a `defective` table under a generic
/// `promotion_` prefix, and matching only on leading tokens leaves the majority of
/// tables orphaned.
pub open spec fn table_key(
    aliases: Seq<(Seq<char>, Seq<Seq<char>>)>,
    seeds: Map<Seq<char>, u64>,
    variants: Map<Seq<char>, Seq<char>>,
    name: Seq<char>,
) -> Option<Seq<char>> {
    longest_run(aliases, seeds, variants, pieces(less_prefix(name, TABLE_PREFIX@), '_'), 3)
}

fn find_table_key(
    cfg: &DomainConfig,
    seeds: &TextMap<u64>,
    variants: &TextMap<String>,
    name: &str,
) -> (r: Option<String>)
    ensures
        r.deep_view() == table_key(
            cfg.aliases.list(),
            seeds.deep_view(),
            variants.deep_view(),
            name@,
        ),
{
    let ghost al = cfg.aliases.list();
    let ghost sv = seeds.deep_view();
    let ghost vv = variants.deep_view();
    let bare = match strip_prefix(name, TABLE_PREFIX) {
        Some(x) => x,
        None => name,
    };
    let tokens = split(bare, '_');
    let ghost t = tokens.deep_view();
    let mut len: usize = 3;
    while len > 0
        invariant
            len <= 3,
            al == cfg.aliases.list(),
            sv == seeds.deep_view(),
            vv == variants.deep_view(),
            t == tokens.deep_view(),
            t == pieces(less_prefix(name@, TABLE_PREFIX@), '_'),
            longest_run(al, sv, vv, t, 3) == longest_run(al, sv, vv, t, len as nat),
        decreases len,
    {
        let mut start: usize = 0;
        while len <= tokens.len() && start <= tokens.len() - len
            invariant
                0 < len <= 3,
                al == cfg.aliases.list(),
                sv == seeds.deep_view(),
                vv == variants.deep_view(),
                t == tokens.deep_view(),
                t == pieces(less_prefix(name@, TABLE_PREFIX@), '_'),
                start <= tokens.len() + 1,
                longest_run(al, sv, vv, t, 3) == longest_run(al, sv, vv, t, len as nat),
                run_from(al, sv, vv, t, len as int, 0) == run_from(
                    al,
                    sv,
                    vv,
                    t,
                    len as int,
                    start as int,
                ),
            decreases tokens.len() + 1 - start,
        {
            let run = copy_run(&tokens, start, len);
            let cand = cfg.canonical(crate::split::join(&run, "_").as_str());
            match find_seed(seeds, variants, cand) {
                Some(k) => {
                    return Some(k);
                },
                None => {},
            }
            start += 1;
        }
        len -= 1;
    }
    None
}

fn copy_run(tokens: &Vec<String>, start: usize, len: usize) -> (r: Vec<String>)
    requires
        start + len <= tokens.len(),
    ensures
        r.deep_view() == tokens.deep_view().subrange(start as int, start + len),
{
    let ghost t = tokens.deep_view();
    let mut out: Vec<String> = Vec::new();
    let mut i: usize = 0;
    while i < len
        invariant
            i <= len,
            start + len <= tokens.len(),
            t == tokens.deep_view(),
            out.deep_view() == t.subrange(start as int, start + i),
        decreases len - i,
    {
        let ghost before = out.deep_view();
        out.push(tokens[start + i].clone());
        assert(out.deep_view() =~= before.push(t[start + i]));
        i += 1;
        assert(t.subrange(start as int, start + i) =~= before.push(t[start + i - 1]));
    }
    out
}

/// The domains that the tables' names tell.
pub open spec fn groups_of(
    aliases: Seq<(Seq<char>, Seq<Seq<char>>)>,
    seeds: Map<Seq<char>, u64>,
    variants: Map<Seq<char>, Seq<char>>,
    names: Seq<(i64, Seq<char>)>,
) -> Map<i64, Seq<char>>
    decreases names.len(),
{
    if names.len() == 0 {
        Map::empty()
    } else {
        let before = groups_of(aliases, seeds, variants, names.drop_last());
        match table_key(aliases, seeds, variants, names.last().1) {
            Some(k) => before.insert(names.last().0, k),
            None => before,
        }
    }
}

/// Group table names by their tokens, e.g. `t_coupon_template` → `coupon`.
pub fn table_groups(
    names: &Vec<(i64, String)>,
    seeds: &TextMap<u64>,
    cfg: &DomainConfig,
) -> (r: IdMap<String>)
    ensures
        r.deep_view() == groups_of(
            cfg.aliases.list(),
            seeds.deep_view(),
            shapes_of(seeds.list()),
            names.deep_view(),
        ),
{
    let variants = variant_index(seeds);
    let ghost al = cfg.aliases.list();
    let ghost sv = seeds.deep_view();
    let ghost vv = variants.deep_view();
    let ghost d = names.deep_view();
    let mut out: IdMap<String> = IdMap::new();
    let mut i: usize = 0;
    while i < names.len()
        invariant
            i <= names.len(),
            al == cfg.aliases.list(),
            sv == seeds.deep_view(),
            vv == variants.deep_view(),
            d == names.deep_view(),
            out.deep_view() == groups_of(al, sv, vv, d.take(i as int)),
        decreases names.len() - i,
    {
        broadcast use take_next;

        assert(d[i as int] == (names@[i as int].0, names@[i as int].1@));
        assert(d.take(i + 1).last() == d[i as int]);
        match find_table_key(cfg, seeds, &variants, names[i].1.as_str()) {
            Some(k) => {
                out.insert(names[i].0, k);
            },
            None => {},
        }
        i += 1;
    }
    broadcast use take_all;

    assert(d.take(i as int) == d);
    out
}

// ---------------------------------------------------------------------------
// Votes

/// The votes of the first `n` segments of a file: the key, and the place of the
/// segment among all, counted from one.
pub open spec fn votes_of(
    aliases: Seq<(Seq<char>, Seq<Seq<char>>)>,
    seeds: Map<Seq<char>, u64>,
    variants: Map<Seq<char>, Seq<char>>,
    segments: Seq<Seq<char>>,
    n: nat,
) -> Seq<(Seq<char>, usize, usize)>
    decreases n,
{
    if n == 0 || n > segments.len() {
        Seq::empty()
    } else {
        let before = votes_of(aliases, seeds, variants, segments, (n - 1) as nat);
        match seed_for(seeds, variants, canonical_of(aliases, segments[n - 1])) {
            Some(k) => before.push((k, n as usize, segments.len() as usize)),
            None => before,
        }
    }
}

/// Package placement: the key that each segment votes for, with the segment's place
/// and the number of segments. Later segments are more specific, so they vote harder.
pub fn package_votes(
    f: &FileRow,
    cfg: &DomainConfig,
    seeds: &TextMap<u64>,
    variants: &TextMap<String>,
) -> (r: Vec<(String, usize, usize)>)
    ensures
        r.deep_view() == votes_of(
            cfg.aliases.list(),
            seeds.deep_view(),
            variants.deep_view(),
            f.deep_view().segments,
            f.deep_view().segments.len(),
        ),
{
    let ghost al = cfg.aliases.list();
    let ghost sv = seeds.deep_view();
    let ghost vv = variants.deep_view();
    let ghost segs = f.deep_view().segments;
    let n: usize = f.segments.len();
    let mut out: Vec<(String, usize, usize)> = Vec::new();
    let mut i: usize = 0;
    assert(out.deep_view() =~= votes_of(al, sv, vv, segs, 0));
    while i < n
        invariant
            i <= n,
            n == f.segments.len(),
            al == cfg.aliases.list(),
            sv == seeds.deep_view(),
            vv == variants.deep_view(),
            segs == f.deep_view().segments,
            segs.len() == n,
            out.deep_view() == votes_of(al, sv, vv, segs, i as nat),
        decreases n - i,
    {
        let ghost before = out.deep_view();
        assert(segs[i as int] == f.segments@[i as int]@);
        match resolve_key(cfg, seeds, variants, f.segments[i].as_str()) {
            Some(k) => {
                let ghost x = k@;
                out.push((k, i + 1, n));
                assert(out.deep_view() =~= before.push((x, (i + 1) as usize, n)));
            },
            None => {},
        }
        i += 1;
    }
    out
}

/// The domains of the tables that files access.
pub fn table_votes(access: &Vec<(i64, i64)>, table_domain: &IdMap<String>) -> (r: Vec<
    (i64, String),
>)
    ensures
        r.deep_view() == crate::lists::pick(
            access.deep_view(),
            |a: (i64, i64)| table_vote(table_domain.deep_view(), a),
        ),
{
    let ghost d = access.deep_view();
    let ghost td = table_domain.deep_view();
    let ghost f = |a: (i64, i64)| table_vote(td, a);
    let mut out: Vec<(i64, String)> = Vec::new();
    let mut i: usize = 0;
    assert(out.deep_view() =~= crate::lists::pick(d.take(0), f));
    while i < access.len()
        invariant
            i <= access.len(),
            d == access.deep_view(),
            td == table_domain.deep_view(),
            f == (|a: (i64, i64)| table_vote(td, a)),
            out.deep_view() == crate::lists::pick(d.take(i as int), f),
        decreases access.len() - i,
    {
        broadcast use take_next;

        let ghost before = out.deep_view();
        assert(d[i as int] == access@[i as int]);
        assert(d.take(i + 1).last() == d[i as int]);
        assert(f(d[i as int]) == table_vote(td, d[i as int]));
        match table_domain.get(&access[i].1) {
            Some(k) => {
                out.push((access[i].0, k.clone()));
                assert(out.deep_view() =~= before.push((access@[i as int].0, k@)));
            },
            None => {},
        }
        i += 1;
    }
    broadcast use take_all;

    assert(d.take(i as int) == d);
    out
}

/// The vote of a file that accesses a table: file and domain.
pub open spec fn table_vote(table_domain: Map<i64, Seq<char>>, a: (i64, i64)) -> Option<
    (i64, Seq<char>),
> {
    if table_domain.dom().contains(a.1) {
        Some((a.0, table_domain[a.1]))
    } else {
        None
    }
}

/// The files of each commit, in the order of the rows.
pub open spec fn by_commit(rows: Seq<(i64, i64)>) -> Map<i64, Seq<i64>>
    decreases rows.len(),
{
    if rows.len() == 0 {
        Map::empty()
    } else {
        let before = by_commit(rows.drop_last());
        let c = rows.last().0;
        let files = if before.dom().contains(c) {
            before[c]
        } else {
            Seq::empty()
        };
        before.insert(c, files.push(rows.last().1))
    }
}

pub open spec fn pair_of(a: i64, b: i64) -> (i64, i64) {
    if a < b {
        (a, b)
    } else {
        (b, a)
    }
}

/// The pairs of files from places `i` and `j` on, each with what its commit's weight
/// is divided by.
pub open spec fn pairs_from(files: Seq<i64>, i: int, j: int) -> Seq<((i64, i64), usize)>
    decreases files.len() - i, files.len() - j,
{
    if i < 0 || i >= files.len() {
        Seq::empty()
    } else if j >= files.len() {
        pairs_from(files, i + 1, i + 2)
    } else {
        seq![(pair_of(files[i], files[j]), (files.len() - 1) as usize)] + pairs_from(
            files,
            i,
            j + 1,
        )
    }
}

/// The pairs of a commit. A commit that touches one file, or more than twenty, says
/// nothing about cohesion.
pub open spec fn commit_pairs(files: Seq<i64>) -> Seq<((i64, i64), usize)> {
    if files.len() < 2 || files.len() > 20 {
        Seq::empty()
    } else {
        pairs_from(files, 0, 1)
    }
}

fn group_commits(rows: &Vec<(i64, i64)>) -> (r: IdMap<Vec<i64>>)
    ensures
        r.deep_view() == by_commit(rows.deep_view()),
{
    let ghost d = rows.deep_view();
    let mut out: IdMap<Vec<i64>> = IdMap::new();
    let mut i: usize = 0;
    while i < rows.len()
        invariant
            i <= rows.len(),
            d == rows.deep_view(),
            out.deep_view() == by_commit(d.take(i as int)),
        decreases rows.len() - i,
    {
        broadcast use take_next;

        assert(d[i as int] == rows@[i as int]);
        assert(d.take(i + 1).last() == d[i as int]);
        let (c, f) = rows[i];
        let mut files = match out.get(&c) {
            Some(v) => copy_ids(v),
            None => Vec::new(),
        };
        let ghost before = files.deep_view();
        assert(!out.deep_view().dom().contains(c) ==> before =~= Seq::<i64>::empty());
        files.push(f);
        assert(files.deep_view() =~= before.push(f));
        out.insert(c, files);
        i += 1;
    }
    broadcast use take_all;

    assert(d.take(i as int) == d);
    out
}

fn copy_ids(v: &Vec<i64>) -> (r: Vec<i64>)
    ensures
        r.deep_view() == v.deep_view(),
        r@ == v@,
{
    let mut out: Vec<i64> = Vec::new();
    let mut i: usize = 0;
    while i < v.len()
        invariant
            i <= v.len(),
            out@ == v@.take(i as int),
        decreases v.len() - i,
    {
        out.push(v[i]);
        i += 1;
        assert(out@ =~= v@.take(i as int));
    }
    assert(out@ =~= v@);
    assert(out.deep_view() =~= v.deep_view());
    out
}

/// File pairs that change together: one entry per pair and commit, commits in the
/// order of their ids, each with what the commit's weight is divided by.
///
/// Commits touching many files are mostly merges and sweeping renames; they
/// couple everything to everything, so their influence is damped by size.
pub fn churn_pairs(rows: &Vec<(i64, i64)>) -> (r: Vec<((i64, i64), usize)>)
    ensures
        r@ == crate::lists::flat(
            crate::idmap::entries_of(by_commit(rows.deep_view())),
            |e: (i64, Seq<i64>)| commit_pairs(e.1),
        ),
{
    let commits = group_commits(rows);
    let n: usize = commits.len();
    let ghost l = commits.list();
    let ghost g = |e: (i64, Seq<i64>)| commit_pairs(e.1);
    let mut out: Vec<((i64, i64), usize)> = Vec::new();
    let mut c: usize = 0;
    assert(out@ =~= crate::lists::flat(l.take(0), g));
    while c < n
        invariant
            c <= n,
            n == l.len(),
            l == commits.list(),
            g == (|e: (i64, Seq<i64>)| commit_pairs(e.1)),
            out@ == crate::lists::flat(l.take(c as int), g),
        decreases n - c,
    {
        broadcast use take_next;

        let files = commits.value_at(c);
        let ghost fs = files.deep_view();
        let ghost start = out@;
        let len: usize = files.len();
        assert(l.take(c + 1).last() == l[c as int]);
        assert(g(l[c as int]) == commit_pairs(fs));
        if len >= 2 && len <= 20 {
            let mut i: usize = 0;
            assert(start + pairs_from(fs, 0, 1) =~= out@ + pairs_from(fs, 0, 1));
            while i < len
                invariant
                    i <= len,
                    2 <= len <= 20,
                    len == files.len(),
                    fs == files.deep_view(),
                    start + pairs_from(fs, 0, 1) == out@ + pairs_from(fs, i as int, i + 1),
                decreases len - i,
            {
                let mut j: usize = i + 1;
                while j < len
                    invariant
                        i < len,
                        i < j <= len,
                        2 <= len <= 20,
                        len == files.len(),
                        fs == files.deep_view(),
                        start + pairs_from(fs, 0, 1) == out@ + pairs_from(fs, i as int, j as int),
                    decreases len - j,
                {
                    let (a, b) = (files[i], files[j]);
                    let ghost before = out@;
                    assert(fs[i as int] == a && fs[j as int] == b);
                    let pair = if a < b {
                        (a, b)
                    } else {
                        (b, a)
                    };
                    out.push((pair, len - 1));
                    assert(before + pairs_from(fs, i as int, j as int) =~= out@ + pairs_from(
                        fs,
                        i as int,
                        j + 1,
                    ));
                    j += 1;
                }
                i += 1;
            }
            assert(pairs_from(fs, i as int, i + 1) =~= Seq::empty());
            assert(out@ + Seq::<((i64, i64), usize)>::empty() =~= out@);
        } else {
            assert(start + Seq::<((i64, i64), usize)>::empty() =~= start);
        }
        assert(out@ =~= start + commit_pairs(fs));
        c += 1;
    }
    broadcast use take_all;

    assert(l.take(c as int) == l);
    out
}

/// The domain with the highest score, ties broken on the key so that a rebuild is
/// deterministic. A score stands here as a number that orders as the score does, zero
/// for none.
pub fn winner(scores: &TextMap<u64>) -> (r: Option<String>)
    ensures
        match r {
            Some(k) => {
                let m = scores.deep_view();
                &&& m.dom().contains(k@)
                &&& m[k@] > 0
                &&& forall|x: Seq<char>|
                    m.dom().contains(x) && x != k@ ==> preferred((k@, m[k@]), (x, #[trigger] m[x]))
            },
            None => forall|x: Seq<char>|
                scores.deep_view().dom().contains(x) ==> #[trigger] scores.deep_view()[x] == 0,
        },
{
    let ghost m = scores.deep_view();
    let n: usize = scores.len();
    let ghost l = scores.list();
    let mut best: Option<usize> = None;
    let mut i: usize = 0;
    while i < n
        invariant
            i <= n,
            n == l.len(),
            l == scores.list(),
            in_order(l),
            match best {
                Some(b) => {
                    &&& b < i
                    &&& l[b as int].1 > 0
                    &&& forall|j: int|
                        0 <= j < i && j != b ==> preferred(l[b as int], #[trigger] l[j])
                },
                None => forall|j: int| 0 <= j < i ==> (#[trigger] l[j]).1 == 0,
            },
        decreases n - i,
    {
        let v: u64 = *scores.value_at(i);
        match best {
            Some(b) => {
                let bv: u64 = *scores.value_at(b);
                assert(lex_lt(l[b as int].0, l[i as int].0));
                if v > bv {
                    best = Some(i);
                }
            },
            None => {
                if v > 0 {
                    best = Some(i);
                }
            },
        }
        i += 1;
    }
    match best {
        Some(b) => {
            let k = scores.key_at(b);
            proof {
                map_of_at(l, b as int);
                assert forall|x: Seq<char>| m.dom().contains(x) && x != k@ implies preferred(
                    (k@, m[k@]),
                    (x, #[trigger] m[x]),
                ) by {
                    let j = choose|j: int| 0 <= j < l.len() && (#[trigger] l[j]).0 == x;
                    map_of_at(l, j);
                    assert(preferred(l[b as int], l[j]));
                }
            }
            Some(k.clone())
        },
        None => {
            proof {
                assert forall|x: Seq<char>| m.dom().contains(x) implies #[trigger] m[x] == 0 by {
                    let j = choose|j: int| 0 <= j < l.len() && (#[trigger] l[j]).0 == x;
                    map_of_at(l, j);
                    assert(l[j].1 == 0);
                }
            }
            None
        },
    }
}

/// Whether one of the prefixes begins the path.
pub open spec fn any_prefix(prefixes: Seq<Seq<char>>, path: Seq<char>) -> bool {
    exists|i: int| 0 <= i < prefixes.len() && has_prefix(path, #[trigger] prefixes[i])
}

/// The last key, in key order, that lists a prefix of the path.
pub open spec fn path_key(l: Seq<(Seq<char>, Seq<Seq<char>>)>, path: Seq<char>) -> Option<
    Seq<char>,
>
    decreases l.len(),
{
    if l.len() == 0 {
        None
    } else if any_prefix(l.last().1, path) {
        Some(l.last().0)
    } else {
        path_key(l.drop_last(), path)
    }
}

/// The domain that the operator puts a path in. It overrides the vote entirely; of two
/// keys that claim a path the later has it.
pub fn curated_path(cfg: &DomainConfig, path: &str) -> (r: Option<String>)
    ensures
        r.deep_view() == path_key(cfg.paths.list(), path@),
{
    let ghost l = cfg.paths.list();
    let mut n: usize = cfg.paths.len();
    assert(l.take(n as int) =~= l);
    while n > 0
        invariant
            n <= l.len(),
            l == cfg.paths.list(),
            path_key(l, path@) == path_key(l.take(n as int), path@),
        decreases n,
    {
        let prefixes = cfg.paths.value_at(n - 1);
        let ghost ps = l[n - 1].1;
        let mut hit = false;
        let mut k: usize = 0;
        while k < prefixes.len() && !hit
            invariant
                k <= prefixes.len(),
                prefixes.deep_view() == ps,
                hit ==> any_prefix(ps, path@),
                !hit ==> forall|j: int| 0 <= j < k ==> !has_prefix(path@, #[trigger] ps[j]),
            decreases prefixes.len() - k,
        {
            assert(ps[k as int] == prefixes@[k as int]@);
            hit = starts_with(path, prefixes[k].as_str());
            k += 1;
        }
        assert(l.take(n as int).last() == l[n - 1]);
        assert(l.take(n as int).drop_last() =~= l.take(n - 1));
        if hit {
            return Some(cfg.paths.key_at(n - 1).clone());
        }
        n -= 1;
    }
    None
}

// ---------------------------------------------------------------------------
// Assignments

/// What one domain holds.
#[derive(Debug)]
pub struct DomainAssignment {
    pub key: String,
    /// Ids of its files, ascending.
    pub files: Vec<i64>,
    /// Ids of its tables, ascending.
    pub tables: Vec<i64>,
    /// Why this domain exists, for the rationale column.
    pub seeds: Vec<String>,
}

/// The content of a [`DomainAssignment`].
#[verifier::ext_equal]
pub struct DomainAssignmentView {
    pub key: Seq<char>,
    pub files: Seq<i64>,
    pub tables: Seq<i64>,
    pub seeds: Seq<Seq<char>>,
}

impl DeepView for DomainAssignment {
    type V = DomainAssignmentView;

    open spec fn deep_view(&self) -> DomainAssignmentView {
        DomainAssignmentView {
            key: self.key.deep_view(),
            files: self.files.deep_view(),
            tables: self.tables.deep_view(),
            seeds: self.seeds.deep_view(),
        }
    }
}

impl Clone for DomainAssignment {
    fn clone(&self) -> (r: Self)
        ensures
            r.deep_view() == self.deep_view(),
    {
        DomainAssignment {
            key: self.key.clone(),
            files: self.files.clone(),
            tables: self.tables.clone(),
            seeds: self.seeds.clone(),
        }
    }
}

/// The strictly ascending list of the ids in `m`.
pub open spec fn lists_ids(s: Seq<i64>, m: Set<i64>) -> bool {
    &&& forall|i: int, j: int| 0 <= i < j < s.len() ==> #[trigger] s[i] < #[trigger] s[j]
    &&& forall|x: i64| #[trigger] s.contains(x) <==> m.contains(x)
}

/// Puts `x` into an ascending list, unless it is there.
fn put_id(v: &mut Vec<i64>, x: i64, Ghost(m): Ghost<Set<i64>>)
    requires
        lists_ids(old(v)@, m),
    ensures
        lists_ids(final(v)@, m.insert(x)),
{
    let ghost before = v@;
    let mut i: usize = 0;
    while i < v.len() && v[i] < x
        invariant
            i <= v.len(),
            v@ == before,
            forall|j: int| 0 <= j < i ==> #[trigger] before[j] < x,
        decreases v.len() - i,
    {
        i += 1;
    }
    if i < v.len() && v[i] == x {
        assert(m.insert(x) =~= m) by {
            assert(before[i as int] == x);
            assert(before.contains(x));
        }
        return;
    }
    v.insert(i, x);
    proof {
        let after = v@;
        assert(after =~= before.insert(i as int, x));
        assert forall|a: int, b: int| 0 <= a < b < after.len() implies #[trigger] after[a]
            < #[trigger] after[b] by {
            let a0 = if a < i {
                a
            } else {
                a - 1
            };
            let b0 = if b < i {
                b
            } else {
                b - 1
            };
            if a == i {
                assert(after[b] == before[b0]);
                assert(before[i as int] <= before[b0]);
            } else if b == i {
                assert(after[a] == before[a]);
            } else {
                assert(after[a] == before[a0] && after[b] == before[b0]);
            }
        }
        assert forall|y: i64| #[trigger] after.contains(y) <==> m.insert(x).contains(y) by {
            assert(before.contains(y) <==> m.contains(y));
            if before.contains(y) {
                let k = choose|k: int| 0 <= k < before.len() && before[k] == y;
                let k1 = if k < i {
                    k
                } else {
                    k + 1
                };
                assert(after[k1] == y);
            }
            if y == x {
                assert(after[i as int] == x);
            }
            if after.contains(y) && y != x {
                let k = choose|k: int| 0 <= k < after.len() && after[k] == y;
                let k0 = if k < i {
                    k
                } else {
                    k - 1
                };
                assert(before[k0] == y);
            }
        }
    }
}

/// The files that `rows` put in a domain.
pub open spec fn files_with(rows: Seq<(i64, Seq<char>)>, key: Seq<char>) -> Set<i64> {
    Set::new(|f: i64| rows.contains((f, key)))
}

/// Whether the groups are those that `rows` make: the keys that occur, each with the
/// files that have it, ascending.
pub open spec fn grouped(rows: Seq<(i64, Seq<char>)>, m: Map<Seq<char>, Seq<i64>>) -> bool {
    &&& forall|k: Seq<char>| #[trigger]
        m.dom().contains(k) <==> exists|i: int| 0 <= i < rows.len() && (#[trigger] rows[i]).1 == k
    &&& forall|k: Seq<char>|
        m.dom().contains(k) ==> lists_ids(#[trigger] m[k], files_with(rows, k))
}

/// The files of each domain, given each file's domain.
pub fn group_files(rows: &Vec<(i64, String)>) -> (r: TextMap<Vec<i64>>)
    ensures
        grouped(rows.deep_view(), r.deep_view()),
{
    let ghost d = rows.deep_view();
    let mut out: TextMap<Vec<i64>> = TextMap::new();
    let mut i: usize = 0;
    while i < rows.len()
        invariant
            i <= rows.len(),
            d == rows.deep_view(),
            grouped(d.take(i as int), out.deep_view()),
        decreases rows.len() - i,
    {
        let ghost t0 = d.take(i as int);
        let ghost t1 = d.take(i + 1);
        let ghost before = out.deep_view();
        let f: i64 = rows[i].0;
        let ghost key = rows@[i as int].1@;
        assert(d[i as int] == (f, key));
        assert(t1 =~= t0.push((f, key)));
        let mut files = match out.get(rows[i].1.as_str()) {
            Some(v) => copy_ids(v),
            None => Vec::new(),
        };
        proof {
            if !before.dom().contains(key) {
                assert forall|x: i64| !files_with(t0, key).contains(x) by {
                    if t0.contains((x, key)) {
                        let j = choose|j: int| 0 <= j < t0.len() && t0[j] == (x, key);
                        assert(t0[j].1 == key);
                    }
                }
                assert(lists_ids(files@, files_with(t0, key)));
            } else {
                assert(files.deep_view() =~= files@);
                assert(before[key] == files@);
            }
        }
        put_id(&mut files, f, Ghost(files_with(t0, key)));
        assert(files.deep_view() =~= files@);
        out.insert(rows[i].1.clone(), files);
        proof {
            let m = out.deep_view();
            assert forall|k: Seq<char>| #[trigger] m.dom().contains(k) <==> exists|j: int|
                0 <= j < t1.len() && (#[trigger] t1[j]).1 == k by {
                assert(t1[i as int].1 == key);
                assert(before.dom().contains(k) <==> exists|j: int|
                    0 <= j < t0.len() && (#[trigger] t0[j]).1 == k);
                if before.dom().contains(k) {
                    let j = choose|j: int| 0 <= j < t0.len() && (#[trigger] t0[j]).1 == k;
                    assert(t1[j].1 == k);
                }
                if exists|j: int| 0 <= j < t1.len() && (#[trigger] t1[j]).1 == k {
                    let j = choose|j: int| 0 <= j < t1.len() && (#[trigger] t1[j]).1 == k;
                    if j < i {
                        assert(t0[j].1 == k);
                    }
                }
            }
            assert forall|k: Seq<char>| m.dom().contains(k) implies lists_ids(
                #[trigger] m[k],
                files_with(t1, k),
            ) by {
                grown(t0, (f, key), k);
                if k != key {
                    assert(before.dom().contains(k));
                    assert(before[k] == m[k]);
                }
            }
        }
        i += 1;
    }
    assert(d.take(i as int) =~= d);
    out
}

proof fn grown(rows: Seq<(i64, Seq<char>)>, x: (i64, Seq<char>), k: Seq<char>)
    ensures
        files_with(rows.push(x), k) == (if k == x.1 {
            files_with(rows, k).insert(x.0)
        } else {
            files_with(rows, k)
        }),
{
    let more = rows.push(x);
    assert forall|f: i64| more.contains((f, k)) <==> rows.contains((f, k)) || (f, k) == x by {
        if rows.contains((f, k)) {
            let i = choose|i: int| 0 <= i < rows.len() && rows[i] == (f, k);
            assert(more[i] == (f, k));
        }
        if (f, k) == x {
            assert(more[rows.len() as int] == x);
        }
        if more.contains((f, k)) && (f, k) != x {
            let i = choose|i: int| 0 <= i < more.len() && more[i] == (f, k);
            assert(rows[i] == (f, k));
        }
    }
    assert(files_with(more, k) =~= (if k == x.1 {
        files_with(rows, k).insert(x.0)
    } else {
        files_with(rows, k)
    }));
}

// ---------------------------------------------------------------------------
// Ownership by usage

/// The domain of a file: the last group, in key order, that lists it.
pub open spec fn domain_of(l: Seq<(Seq<char>, Seq<i64>)>, f: i64) -> Option<Seq<char>>
    decreases l.len(),
{
    if l.len() == 0 {
        None
    } else if l.last().1.contains(f) {
        Some(l.last().0)
    } else {
        domain_of(l.drop_last(), f)
    }
}

fn file_domains(groups: &TextMap<Vec<i64>>) -> (r: IdMap<String>)
    ensures
        forall|f: i64| #[trigger]
            r.deep_view().dom().contains(f) <==> domain_of(groups.list(), f) is Some,
        forall|f: i64|
            r.deep_view().dom().contains(f) ==> domain_of(groups.list(), f) == Some(
                #[trigger] r.deep_view()[f],
            ),
{
    let n: usize = groups.len();
    let ghost l = groups.list();
    let mut out: IdMap<String> = IdMap::new();
    let mut i: usize = 0;
    while i < n
        invariant
            i <= n,
            n == l.len(),
            l == groups.list(),
            forall|f: i64| #[trigger]
                out.deep_view().dom().contains(f) <==> domain_of(l.take(i as int), f) is Some,
            forall|f: i64|
                out.deep_view().dom().contains(f) ==> domain_of(l.take(i as int), f) == Some(
                    #[trigger] out.deep_view()[f],
                ),
        decreases n - i,
    {
        let key = groups.key_at(i);
        let files = groups.value_at(i);
        let ghost fs = files.deep_view();
        let ghost t0 = l.take(i as int);
        let ghost t1 = l.take(i + 1);
        let ghost start = out.deep_view();
        proof {
            assert(t1.drop_last() =~= t0);
            assert(t1.last() == (key@, fs));
        }
        let mut k: usize = 0;
        while k < files.len()
            invariant
                k <= files.len(),
                fs == files.deep_view(),
                forall|f: i64| #[trigger]
                    out.deep_view().dom().contains(f) <==> start.dom().contains(f) || fs.take(
                        k as int,
                    ).contains(f),
                forall|f: i64|
                    fs.take(k as int).contains(f) ==> #[trigger] out.deep_view()[f] == key@,
                forall|f: i64|
                    !fs.take(k as int).contains(f) && start.dom().contains(f) ==> #[trigger]
                        out.deep_view()[f] == start[f],
            decreases files.len() - k,
        {
            let ghost u0 = fs.take(k as int);
            let ghost u1 = fs.take(k + 1);
            let ghost before = out.deep_view();
            let f0: i64 = files[k];
            assert(fs[k as int] == f0);
            assert(u1 =~= u0.push(f0));
            proof {
                assert forall|f: i64| u1.contains(f) <==> u0.contains(f) || f == f0 by {
                    if u0.contains(f) {
                        let j = choose|j: int| 0 <= j < u0.len() && u0[j] == f;
                        assert(u1[j] == f);
                    }
                    assert(u1[k as int] == f0);
                    if u1.contains(f) && f != f0 {
                        let j = choose|j: int| 0 <= j < u1.len() && u1[j] == f;
                        assert(u0[j] == f);
                    }
                }
            }
            out.insert(f0, key.clone());
            proof {
                assert forall|f: i64| u1.contains(f) implies #[trigger] out.deep_view()[f]
                    == key@ by {
                    if f != f0 {
                        assert(before[f] == key@);
                    }
                }
                assert forall|f: i64| !u1.contains(f) && start.dom().contains(f) implies #[trigger]
                    out.deep_view()[f] == start[f] by {
                    assert(before[f] == start[f]);
                }
                assert forall|f: i64| #[trigger]
                    out.deep_view().dom().contains(f) <==> start.dom().contains(f) || u1.contains(
                        f,
                    ) by {
                    assert(before.dom().contains(f) <==> start.dom().contains(f) || u0.contains(f));
                }
            }
            k += 1;
        }
        proof {
            assert(fs.take(k as int) =~= fs);
            assert forall|f: i64| #[trigger]
                out.deep_view().dom().contains(f) <==> domain_of(t1, f) is Some by {
                assert(start.dom().contains(f) <==> domain_of(t0, f) is Some);
            }
            assert forall|f: i64| out.deep_view().dom().contains(f) implies domain_of(t1, f)
                == Some(#[trigger] out.deep_view()[f]) by {
                if !fs.contains(f) {
                    assert(start.dom().contains(f));
                    assert(domain_of(t0, f) == Some(start[f]));
                    assert(out.deep_view()[f] == start[f]);
                } else {
                    assert(out.deep_view()[f] == key@);
                }
            }
        }
        i += 1;
    }
    assert(l.take(i as int) =~= l);
    out
}

/// The domain that one access tells of a table, where it is an access of that table.
pub open spec fn use_of(
    groups: Seq<(Seq<char>, Seq<i64>)>,
    table: i64,
    a: (i64, i64),
) -> Option<Seq<char>> {
    if a.0 == table {
        domain_of(groups, a.1)
    } else {
        None
    }
}

/// The domains whose files access the table, one per access.
pub open spec fn uses_of(
    groups: Seq<(Seq<char>, Seq<i64>)>,
    access: Seq<(i64, i64)>,
    table: i64,
) -> Seq<Seq<char>> {
    crate::lists::pick(access, |a: (i64, i64)| use_of(groups, table, a))
}

/// Whether seven uses of ten, or more, are a domain's. A table read by everyone — a
/// config or lookup table — is deliberately left unassigned rather than attributed to
/// whichever domain happens to query it most.
pub open spec fn owns(uses: Seq<Seq<char>>, key: Seq<char>) -> bool {
    times(uses, key) > 0 && 10 * times(uses, key) >= 7 * uses.len()
}

proof fn two_keys(uses: Seq<Seq<char>>, a: Seq<char>, b: Seq<char>)
    requires
        a != b,
    ensures
        times(uses, a) + times(uses, b) <= uses.len(),
    decreases uses.len(),
{
    if uses.len() > 0 {
        two_keys(uses.drop_last(), a, b);
    }
}

/// No table has two owners.
pub proof fn one_owner(uses: Seq<Seq<char>>, a: Seq<char>, b: Seq<char>)
    requires
        owns(uses, a),
        owns(uses, b),
    ensures
        a == b,
{
    if a != b {
        two_keys(uses, a, b);
    }
}

/// Whether the map gives the tables that have an owner by usage, with it.
pub open spec fn usage_owners(
    groups: Seq<(Seq<char>, Seq<i64>)>,
    access: Seq<(i64, i64)>,
    m: Map<i64, Seq<char>>,
) -> bool {
    &&& forall|t: i64|
        m.dom().contains(t) ==> owns(uses_of(groups, access, t), #[trigger] m[t])
    &&& forall|t: i64, k: Seq<char>| #[trigger]
        owns(uses_of(groups, access, t), k) ==> m.dom().contains(t)
}

/// The key that owns, given the uses counted.
fn find_owner(c: &TextMap<u64>, total: u64, Ghost(uses): Ghost<Seq<Seq<char>>>) -> (r: Option<
    String,
>)
    requires
        counts(c.deep_view(), uses),
        total == uses.len(),
    ensures
        match r {
            Some(k) => owns(uses, k@),
            None => forall|k: Seq<char>| !#[trigger] owns(uses, k),
        },
{
    let n: usize = c.len();
    let ghost l = c.list();
    let mut i: usize = 0;
    while i < n
        invariant
            i <= n,
            n == l.len(),
            l == c.list(),
            in_order(l),
            c.deep_view() == map_of(l),
            counts(c.deep_view(), uses),
            total == uses.len(),
            forall|j: int| 0 <= j < i ==> !owns(uses, (#[trigger] l[j]).0),
        decreases n - i,
    {
        let v: u64 = *c.value_at(i);
        proof {
            map_of_at(l, i as int);
            assert(c.deep_view()[l[i as int].0] == times(uses, l[i as int].0));
            assert(c.deep_view().dom().contains(l[i as int].0));
        }
        if 10 * (v as u128) >= 7 * (total as u128) {
            return Some(c.key_at(i).clone());
        }
        i += 1;
    }
    proof {
        assert forall|k: Seq<char>| !#[trigger] owns(uses, k) by {
            if owns(uses, k) {
                assert(c.deep_view().dom().contains(k));
                let j = choose|j: int| 0 <= j < l.len() && (#[trigger] l[j]).0 == k;
                assert(!owns(uses, l[j].0));
            }
        }
    }
    None
}

/// Counts the uses of one table.
fn count_uses(
    access: &Vec<(i64, i64)>,
    domains: &IdMap<String>,
    table: i64,
    Ghost(groups): Ghost<Seq<(Seq<char>, Seq<i64>)>>,
) -> (r: (TextMap<u64>, u64))
    requires
        access.len() < u64::MAX,
        forall|f: i64| #[trigger]
            domains.deep_view().dom().contains(f) <==> domain_of(groups, f) is Some,
        forall|f: i64|
            domains.deep_view().dom().contains(f) ==> domain_of(groups, f) == Some(
                #[trigger] domains.deep_view()[f],
            ),
    ensures
        counts(r.0.deep_view(), uses_of(groups, access.deep_view(), table)),
        r.1 == uses_of(groups, access.deep_view(), table).len(),
{
    let ghost d = access.deep_view();
    let ghost g = |a: (i64, i64)| use_of(groups, table, a);
    let mut m: TextMap<u64> = TextMap::new();
    let mut total: u64 = 0;
    let mut i: usize = 0;
    assert(counts(m.deep_view(), crate::lists::pick(d.take(0), g)));
    while i < access.len()
        invariant
            i <= access.len(),
            access.len() < u64::MAX,
            d == access.deep_view(),
            g == (|a: (i64, i64)| use_of(groups, table, a)),
            forall|f: i64| #[trigger]
                domains.deep_view().dom().contains(f) <==> domain_of(groups, f) is Some,
            forall|f: i64|
                domains.deep_view().dom().contains(f) ==> domain_of(groups, f) == Some(
                    #[trigger] domains.deep_view()[f],
                ),
            counts(m.deep_view(), crate::lists::pick(d.take(i as int), g)),
            total == crate::lists::pick(d.take(i as int), g).len(),
        decreases access.len() - i,
    {
        broadcast use take_next;

        let ghost so_far = crate::lists::pick(d.take(i as int), g);
        proof {
            assert(d[i as int] == access@[i as int]);
            assert(d.take(i + 1).last() == d[i as int]);
            assert(g(d[i as int]) == use_of(groups, table, d[i as int]));
            pick_at_most(d.take(i as int), g);
        }
        if access[i].0 == table {
            assert(domains.deep_view().dom().contains(access@[i as int].1) <==> domain_of(
                groups,
                access@[i as int].1,
            ) is Some);
            match domains.get(&access[i].1) {
                Some(k) => {
                    count_key(&mut m, k.clone(), Ghost(so_far));
                    total += 1;
                },
                None => {},
            }
        }
        i += 1;
    }
    broadcast use take_all;

    assert(d.take(i as int) == d);
    (m, total)
}

/// Table → owning domain, inferred from which domain's files access it. This catches
/// the tables whose names carry no domain word — `t_promotion_rule`, `t_cust_group` —
/// where usage is the only evidence of ownership available.
pub fn tables_by_usage(access: &Vec<(i64, i64)>, groups: &TextMap<Vec<i64>>) -> (r: IdMap<String>)
    requires
        access.len() < u64::MAX,
    ensures
        usage_owners(groups.list(), access.deep_view(), r.deep_view()),
{
    let domains = file_domains(groups);
    let ghost gl = groups.list();
    let ghost d = access.deep_view();
    let mut out: IdMap<String> = IdMap::new();
    let mut i: usize = 0;
    while i < access.len()
        invariant
            i <= access.len(),
            access.len() < u64::MAX,
            d == access.deep_view(),
            gl == groups.list(),
            forall|f: i64| #[trigger]
                domains.deep_view().dom().contains(f) <==> domain_of(gl, f) is Some,
            forall|f: i64|
                domains.deep_view().dom().contains(f) ==> domain_of(gl, f) == Some(
                    #[trigger] domains.deep_view()[f],
                ),
            forall|t: i64|
                out.deep_view().dom().contains(t) ==> owns(
                    uses_of(gl, d, t),
                    #[trigger] out.deep_view()[t],
                ),
            forall|j: int, k: Seq<char>|
                0 <= j < i && #[trigger] owns(uses_of(gl, d, (#[trigger] d[j]).0), k)
                    ==> out.deep_view().dom().contains(d[j].0),
        decreases access.len() - i,
    {
        let t: i64 = access[i].0;
        let ghost before = out.deep_view();
        assert(d[i as int] == access@[i as int]);
        if !out.contains_key(&t) {
            let (c, total) = count_uses(access, &domains, t, Ghost(gl));
            match find_owner(&c, total, Ghost(uses_of(gl, d, t))) {
                Some(k) => {
                    out.insert(t, k);
                    proof {
                        assert forall|x: i64| out.deep_view().dom().contains(x) implies owns(
                            uses_of(gl, d, x),
                            #[trigger] out.deep_view()[x],
                        ) by {
                            if x != t {
                                assert(before.dom().contains(x));
                                assert(before[x] == out.deep_view()[x]);
                            }
                        }
                    }
                },
                None => {},
            }
        }
        i += 1;
    }
    proof {
        assert forall|t: i64, k: Seq<char>| #[trigger] owns(
            uses_of(gl, d, t),
            k,
        ) implies out.deep_view().dom().contains(t) by {
            used_table(gl, d, t);
            let j = choose|j: int| 0 <= j < d.len() && (#[trigger] d[j]).0 == t;
            assert(owns(uses_of(gl, d, d[j].0), k));
        }
    }
    out
}

proof fn used_table(groups: Seq<(Seq<char>, Seq<i64>)>, access: Seq<(i64, i64)>, t: i64)
    requires
        uses_of(groups, access, t).len() > 0,
    ensures
        exists|j: int| 0 <= j < access.len() && (#[trigger] access[j]).0 == t,
    decreases access.len(),
{
    let g = |a: (i64, i64)| use_of(groups, t, a);
    if access.len() > 0 {
        if g(access.last()) is Some {
            assert(access[access.len() - 1].0 == t);
        } else {
            used_table(groups, access.drop_last(), t);
            let rest = access.drop_last();
            let j = choose|j: int| 0 <= j < rest.len() && (#[trigger] rest[j]).0 == t;
            assert(access[j].0 == t);
        }
    }
}

/// The tables that the operator gives to domains, by lowercased name.
pub open spec fn curated_of(l: Seq<(Seq<char>, Seq<Seq<char>>)>) -> Map<Seq<char>, Seq<char>>
    decreases l.len(),
{
    if l.len() == 0 {
        Map::empty()
    } else {
        claimed(curated_of(l.drop_last()), l.last().1, l.last().0)
    }
}

/// `m` with the names put under the key.
pub open spec fn claimed(
    m: Map<Seq<char>, Seq<char>>,
    names: Seq<Seq<char>>,
    key: Seq<char>,
) -> Map<Seq<char>, Seq<char>>
    decreases names.len(),
{
    if names.len() == 0 {
        m
    } else {
        claimed(m, names.drop_last(), key).insert(lowered(names.last()), key)
    }
}

fn curated_tables(cfg: &DomainConfig) -> (r: TextMap<String>)
    ensures
        r.deep_view() == curated_of(cfg.tables.list()),
{
    let n: usize = cfg.tables.len();
    let ghost l = cfg.tables.list();
    let mut out: TextMap<String> = TextMap::new();
    let mut i: usize = 0;
    while i < n
        invariant
            i <= n,
            n == l.len(),
            l == cfg.tables.list(),
            out.deep_view() == curated_of(l.take(i as int)),
        decreases n - i,
    {
        broadcast use take_next;

        let key = cfg.tables.key_at(i);
        let names = cfg.tables.value_at(i);
        let ghost ns = names.deep_view();
        let ghost start = out.deep_view();
        assert(l.take(i + 1).last() == (key@, ns));
        let mut k: usize = 0;
        while k < names.len()
            invariant
                k <= names.len(),
                ns == names.deep_view(),
                out.deep_view() == claimed(start, ns.take(k as int), key@),
            decreases names.len() - k,
        {
            broadcast use take_next;

            assert(ns[k as int] == names@[k as int]@);
            assert(ns.take(k + 1).last() == ns[k as int]);
            out.insert(to_lower(names[k].as_str()), key.clone());
            k += 1;
        }
        broadcast use take_all;

        assert(ns.take(k as int) == ns);
        i += 1;
    }
    broadcast use take_all;

    assert(l.take(i as int) == l);
    out
}

/// The domain of a table: what the operator says, else what its name tells, else what
/// its usage tells.
pub open spec fn table_owner(
    curated: Map<Seq<char>, Seq<char>>,
    by_name: Map<i64, Seq<char>>,
    by_usage: Map<i64, Seq<char>>,
    table: (i64, Seq<char>),
) -> Option<Seq<char>> {
    if curated.dom().contains(lowered(table.1)) {
        Some(curated[lowered(table.1)])
    } else if by_name.dom().contains(table.0) {
        Some(by_name[table.0])
    } else if by_usage.dom().contains(table.0) {
        Some(by_usage[table.0])
    } else {
        None
    }
}

/// The tables of a domain.
pub open spec fn tables_with(
    curated: Map<Seq<char>, Seq<char>>,
    by_name: Map<i64, Seq<char>>,
    by_usage: Map<i64, Seq<char>>,
    tables: Seq<(i64, Seq<char>)>,
    key: Seq<char>,
) -> Set<i64>
    decreases tables.len(),
{
    if tables.len() == 0 {
        Set::empty()
    } else {
        let before = tables_with(curated, by_name, by_usage, tables.drop_last(), key);
        if table_owner(curated, by_name, by_usage, tables.last()) == Some(key) {
            before.insert(tables.last().0)
        } else {
            before
        }
    }
}

/// Why a domain exists.
pub open spec fn seed_note(key: Seq<char>, n: u64) -> Seq<char> {
    "package segment `"@ + key + "` ("@ + crate::number::digits(n as nat) + " files)"@
}

fn write_note(key: &str, n: u64) -> (r: String)
    ensures
        r@ == seed_note(key@, n),
{
    let mut s = owned("package segment `");
    s.append(key);
    s.append("` (");
    s.append(crate::number::decimal(n).as_str());
    s.append(" files)");
    s
}

fn own_tables(
    curated: &TextMap<String>,
    by_name: &IdMap<String>,
    by_usage: &IdMap<String>,
    tables: &Vec<(i64, String)>,
    key: &str,
) -> (r: Vec<i64>)
    ensures
        lists_ids(
            r@,
            tables_with(
                curated.deep_view(),
                by_name.deep_view(),
                by_usage.deep_view(),
                tables.deep_view(),
                key@,
            ),
        ),
{
    let ghost d = tables.deep_view();
    let ghost c = curated.deep_view();
    let ghost bn = by_name.deep_view();
    let ghost bu = by_usage.deep_view();
    let mut out: Vec<i64> = Vec::new();
    let mut i: usize = 0;
    while i < tables.len()
        invariant
            i <= tables.len(),
            d == tables.deep_view(),
            c == curated.deep_view(),
            bn == by_name.deep_view(),
            bu == by_usage.deep_view(),
            lists_ids(out@, tables_with(c, bn, bu, d.take(i as int), key@)),
        decreases tables.len() - i,
    {
        broadcast use take_next;

        assert(d[i as int] == (tables@[i as int].0, tables@[i as int].1@));
        assert(d.take(i + 1).last() == d[i as int]);
        let id: i64 = tables[i].0;
        let owner = match curated.get(to_lower(tables[i].1.as_str()).as_str()) {
            Some(k) => Some(k),
            None => match by_name.get(&id) {
                Some(k) => Some(k),
                None => by_usage.get(&id),
            },
        };
        match owner {
            Some(k) => {
                if same(k.as_str(), key) {
                    put_id(
                        &mut out,
                        id,
                        Ghost(tables_with(c, bn, bu, d.take(i as int), key@)),
                    );
                }
            },
            None => {},
        }
        i += 1;
    }
    broadcast use take_all;

    assert(d.take(i as int) == d);
    out
}

/// What the domain under `e` is to be.
pub open spec fn is_assignment(
    cfg_tables: Seq<(Seq<char>, Seq<Seq<char>>)>,
    by_name: Map<i64, Seq<char>>,
    by_usage: Map<i64, Seq<char>>,
    tables: Seq<(i64, Seq<char>)>,
    seeds: Map<Seq<char>, u64>,
    e: (Seq<char>, Seq<i64>),
    a: DomainAssignmentView,
) -> bool {
    &&& a.key == e.0
    &&& a.files == e.1
    &&& lists_ids(
        a.tables,
        tables_with(curated_of(cfg_tables), by_name, by_usage, tables, e.0),
    )
    &&& a.seeds == seq![
        seed_note(
            e.0,
            if seeds.dom().contains(e.0) {
                seeds[e.0]
            } else {
                0
            },
        ),
    ]
}

/// The domains in key order: the groups of files, each with its tables and the reason
/// for it. Curated table overrides win; otherwise the name decides, then the usage. A
/// table whose domain has no file belongs to none.
pub fn assignments(
    groups: &TextMap<Vec<i64>>,
    tables: &Vec<(i64, String)>,
    cfg: &DomainConfig,
    by_name: &IdMap<String>,
    by_usage: &IdMap<String>,
    seeds: &TextMap<u64>,
) -> (r: Vec<DomainAssignment>)
    ensures
        r.len() == groups.list().len(),
        forall|i: int|
            0 <= i < r.len() ==> is_assignment(
                cfg.tables.list(),
                by_name.deep_view(),
                by_usage.deep_view(),
                tables.deep_view(),
                seeds.deep_view(),
                groups.list()[i],
                (#[trigger] r.deep_view()[i]),
            ),
{
    let curated = curated_tables(cfg);
    let n: usize = groups.len();
    let ghost l = groups.list();
    let ghost ct = cfg.tables.list();
    let ghost bn = by_name.deep_view();
    let ghost bu = by_usage.deep_view();
    let ghost td = tables.deep_view();
    let ghost sv = seeds.deep_view();
    let mut out: Vec<DomainAssignment> = Vec::new();
    let mut i: usize = 0;
    while i < n
        invariant
            i <= n,
            n == l.len(),
            l == groups.list(),
            ct == cfg.tables.list(),
            curated.deep_view() == curated_of(ct),
            bn == by_name.deep_view(),
            bu == by_usage.deep_view(),
            td == tables.deep_view(),
            sv == seeds.deep_view(),
            out.len() == i,
            forall|j: int|
                0 <= j < i ==> is_assignment(
                    ct,
                    bn,
                    bu,
                    td,
                    sv,
                    l[j],
                    (#[trigger] out.deep_view()[j]),
                ),
        decreases n - i,
    {
        let key = groups.key_at(i);
        let ghost before = out.deep_view();
        let own = own_tables(&curated, by_name, by_usage, tables, key.as_str());
        let count: u64 = match seeds.get(key.as_str()) {
            Some(c) => *c,
            None => 0,
        };
        let mut notes: Vec<String> = Vec::new();
        notes.push(write_note(key.as_str(), count));
        let a = DomainAssignment {
            key: key.clone(),
            files: copy_ids(groups.value_at(i)),
            tables: own,
            seeds: notes,
        };
        let ghost av = a.deep_view();
        proof {
            assert(a.tables.deep_view() =~= a.tables@);
            assert(av.seeds =~= seq![seed_note(key@, count)]);
            assert(is_assignment(ct, bn, bu, td, sv, l[i as int], av));
        }
        out.push(a);
        assert(out.deep_view() =~= before.push(av));
        i += 1;
    }
    out
}

/// Whether the operator has a say about the domain.
pub fn is_curated(cfg: &DomainConfig, key: &str) -> (r: bool)
    ensures
        r == (cfg.deep_view().paths.dom().contains(key@) || cfg.deep_view().tables.dom().contains(
            key@,
        ) || cfg.deep_view().labels.dom().contains(key@)),
{
    cfg.paths.contains_key(key) || cfg.tables.contains_key(key) || cfg.labels.contains_key(key)
}

// ---------------------------------------------------------------------------
// Laws

/// The counts that `part` gives the survivors of `all` that are listed in `l`.
pub open spec fn survivors_sum(
    l: Seq<(Seq<char>, u64)>,
    all: Seq<(Seq<char>, u64)>,
    part: Seq<(Seq<char>, u64)>,
) -> nat
    decreases l.len(),
{
    if l.len() == 0 {
        0
    } else if survives(all, l.last().0) {
        survivors_sum(l.drop_last(), all, part) + shape_sum(part, shape(l.last().0))
    } else {
        survivors_sum(l.drop_last(), all, part)
    }
}

/// Whether a survivor of the shape is among the first `n` entries.
spec fn has_survivor(all: Seq<(Seq<char>, u64)>, n: int, s: Seq<char>) -> bool {
    exists|i: int|
        0 <= i < n && survives(all, (#[trigger] all[i]).0) && shape(all[i].0) == s
}

proof fn sum_step(
    all: Seq<(Seq<char>, u64)>,
    n: int,
    part: Seq<(Seq<char>, u64)>,
    x: (Seq<char>, u64),
)
    requires
        in_order(all),
        0 <= n <= all.len(),
    ensures
        survivors_sum(all.take(n), all, part.push(x)) == survivors_sum(all.take(n), all, part) + (
        if has_survivor(all, n, shape(x.0)) {
            x.1 as nat
        } else {
            0
        }),
    decreases n,
{
    if n > 0 {
        sum_step(all, n - 1, part, x);
        assert(all.take(n).drop_last() =~= all.take(n - 1));
        assert(part.push(x).drop_last() =~= part);
        let e = all[n - 1];
        assert(all.take(n).last() == e);
        if survives(all, e.0) && shape(e.0) == shape(x.0) {
            if has_survivor(all, n - 1, shape(x.0)) {
                let i = choose|i: int|
                    0 <= i < n - 1 && survives(all, (#[trigger] all[i]).0) && shape(all[i].0)
                        == shape(x.0);
                assert(all[i].0 == e.0);
                assert(lex_lt(all[i].0, all[n - 1].0));
                lex_irreflexive(e.0);
            }
            assert(has_survivor(all, n, shape(x.0)));
        } else if has_survivor(all, n, shape(x.0)) {
            let i = choose|i: int|
                0 <= i < n && survives(all, (#[trigger] all[i]).0) && shape(all[i].0) == shape(
                    x.0,
                );
            assert(i < n - 1);
        }
    }
}

proof fn sum_upto(all: Seq<(Seq<char>, u64)>, n: int)
    requires
        in_order(all),
        0 <= n <= all.len(),
    ensures
        survivors_sum(all, all, all.take(n)) == sum_of(all.take(n)),
    decreases n,
{
    if n > 0 {
        sum_upto(all, n - 1);
        let x = all[n - 1];
        assert(all.take(n) =~= all.take(n - 1).push(x));
        assert(all.take(n).drop_last() =~= all.take(n - 1));
        sum_step(all, all.len() as int, all.take(n - 1), x);
        assert(all.take(all.len() as int) =~= all);
        best_beats(all, shape(x.0), n - 1);
        best_has_shape(all, shape(x.0));
        let b = best_with(all, shape(x.0))->0;
        let i = choose|i: int| 0 <= i < all.len() && all[i] == b;
        assert(survives(all, all[i].0));
        assert(has_survivor(all, all.len() as int, shape(x.0)));
    } else {
        assert(all.take(0) =~= Seq::empty());
        nothing_summed(all, all);
    }
}

proof fn nothing_summed(l: Seq<(Seq<char>, u64)>, all: Seq<(Seq<char>, u64)>)
    ensures
        survivors_sum(l, all, Seq::empty()) == 0,
    decreases l.len(),
{
    if l.len() > 0 {
        nothing_summed(l.drop_last(), all);
    }
}

/// Folding moves counts, and neither makes nor loses any: the survivors count together
/// what all entries counted.
pub proof fn folding_keeps_total(l: Seq<(Seq<char>, u64)>)
    requires
        in_order(l),
    ensures
        survivors_sum(l, l, l) == sum_of(l),
{
    sum_upto(l, l.len() as int);
    assert(l.take(l.len() as int) =~= l);
}

/// A survivor's spelling is preferred to every other spelling of its shape.
pub proof fn survivor_is_preferred(l: Seq<(Seq<char>, u64)>, k: Seq<char>, i: int)
    requires
        in_order(l),
        survives(l, k),
        0 <= i < l.len(),
        shape(l[i].0) == shape(k),
        l[i].0 != k,
    ensures
        preferred(best_with(l, shape(k))->0, l[i]),
    decreases l.len(),
{
    best_beats(l, shape(k), i);
    best_has_shape(l, shape(k));
}

proof fn best_beats(l: Seq<(Seq<char>, u64)>, s: Seq<char>, i: int)
    requires
        in_order(l),
        0 <= i < l.len(),
        shape(l[i].0) == s,
    ensures
        best_with(l, s) is Some,
        best_with(l, s)->0 == l[i] || preferred(best_with(l, s)->0, l[i]),
    decreases l.len(),
{
    let m = l.drop_last();
    assert forall|a: int, b: int| 0 <= a < b < m.len() implies lex_lt(
        (#[trigger] m[a]).0,
        (#[trigger] m[b]).0,
    ) by {
        assert(m[a] == l[a] && m[b] == l[b]);
    }
    if i < l.len() - 1 {
        assert(m[i] == l[i]);
        best_beats(m, s, i);
        if shape(l.last().0) == s && preferred(l.last(), best_with(m, s)->0) {
            if lex_lt(l.last().0, (best_with(m, s)->0).0) && lex_lt(
                (best_with(m, s)->0).0,
                l[i].0,
            ) {
                lex_transitive(l.last().0, (best_with(m, s)->0).0, l[i].0);
            }
        }
    } else {
        best_has_shape(m, s);
        match best_with(m, s) {
            Some(e) => {
                let j = choose|j: int| 0 <= j < m.len() && m[j] == e;
                assert(l[j] == e);
                assert(lex_lt(l[j].0, l[i].0));
            },
            None => {},
        }
    }
}

/// Folding loses no count: whatever an entry counted, the survivor of its shape holds
/// at least that, and there is one.
pub proof fn folding_keeps_counts(l: Seq<(Seq<char>, u64)>, i: int)
    requires
        in_order(l),
        sum_of(l) <= u64::MAX,
        0 <= i < l.len(),
    ensures
        ({
            let s = shape(l[i].0);
            let k = (best_with(l, s)->0).0;
            &&& folded(l).dom().contains(k)
            &&& shape(k) == s
            &&& folded(l)[k] == shape_sum(l, s)
            &&& folded(l)[k] >= l[i].1
        }),
{
    let s = shape(l[i].0);
    best_beats(l, s, i);
    best_has_shape(l, s);
    shape_sum_at_most(l, s);
    part_of_sum(l, s, i);
}

proof fn part_of_sum(l: Seq<(Seq<char>, u64)>, s: Seq<char>, i: int)
    requires
        0 <= i < l.len(),
        shape(l[i].0) == s,
    ensures
        shape_sum(l, s) >= l[i].1,
    decreases l.len(),
{
    if i < l.len() - 1 {
        assert(l.drop_last()[i] == l[i]);
        part_of_sum(l.drop_last(), s, i);
    }
}

/// No two seeds are spelling variants of one another.
pub proof fn seeds_differ_in_shape(l: Seq<(Seq<char>, u64)>, a: Seq<char>, b: Seq<char>)
    requires
        folded(l).dom().contains(a),
        folded(l).dom().contains(b),
        shape(a) == shape(b),
    ensures
        a == b,
{
}

/// The files of a domain are in no other, where each file has one domain.
pub proof fn domains_disjoint(
    rows: Seq<(i64, Seq<char>)>,
    m: Map<Seq<char>, Seq<i64>>,
    a: Seq<char>,
    b: Seq<char>,
    f: i64,
)
    requires
        grouped(rows, m),
        forall|i: int, j: int|
            0 <= i < rows.len() && 0 <= j < rows.len() && (#[trigger] rows[i]).0 == (
            #[trigger] rows[j]).0 ==> rows[i].1 == rows[j].1,
        m.dom().contains(a),
        m.dom().contains(b),
        m[a].contains(f),
        m[b].contains(f),
    ensures
        a == b,
{
    assert(files_with(rows, a).contains(f));
    assert(files_with(rows, b).contains(f));
    let i = choose|i: int| 0 <= i < rows.len() && rows[i] == (f, a);
    let j = choose|j: int| 0 <= j < rows.len() && rows[j] == (f, b);
    assert(rows[i].0 == rows[j].0);
}

// ---------------------------------------------------------------------------
// Who owns a file

/// The domain of a file: the one its path is curated into, else the one it was voted into.
pub open spec fn owner_of(
    paths: Seq<(Seq<char>, Seq<Seq<char>>)>,
    voted: Map<i64, Seq<char>>,
    f: FileRowView,
) -> Option<(i64, Seq<char>)> {
    match path_key(paths, f.path) {
        Some(key) => Some((f.id, key)),
        None => if voted.dom().contains(f.id) {
            Some((f.id, voted[f.id]))
        } else {
            None
        },
    }
}

/// Each file that has a domain, with its key. Curated paths override the vote entirely.
pub fn owners(files: &Vec<FileRow>, cfg: &DomainConfig, voted: &IdMap<String>) -> (r: Vec<
    (i64, String),
>)
    ensures
        r.deep_view() == crate::lists::pick(
            files.deep_view(),
            |f: FileRowView| owner_of(cfg.paths.list(), voted.deep_view(), f),
        ),
{
    let ghost d = files.deep_view();
    let ghost paths = cfg.paths.list();
    let ghost votes = voted.deep_view();
    let ghost f = |x: FileRowView| owner_of(paths, votes, x);
    let mut out: Vec<(i64, String)> = Vec::new();
    let mut i: usize = 0;
    assert(out.deep_view() =~= crate::lists::pick(d.take(0), f));
    while i < files.len()
        invariant
            i <= files.len(),
            d == files.deep_view(),
            paths == cfg.paths.list(),
            votes == voted.deep_view(),
            f == (|x: FileRowView| owner_of(paths, votes, x)),
            out.deep_view() == crate::lists::pick(d.take(i as int), f),
        decreases files.len() - i,
    {
        broadcast use take_next;

        let file = &files[i];
        let ghost before = out.deep_view();
        assert(d[i as int] == file.deep_view());
        assert(d.take(i + 1).last() == d[i as int]);
        assert(f(d[i as int]) == owner_of(paths, votes, d[i as int]));
        let key = match curated_path(cfg, file.path.as_str()) {
            Some(key) => Some(key),
            None => match voted.get(&file.id) {
                Some(key) => Some(key.clone()),
                None => None,
            },
        };
        match key {
            Some(key) => {
                let ghost x = (file.id, key@);
                out.push((file.id, key));
                assert(out.deep_view() =~= before.push(x));
            },
            None => {},
        }
        i += 1;
    }
    broadcast use take_all;

    assert(d.take(i as int) == d);
    out
}

/// A curated path beats the vote: whatever was voted, the file is in the domain that the
/// operator put its path in.
pub proof fn curated_beats_vote(
    paths: Seq<(Seq<char>, Seq<Seq<char>>)>,
    voted: Map<i64, Seq<char>>,
    f: FileRowView,
    key: Seq<char>,
)
    requires
        path_key(paths, f.path) == Some(key),
    ensures
        owner_of(paths, voted, f) == Some((f.id, key)),
{
}

// ---------------------------------------------------------------------------
// Narrative of the build before

/// What a note says of the domain it is about.
#[derive(Debug, PartialEq, Eq)]
pub struct NoteLink {
    pub id: i64,
    /// The domain's key, which a build keeps.
    pub key: Option<String>,
    /// The domain's row, which a build replaces.
    pub domain: Option<i64>,
    pub status: String,
}

/// The content of a [`NoteLink`].
#[verifier::ext_equal]
pub struct NoteLinkView {
    pub id: i64,
    pub key: Option<Seq<char>>,
    pub domain: Option<i64>,
    pub status: Seq<char>,
}

impl DeepView for NoteLink {
    type V = NoteLinkView;

    open spec fn deep_view(&self) -> NoteLinkView {
        NoteLinkView {
            id: self.id,
            key: self.key.deep_view(),
            domain: self.domain,
            status: self.status.deep_view(),
        }
    }
}

/// The row of the domain with the key; without a key the row stays.
pub open spec fn linked_row(
    key: Option<Seq<char>>,
    row: Option<i64>,
    domains: Map<Seq<char>, i64>,
) -> Option<i64> {
    match key {
        Some(k) => if domains.dom().contains(k) {
            Some(domains[k])
        } else {
            None
        },
        None => row,
    }
}

/// The row of the domain with the key; without a key the row stays.
pub fn relinked_row(key: &Option<String>, row: Option<i64>, domains: &TextMap<i64>) -> (r: Option<
    i64,
>)
    ensures
        r == linked_row(key.deep_view(), row, domains.deep_view()),
{
    match key {
        Some(k) => match domains.get(k.as_str()) {
            Some(id) => Some(*id),
            None => None,
        },
        None => row,
    }
}

/// A note pointed at the domain that now has its key. A note whose domain is gone points
/// at none and is stale.
pub open spec fn link_of(n: NoteLinkView, domains: Map<Seq<char>, i64>) -> NoteLinkView {
    let row = linked_row(n.key, n.domain, domains);
    NoteLinkView {
        domain: row,
        status: if row is Some {
            n.status
        } else {
            "stale"@
        },
        ..n
    }
}

/// Points the notes at the domain rows that now have their keys. Row ids are reused, so a
/// note that kept its id would attach to an unrelated domain.
pub fn relinked(notes: &Vec<NoteLink>, domains: &TextMap<i64>) -> (r: Vec<NoteLink>)
    ensures
        r.deep_view() == notes.deep_view().map_values(
            |n: NoteLinkView| link_of(n, domains.deep_view()),
        ),
{
    let ghost m = domains.deep_view();
    let ghost all = notes.deep_view().map_values(|n: NoteLinkView| link_of(n, m));
    let mut out: Vec<NoteLink> = Vec::new();
    let mut i: usize = 0;
    while i < notes.len()
        invariant
            i <= notes.len(),
            m == domains.deep_view(),
            all == notes.deep_view().map_values(|n: NoteLinkView| link_of(n, m)),
            out.deep_view() == all.take(i as int),
        decreases notes.len() - i,
    {
        let n = &notes[i];
        let ghost before = out.deep_view();
        let row = relinked_row(&n.key, n.domain, domains);
        let status = if row.is_some() {
            n.status.clone()
        } else {
            owned("stale")
        };
        let link = NoteLink { id: n.id, key: n.key.clone(), domain: row, status };
        let ghost x = link.deep_view();
        assert(notes.deep_view()[i as int] == n.deep_view());
        assert(x =~= link_of(n.deep_view(), m));
        out.push(link);
        assert(out.deep_view() =~= before.push(x));
        assert(all.take(i + 1) =~= all.take(i as int).push(all[i as int]));
        i += 1;
    }
    assert(all.take(i as int) =~= all);
    out
}

/// Notes go by their domain's key: a note points at the row that has its key, or at none;
/// it keeps its status exactly where its domain lives on; and linking again changes nothing.
pub proof fn notes_follow_their_key(n: NoteLinkView, domains: Map<Seq<char>, i64>, key: Seq<char>)
    requires
        n.key == Some(key),
    ensures
        ({
            let l = link_of(n, domains);
            &&& l.id == n.id && l.key == n.key
            &&& domains.dom().contains(key) ==> l.domain == Some(domains[key]) && l.status
                == n.status
            &&& !domains.dom().contains(key) ==> l.domain is None && l.status == "stale"@
            &&& link_of(l, domains) == l
        }),
{
}

} // verus!


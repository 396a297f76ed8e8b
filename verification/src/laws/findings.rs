//! What is told of what was found, and of what was not.
use crate::extract::syntax::{before_from, prev_sibling_of, SyntaxNodeView};
use crate::json::{entry_map, json_list_entries, json_lists, json_text_entries, json_texts};
use crate::laws::basics::replaced_by_parts;
use crate::laws::values::{signed_numbers_are_read_as_written, small_counts_are_shown_whole};
use crate::llm::client::{is_step, request_text, CachedResponseView, ConfigView, Step};
use crate::llm::deepen::missing_text;
use crate::llm::progress::{excess, nearest, significant, tenths_of_thousands, tokens_text};
use crate::llm::prompt::{
    decodes, no_object_error, object_in, parsed, refused_with, refuses, unfenced,
};
use crate::mcp::server_info;
use crate::number::signed;
use crate::path::{component_end, parent_of};
use crate::render::domains::{map_row, map_text, table_named, DomainRowView};
use crate::render::{overview_text, scale_text, ScaleView};
use crate::search::phrase_of;
use crate::store::{newer_error, no_root_error};
use crate::structure::domain::{
    counted_by_file, counted_keys, counts, files_counting, times, FileRowView,
};
use crate::structure::trace::tables_map;
use crate::text::{rfind_to_is_last, trimmed};
use vstd::arithmetic::power2::{
    lemma2_to64, lemma2_to64_rest, lemma_pow2_pos, lemma_pow2_unfold, pow2,
};
use vstd::prelude::*;

verus! {

// ---------------------------------------------------------------------------
// Tables and counts

/// The tables told of are those accessed, each with its operations in order, none twice.
pub proof fn tables_are_told_with_their_operations(
    accesses: Seq<(i64, Seq<char>)>,
    m: Map<i64, Seq<Seq<char>>>,
    t: i64,
    op: Seq<char>,
)
    requires
        tables_map(accesses, m),
    ensures
        m.dom().contains(t) <==> exists|i: int|
            0 <= i < accesses.len() && (#[trigger] accesses[i]).0 == t,
        m.dom().contains(t) ==> (m[t].contains(op) <==> exists|i: int|
            0 <= i < accesses.len() && #[trigger] accesses[i] == (t, op)),
        m.dom().contains(t) ==> forall|i: int, j: int|
            0 <= i < j < m[t].len() ==> crate::text::lex_lt(
                #[trigger] m[t][i],
                #[trigger] m[t][j],
            ),
{
}

/// A key is counted once for each file that it is a seed of, and only keys that are a seed of
/// some file are counted.
pub proof fn seeds_are_counted_by_file(
    aliases: Seq<(Seq<char>, Seq<Seq<char>>)>,
    exclude: Seq<Seq<char>>,
    namespace: Seq<Seq<char>>,
    files: Seq<FileRowView>,
    m: Map<Seq<char>, u64>,
    k: Seq<char>,
)
    requires
        counts(m, counted_keys(aliases, exclude, namespace, files)),
    ensures
        m.dom().contains(k) <==> files_counting(aliases, exclude, namespace, files, k) > 0,
        m.dom().contains(k) ==> m[k] == files_counting(aliases, exclude, namespace, files, k),
{
    counted_by_file(aliases, exclude, namespace, files, k);
}

/// A count says how often a key occurs: one occurrence more counts one more, for that key only.
pub proof fn occurrences_are_counted(
    keys: Seq<Seq<char>>,
    x: Seq<char>,
    k: Seq<char>,
    m: Map<Seq<char>, u64>,
    l: Map<Seq<char>, u64>,
)
    requires
        counts(m, keys),
        counts(l, keys.push(x)),
    ensures
        l.dom().contains(x),
        m.dom().contains(x) ==> l[x] == m[x] + 1,
        !m.dom().contains(x) ==> l[x] == 1,
        k != x ==> (l.dom().contains(k) <==> m.dom().contains(k)),
        k != x && m.dom().contains(k) ==> l[k] == m[k],
        counts(m, Seq::empty()) ==> !m.dom().contains(k),
{
    assert(keys.push(x).drop_last() =~= keys);
    assert(times(keys.push(x), x) == times(keys, x) + 1);
    assert(k != x ==> times(keys.push(x), k) == times(keys, k));
    assert(times(Seq::empty(), k) == 0);
}

/// A table is named by the number of its row.
pub proof fn tables_are_named_by_number(names: Map<i64, Seq<char>>, n: i64)
    ensures
        names.dom().contains(n) ==> table_named(names, signed(n as int)) == Some(names[n]),
        !names.dom().contains(n) ==> table_named(names, signed(n as int)) is None,
{
    signed_numbers_are_read_as_written(n as int);
}

/// Entries that are written are read; what is no such object has none.
pub proof fn entries_are_those_written(json: Seq<char>, k: Seq<char>)
    ensures
        json_text_entries(json) is Some ==> json_texts(json) == entry_map(
            json_text_entries(json)->0,
        ),
        json_text_entries(json) is None ==> !json_texts(json).dom().contains(k),
        json_list_entries(json) is Some ==> json_lists(json) == entry_map(
            json_list_entries(json)->0,
        ),
        json_list_entries(json) is None ==> !json_lists(json).dom().contains(k),
{
}

/// Counts from a thousand on are shown in thousands.
pub proof fn large_counts_are_shown_in_thousands(n: nat)
    requires
        n >= 1000,
    ensures
        tokens_text(n).last() == 'k',
        tokens_text(n).contains('.'),
{
    reveal_strlit("k");
    reveal_strlit(".");
    let t = tenths_of_thousands(n);
    let a = crate::number::digits(t / 10);
    assert("k"@.len() == 1 && "k"@[0] == 'k');
    assert("."@.len() == 1 && "."@[0] == '.');
    assert(tokens_text(n)[a.len() as int] == '.');
}

proof fn digits_kept(q: nat)
    ensures
        excess(q) == 0 || pow2(excess(q)) * 0x10_0000_0000_0000 <= q,
    decreases q,
{
    if q >= 0x20_0000_0000_0000 {
        digits_kept(q / 2);
        lemma_pow2_unfold(excess(q));
        lemma2_to64();
        assert(pow2(excess(q)) == 2 * pow2(excess(q / 2)));
    }
}

/// Counts are shown to the nearest tenth of a thousand, as near as double precision tells: at
/// most half a tenth off, and one more for the rounding on the way.
pub proof fn counts_are_shown_to_the_nearest_tenth(n: nat)
    requires
        n < 0x20_0000_0000_0000,
    ensures
        100 * tenths_of_thousands(n) <= n + 51,
        n <= 100 * tenths_of_thousands(n) + 51,
{
    lemma2_to64();
    lemma2_to64_rest();
    let p = pow2(60);
    assert(p == 0x1000_0000_0000_0000);
    assert(significant(n, 1) == n) by {
        assert(n / 1 == n && n % 1 == 0);
        assert(excess(n) == 0);
        assert(nearest(n, 1) == n);
    }
    let a = n * p;
    let q = a / 1000;
    let d = excess(q);
    let b = 1000 * pow2(d);
    lemma_pow2_pos(d);
    let m = nearest(a, b);
    let y = significant(a, 1000);
    assert(1000 * y == b * m) by (nonlinear_arith)
        requires
            y == m * pow2(d),
            b == 1000 * pow2(d),
    ;
    small_counts_are_shown_whole(n, a, b);
    assert(2 * b * m == 2 * (b * m)) by (nonlinear_arith);
    digits_kept(q);
    assert(b <= 2 * p) by {
        if d > 0 {
            assert(pow2(d) * 0x10_0000_0000_0000 <= q);
            assert(1000 * q <= a);
            assert(a < 0x20_0000_0000_0000 * p) by (nonlinear_arith)
                requires
                    a == n * p,
                    n < 0x20_0000_0000_0000,
                    p > 0,
            ;
        }
    }
    let t = nearest(10 * y, p);
    small_counts_are_shown_whole(n, 10 * y, p);
    assert(t == tenths_of_thousands(n));
    assert(a == 0x1000_0000_0000_0000 * n);
    assert(2 * p * t == 0x2000_0000_0000_0000 * t);
}

// ---------------------------------------------------------------------------
// Nodes

/// The sibling before a node is the nearest one before it on its level, with only deeper nodes
/// in between; a shallower node in between, or the beginning, ends the search.
pub proof fn siblings_come_just_before(ns: Seq<SyntaxNodeView>, i: int, k: int)
    requires
        -1 <= k < i < ns.len(),
        forall|j: int| k < j < i ==> (#[trigger] ns[j]).depth > ns[i].depth,
        k >= 0 ==> ns[k].depth <= ns[i].depth,
    ensures
        k >= 0 && ns[k].depth == ns[i].depth ==> prev_sibling_of(ns, i) == Some(k),
        k < 0 || ns[k].depth < ns[i].depth ==> prev_sibling_of(ns, i) is None,
{
    walks_back(ns, ns[i].depth, k, i - 1);
}

proof fn walks_back(ns: Seq<SyntaxNodeView>, d: u32, k: int, j: int)
    requires
        -1 <= k <= j < ns.len(),
        forall|x: int| k < x <= j ==> (#[trigger] ns[x]).depth > d,
        k >= 0 ==> ns[k].depth <= d,
    ensures
        k >= 0 && ns[k].depth == d ==> before_from(ns, d, j) == Some(k),
        k < 0 || ns[k].depth < d ==> before_from(ns, d, j) is None,
    decreases j - k,
{
    if j > k {
        assert(ns[j].depth > d);
        walks_back(ns, d, k, j - 1);
    }
}

proof fn slashes_end_at_the_root(p: Seq<char>, n: int)
    requires
        1 <= n <= p.len(),
        forall|i: int| 0 <= i < p.len() ==> #[trigger] p[i] == '/',
    ensures
        component_end(p, n) == 1,
    decreases n,
{
    assert(p[0] == '/');
    if n > 1 {
        rfind_to_is_last(p, '/', n);
        assert(p[n - 1] == '/');
        slashes_end_at_the_root(p, n - 1);
    }
}

/// The root has no directory above it, however many slashes write it, and neither has the
/// empty path.
pub proof fn roots_lie_in_no_directory(p: Seq<char>)
    requires
        forall|i: int| 0 <= i < p.len() ==> #[trigger] p[i] == '/',
    ensures
        parent_of(p) is None,
{
    if p.len() > 0 {
        slashes_end_at_the_root(p, p.len() as int);
        assert(p[0] == '/');
    }
}

// ---------------------------------------------------------------------------
// Texts

/// The front page names the project, where it lies and when it was read, says how large it
/// is, and ends with the map, which has a row for every domain.
pub proof fn front_pages_have_the_map(
    name: Seq<char>,
    root: Seq<char>,
    now: Seq<char>,
    c: ScaleView,
    domains: Seq<DomainRowView>,
    d: DomainRowView,
)
    ensures
        overview_text(name, root, now, c, domains.push(d)) == overview_text(
            name,
            root,
            now,
            c,
            domains,
        ) + map_row(d),
        map_text(domains.push(d)) == map_text(domains) + map_row(d),
        overview_text(name, root, now, c, domains) == "# "@ + name
            + " 业务领域知识库\n\n本目录由 [`catlas`](https://github.com/) 自动生成，**不要手工编辑**：内容会在下次 `catlas render` 时被覆盖。\n\n- 项目根目录：`"@
            + root + "`\n- 生成时间："@ + now + "\n\n"@ + scale_text(c) + crate::render::HOW_TO@
            + map_text(domains),
{
    let f = |x: DomainRowView| map_row(x);
    assert(domains.push(d).drop_last() =~= domains);
    assert(crate::lists::flat(domains.push(d), f) =~= crate::lists::flat(domains, f) + map_row(d));
    assert(map_text(domains.push(d)) =~= map_text(domains) + map_row(d));
}

/// What is said where there is no project, a database of a newer build, or no such domain.
pub proof fn errors_say_what_was_asked(start: Seq<char>, v: int, key: Seq<char>, min_files: i64)
    ensures
        no_root_error(start) == "在 "@ + start + " 及其上级目录中找不到 "@ + ".codeatlas"@ + "/"@
            + "codeatlas.db"@ + " — 先运行 `catlas init`"@,
        newer_error(v) == "database schema v"@ + signed(v) + " is newer than this build (v"@
            + signed(2) + ") — upgrade `catlas`"@,
        missing_text(key, min_files) == "找不到领域 `"@ + key + "`（或其文件数低于 "@ + signed(
            min_files as int,
        ) + "）。用 `catlas domains` 查看可用领域"@,
{
}

/// The server tells its name, its version and the protocol it speaks.
pub proof fn servers_tell_who_they_are(version: Seq<char>)
    ensures
        server_info(version) == "{\"capabilities\":{\"tools\":{}},\"protocolVersion\":\""@
            + "2025-06-18"@ + "\",\"serverInfo\":{\"name\":\"catlas\",\"version\":"@
            + crate::json::json_quoted(version) + "}}"@,
{
}

/// A phrase stands in quotation marks; one inside it is doubled, and nothing else changes.
pub proof fn phrases_stand_in_quotes(a: Seq<char>, b: Seq<char>)
    requires
        !a.contains('"'),
        !b.contains('"'),
    ensures
        phrase_of(a) == "\""@ + a + "\""@,
        phrase_of(a.push('"') + b) == "\""@ + (a + "\"\""@ + b) + "\""@,
{
    replaced_by_parts(a, b, '"', "\"\""@);
    replaced_by_parts(b, a, '"', "\"\""@);
}

// ---------------------------------------------------------------------------
// Asking

/// With nothing cached the request is sent, as the prompt says; with an answer cached
/// nothing is sent.
pub proof fn prompts_are_sent_once(
    cfg: ConfigView,
    system: Seq<char>,
    user: Seq<char>,
    cache_system: Seq<char>,
    cached: Option<CachedResponseView>,
    r: Step,
)
    requires
        is_step(cfg, system, user, cache_system, cached, r),
    ensures
        cached is None ==> r is Send && r->body@ == request_text(cfg, system, user),
        cached is Some ==> r is Done,
{
}

/// An answer that decodes as it stands is taken so; one that does not is taken from the
/// object in it, and fails where there is none or where that does not decode either.
pub proof fn answers_are_decoded<T, F: Fn(&str) -> Result<T, String>>(
    raw: Seq<char>,
    decode: F,
    r: Result<T, String>,
)
    requires
        parsed(raw, decode, r),
    ensures
        ({
            let text = unfenced(trimmed(raw));
            let inner = object_in(text);
            &&& !refuses(decode, text) ==> r is Ok && decodes(decode, text, r)
            &&& r is Ok && !decodes(decode, text, r) ==> inner is Some && decodes(
                decode,
                inner->0,
                r,
            )
            &&& r is Err && inner is None ==> r->Err_0@ == no_object_error(text)
            &&& r is Err && inner is Some ==> refused_with::<T, F>(
                decode,
                text,
                inner->0,
                r->Err_0@,
            )
        }),
{
}

} // verus!

//! Files and tables are put in domains: what decides, and in which order.
use crate::laws::basics::{
    appears, ends_of_texts, joined_is_cut, pick_members, push_members, searches_find_what_appears,
};
use crate::split::joined;
use crate::structure::domain::{
    alias_from, any_prefix, by_commit, canonical_of, claimed, commit_pairs, covers, curated_of,
    domain_of, dominant, dominates, excluded, files_counting, files_of, flattened, folded,
    groups_of, infra_segments, is_assignment, is_seed_count, layout_end, link_of, longest_run,
    max_segments, namespace_from, owner_of, owns, pair_of, pairs_from, path_key, run_from, run_key,
    seed_entries, seed_for, seed_key, seed_keys, seg_count, segments_of, shape, snakes, survives,
    table_key, table_owner, table_vote, tables_with, times, use_of, uses_of, votes_of,
    DomainAssignmentView, FileRowView, NoteLinkView,
};
use crate::text::{has_prefix, lex_lt, lowered};
use crate::util::snake;
use vstd::prelude::*;
use vstd::utf8::encode_utf8;

verus! {

// ---------------------------------------------------------------------------
// Tables

/// Whether entry `c` lists the name, in whatever case, and no later entry does.
pub open spec fn is_last_to_list(
    l: Seq<(Seq<char>, Seq<Seq<char>>)>,
    c: int,
    name: Seq<char>,
) -> bool {
    &&& 0 <= c < l.len()
    &&& entry_lists(l[c], name)
    &&& forall|d: int| c < d < l.len() ==> !entry_lists(#[trigger] l[d], name)
}

/// Whether the entry lists the name, in whatever case.
pub open spec fn entry_lists(e: (Seq<char>, Seq<Seq<char>>), name: Seq<char>) -> bool {
    exists|i: int| 0 <= i < e.1.len() && lowered(#[trigger] e.1[i]) == lowered(name)
}

proof fn claimed_are_listed(
    m: Map<Seq<char>, Seq<char>>,
    names: Seq<Seq<char>>,
    key: Seq<char>,
    name: Seq<char>,
)
    ensures
        entry_lists((key, names), name) ==> claimed(m, names, key).dom().contains(lowered(name))
            && claimed(m, names, key)[lowered(name)] == key,
        !entry_lists((key, names), name) ==> (claimed(m, names, key).dom().contains(lowered(name))
            <==> m.dom().contains(lowered(name))) && claimed(m, names, key)[lowered(name)]
            == m[lowered(name)],
    decreases names.len(),
{
    if names.len() > 0 {
        let rest = names.drop_last();
        claimed_are_listed(m, rest, key, name);
        let e = (key, names);
        let e0 = (key, rest);
        assert(e.1[names.len() - 1] == names.last());
        if entry_lists(e0, name) {
            let i = choose|i: int| 0 <= i < e0.1.len() && lowered(#[trigger] e0.1[i]) == lowered(name);
            assert(e.1[i] == e0.1[i]);
        }
        if entry_lists(e, name) {
            let i = choose|i: int| 0 <= i < e.1.len() && lowered(#[trigger] e.1[i]) == lowered(name);
            if i < rest.len() {
                assert(e0.1[i] == e.1[i]);
            }
        }
    }
}

/// The operator gives a table to the last domain, in key order, that lists its name.
pub proof fn operators_give_tables(l: Seq<(Seq<char>, Seq<Seq<char>>)>, c: int, name: Seq<char>)
    ensures
        is_last_to_list(l, c, name) ==> curated_of(l).dom().contains(lowered(name))
            && curated_of(l)[lowered(name)] == l[c].0,
        (forall|d: int| 0 <= d < l.len() ==> !entry_lists(#[trigger] l[d], name))
            ==> !curated_of(l).dom().contains(lowered(name)),
    decreases l.len(),
{
    if l.len() > 0 {
        let rest = l.drop_last();
        operators_give_tables(rest, c, name);
        claimed_are_listed(curated_of(rest), l.last().1, l.last().0, name);
        let e = (l.last().0, l.last().1);
        assert(e == l[l.len() - 1]);
        assert forall|d: int| 0 <= d < rest.len() implies #[trigger] rest[d] == l[d] by {}
        if is_last_to_list(l, c, name) && c < rest.len() {
            assert(is_last_to_list(rest, c, name)) by {
                assert forall|d: int| c < d < rest.len() implies !entry_lists(
                    #[trigger] rest[d],
                    name,
                ) by {
                    assert(!entry_lists(l[d], name));
                }
            }
        }
        if forall|d: int| 0 <= d < l.len() ==> !entry_lists(#[trigger] l[d], name) {
            assert forall|d: int| 0 <= d < rest.len() implies !entry_lists(
                #[trigger] rest[d],
                name,
            ) by {
                assert(!entry_lists(l[d], name));
            }
            assert(!entry_lists(l[l.len() - 1], name));
        }
    }
}

/// Whether no two tables have one id.
pub open spec fn distinct_ids(tables: Seq<(i64, Seq<char>)>) -> bool {
    forall|i: int, j: int|
        0 <= i < j < tables.len() ==> (#[trigger] tables[i]).0 != (#[trigger] tables[j]).0
}

proof fn owned_tables(
    curated: Map<Seq<char>, Seq<char>>,
    by_name: Map<i64, Seq<char>>,
    by_usage: Map<i64, Seq<char>>,
    tables: Seq<(i64, Seq<char>)>,
    key: Seq<char>,
    id: i64,
)
    ensures
        tables_with(curated, by_name, by_usage, tables, key).contains(id) <==> exists|i: int|
            0 <= i < tables.len() && (#[trigger] tables[i]).0 == id && table_owner(
                curated,
                by_name,
                by_usage,
                tables[i],
            ) == Some(key),
    decreases tables.len(),
{
    if tables.len() > 0 {
        let rest = tables.drop_last();
        owned_tables(curated, by_name, by_usage, rest, key, id);
        assert(tables[tables.len() - 1] == tables.last());
        assert forall|i: int| 0 <= i < rest.len() implies #[trigger] rest[i] == tables[i] by {}
        if tables_with(curated, by_name, by_usage, rest, key).contains(id) {
            let i = choose|i: int|
                0 <= i < rest.len() && (#[trigger] rest[i]).0 == id && table_owner(
                    curated,
                    by_name,
                    by_usage,
                    rest[i],
                ) == Some(key);
            assert(tables[i].0 == id);
        }
        if exists|i: int|
            0 <= i < tables.len() && (#[trigger] tables[i]).0 == id && table_owner(
                curated,
                by_name,
                by_usage,
                tables[i],
            ) == Some(key) {
            let i = choose|i: int|
                0 <= i < tables.len() && (#[trigger] tables[i]).0 == id && table_owner(
                    curated,
                    by_name,
                    by_usage,
                    tables[i],
                ) == Some(key);
            if i < rest.len() {
                assert(rest[i].0 == id);
            }
        }
    }
}

/// The operator beats a table's name and its usage: a table that is listed under a domain is
/// in that domain's assignment and in no other, whatever its name and its usage tell. Of a
/// table that no domain lists its name decides, then its usage; where neither tells it is in
/// no assignment.
pub proof fn curated_tables_beat_names_and_usage(
    cfg_tables: Seq<(Seq<char>, Seq<Seq<char>>)>,
    by_name: Map<i64, Seq<char>>,
    by_usage: Map<i64, Seq<char>>,
    tables: Seq<(i64, Seq<char>)>,
    seeds: Map<Seq<char>, u64>,
    e: (Seq<char>, Seq<i64>),
    a: DomainAssignmentView,
    i: int,
    c: int,
)
    requires
        is_assignment(cfg_tables, by_name, by_usage, tables, seeds, e, a),
        distinct_ids(tables),
        0 <= i < tables.len(),
    ensures
        ({
            let id = tables[i].0;
            let listed = a.tables.contains(id);
            let free = forall|d: int|
                0 <= d < cfg_tables.len() ==> !entry_lists(#[trigger] cfg_tables[d], tables[i].1);
            &&& is_last_to_list(cfg_tables, c, tables[i].1) ==> (listed <==> a.key
                == cfg_tables[c].0)
            &&& free && by_name.dom().contains(id) ==> (listed <==> a.key == by_name[id])
            &&& free && !by_name.dom().contains(id) && by_usage.dom().contains(id) ==> (listed
                <==> a.key == by_usage[id])
            &&& free && !by_name.dom().contains(id) && !by_usage.dom().contains(id) ==> !listed
        }),
{
    let curated = curated_of(cfg_tables);
    let id = tables[i].0;
    operators_give_tables(cfg_tables, c, tables[i].1);
    owned_tables(curated, by_name, by_usage, tables, e.0, id);
    let owner = table_owner(curated, by_name, by_usage, tables[i]);
    assert(a.tables.contains(id) <==> owner == Some(e.0)) by {
        if a.tables.contains(id) {
            let k = choose|k: int|
                0 <= k < tables.len() && (#[trigger] tables[k]).0 == id && table_owner(
                    curated,
                    by_name,
                    by_usage,
                    tables[k],
                ) == Some(e.0);
            if k < i {
                assert(tables[k].0 != tables[i].0);
            } else if i < k {
                assert(tables[i].0 != tables[k].0);
            }
        }
        if owner == Some(e.0) {
            assert(tables[i].0 == id);
        }
    }
}

/// An assignment has the key and the files of its group, lists no table twice and none that
/// is not stored, and says how many files its seed counts.
pub proof fn assignments_are_their_groups(
    cfg_tables: Seq<(Seq<char>, Seq<Seq<char>>)>,
    by_name: Map<i64, Seq<char>>,
    by_usage: Map<i64, Seq<char>>,
    tables: Seq<(i64, Seq<char>)>,
    seeds: Map<Seq<char>, u64>,
    e: (Seq<char>, Seq<i64>),
    a: DomainAssignmentView,
    id: i64,
)
    requires
        is_assignment(cfg_tables, by_name, by_usage, tables, seeds, e, a),
    ensures
        a.key == e.0,
        a.files == e.1,
        forall|i: int, j: int|
            0 <= i < j < a.tables.len() ==> #[trigger] a.tables[i] < #[trigger] a.tables[j],
        a.tables.contains(id) ==> exists|i: int|
            0 <= i < tables.len() && (#[trigger] tables[i]).0 == id,
        a.seeds.len() == 1,
        seeds.dom().contains(e.0) ==> a.seeds[0] == "package segment `"@ + e.0 + "` ("@
            + crate::number::digits(seeds[e.0] as nat) + " files)"@,
{
    owned_tables(curated_of(cfg_tables), by_name, by_usage, tables, e.0, id);
}

// ---------------------------------------------------------------------------
// Paths

/// Whether entry `c` lists a beginning of the path and no later entry does.
pub open spec fn is_last_to_claim(
    l: Seq<(Seq<char>, Seq<Seq<char>>)>,
    c: int,
    path: Seq<char>,
) -> bool {
    &&& 0 <= c < l.len()
    &&& entry_claims(l[c], path)
    &&& forall|d: int| c < d < l.len() ==> !entry_claims(#[trigger] l[d], path)
}

/// Whether the entry lists a beginning of the path.
pub open spec fn entry_claims(e: (Seq<char>, Seq<Seq<char>>), path: Seq<char>) -> bool {
    exists|i: int, rest: Seq<char>| 0 <= i < e.1.len() && path == #[trigger] (e.1[i] + rest)
}

proof fn claims_are_prefixes(e: (Seq<char>, Seq<Seq<char>>), path: Seq<char>)
    ensures
        entry_claims(e, path) <==> any_prefix(e.1, path),
{
    if entry_claims(e, path) {
        let (i, rest) = choose|i: int, rest: Seq<char>|
            0 <= i < e.1.len() && path == #[trigger] (e.1[i] + rest);
        ends_of_texts(e.1[i], rest);
    }
    if any_prefix(e.1, path) {
        let i = choose|i: int| 0 <= i < e.1.len() && has_prefix(path, #[trigger] e.1[i]);
        let rest = path.skip(e.1[i].len() as int);
        assert(path =~= e.1[i] + rest) by {
            assert(path.take(e.1[i].len() as int) == e.1[i]);
        }
    }
}

/// A file is in the last domain, in key order, that lists a beginning of its path, whatever
/// was voted; a file that no domain claims is where the vote put it, and without a vote in
/// none.
pub proof fn operators_give_files(
    l: Seq<(Seq<char>, Seq<Seq<char>>)>,
    voted: Map<i64, Seq<char>>,
    f: FileRowView,
    c: int,
)
    ensures
        is_last_to_claim(l, c, f.path) ==> owner_of(l, voted, f) == Some((f.id, l[c].0)),
        (forall|d: int| 0 <= d < l.len() ==> !entry_claims(#[trigger] l[d], f.path)) ==> owner_of(
            l,
            voted,
            f,
        ) == (if voted.dom().contains(f.id) {
            Some((f.id, voted[f.id]))
        } else {
            None
        }),
{
    path_key_is_last(l, f.path, c);
}

proof fn path_key_is_last(l: Seq<(Seq<char>, Seq<Seq<char>>)>, path: Seq<char>, c: int)
    ensures
        is_last_to_claim(l, c, path) ==> path_key(l, path) == Some(l[c].0),
        (forall|d: int| 0 <= d < l.len() ==> !entry_claims(#[trigger] l[d], path)) ==> path_key(
            l,
            path,
        ) is None,
    decreases l.len(),
{
    if l.len() > 0 {
        let rest = l.drop_last();
        path_key_is_last(rest, path, c);
        claims_are_prefixes(l.last(), path);
        assert(l[l.len() - 1] == l.last());
        assert forall|d: int| 0 <= d < rest.len() implies #[trigger] rest[d] == l[d] by {}
        if is_last_to_claim(l, c, path) && c < rest.len() {
            assert(!entry_claims(l[l.len() - 1], path));
            assert(is_last_to_claim(rest, c, path)) by {
                assert forall|d: int| c < d < rest.len() implies !entry_claims(
                    #[trigger] rest[d],
                    path,
                ) by {
                    assert(!entry_claims(l[d], path));
                }
            }
        }
        if forall|d: int| 0 <= d < l.len() ==> !entry_claims(#[trigger] l[d], path) {
            assert forall|d: int| 0 <= d < rest.len() implies !entry_claims(
                #[trigger] rest[d],
                path,
            ) by {
                assert(!entry_claims(l[d], path));
            }
            assert(!entry_claims(l[l.len() - 1], path));
        }
    }
}

/// Files in test, web and metadata directories take no part, wherever those stand; all other
/// files do.
pub proof fn only_sources_take_part(path: Seq<char>)
    ensures
        excluded(path) <==> appears("/"@ + path, "/src/test/"@) || appears(
            "/"@ + path,
            "/webapp/"@,
        ) || appears("/"@ + path, "/WEB-INF/"@) || appears("/"@ + path, "/META-INF/"@),
{
    searches_find_what_appears("/"@ + path, "/src/test/"@);
    searches_find_what_appears("/"@ + path, "/webapp/"@);
    searches_find_what_appears("/"@ + path, "/WEB-INF/"@);
    searches_find_what_appears("/"@ + path, "/META-INF/"@);
}

/// Every stored file that takes part is loaded with its row, and no other.
pub proof fn files_that_take_part_are_loaded(rows: Seq<(i64, Seq<char>)>, f: FileRowView)
    ensures
        files_of(rows).contains(f) <==> exists|i: int|
            0 <= i < rows.len() && !excluded((#[trigger] rows[i]).1) && f.id == rows[i].0 && f.path
                == rows[i].1 && f.segments == segments_of(rows[i].1),
    decreases rows.len(),
{
    if rows.len() > 0 {
        let rest = rows.drop_last();
        let last = rows.last();
        files_that_take_part_are_loaded(rest, f);
        let made = FileRowView { id: last.0, path: last.1, segments: segments_of(last.1) };
        push_members(files_of(rest), made, f);
        assert(rows[rows.len() - 1] == last);
        assert forall|i: int| 0 <= i < rest.len() implies #[trigger] rest[i] == rows[i] by {}
        if files_of(rest).contains(f) {
            let i = choose|i: int|
                0 <= i < rest.len() && !excluded((#[trigger] rest[i]).1) && f.id == rest[i].0
                    && f.path == rest[i].1 && f.segments == segments_of(rest[i].1);
            assert(!excluded(rows[i].1));
        }
        if exists|i: int|
            0 <= i < rows.len() && !excluded((#[trigger] rows[i]).1) && f.id == rows[i].0 && f.path
                == rows[i].1 && f.segments == segments_of(rows[i].1) {
            let i = choose|i: int|
                0 <= i < rows.len() && !excluded((#[trigger] rows[i]).1) && f.id == rows[i].0
                    && f.path == rows[i].1 && f.segments == segments_of(rows[i].1);
            if i < rest.len() {
                assert(!excluded(rest[i].1));
            } else {
                assert(f == made);
            }
        }
    }
}

pub open spec fn is_layout(part: Seq<char>) -> bool {
    part == "java"@ || part == "resources"@
}

proof fn layout_end_is_last(parts: Seq<Seq<char>>, n: int)
    requires
        0 <= n <= parts.len(),
    ensures
        0 <= layout_end(parts, n) <= n,
        layout_end(parts, n) > 0 ==> is_layout(parts[layout_end(parts, n) - 1]),
        forall|i: int| layout_end(parts, n) <= i < n ==> !is_layout(#[trigger] parts[i]),
    decreases n,
{
    if n > 0 && !is_layout(parts[n - 1]) {
        layout_end_is_last(parts, n - 1);
    }
}

/// A path's segments are the directories behind the last `java` or `resources`, or all where
/// there is neither, in snake case; the file's name is none.
pub proof fn segments_are_the_directories(
    layout: Seq<Seq<char>>,
    dirs: Seq<Seq<char>>,
    file: Seq<char>,
)
    requires
        layout.len() > 0 ==> is_layout(layout.last()),
        forall|i: int|
            0 <= i < layout.len() ==> !(#[trigger] layout[i]).contains('/'),
        forall|i: int|
            0 <= i < dirs.len() ==> !(#[trigger] dirs[i]).contains('/') && !is_layout(dirs[i]),
        !file.contains('/') && !is_layout(file),
    ensures
        segments_of(joined(layout + dirs + seq![file], "/"@)) == snakes(dirs),
        (forall|i: int| 0 <= i < dirs.len() ==> snake(#[trigger] dirs[i]).len() > 0) ==> snakes(
            dirs,
        ).len() == dirs.len() && forall|i: int|
            0 <= i < dirs.len() ==> snakes(dirs)[i] == snake(#[trigger] dirs[i]),
{
    reveal_strlit("/");
    let parts = layout + dirs + seq![file];
    assert(seq!['/'] =~= "/"@);
    assert forall|i: int| 0 <= i < parts.len() implies !(#[trigger] parts[i]).contains('/') by {
        if i < layout.len() {
            assert(parts[i] == layout[i]);
        } else if i < layout.len() + dirs.len() {
            assert(parts[i] == dirs[i - layout.len()]);
        }
    }
    joined_is_cut(parts, '/');
    let n = parts.len() as int;
    layout_end_is_last(parts, n);
    let start = layout_end(parts, n);
    assert(start == layout.len()) by {
        if start < layout.len() {
            assert(parts[layout.len() - 1] == layout.last());
            assert(!is_layout(parts[layout.len() - 1]));
        } else if start > layout.len() {
            if start == n {
                assert(parts[start - 1] == file);
            } else {
                assert(parts[start - 1] == dirs[start - 1 - layout.len()]);
            }
        }
    }
    assert(parts.subrange(layout.len() as int, n - 1) =~= dirs);
    if dirs.len() == 0 {
        assert(snakes(dirs) =~= Seq::empty());
    }
    if forall|i: int| 0 <= i < dirs.len() ==> snake(#[trigger] dirs[i]).len() > 0 {
        all_have_snakes(dirs);
    }
}

proof fn all_have_snakes(dirs: Seq<Seq<char>>)
    requires
        forall|i: int| 0 <= i < dirs.len() ==> snake(#[trigger] dirs[i]).len() > 0,
    ensures
        snakes(dirs).len() == dirs.len(),
        forall|i: int| 0 <= i < dirs.len() ==> snakes(dirs)[i] == snake(#[trigger] dirs[i]),
    decreases dirs.len(),
{
    if dirs.len() > 0 {
        let rest = dirs.drop_last();
        assert forall|i: int| 0 <= i < rest.len() implies snake(#[trigger] rest[i]).len() > 0 by {
            assert(rest[i] == dirs[i]);
        }
        all_have_snakes(rest);
        assert(dirs[dirs.len() - 1] == dirs.last());
        assert forall|i: int| 0 <= i < dirs.len() implies snakes(dirs)[i] == snake(
            #[trigger] dirs[i],
        ) by {
            if i < rest.len() {
                assert(rest[i] == dirs[i]);
            }
        }
    }
}

// ---------------------------------------------------------------------------
// Counting

pub open spec fn equal_to(k: Seq<char>) -> spec_fn(Seq<char>) -> bool {
    |x: Seq<char>| x == k
}

/// A table is a domain's by usage exactly where seven uses of ten, or more, are that
/// domain's.
pub proof fn seven_of_ten_own(uses: Seq<Seq<char>>, k: Seq<char>)
    ensures
        times(uses, k) == uses.filter(equal_to(k)).len(),
        owns(uses, k) <==> uses.filter(equal_to(k)).len() > 0 && 10 * uses.filter(equal_to(k)).len()
            >= 7 * uses.len(),
    decreases uses.len(),
{
    reveal(Seq::filter);
    if uses.len() > 0 {
        seven_of_ten_own(uses.drop_last(), k);
    }
}

/// The uses of a table are its accesses by files that have a domain.
pub proof fn uses_are_the_accesses(
    groups: Seq<(Seq<char>, Seq<i64>)>,
    access: Seq<(i64, i64)>,
    table: i64,
    k: Seq<char>,
)
    ensures
        uses_of(groups, access, table).contains(k) <==> exists|i: int|
            0 <= i < access.len() && (#[trigger] access[i]).0 == table && domain_of(
                groups,
                access[i].1,
            ) == Some(k),
{
    let f = |a: (i64, i64)| use_of(groups, table, a);
    pick_members(access, f, k);
    if exists|i: int|
        0 <= i < access.len() && (#[trigger] access[i]).0 == table && domain_of(
            groups,
            access[i].1,
        ) == Some(k) {
        let i = choose|i: int|
            0 <= i < access.len() && (#[trigger] access[i]).0 == table && domain_of(
                groups,
                access[i].1,
            ) == Some(k);
        assert(f(access[i]) == Some(k));
    }
}

/// A file's domain is the group that lists it; of several the last in key order.
pub proof fn files_have_the_domain_that_lists_them(
    groups: Seq<(Seq<char>, Seq<i64>)>,
    c: int,
    f: i64,
)
    ensures
        0 <= c < groups.len() && groups[c].1.contains(f) && (forall|d: int|
            c < d < groups.len() ==> !(#[trigger] groups[d]).1.contains(f)) ==> domain_of(groups, f)
            == Some(groups[c].0),
        (forall|d: int| 0 <= d < groups.len() ==> !(#[trigger] groups[d]).1.contains(f))
            ==> domain_of(groups, f) is None,
    decreases groups.len(),
{
    if groups.len() > 0 {
        let rest = groups.drop_last();
        files_have_the_domain_that_lists_them(rest, c, f);
        assert(groups[groups.len() - 1] == groups.last());
        assert forall|d: int| 0 <= d < rest.len() implies #[trigger] rest[d] == groups[d] by {}
    }
}

pub open spec fn stands_at(depth: int, seg: Seq<char>) -> spec_fn(FileRowView) -> bool {
    |f: FileRowView| 0 <= depth < f.segments.len() && f.segments[depth] == seg
}

/// A segment dominates a depth exactly where nine files of ten, or more, have it there.
pub proof fn nine_of_ten_dominate(files: Seq<FileRowView>, depth: int, seg: Seq<char>)
    ensures
        seg_count(files, depth, seg) == files.filter(stands_at(depth, seg)).len(),
        dominates(files, depth, seg) <==> files.filter(stands_at(depth, seg)).len() > 0 && 10
            * files.filter(stands_at(depth, seg)).len() >= 9 * files.len(),
    decreases files.len(),
{
    reveal(Seq::filter);
    if files.len() > 0 {
        nine_of_ten_dominate(files.drop_last(), depth, seg);
    }
}

/// Whether no segment dominates the depth, or no file reaches it.
pub open spec fn is_open_at(files: Seq<FileRowView>, depth: int) -> bool {
    depth >= max_segments(files) || forall|s: Seq<char>| !#[trigger] dominates(files, depth, s)
}

/// The common namespace goes down as long as a segment dominates, and no further.
pub proof fn namespace_dominates(files: Seq<FileRowView>, depth: nat, i: int)
    ensures
        0 <= i < namespace_from(files, depth).len() ==> dominates(
            files,
            depth + i,
            namespace_from(files, depth)[i],
        ),
        is_open_at(files, (depth + namespace_from(files, depth).len()) as int),
    decreases max_segments(files) - depth,
{
    let all = namespace_from(files, depth);
    let d = depth as int;
    if depth < max_segments(files) {
        match dominant(files, d) {
            Some(s) => {
                assert(dominates(files, d, s));
                namespace_dominates(files, depth + 1, i - 1);
                let rest = namespace_from(files, depth + 1);
                assert(all =~= seq![s] + rest);
                assert(all.len() == rest.len() + 1);
                assert(depth + 1 + rest.len() == depth + all.len());
                if 0 < i < all.len() {
                    assert(all[i] == rest[i - 1]);
                    assert(depth + 1 + (i - 1) == depth + i);
                    assert(dominates(files, depth + i, all[i]));
                }
                if i == 0 {
                    assert(all[0] == s);
                    assert(depth + i == d);
                }
            },
            None => {
                assert(all =~= Seq::empty());
                assert forall|s: Seq<char>| !#[trigger] dominates(files, d, s) by {}
                assert(depth + all.len() == d);
            },
        }
    } else {
        assert(all.len() == 0);
    }
}

/// A key is a seed where at least three files count for it and, of more than three files, at
/// most seventeen of twenty.
pub proof fn seeds_are_neither_rare_nor_everywhere(n: nat, files: nat)
    ensures
        n < 3 ==> !is_seed_count(n, files),
        n == 3 ==> is_seed_count(n, files),
        n > 3 ==> (is_seed_count(n, files) <==> 20 * n <= 17 * files),
{
}

pub open spec fn counts_for(
    aliases: Seq<(Seq<char>, Seq<Seq<char>>)>,
    exclude: Seq<Seq<char>>,
    namespace: Seq<Seq<char>>,
    k: Seq<char>,
) -> spec_fn(FileRowView) -> bool {
    |f: FileRowView|
        exists|i: int|
            0 <= i < f.segments.len() && seed_key(
                aliases,
                exclude,
                namespace,
                #[trigger] f.segments[i],
            ) == Some(k)
}

/// Each file counts once for every key that one of its segments stands for.
pub proof fn files_count_once(
    aliases: Seq<(Seq<char>, Seq<Seq<char>>)>,
    exclude: Seq<Seq<char>>,
    namespace: Seq<Seq<char>>,
    files: Seq<FileRowView>,
    k: Seq<char>,
)
    ensures
        files_counting(aliases, exclude, namespace, files, k) == files.filter(
            counts_for(aliases, exclude, namespace, k),
        ).len(),
    decreases files.len(),
{
    reveal(Seq::filter);
    if files.len() > 0 {
        files_count_once(aliases, exclude, namespace, files.drop_last(), k);
        let segs = files.last().segments;
        let f = |s: Seq<char>| seed_key(aliases, exclude, namespace, s);
        pick_members(segs, f, k);
        assert(counts_for(aliases, exclude, namespace, k)(files.last()) <==> seed_keys(
            aliases,
            exclude,
            namespace,
            segs,
        ).contains(k)) by {
            if counts_for(aliases, exclude, namespace, k)(files.last()) {
                let i = choose|i: int|
                    0 <= i < segs.len() && seed_key(
                        aliases,
                        exclude,
                        namespace,
                        #[trigger] segs[i],
                    ) == Some(k);
                assert(f(segs[i]) == Some(k));
            }
            if seed_keys(aliases, exclude, namespace, segs).contains(k) {
                let i = choose|i: int| 0 <= i < segs.len() && f(#[trigger] segs[i]) == Some(k);
                assert(seed_key(aliases, exclude, namespace, segs[i]) == Some(k));
            }
        }
    }
}

/// What counts for no key: a segment of the layering or of the namespace, and a key that is
/// excluded or shorter than three bytes. Everything else counts for its canonical key.
pub proof fn business_words_count(
    aliases: Seq<(Seq<char>, Seq<Seq<char>>)>,
    exclude: Seq<Seq<char>>,
    namespace: Seq<Seq<char>>,
    seg: Seq<char>,
)
    ensures
        seed_key(aliases, exclude, namespace, seg) is None <==> infra_segments().contains(seg)
            || namespace.contains(seg) || exclude.contains(canonical_of(aliases, seg))
            || encode_utf8(canonical_of(aliases, seg)).len() <= 2,
        seed_key(aliases, exclude, namespace, seg) matches Some(k) ==> k == canonical_of(
            aliases,
            seg,
        ),
{
}

/// The words of layering and mechanics.
pub open spec fn is_layering(w: Seq<char>) -> bool {
    w == "impl"@ || w == "util"@ || w == "utils"@ || w == "dto"@ || w == "dtos"@ || w == "bean"@
        || w == "beans"@ || w == "vo"@ || w == "po"@ || w == "pojo"@ || w == "entity"@
        || w == "common"@ || w == "config"@ || w == "constant"@ || w == "constants"@
        || w == "enums"@ || w == "interfaces"@ || w == "service"@ || w == "services"@
        || w == "model"@ || w == "models"@ || w == "web"@ || w == "controller"@ || w == "job"@
        || w == "jobs"@ || w == "adapter"@ || w == "pub"@ || w == "mapper"@ || w == "dao"@
        || w == "listener"@ || w == "domain"@ || w == "application"@ || w == "infrastructure"@
        || w == "core"@ || w == "api"@ || w == "client"@ || w == "remote"@ || w == "facade"@
        || w == "manager"@ || w == "helper"@ || w == "support"@ || w == "exception"@
        || w == "filter"@ || w == "aspect"@ || w == "handler"@ || w == "convert"@
        || w == "converter"@ || w == "builder"@ || w == "factory"@ || w == "request"@
        || w == "response"@ || w == "query"@ || w == "command"@ || w == "event"@ || w == "task"@
        || w == "test"@ || w == "tests"@ || w == "persistence"@ || w == "repository"@
        || w == "resources"@ || w == "req"@ || w == "rsp"@ || w == "res"@ || w == "resp"@
        || w == "result"@ || w == "param"@ || w == "params"@ || w == "form"@ || w == "view"@
        || w == "webapp"@ || w == "web_inf"@ || w == "meta_inf"@ || w == "static"@
        || w == "assets"@ || w == "jsp"@ || w == "spock"@ || w == "groovy"@ || w == "dubbo"@
        || w == "rpc"@ || w == "http"@ || w == "mq"@ || w == "gateway"@ || w == "spi"@
        || w == "external"@ || w == "interceptor"@ || w == "annotation"@ || w == "excel"@
        || w == "excel_import"@ || w == "excel_export"@ || w == "import"@ || w == "export"@
}

/// A word of layering or mechanics never counts for a domain; any other word of three bytes
/// does, unless it is part of the namespace or excluded.
pub proof fn layering_counts_for_nothing(
    aliases: Seq<(Seq<char>, Seq<Seq<char>>)>,
    exclude: Seq<Seq<char>>,
    namespace: Seq<Seq<char>>,
    w: Seq<char>,
)
    ensures
        is_layering(w) ==> seed_key(aliases, exclude, namespace, w) is None,
        !is_layering(w) && !namespace.contains(w) && !exclude.contains(canonical_of(aliases, w))
            && encode_utf8(canonical_of(aliases, w)).len() >= 3 ==> seed_key(
            aliases,
            exclude,
            namespace,
            w,
        ) == Some(canonical_of(aliases, w)),
{
    let l = infra_segments();
    assert(l.len() == 91);
    assert(l[0] == "impl"@);
    assert(l[1] == "util"@);
    assert(l[2] == "utils"@);
    assert(l[3] == "dto"@);
    assert(l[4] == "dtos"@);
    assert(l[5] == "bean"@);
    assert(l[6] == "beans"@);
    assert(l[7] == "vo"@);
    assert(l[8] == "po"@);
    assert(l[9] == "pojo"@);
    assert(l[10] == "entity"@);
    assert(l[11] == "common"@);
    assert(l[12] == "config"@);
    assert(l[13] == "constant"@);
    assert(l[14] == "constants"@);
    assert(l[15] == "enums"@);
    assert(l[16] == "interfaces"@);
    assert(l[17] == "service"@);
    assert(l[18] == "services"@);
    assert(l[19] == "model"@);
    assert(l[20] == "models"@);
    assert(l[21] == "web"@);
    assert(l[22] == "controller"@);
    assert(l[23] == "job"@);
    assert(l[24] == "jobs"@);
    assert(l[25] == "adapter"@);
    assert(l[26] == "pub"@);
    assert(l[27] == "mapper"@);
    assert(l[28] == "dao"@);
    assert(l[29] == "listener"@);
    assert(l[30] == "domain"@);
    assert(l[31] == "application"@);
    assert(l[32] == "infrastructure"@);
    assert(l[33] == "core"@);
    assert(l[34] == "api"@);
    assert(l[35] == "client"@);
    assert(l[36] == "remote"@);
    assert(l[37] == "facade"@);
    assert(l[38] == "manager"@);
    assert(l[39] == "helper"@);
    assert(l[40] == "support"@);
    assert(l[41] == "exception"@);
    assert(l[42] == "filter"@);
    assert(l[43] == "aspect"@);
    assert(l[44] == "handler"@);
    assert(l[45] == "convert"@);
    assert(l[46] == "converter"@);
    assert(l[47] == "builder"@);
    assert(l[48] == "factory"@);
    assert(l[49] == "request"@);
    assert(l[50] == "response"@);
    assert(l[51] == "query"@);
    assert(l[52] == "command"@);
    assert(l[53] == "event"@);
    assert(l[54] == "task"@);
    assert(l[55] == "test"@);
    assert(l[56] == "tests"@);
    assert(l[57] == "persistence"@);
    assert(l[58] == "repository"@);
    assert(l[59] == "resources"@);
    assert(l[60] == "req"@);
    assert(l[61] == "rsp"@);
    assert(l[62] == "res"@);
    assert(l[63] == "resp"@);
    assert(l[64] == "result"@);
    assert(l[65] == "param"@);
    assert(l[66] == "params"@);
    assert(l[67] == "form"@);
    assert(l[68] == "view"@);
    assert(l[69] == "webapp"@);
    assert(l[70] == "web_inf"@);
    assert(l[71] == "meta_inf"@);
    assert(l[72] == "static"@);
    assert(l[73] == "assets"@);
    assert(l[74] == "jsp"@);
    assert(l[75] == "spock"@);
    assert(l[76] == "groovy"@);
    assert(l[77] == "dubbo"@);
    assert(l[78] == "rpc"@);
    assert(l[79] == "http"@);
    assert(l[80] == "mq"@);
    assert(l[81] == "gateway"@);
    assert(l[82] == "spi"@);
    assert(l[83] == "external"@);
    assert(l[84] == "interceptor"@);
    assert(l[85] == "annotation"@);
    assert(l[86] == "excel"@);
    assert(l[87] == "excel_import"@);
    assert(l[88] == "excel_export"@);
    assert(l[89] == "import"@);
    assert(l[90] == "export"@);
    if l.contains(w) {
        let k = choose|k: int| 0 <= k < l.len() && l[k] == w;
        assert(is_layering(l[k]));
    }
}

/// The tables whose names tell a domain are those of which a run of words names one.
pub proof fn names_group_tables(
    aliases: Seq<(Seq<char>, Seq<Seq<char>>)>,
    seeds: Map<Seq<char>, u64>,
    variants: Map<Seq<char>, Seq<char>>,
    names: Seq<(i64, Seq<char>)>,
    i: int,
)
    requires
        distinct_ids(names),
        0 <= i < names.len(),
    ensures
        groups_of(aliases, seeds, variants, names).dom().contains(names[i].0) <==> table_key(
            aliases,
            seeds,
            variants,
            names[i].1,
        ) is Some,
        table_key(aliases, seeds, variants, names[i].1) is Some ==> groups_of(
            aliases,
            seeds,
            variants,
            names,
        )[names[i].0] == table_key(aliases, seeds, variants, names[i].1)->0,
    decreases names.len(),
{
    let rest = names.drop_last();
    assert forall|j: int| 0 <= j < rest.len() implies #[trigger] rest[j] == names[j] by {}
    if i < rest.len() {
        assert(distinct_ids(rest)) by {
            assert forall|a: int, b: int| 0 <= a < b < rest.len() implies (
            #[trigger] rest[a]).0 != (#[trigger] rest[b]).0 by {
                assert(names[a].0 != names[b].0);
            }
        }
        names_group_tables(aliases, seeds, variants, rest, i);
        assert(names[i].0 != names[names.len() - 1].0);
    } else {
        unlisted_is_ungrouped(aliases, seeds, variants, rest, names[i].0);
    }
}

proof fn unlisted_is_ungrouped(
    aliases: Seq<(Seq<char>, Seq<Seq<char>>)>,
    seeds: Map<Seq<char>, u64>,
    variants: Map<Seq<char>, Seq<char>>,
    names: Seq<(i64, Seq<char>)>,
    id: i64,
)
    requires
        forall|j: int| 0 <= j < names.len() ==> (#[trigger] names[j]).0 != id,
    ensures
        !groups_of(aliases, seeds, variants, names).dom().contains(id),
    decreases names.len(),
{
    if names.len() > 0 {
        let rest = names.drop_last();
        assert forall|j: int| 0 <= j < rest.len() implies (#[trigger] rest[j]).0 != id by {
            assert(rest[j] == names[j]);
        }
        unlisted_is_ungrouped(aliases, seeds, variants, rest, id);
        assert(names[names.len() - 1].0 != id);
    }
}

/// A shape stands for the last of the keys that have it.
pub proof fn shapes_lead_to_keys(l: Seq<(Seq<char>, u64)>, s: Seq<char>, c: int)
    ensures
        0 <= c < l.len() && shape(l[c].0) == s && (forall|d: int|
            c < d < l.len() ==> shape((#[trigger] l[d]).0) != s)
            ==> crate::structure::domain::shapes_of(l).dom().contains(s)
            && crate::structure::domain::shapes_of(l)[s] == l[c].0,
        (forall|d: int| 0 <= d < l.len() ==> shape((#[trigger] l[d]).0) != s)
            ==> !crate::structure::domain::shapes_of(l).dom().contains(s),
    decreases l.len(),
{
    if l.len() > 0 {
        let rest = l.drop_last();
        shapes_lead_to_keys(rest, s, c);
        assert(l[l.len() - 1] == l.last());
        assert forall|d: int| 0 <= d < rest.len() implies #[trigger] rest[d] == l[d] by {}
    }
}

// ---------------------------------------------------------------------------
// Spelling

/// A segment has the key of the first alias entry that covers it, by its key or by one of
/// its spellings, whatever the word boundaries; without one it has its own snake case.
pub proof fn aliases_decide_keys(l: Seq<(Seq<char>, Seq<Seq<char>>)>, raw: Seq<char>, c: int)
    ensures
        0 <= c < l.len() && is_covered(l[c], raw) && (forall|d: int|
            0 <= d < c ==> !is_covered(#[trigger] l[d], raw)) ==> canonical_of(l, raw) == l[c].0,
        (forall|d: int| 0 <= d < l.len() ==> !is_covered(#[trigger] l[d], raw)) ==> canonical_of(
            l,
            raw,
        ) == snake(raw),
{
    alias_is_first(l, raw, 0, c);
}

/// Whether the entry's key or one of its spellings is the text, whatever the word
/// boundaries.
pub open spec fn is_covered(e: (Seq<char>, Seq<Seq<char>>), raw: Seq<char>) -> bool {
    flattened(e.0) == flattened(raw) || exists|i: int|
        0 <= i < e.1.len() && flattened(#[trigger] e.1[i]) == flattened(raw)
}

proof fn alias_is_first(l: Seq<(Seq<char>, Seq<Seq<char>>)>, raw: Seq<char>, from: int, c: int)
    requires
        0 <= from <= l.len(),
    ensures
        from <= c < l.len() && is_covered(l[c], raw) && (forall|d: int|
            from <= d < c ==> !is_covered(#[trigger] l[d], raw)) ==> alias_from(
            l,
            flattened(raw),
            from,
        ) == Some(l[c].0),
        (forall|d: int| from <= d < l.len() ==> !is_covered(#[trigger] l[d], raw)) ==> alias_from(
            l,
            flattened(raw),
            from,
        ) is None,
    decreases l.len() - from,
{
    if from < l.len() {
        assert(is_covered(l[from], raw) <==> covers(l[from], flattened(raw)));
        alias_is_first(l, raw, from + 1, c);
    }
}

/// Plural and participle endings do not make another word, where at least four bytes remain.
pub proof fn endings_do_not_matter(w: Seq<char>)
    requires
        !w.contains('_'),
        encode_utf8(w).len() >= 4,
    ensures
        shape(w + "ing"@) == w,
        w.len() > 0 && w.last() != 'e' ==> shape(w + "s"@) == w,
        shape(w + "es"@) == w,
{
    reveal_strlit("ing");
    reveal_strlit("es");
    reveal_strlit("s");
    let no = Seq::<char>::empty();
    let a = w + "ing"@;
    let b = w + "es"@;
    let c = w + "s"@;
    no_underscore(w, "ing"@);
    no_underscore(w, "es"@);
    no_underscore(w, "s"@);
    crate::laws::basics::replaced_by_parts(a, no, '_', no);
    crate::laws::basics::replaced_by_parts(b, no, '_', no);
    crate::laws::basics::replaced_by_parts(c, no, '_', no);
    ends_of_texts("ing"@, w);
    ends_of_texts("es"@, w);
    ends_of_texts("s"@, w);
    assert(b.last() == 's' && c.last() == 's');
    assert("ing"@.last() == 'g');
    assert(!crate::text::has_suffix(b, "ing"@)) by {
        if crate::text::has_suffix(b, "ing"@) {
            assert(b.skip(b.len() - 3)[2] == b.last());
        }
    }
    assert(!crate::text::has_suffix(c, "ing"@)) by {
        if crate::text::has_suffix(c, "ing"@) {
            assert(c.skip(c.len() - 3)[2] == c.last());
        }
    }
    if w.len() > 0 && w.last() != 'e' {
        assert(!crate::text::has_suffix(c, "es"@)) by {
            if crate::text::has_suffix(c, "es"@) {
                assert(c.skip(c.len() - 2)[0] == w.last());
            }
        }
    }
}

proof fn no_underscore(w: Seq<char>, e: Seq<char>)
    requires
        !w.contains('_'),
        forall|i: int| 0 <= i < e.len() ==> #[trigger] e[i] != '_',
    ensures
        !(w + e).contains('_'),
{
    let s = w + e;
    if s.contains('_') {
        let k = choose|k: int| 0 <= k < s.len() && s[k] == '_';
        if k < w.len() {
            assert(w[k] == '_');
        } else {
            assert(e[k - w.len()] == '_');
        }
    }
}

/// Of the spellings of one word the most used survives; of equally used ones the first in
/// order.
pub proof fn most_used_spelling_survives(l: Seq<(Seq<char>, u64)>, k: Seq<char>, i: int)
    requires
        survives(l, k),
        0 <= i < l.len(),
        shape(l[i].0) == shape(k),
    ensures
        exists|n: u64| l.contains((k, n)) && (n > l[i].1 || (n == l[i].1 && !lex_lt(l[i].0, k))),
{
    best_is_most_used(l, shape(k));
    let b = crate::structure::domain::best_with(l, shape(k))->0;
    assert(l.contains((k, b.1)));
}

proof fn best_is_most_used(l: Seq<(Seq<char>, u64)>, s: Seq<char>)
    ensures
        crate::structure::domain::best_with(l, s) matches Some(b) ==> l.contains(b) && shape(b.0)
            == s && forall|i: int|
            0 <= i < l.len() && shape((#[trigger] l[i]).0) == s ==> b.1 > l[i].1 || (b.1 == l[i].1
                && !lex_lt(l[i].0, b.0)),
    decreases l.len(),
{
    if l.len() > 0 {
        let rest = l.drop_last();
        best_is_most_used(rest, s);
        let last = l.last();
        assert(l[l.len() - 1] == last);
        let before = crate::structure::domain::best_with(rest, s);
        assert forall|i: int| 0 <= i < rest.len() implies #[trigger] rest[i] == l[i] by {}
        if before is Some {
            let b = before->0;
            let k = choose|k: int| 0 <= k < rest.len() && rest[k] == b;
            assert(l[k] == b);
        }
        crate::text::lex_irreflexive(last.0);
        match crate::structure::domain::best_with(l, s) {
            Some(b) => {
                assert forall|i: int| 0 <= i < l.len() && shape((#[trigger] l[i]).0) == s implies b.1
                    > l[i].1 || (b.1 == l[i].1 && !lex_lt(l[i].0, b.0)) by {
                    if i < rest.len() {
                        assert(rest[i] == l[i]);
                        if before is None {
                            none_of_shape(rest, s, i);
                        } else if b == last && before->0 != last {
                            let o = before->0;
                            if b.1 == l[i].1 && lex_lt(l[i].0, b.0) {
                                if lex_lt(b.0, o.0) {
                                    crate::text::lex_transitive(l[i].0, b.0, o.0);
                                }
                            }
                        }
                    } else {
                        assert(l[i] == last);
                        if b != last {
                            crate::text::lex_total(last.0, b.0);
                        }
                    }
                }
            },
            None => {},
        }
    }
}

proof fn none_of_shape(l: Seq<(Seq<char>, u64)>, s: Seq<char>, i: int)
    requires
        crate::structure::domain::best_with(l, s) is None,
        0 <= i < l.len(),
    ensures
        shape(l[i].0) != s,
    decreases l.len(),
{
    if i < l.len() - 1 {
        assert(l.drop_last()[i] == l[i]);
        none_of_shape(l.drop_last(), s, i);
    }
}

// ---------------------------------------------------------------------------
// Names of tables

/// A candidate is the seed of its own name, else the seed of its shape, else none.
pub proof fn candidates_find_their_seed(
    seeds: Map<Seq<char>, u64>,
    variants: Map<Seq<char>, Seq<char>>,
    cand: Seq<char>,
)
    ensures
        seeds.dom().contains(cand) ==> seed_for(seeds, variants, cand) == Some(cand),
        !seeds.dom().contains(cand) && variants.dom().contains(shape(cand)) ==> seed_for(
            seeds,
            variants,
            cand,
        ) == Some(variants[shape(cand)]),
        !seeds.dom().contains(cand) && !variants.dom().contains(shape(cand)) ==> seed_for(
            seeds,
            variants,
            cand,
        ) is None,
{
}

/// What the run of tokens names.
pub open spec fn named_by(
    aliases: Seq<(Seq<char>, Seq<Seq<char>>)>,
    seeds: Map<Seq<char>, u64>,
    variants: Map<Seq<char>, Seq<char>>,
    tokens: Seq<Seq<char>>,
    len: int,
    start: int,
) -> Option<Seq<char>> {
    seed_for(
        seeds,
        variants,
        canonical_of(aliases, joined(tokens.subrange(start, start + len), "_"@)),
    )
}

/// Whether the run names something and no longer one does, nor one as long further left.
pub open spec fn is_leading_run(
    aliases: Seq<(Seq<char>, Seq<Seq<char>>)>,
    seeds: Map<Seq<char>, u64>,
    variants: Map<Seq<char>, Seq<char>>,
    tokens: Seq<Seq<char>>,
    len: int,
    start: int,
) -> bool {
    &&& 1 <= len <= 3 && 0 <= start && start + len <= tokens.len()
    &&& named_by(aliases, seeds, variants, tokens, len, start) is Some
    &&& forall|n: int, s: int|
        1 <= n <= 3 && 0 <= s && s + n <= tokens.len() && (n > len || (n == len && s < start))
            ==> #[trigger] named_by(aliases, seeds, variants, tokens, n, s) is None
}

proof fn runs_are_leftmost(
    aliases: Seq<(Seq<char>, Seq<Seq<char>>)>,
    seeds: Map<Seq<char>, u64>,
    variants: Map<Seq<char>, Seq<char>>,
    tokens: Seq<Seq<char>>,
    len: int,
    from: int,
)
    requires
        1 <= len,
        0 <= from,
    ensures
        run_from(aliases, seeds, variants, tokens, len, from) is None ==> forall|s: int|
            from <= s && s + len <= tokens.len() ==> #[trigger] named_by(
                aliases,
                seeds,
                variants,
                tokens,
                len,
                s,
            ) is None,
        forall|s: int|
            from <= s && s + len <= tokens.len() && (#[trigger] named_by(
                aliases,
                seeds,
                variants,
                tokens,
                len,
                s,
            )) is Some && (forall|p: int|
                from <= p < s ==> #[trigger] named_by(aliases, seeds, variants, tokens, len, p)
                    is None) ==> run_from(aliases, seeds, variants, tokens, len, from) == named_by(
                aliases,
                seeds,
                variants,
                tokens,
                len,
                s,
            ),
    decreases tokens.len() + 1 - from,
{
    if from + len <= tokens.len() {
        assert(run_key(aliases, seeds, variants, tokens, len, from) == named_by(
            aliases,
            seeds,
            variants,
            tokens,
            len,
            from,
        ));
        runs_are_leftmost(aliases, seeds, variants, tokens, len, from + 1);
    }
}

/// A table's name, without its `t_`, tells the domain that its longest and leftmost run of
/// up to three words names.
pub proof fn longest_words_name_tables(
    aliases: Seq<(Seq<char>, Seq<Seq<char>>)>,
    seeds: Map<Seq<char>, u64>,
    variants: Map<Seq<char>, Seq<char>>,
    tokens: Seq<Seq<char>>,
    len: int,
    start: int,
)
    requires
        tokens.len() > 0,
        forall|i: int| 0 <= i < tokens.len() ==> !(#[trigger] tokens[i]).contains('_'),
        is_leading_run(aliases, seeds, variants, tokens, len, start),
    ensures
        table_key(aliases, seeds, variants, "t_"@ + joined(tokens, "_"@)) == named_by(
            aliases,
            seeds,
            variants,
            tokens,
            len,
            start,
        ),
{
    reveal_strlit("_");
    assert(seq!['_'] =~= "_"@);
    joined_is_cut(tokens, '_');
    ends_of_texts("t_"@, joined(tokens, "_"@));
    reveal_with_fuel(longest_run, 4);
    runs_are_leftmost(aliases, seeds, variants, tokens, 3, 0);
    runs_are_leftmost(aliases, seeds, variants, tokens, 2, 0);
    runs_are_leftmost(aliases, seeds, variants, tokens, 1, 0);
    run_is_found(aliases, seeds, variants, tokens, len, start, 3);
}

proof fn run_is_found(
    aliases: Seq<(Seq<char>, Seq<Seq<char>>)>,
    seeds: Map<Seq<char>, u64>,
    variants: Map<Seq<char>, Seq<char>>,
    tokens: Seq<Seq<char>>,
    len: int,
    start: int,
    n: nat,
)
    requires
        is_leading_run(aliases, seeds, variants, tokens, len, start),
        len <= n <= 3,
    ensures
        longest_run(aliases, seeds, variants, tokens, n) == named_by(
            aliases,
            seeds,
            variants,
            tokens,
            len,
            start,
        ),
    decreases n,
{
    runs_are_leftmost(aliases, seeds, variants, tokens, n as int, 0);
    if n > len {
        if run_from(aliases, seeds, variants, tokens, n as int, 0) is Some {
            run_has_place(aliases, seeds, variants, tokens, n as int, 0);
        }
        run_is_found(aliases, seeds, variants, tokens, len, start, (n - 1) as nat);
    } else {
        assert forall|p: int| 0 <= p < start implies #[trigger] named_by(
            aliases,
            seeds,
            variants,
            tokens,
            len,
            p,
        ) is None by {}
    }
}

proof fn run_has_place(
    aliases: Seq<(Seq<char>, Seq<Seq<char>>)>,
    seeds: Map<Seq<char>, u64>,
    variants: Map<Seq<char>, Seq<char>>,
    tokens: Seq<Seq<char>>,
    len: int,
    from: int,
)
    requires
        0 <= from,
        run_from(aliases, seeds, variants, tokens, len, from) is Some,
    ensures
        exists|s: int|
            from <= s && s + len <= tokens.len() && #[trigger] named_by(
                aliases,
                seeds,
                variants,
                tokens,
                len,
                s,
            ) is Some,
    decreases tokens.len() + 1 - from,
{
    if run_key(aliases, seeds, variants, tokens, len, from) is Some {
        assert(named_by(aliases, seeds, variants, tokens, len, from) is Some);
    } else {
        run_has_place(aliases, seeds, variants, tokens, len, from + 1);
    }
}

// ---------------------------------------------------------------------------
// Votes and pairs

/// Each segment of a file that stands for a seed is a vote, with its place counted from one
/// and the number of segments.
pub proof fn segments_vote(
    aliases: Seq<(Seq<char>, Seq<Seq<char>>)>,
    seeds: Map<Seq<char>, u64>,
    variants: Map<Seq<char>, Seq<char>>,
    segments: Seq<Seq<char>>,
    n: nat,
    v: (Seq<char>, usize, usize),
)
    requires
        n <= segments.len() <= usize::MAX,
    ensures
        votes_of(aliases, seeds, variants, segments, n).contains(v) <==> exists|i: int|
            0 <= i < n && seed_for(seeds, variants, canonical_of(aliases, #[trigger] segments[i]))
                == Some(v.0) && v.1 == i + 1 && v.2 == segments.len(),
    decreases n,
{
    if n > 0 {
        let p = (n - 1) as nat;
        segments_vote(aliases, seeds, variants, segments, p, v);
        let before = votes_of(aliases, seeds, variants, segments, p);
        match seed_for(seeds, variants, canonical_of(aliases, segments[n - 1])) {
            Some(k) => {
                push_members(before, (k, n as usize, segments.len() as usize), v);
            },
            None => {},
        }
    }
}

/// The files of a commit are those that its rows name, in their order.
pub proof fn commits_hold_their_files(rows: Seq<(i64, i64)>, c: i64)
    ensures
        by_commit(rows).dom().contains(c) <==> rows.filter(of_commit(c)).len() > 0,
        by_commit(rows).dom().contains(c) ==> by_commit(rows)[c] == rows.filter(
            of_commit(c),
        ).map_values(|r: (i64, i64)| r.1),
    decreases rows.len(),
{
    reveal(Seq::filter);
    if rows.len() > 0 {
        let rest = rows.drop_last();
        commits_hold_their_files(rest, c);
        let g = |r: (i64, i64)| r.1;
        let f0 = rest.filter(of_commit(c));
        let f1 = rows.filter(of_commit(c));
        if rows.last().0 == c {
            assert(f1 == f0.push(rows.last()));
            assert(f1.map_values(g) =~= f0.map_values(g).push(rows.last().1));
            if f0.len() == 0 {
                assert(f0.map_values(g) =~= Seq::empty());
            }
        }
    } else {
        assert(rows.filter(of_commit(c)) =~= Seq::empty());
    }
}

pub open spec fn of_commit(c: i64) -> spec_fn((i64, i64)) -> bool {
    |r: (i64, i64)| r.0 == c
}

/// Whether the pair is that of the files at `i` and `j` of a commit, the smaller id first,
/// with one less than the number of files.
pub open spec fn is_pair(files: Seq<i64>, i: int, j: int, x: ((i64, i64), usize)) -> bool {
    &&& 0 <= i < j < files.len()
    &&& x.1 == files.len() - 1
    &&& files[i] < files[j] ==> (x.0).0 == files[i] && (x.0).1 == files[j]
    &&& files[i] >= files[j] ==> (x.0).0 == files[j] && (x.0).1 == files[i]
}

/// A commit of two to twenty files couples every two of them; any other couples none.
pub proof fn commits_couple_their_files(files: Seq<i64>, x: ((i64, i64), usize))
    ensures
        commit_pairs(files).contains(x) <==> 2 <= files.len() <= 20 && exists|i: int, j: int|
            #[trigger] is_pair(files, i, j, x),
        2 <= files.len() <= 20 ==> 2 * commit_pairs(files).len() == files.len() * (files.len() - 1),
{
    if 2 <= files.len() <= 20 {
        pairs_from_members(files, 0, 1, x);
        pairs_from_count(files, 0, 1);
        let n = files.len() as int;
        assert(2 * (n - 1) + (n - 1) * (n - 2) == n * (n - 1)) by (nonlinear_arith);
        if exists|i: int, j: int| #[trigger] is_pair(files, i, j, x) {
            let (i, j) = choose|i: int, j: int| #[trigger] is_pair(files, i, j, x);
            assert(is_pair(files, i, j, x) && (i > 0 || (i == 0 && j >= 1)));
        }
    }
}

proof fn pairs_from_count(files: Seq<i64>, i: int, j: int)
    requires
        0 <= i <= files.len(),
        i < j <= files.len() + 1,
    ensures
        i < files.len() ==> 2 * pairs_from(files, i, j).len() == 2 * (files.len() - (if j
            > files.len() {
            files.len() as int
        } else {
            j
        })) + (files.len() - i - 1) * (files.len() - i - 2),
        i == files.len() ==> pairs_from(files, i, j).len() == 0,
    decreases files.len() - i, files.len() + 1 - j,
{
    let n = files.len() as int;
    if i < n {
        if j >= n {
            if i + 1 <= n {
                if i + 1 == n {
                    assert(pairs_from(files, i + 1, i + 2).len() == 0);
                    assert((n - i - 1) * (n - i - 2) == 0) by (nonlinear_arith)
                        requires
                            n - i - 1 == 0,
                    ;
                } else {
                    pairs_from_count(files, i + 1, i + 2);
                    let m = n - i - 1;
                    assert(2 * (m - 1) + (m - 1) * (m - 2) == m * (m - 1)) by (nonlinear_arith);
                }
            }
        } else {
            pairs_from_count(files, i, j + 1);
        }
    }
}

proof fn pairs_from_members(files: Seq<i64>, i: int, j: int, x: ((i64, i64), usize))
    requires
        0 <= i,
        i < j,
        files.len() <= 20,
    ensures
        pairs_from(files, i, j).contains(x) <==> exists|p: int, q: int| #[trigger]
            is_pair(files, p, q, x) && (p > i || (p == i && q >= j)),
    decreases files.len() - i, files.len() - j,
{
    if i >= files.len() {
    } else if j >= files.len() {
        pairs_from_members(files, i + 1, i + 2, x);
        if pairs_from(files, i, j).contains(x) {
            let (p, q) = choose|p: int, q: int| #[trigger]
                is_pair(files, p, q, x) && (p > i + 1 || (p == i + 1 && q >= i + 2));
            assert(is_pair(files, p, q, x) && (p > i || (p == i && q >= j)));
        }
        if exists|p: int, q: int| #[trigger]
            is_pair(files, p, q, x) && (p > i || (p == i && q >= j)) {
            let (p, q) = choose|p: int, q: int| #[trigger]
                is_pair(files, p, q, x) && (p > i || (p == i && q >= j));
            assert(is_pair(files, p, q, x) && (p > i + 1 || (p == i + 1 && q >= i + 2)));
        }
    } else {
        pairs_from_members(files, i, j + 1, x);
        let head = (pair_of(files[i], files[j]), (files.len() - 1) as usize);
        let tail = pairs_from(files, i, j + 1);
        crate::laws::basics::concat_members(seq![head], tail, x);
        assert(seq![head].contains(x) <==> x == head) by {
            assert(seq![head][0] == head);
        }
        assert(x == head <==> is_pair(files, i, j, x));
        if pairs_from(files, i, j).contains(x) && x != head {
            let (p, q) = choose|p: int, q: int| #[trigger]
                is_pair(files, p, q, x) && (p > i || (p == i && q >= j + 1));
            assert(is_pair(files, p, q, x) && (p > i || (p == i && q >= j)));
        }
        if exists|p: int, q: int| #[trigger]
            is_pair(files, p, q, x) && (p > i || (p == i && q >= j)) {
            let (p, q) = choose|p: int, q: int| #[trigger]
                is_pair(files, p, q, x) && (p > i || (p == i && q >= j));
            if !(p == i && q == j) {
                assert(is_pair(files, p, q, x) && (p > i || (p == i && q >= j + 1)));
            }
        }
    }
}

/// A file that accesses a table votes for the table's domain, where it has one.
pub proof fn accesses_vote(table_domain: Map<i64, Seq<char>>, file: i64, table: i64)
    ensures
        table_domain.dom().contains(table) ==> table_vote(table_domain, (file, table)) == Some(
            (file, table_domain[table]),
        ),
        !table_domain.dom().contains(table) ==> table_vote(table_domain, (file, table)) is None,
{
}

// ---------------------------------------------------------------------------
// Notes

/// A note keeps its content through a build. It points at the row that now has its key, keeps
/// its row where it has no key, and is stale exactly where it then points at none.
pub proof fn notes_point_at_the_new_rows(n: NoteLinkView, domains: Map<Seq<char>, i64>)
    ensures
        link_of(n, domains).id == n.id && link_of(n, domains).key == n.key,
        n.key is Some && domains.dom().contains(n.key->0) ==> link_of(n, domains).domain == Some(
            domains[n.key->0],
        ) && link_of(n, domains).status == n.status,
        n.key is Some && !domains.dom().contains(n.key->0) ==> link_of(n, domains).domain is None
            && link_of(n, domains).status == "stale"@,
        n.key is None && n.domain is Some ==> link_of(n, domains) == n,
        n.key is None && n.domain is None ==> link_of(n, domains).status == "stale"@,
{
}

// ---------------------------------------------------------------------------
// Seeds and groups

/// Whether a key that so many files count for is a seed.
pub open spec fn is_seed(n: u64, files: nat) -> bool {
    n == 3 || (n > 3 && 20 * n <= 17 * files)
}

proof fn kept_entries(l: Seq<(Seq<char>, u64)>, files: nat, e: (Seq<char>, u64))
    ensures
        seed_entries(l, files).contains(e) <==> l.contains(e) && is_seed(e.1, files),
    decreases l.len(),
{
    if l.len() > 0 {
        let rest = l.drop_last();
        kept_entries(rest, files, e);
        push_members(rest, l.last(), e);
        assert(l =~= rest.push(l.last()));
        push_members(seed_entries(rest, files), l.last(), e);
        seeds_are_neither_rare_nor_everywhere(l.last().1 as nat, files);
        assert(seed_entries(l, files) == (if is_seed(l.last().1, files) {
            seed_entries(rest, files).push(l.last())
        } else {
            seed_entries(rest, files)
        }));
    }
}

proof fn only_of_its_shape(l: Seq<(Seq<char>, u64)>, e: (Seq<char>, u64))
    requires
        crate::textmap::in_order(l),
        l.contains(e),
        forall|i: int| 0 <= i < l.len() && shape((#[trigger] l[i]).0) == shape(e.0) ==> l[i] == e,
    ensures
        crate::structure::domain::best_with(l, shape(e.0)) == Some(e),
        crate::structure::domain::shape_sum(l, shape(e.0)) == e.1,
    decreases l.len(),
{
    let rest = l.drop_last();
    let last = l.last();
    assert(l[l.len() - 1] == last);
    assert forall|i: int| 0 <= i < rest.len() implies #[trigger] rest[i] == l[i] by {}
    if last == e {
        assert forall|i: int| 0 <= i < rest.len() implies shape((#[trigger] rest[i]).0) != shape(
            e.0,
        ) by {
            assert(lex_lt(l[i].0, l[l.len() - 1].0));
            crate::text::lex_irreflexive(e.0);
            assert(l[i] != e);
        }
        nothing_of_shape(rest, shape(e.0));
    } else {
        let k = choose|k: int| 0 <= k < l.len() && l[k] == e;
        assert(rest[k] == e);
        assert(crate::textmap::in_order(rest)) by {
            assert forall|i: int, j: int| 0 <= i < j < rest.len() implies lex_lt(
                (#[trigger] rest[i]).0,
                (#[trigger] rest[j]).0,
            ) by {
                assert(lex_lt(l[i].0, l[j].0));
            }
        }
        only_of_its_shape(rest, e);
    }
}

proof fn nothing_of_shape(l: Seq<(Seq<char>, u64)>, s: Seq<char>)
    requires
        forall|i: int| 0 <= i < l.len() ==> shape((#[trigger] l[i]).0) != s,
    ensures
        crate::structure::domain::best_with(l, s) is None,
        crate::structure::domain::shape_sum(l, s) == 0,
    decreases l.len(),
{
    if l.len() > 0 {
        let rest = l.drop_last();
        assert forall|i: int| 0 <= i < rest.len() implies shape((#[trigger] rest[i]).0) != s by {
            assert(rest[i] == l[i]);
        }
        assert(l[l.len() - 1] == l.last());
        nothing_of_shape(rest, s);
    }
}

proof fn kept_in_order(l: Seq<(Seq<char>, u64)>, files: nat)
    requires
        crate::textmap::in_order(l),
    ensures
        crate::textmap::in_order(seed_entries(l, files)),
        forall|i: int|
            0 <= i < seed_entries(l, files).len() ==> l.contains(
                #[trigger] seed_entries(l, files)[i],
            ),
    decreases l.len(),
{
    if l.len() > 0 {
        let rest = l.drop_last();
        assert(crate::textmap::in_order(rest)) by {
            assert forall|i: int, j: int| 0 <= i < j < rest.len() implies lex_lt(
                (#[trigger] rest[i]).0,
                (#[trigger] rest[j]).0,
            ) by {
                assert(lex_lt(l[i].0, l[j].0));
            }
        }
        kept_in_order(rest, files);
        let k = seed_entries(rest, files);
        let all = seed_entries(l, files);
        assert(all == k || all == k.push(l.last()));
        assert forall|i: int| 0 <= i < all.len() implies l.contains(#[trigger] all[i]) by {
            if i < k.len() {
                assert(all[i] == k[i]);
                let m = choose|m: int| 0 <= m < rest.len() && rest[m] == k[i];
                assert(l[m] == k[i]);
            } else {
                assert(l[l.len() - 1] == l.last());
            }
        }
        assert forall|i: int, j: int| 0 <= i < j < all.len() implies lex_lt(
            (#[trigger] all[i]).0,
            (#[trigger] all[j]).0,
        ) by {
            if j < k.len() {
                assert(all[i] == k[i] && all[j] == k[j]);
            } else {
                assert(all[i] == k[i] && all[j] == l.last());
                let m = choose|m: int| 0 <= m < rest.len() && rest[m] == k[i];
                assert(lex_lt(l[m].0, l[l.len() - 1].0));
            }
        }
    }
}

/// The seeds are the keys that neither too few nor too many files count for: of one spelling
/// each, with the number of those files.
pub proof fn seeds_are_the_counted_keys(
    files: Seq<FileRowView>,
    aliases: Seq<(Seq<char>, Seq<Seq<char>>)>,
    exclude: Seq<Seq<char>>,
    l: Seq<(Seq<char>, u64)>,
    k: Seq<char>,
    n: u64,
)
    requires
        crate::textmap::in_order(l),
        crate::textmap::map_of(l) == crate::structure::domain::seed_counts(files, aliases, exclude),
    ensures
        ({
            let seeds = crate::structure::domain::seeds_of(files, aliases, exclude);
            &&& l.contains((k, n)) && is_seed(n, files.len()) && (forall|i: int|
                0 <= i < l.len() && is_seed((#[trigger] l[i]).1, files.len()) && shape(l[i].0)
                    == shape(k) ==> l[i] == (k, n)) ==> seeds.dom().contains(k) && seeds[k] == n
            &&& seeds.dom().contains(k) ==> exists|m: u64| #[trigger]
                l.contains((k, m)) && is_seed(m, files.len())
        }),
{
    crate::textmap::entries_of_list(l);
    let kept = seed_entries(l, files.len());
    kept_in_order(l, files.len());
    let seeds = crate::structure::domain::seeds_of(files, aliases, exclude);
    assert(seeds == folded(kept));
    if l.contains((k, n)) && is_seed(n, files.len()) && (forall|i: int|
        0 <= i < l.len() && is_seed((#[trigger] l[i]).1, files.len()) && shape(l[i].0) == shape(k)
            ==> l[i] == (k, n)) {
        kept_entries(l, files.len(), (k, n));
        assert forall|i: int| 0 <= i < kept.len() && shape((#[trigger] kept[i]).0) == shape(
            k,
        ) implies kept[i] == (k, n) by {
            kept_entries(l, files.len(), kept[i]);
            assert(kept.contains(kept[i]));
            let m = choose|m: int| 0 <= m < l.len() && l[m] == kept[i];
            assert(is_seed(l[m].1, files.len()));
        }
        only_of_its_shape(kept, (k, n));
    }
    if seeds.dom().contains(k) {
        best_is_most_used(kept, shape(k));
        let b = crate::structure::domain::best_with(kept, shape(k))->0;
        assert(b.0 == k);
        kept_entries(l, files.len(), b);
        assert(l.contains((k, b.1)) && is_seed(b.1, files.len()));
    }
}

/// The files of a domain are those that were put in it, each once, in ascending order.
pub proof fn domains_hold_the_files_put_in_them(
    rows: Seq<(i64, Seq<char>)>,
    m: Map<Seq<char>, Seq<i64>>,
    f: i64,
    k: Seq<char>,
)
    requires
        crate::structure::domain::grouped(rows, m),
    ensures
        m.dom().contains(k) && m[k].contains(f) <==> rows.contains((f, k)),
        m.dom().contains(k) ==> forall|i: int, j: int|
            0 <= i < j < m[k].len() ==> #[trigger] m[k][i] < #[trigger] m[k][j],
{
    if rows.contains((f, k)) {
        let i = choose|i: int| 0 <= i < rows.len() && rows[i] == (f, k);
        assert(rows[i].1 == k);
        assert(m.dom().contains(k));
        assert(crate::structure::domain::files_with(rows, k).contains(f));
    }
    if m.dom().contains(k) && m[k].contains(f) {
        assert(crate::structure::domain::files_with(rows, k).contains(f));
    }
}

/// A table has an owner by usage exactly where seven uses of ten are one domain's, and then
/// that domain.
pub proof fn usage_tells_the_owner(
    groups: Seq<(Seq<char>, Seq<i64>)>,
    access: Seq<(i64, i64)>,
    m: Map<i64, Seq<char>>,
    t: i64,
    k: Seq<char>,
)
    requires
        crate::structure::domain::usage_owners(groups, access, m),
        uses_of(groups, access, t).filter(equal_to(k)).len() > 0,
        10 * uses_of(groups, access, t).filter(equal_to(k)).len() >= 7 * uses_of(
            groups,
            access,
            t,
        ).len(),
    ensures
        m.dom().contains(t) && m[t] == k,
{
    let uses = uses_of(groups, access, t);
    seven_of_ten_own(uses, k);
    assert(owns(uses, k));
    assert(owns(uses, m[t]));
    crate::structure::domain::one_owner(uses, k, m[t]);
}

} // verus!

//! Entry points are traced along the call graph to the tables they reach.
use crate::laws::basics::{flat_members, push_members};
use crate::lists::flat;
use crate::structure::trace::{
    accesses_of, accesses_on, edges_of, explains, is_trace, leads_to, members_of, names_of,
    of_table, ops_on, outgoing, roots_of, shortest_routes_reported, touched, traces_of,
    walk_is_sound, walk_of, GraphView, SymbolRowView, TracePathView, MAX_DEPTH,
    MAX_PATHS_PER_ENTRY,
};
use vstd::prelude::*;

verus! {

/// What stands under a key, nothing where the key is unknown.
pub open spec fn under<V>(m: Map<i64, Seq<V>>, k: i64) -> Seq<V> {
    if m.dom().contains(k) {
        m[k]
    } else {
        Seq::empty()
    }
}

/// Every reference of a symbol that is sure enough, six tenths or more, is an edge of it,
/// and there is no other: in the order of the references, as often as they occur.
pub proof fn every_trusted_reference_is_an_edge(refs: Seq<(i64, i64, u8)>, s: i64)
    ensures
        under(edges_of(refs), s) == refs.filter(|r: (i64, i64, u8)| r.0 == s && r.2 >= 6).map_values(
            |r: (i64, i64, u8)| (r.1, r.2),
        ),
        forall|d: i64, c: u8| #[trigger]
            under(edges_of(refs), s).contains((d, c)) <==> refs.contains((s, d, c)) && c >= 6,
    decreases refs.len(),
{
    reveal(Seq::filter);
    let f = |r: (i64, i64, u8)| r.0 == s && r.2 >= 6;
    let g = |r: (i64, i64, u8)| (r.1, r.2);
    if refs.len() > 0 {
        let rest = refs.drop_last();
        let r = refs.last();
        every_trusted_reference_is_an_edge(rest, s);
        assert(refs =~= rest.push(r));
        let kept = rest.filter(f);
        if f(r) {
            assert(kept.push(r).map_values(g) =~= kept.map_values(g).push((r.1, r.2)));
        }
        assert(under(edges_of(refs), s) =~= refs.filter(f).map_values(g));
        assert forall|d: i64, c: u8| #[trigger]
            under(edges_of(refs), s).contains((d, c)) <==> refs.contains((s, d, c)) && c >= 6 by {
            push_members(rest, r, (s, d, c));
            push_members(under(edges_of(rest), s), (r.1, r.2), (d, c));
        }
    } else {
        assert(refs.filter(f).map_values(g) =~= Seq::empty());
    }
}

/// Every access of a symbol is kept, in the order of the accesses, and nothing else.
pub proof fn every_access_is_kept(access: Seq<(i64, i64, Seq<char>)>, s: i64)
    ensures
        under(accesses_of(access), s) == access.filter(
            |a: (i64, i64, Seq<char>)| a.0 == s,
        ).map_values(|a: (i64, i64, Seq<char>)| (a.1, a.2)),
        forall|t: i64, op: Seq<char>| #[trigger]
            under(accesses_of(access), s).contains((t, op)) <==> access.contains((s, t, op)),
    decreases access.len(),
{
    reveal(Seq::filter);
    let f = |a: (i64, i64, Seq<char>)| a.0 == s;
    let g = |a: (i64, i64, Seq<char>)| (a.1, a.2);
    if access.len() > 0 {
        let rest = access.drop_last();
        let a = access.last();
        every_access_is_kept(rest, s);
        assert(access =~= rest.push(a));
        let kept = rest.filter(f);
        if f(a) {
            assert(kept.push(a).map_values(g) =~= kept.map_values(g).push((a.1, a.2)));
        }
        assert(under(accesses_of(access), s) =~= access.filter(f).map_values(g));
        assert forall|t: i64, op: Seq<char>| #[trigger]
            under(accesses_of(access), s).contains((t, op)) <==> access.contains((s, t, op)) by {
            push_members(rest, a, (s, t, op));
            push_members(under(accesses_of(rest), s), (a.1, a.2), (t, op));
        }
    } else {
        assert(access.filter(f).map_values(g) =~= Seq::empty());
    }
}

/// A symbol is labelled by the last row with its id.
pub proof fn labels_are_the_rows(symbols: Seq<SymbolRowView>, i: int)
    requires
        0 <= i < symbols.len(),
        forall|j: int| i < j < symbols.len() ==> (#[trigger] symbols[j]).id != symbols[i].id,
    ensures
        names_of(symbols).dom().contains(symbols[i].id),
        names_of(symbols)[symbols[i].id] == symbols[i].label,
    decreases symbols.len(),
{
    if i < symbols.len() - 1 {
        let rest = symbols.drop_last();
        assert(symbols[symbols.len() - 1].id != symbols[i].id);
        assert(rest[i] == symbols[i]);
        assert forall|j: int| i < j < rest.len() implies (#[trigger] rest[j]).id
            != rest[i].id by {
            assert(rest[j] == symbols[j]);
        }
        labels_are_the_rows(rest, i);
    }
}

/// A type is entered through its methods: all rows of kind `method` with that parent, in
/// order, and no other rows.
pub proof fn members_are_the_methods(symbols: Seq<SymbolRowView>, p: i64)
    ensures
        under(members_of(symbols), p) == symbols.filter(
            |s: SymbolRowView| s.kind == "method"@ && s.parent == Some(p),
        ).map_values(|s: SymbolRowView| s.id),
    decreases symbols.len(),
{
    reveal(Seq::filter);
    let f = |s: SymbolRowView| s.kind == "method"@ && s.parent == Some(p);
    let g = |s: SymbolRowView| s.id;
    if symbols.len() > 0 {
        let rest = symbols.drop_last();
        let s = symbols.last();
        members_are_the_methods(rest, p);
        let kept = rest.filter(f);
        if f(s) {
            assert(kept.push(s).map_values(g) =~= kept.map_values(g).push(s.id));
        }
        assert(under(members_of(symbols), p) =~= symbols.filter(f).map_values(g));
    } else {
        assert(symbols.filter(f).map_values(g) =~= Seq::empty());
    }
}

/// The graph that references, accesses and symbols make up.
pub open spec fn graph_of(
    refs: Seq<(i64, i64, u8)>,
    access: Seq<(i64, i64, Seq<char>)>,
    symbols: Seq<SymbolRowView>,
) -> GraphView {
    GraphView {
        edges: edges_of(refs),
        tables: accesses_of(access),
        names: names_of(symbols),
        members: members_of(symbols),
    }
}

/// Whether each symbol of the route has a trusted reference to the next.
pub open spec fn is_call_chain(refs: Seq<(i64, i64, u8)>, path: Seq<i64>) -> bool {
    forall|k: int|
        0 < k < path.len() ==> exists|c: u8|
            c >= 6 && #[trigger] refs.contains((path[k - 1], #[trigger] path[k], c))
}

/// From the stored rows to the report: where trusted references lead from the root to a
/// symbol that accesses a table, and no symbol before it accesses one, the walk reports the
/// table by a path that is no longer, unless it recorded as many paths as it may.
pub proof fn reached_tables_are_reported(
    refs: Seq<(i64, i64, u8)>,
    access: Seq<(i64, i64, Seq<char>)>,
    symbols: Seq<SymbolRowView>,
    path: Seq<i64>,
    t: i64,
    op: Seq<char>,
)
    requires
        1 <= path.len() <= 6,
        is_call_chain(refs, path),
        access.contains((path.last(), t, op)),
        forall|k: int, a: (i64, i64, Seq<char>)|
            0 <= k < path.len() - 1 && #[trigger] access.contains(a) ==> a.0 != #[trigger] path[k],
        walk_of(graph_of(refs, access, symbols), path[0]).len() < 24,
    ensures
        exists|i: int|
            0 <= i < walk_of(graph_of(refs, access, symbols), path[0]).len() && ({
                let p = #[trigger] walk_of(graph_of(refs, access, symbols), path[0])[i];
                &&& p.symbols[0] == path[0]
                &&& p.symbols.len() <= path.len()
                &&& exists|o: Seq<char>| #[trigger] access.contains((p.symbols.last(), t, o))
            }),
{
    let g = graph_of(refs, access, symbols);
    assert forall|k: int| 0 < k < path.len() implies leads_to(g, path[k - 1], #[trigger] path[k]) by {
        let c = choose|c: u8| c >= 6 && #[trigger] refs.contains((path[k - 1], path[k], c));
        every_trusted_reference_is_an_edge(refs, path[k - 1]);
        let out = outgoing(g, path[k - 1]);
        assert(under(edges_of(refs), path[k - 1]).contains((path[k], c)));
        let i = choose|i: int| 0 <= i < out.len() && out[i] == (path[k], c);
        assert(out[i].0 == path[k]);
    }
    every_access_is_kept(access, path.last());
    let last = touched(g, path.last());
    assert(under(accesses_of(access), path.last()).contains((t, op)));
    let i = choose|i: int| 0 <= i < last.len() && last[i] == (t, op);
    assert(last[i].0 == t);
    assert(of_table(last, t));
    assert forall|k: int| 0 <= k < path.len() - 1 implies touched(g, #[trigger] path[k]).len()
        == 0 by {
        let here = touched(g, path[k]);
        every_access_is_kept(access, path[k]);
        if here.len() > 0 {
            assert(here.contains(here[0]));
            assert(under(accesses_of(access), path[k]).contains((here[0].0, here[0].1)));
            assert(access.contains((path[k], here[0].0, here[0].1)));
        }
    }
    shortest_routes_reported(g, path[0], path, t);
    walk_is_sound(g, path[0]);
    let r = walk_of(g, path[0]);
    let j = choose|j: int|
        0 <= j < r.len() && (#[trigger] r[j]).symbols.len() <= path.len() && of_table(
            touched(g, r[j].symbols.last()),
            t,
        );
    let end = r[j].symbols.last();
    let a = touched(g, end);
    let m = choose|m: int| 0 <= m < a.len() && (#[trigger] a[m]).0 == t;
    every_access_is_kept(access, end);
    assert(a.contains(a[m]));
    assert(under(accesses_of(access), end).contains((a[m].0, a[m].1)));
    assert(access.contains((r[j].symbols.last(), t, a[m].1)));
}

/// Whether the confidences are those of references along the path, and `conf` is the lowest
/// of them and of certainty.
pub open spec fn is_lowest(
    refs: Seq<(i64, i64, u8)>,
    path: Seq<i64>,
    cs: Seq<u8>,
    conf: u8,
) -> bool {
    &&& cs.len() == path.len() - 1
    &&& forall|k: int|
        0 <= k < cs.len() ==> refs.contains((path[k], path[k + 1], #[trigger] cs[k])) && cs[k] >= 6
            && conf <= cs[k]
    &&& conf <= 10
    &&& conf == 10 || cs.contains(conf)
}

/// The other way round: each path of a walk starts at the root, goes along trusted
/// references, ends at an access, and carries the lowest confidence on its way.
pub proof fn reported_paths_are_call_chains(
    refs: Seq<(i64, i64, u8)>,
    access: Seq<(i64, i64, Seq<char>)>,
    symbols: Seq<SymbolRowView>,
    root: i64,
    i: int,
)
    requires
        0 <= i < walk_of(graph_of(refs, access, symbols), root).len(),
    ensures
        ({
            let p = walk_of(graph_of(refs, access, symbols), root)[i];
            &&& 1 <= p.symbols.len() <= 6
            &&& p.symbols[0] == root
            &&& exists|cs: Seq<u8>| #[trigger] is_lowest(refs, p.symbols, cs, p.min_confidence)
            &&& exists|t: i64, o: Seq<char>| #[trigger] access.contains((p.symbols.last(), t, o))
            &&& p.labels.len() == p.symbols.len()
            &&& forall|k: int|
                0 <= k < p.symbols.len() && names_of(symbols).dom().contains(#[trigger] p.symbols[k])
                    ==> p.labels[k] == names_of(symbols)[p.symbols[k]]
        }),
{
    let g = graph_of(refs, access, symbols);
    walk_is_sound(g, root);
    let p = walk_of(g, root)[i];
    let cs = carried_along(refs, g, p.symbols, p.min_confidence);
    assert(is_lowest(refs, p.symbols, cs, p.min_confidence));
    let a = touched(g, p.symbols.last());
    every_access_is_kept(access, p.symbols.last());
    assert(a.contains(a[0]));
    assert(under(accesses_of(access), p.symbols.last()).contains((a[0].0, a[0].1)));
    assert(access.contains((p.symbols.last(), a[0].0, a[0].1)));
}

proof fn carried_along(refs: Seq<(i64, i64, u8)>, g: GraphView, path: Seq<i64>, conf: u8) -> (cs:
    Seq<u8>)
    requires
        g.edges == edges_of(refs),
        crate::structure::trace::carried(g, path, conf),
    ensures
        is_lowest(refs, path, cs, conf),
    decreases path.len(),
{
    if path.len() == 1 {
        Seq::empty()
    } else {
        let rest = path.drop_last();
        let n = path.len() - 1;
        let (before, c) = choose|before: u8, c: u8| #[trigger]
            crate::structure::trace::hop(g, path, before, c) && conf == (if c < before {
                c
            } else {
                before
            }) && crate::structure::trace::carried(g, rest, before);
        let some = carried_along(refs, g, rest, before);
        every_trusted_reference_is_an_edge(refs, path[n - 1]);
        assert(under(edges_of(refs), path[n - 1]).contains((path[n], c)));
        let cs = some.push(c);
        assert forall|k: int| 0 <= k < cs.len() implies refs.contains(
            (path[k], path[k + 1], #[trigger] cs[k]),
        ) && cs[k] >= 6 && conf <= cs[k] by {
            if k < n - 1 {
                assert(some[k] == cs[k]);
                assert(rest[k] == path[k] && rest[k + 1] == path[k + 1]);
            }
        }
        assert(cs[n - 1] == c);
        if conf != 10 && conf != c {
            let k = choose|k: int| 0 <= k < some.len() && some[k] == before;
            assert(cs[k] == conf);
        }
        cs
    }
}

/// The operations that a path has on a table are those of its symbols' accesses.
pub proof fn operations_are_those_accessed(
    refs: Seq<(i64, i64, u8)>,
    access: Seq<(i64, i64, Seq<char>)>,
    symbols: Seq<SymbolRowView>,
    path: Seq<i64>,
    t: i64,
    op: Seq<char>,
)
    ensures
        ops_on(accesses_on(graph_of(refs, access, symbols), path), t).contains(op) <==> exists|
            k: int,
        |
            0 <= k < path.len() && access.contains((#[trigger] path[k], t, op)),
{
    let g = graph_of(refs, access, symbols);
    let f = |s: i64| touched(g, s);
    flat_members(path, f, (t, op));
    assert forall|k: int| 0 <= k < path.len() implies (f(#[trigger] path[k]).contains((t, op))
        <==> access.contains((path[k], t, op))) by {
        every_access_is_kept(access, path[k]);
        assert(f(path[k]) == under(accesses_of(access), path[k]));
        assert(under(accesses_of(access), path[k]).contains((t, op)) <==> access.contains(
            (path[k], t, op),
        ));
    }
    if accesses_on(g, path).contains((t, op)) {
        let k = choose|k: int| 0 <= k < path.len() && f(#[trigger] path[k]).contains((t, op));
        assert(access.contains((path[k], t, op)));
    }
}

/// An entry point without a symbol has no traces; one on a method has those of the method;
/// one on a type with methods has those of each of its methods, and no others.
pub proof fn entries_are_traced_from_their_methods(
    g: GraphView,
    id: i64,
    sym: i64,
    x: (i64, TracePathView),
)
    ensures
        traces_of(g, (id, None)).len() == 0,
        under(g.members, sym).len() == 0 ==> (traces_of(g, (id, Some(sym))).contains(x) <==> x.0
            == id && walk_of(g, sym).contains(x.1)),
        under(g.members, sym).len() > 0 ==> (traces_of(g, (id, Some(sym))).contains(x) <==> x.0
            == id && exists|k: int|
            0 <= k < under(g.members, sym).len() && walk_of(
                g,
                #[trigger] under(g.members, sym)[k],
            ).contains(x.1)),
{
    let roots = roots_of(g, sym);
    let f = |root: i64| walk_of(g, root).map_values(|p: TracePathView| (id, p));
    flat_members(roots, f, x);
    assert forall|r: i64| #[trigger] f(r).contains(x) <==> x.0 == id && walk_of(g, r).contains(
        x.1,
    ) by {
        let w = walk_of(g, r);
        let fr = w.map_values(|p: TracePathView| (id, p));
        assert(f(r) == fr);
        if fr.contains(x) {
            let k = choose|k: int| 0 <= k < fr.len() && fr[k] == x;
            assert(w[k] == x.1);
        }
        if x.0 == id && w.contains(x.1) {
            let k = choose|k: int| 0 <= k < w.len() && w[k] == x.1;
            assert(fr[k] == (id, w[k]));
        }
    }
    if under(g.members, sym).len() == 0 {
        assert(roots == seq![sym]);
        assert(roots[0] == sym);
        assert(f(sym).contains(x) <==> f(roots[0]).contains(x));
    } else {
        assert(roots == under(g.members, sym));
        if flat(roots, f).contains(x) {
            let k = choose|k: int| 0 <= k < roots.len() && f(#[trigger] roots[k]).contains(x);
            assert(walk_of(g, under(g.members, sym)[k]).contains(x.1));
        }
        if x.0 == id && exists|k: int|
            0 <= k < under(g.members, sym).len() && walk_of(
                g,
                #[trigger] under(g.members, sym)[k],
            ).contains(x.1) {
            let k = choose|k: int|
                0 <= k < under(g.members, sym).len() && walk_of(
                    g,
                    #[trigger] under(g.members, sym)[k],
                ).contains(x.1);
            assert(f(roots[k]).contains(x));
        }
    }
}

/// The bounds of a walk.
pub proof fn walks_are_bounded()
    ensures
        MAX_DEPTH == 6,
        MAX_PATHS_PER_ENTRY == 24,
{
}

/// Whether a row accesses the table at the symbol.
pub open spec fn accesses_at(access: Seq<(i64, i64, Seq<char>)>, s: i64, t: i64) -> bool {
    exists|i: int| 0 <= i < access.len() && (#[trigger] access[i]).0 == s && access[i].1 == t
}

proof fn touched_tables(access: Seq<(i64, i64, Seq<char>)>, g: GraphView, s: i64, t: i64)
    requires
        g.tables == accesses_of(access),
    ensures
        of_table(touched(g, s), t) <==> accesses_at(access, s, t),
        accesses_at(access, s, t) ==> touched(g, s).len() > 0,
{
    every_access_is_kept(access, s);
    let a = touched(g, s);
    assert(a =~= under(accesses_of(access), s));
    if of_table(a, t) {
        let i = choose|i: int| 0 <= i < a.len() && (#[trigger] a[i]).0 == t;
        assert(a.contains(a[i]));
        assert(under(accesses_of(access), s).contains((t, a[i].1)));
        assert(access.contains((s, t, a[i].1)));
        let k = choose|k: int| 0 <= k < access.len() && access[k] == (s, t, a[i].1);
        assert(access[k].0 == s && access[k].1 == t);
    }
    if accesses_at(access, s, t) {
        let k = choose|k: int|
            0 <= k < access.len() && (#[trigger] access[k]).0 == s && access[k].1 == t;
        assert(access.contains((s, t, access[k].2)));
        assert(under(accesses_of(access), s).contains((t, access[k].2)));
        let i = choose|i: int| 0 <= i < a.len() && a[i] == (t, access[k].2);
        assert(a[i].0 == t);
    }
}

/// A path goes through no symbol twice and ends at the first one that accesses a table. The
/// paths come shortest first, and each of them reaches a table that no earlier one reaches.
pub proof fn paths_end_at_their_first_table(
    refs: Seq<(i64, i64, u8)>,
    access: Seq<(i64, i64, Seq<char>)>,
    symbols: Seq<SymbolRowView>,
    root: i64,
    i: int,
    j: int,
)
    requires
        0 <= i < j < walk_of(graph_of(refs, access, symbols), root).len(),
    ensures
        ({
            let r = walk_of(graph_of(refs, access, symbols), root);
            let p = r[j].symbols;
            &&& r[i].symbols.len() <= p.len()
            &&& forall|a: int, b: int|
                0 <= a < b < p.len() ==> #[trigger] p[a] != #[trigger] p[b]
            &&& forall|k: int, t: i64|
                0 <= k < p.len() - 1 ==> !#[trigger] accesses_at(access, p[k], t)
            &&& exists|t: i64| #[trigger]
                accesses_at(access, p.last(), t) && !accesses_at(access, r[i].symbols.last(), t)
        }),
{
    let g = graph_of(refs, access, symbols);
    let r = walk_of(g, root);
    walk_is_sound(g, root);
    let p = r[j].symbols;
    assert(is_trace(g, root, r[j]));
    assert forall|k: int, t: i64| 0 <= k < p.len() - 1 implies !#[trigger] accesses_at(
        access,
        p[k],
        t,
    ) by {
        touched_tables(access, g, p[k], t);
    }
    assert(explains(g, r, j));
    let t = choose|t: i64| #[trigger]
        of_table(touched(g, r[j].symbols.last()), t) && forall|i: int|
            0 <= i < j ==> !of_table(touched(g, (#[trigger] r[i]).symbols.last()), t);
    touched_tables(access, g, p.last(), t);
    touched_tables(access, g, r[i].symbols.last(), t);
    assert(accesses_at(access, p.last(), t));
}

} // verus!

//! Entrypoint traces.
//!
//! For each entrypoint, walk the call graph until reaching code that touches a
//! table. The resulting path plus table set is what makes a capability legible:
//! "this Dubbo method ends up writing `t_coupon_enterprise`" is the single most
//! useful fact about it, and nothing in the source states it directly.
use crate::idmap::IdMap;
use crate::lists::{ascending, flat, put_sorted, take_all, take_next};
use crate::text::same;
use vstd::prelude::*;

verus! {

/// How far to follow calls from an entrypoint. Legacy service methods nest
/// deeply, but past this depth paths are dominated by shared utilities and stop
/// describing the capability.
pub const MAX_DEPTH: usize = 6;

/// Cap on paths recorded per entrypoint, so one fan-out-heavy controller cannot
/// dominate the database.
pub const MAX_PATHS_PER_ENTRY: usize = 24;

/// Only edges the resolver was reasonably sure about are followed: a weaker one is a
/// guess from a unique method name and would invent plausible-looking paths. In
/// tenths, as all confidences here.
pub const MIN_CONFIDENCE: u8 = 6;

/// One path from an entrypoint to table-touching code.
#[derive(Debug)]
pub struct TracePath {
    /// Symbol ids from the entrypoint to the terminal symbol.
    pub symbols: Vec<i64>,
    /// Human-readable FQNs for the same hops.
    pub labels: Vec<String>,
    /// Lowest confidence along the path: how much to trust the whole chain.
    pub min_confidence: u8,
}

/// The content of a [`TracePath`].
#[verifier::ext_equal]
pub struct TracePathView {
    pub symbols: Seq<i64>,
    pub labels: Seq<Seq<char>>,
    pub min_confidence: u8,
}

impl DeepView for TracePath {
    type V = TracePathView;

    open spec fn deep_view(&self) -> TracePathView {
        TracePathView {
            symbols: self.symbols.deep_view(),
            labels: self.labels.deep_view(),
            min_confidence: self.min_confidence,
        }
    }
}

impl Clone for TracePath {
    fn clone(&self) -> (r: Self)
        ensures
            r.deep_view() == self.deep_view(),
    {
        TracePath {
            symbols: self.symbols.clone(),
            labels: self.labels.clone(),
            min_confidence: self.min_confidence,
        }
    }
}

/// The call graph of a project.
pub struct Graph {
    /// src symbol → (dst symbol, confidence).
    pub edges: IdMap<Vec<(i64, u8)>>,
    /// Symbol → tables it accesses, with the operation.
    pub tables: IdMap<Vec<(i64, String)>>,
    /// Symbol → FQN or name, for labels.
    pub names: IdMap<String>,
    /// Class symbol → its method symbols, to enter a type's behaviour.
    pub members: IdMap<Vec<i64>>,
}

/// The content of a [`Graph`].
#[verifier::ext_equal]
pub struct GraphView {
    pub edges: Map<i64, Seq<(i64, u8)>>,
    pub tables: Map<i64, Seq<(i64, Seq<char>)>>,
    pub names: Map<i64, Seq<char>>,
    pub members: Map<i64, Seq<i64>>,
}

impl DeepView for Graph {
    type V = GraphView;

    open spec fn deep_view(&self) -> GraphView {
        GraphView {
            edges: self.edges.deep_view(),
            tables: self.tables.deep_view(),
            names: self.names.deep_view(),
            members: self.members.deep_view(),
        }
    }
}

/// A stored symbol, as far as traces are concerned.
#[derive(Debug)]
pub struct SymbolRow {
    pub id: i64,
    /// FQN, or name where there is none.
    pub label: String,
    pub kind: String,
    pub parent: Option<i64>,
}

/// The content of a [`SymbolRow`].
#[verifier::ext_equal]
pub struct SymbolRowView {
    pub id: i64,
    pub label: Seq<char>,
    pub kind: Seq<char>,
    pub parent: Option<i64>,
}

impl DeepView for SymbolRow {
    type V = SymbolRowView;

    open spec fn deep_view(&self) -> SymbolRowView {
        SymbolRowView {
            id: self.id,
            label: self.label.deep_view(),
            kind: self.kind.deep_view(),
            parent: self.parent.deep_view(),
        }
    }
}

impl Clone for SymbolRow {
    fn clone(&self) -> (r: Self)
        ensures
            r.deep_view() == self.deep_view(),
    {
        SymbolRow {
            id: self.id,
            label: self.label.clone(),
            kind: self.kind.clone(),
            parent: self.parent.clone(),
        }
    }
}

// ---------------------------------------------------------------------------
// The graph

/// `m` with `v` added to what stands under `k`.
pub open spec fn added<V>(m: Map<i64, Seq<V>>, k: i64, v: V) -> Map<i64, Seq<V>> {
    m.insert(
        k,
        (if m.dom().contains(k) {
            m[k]
        } else {
            Seq::empty()
        }).push(v),
    )
}

pub open spec fn edges_of(refs: Seq<(i64, i64, u8)>) -> Map<i64, Seq<(i64, u8)>>
    decreases refs.len(),
{
    if refs.len() == 0 {
        Map::empty()
    } else {
        let before = edges_of(refs.drop_last());
        let r = refs.last();
        if r.2 >= MIN_CONFIDENCE {
            added(before, r.0, (r.1, r.2))
        } else {
            before
        }
    }
}

pub open spec fn accesses_of(access: Seq<(i64, i64, Seq<char>)>) -> Map<i64, Seq<(i64, Seq<char>)>>
    decreases access.len(),
{
    if access.len() == 0 {
        Map::empty()
    } else {
        let a = access.last();
        added(accesses_of(access.drop_last()), a.0, (a.1, a.2))
    }
}

pub open spec fn names_of(symbols: Seq<SymbolRowView>) -> Map<i64, Seq<char>>
    decreases symbols.len(),
{
    if symbols.len() == 0 {
        Map::empty()
    } else {
        names_of(symbols.drop_last()).insert(symbols.last().id, symbols.last().label)
    }
}

pub open spec fn members_of(symbols: Seq<SymbolRowView>) -> Map<i64, Seq<i64>>
    decreases symbols.len(),
{
    if symbols.len() == 0 {
        Map::empty()
    } else {
        let before = members_of(symbols.drop_last());
        let s = symbols.last();
        if s.kind == "method"@ && s.parent is Some {
            added(before, s.parent->0, s.id)
        } else {
            before
        }
    }
}

fn load_edges(refs: &Vec<(i64, i64, u8)>) -> (r: IdMap<Vec<(i64, u8)>>)
    ensures
        r.deep_view() == edges_of(refs.deep_view()),
{
    let ghost d = refs.deep_view();
    let mut out: IdMap<Vec<(i64, u8)>> = IdMap::new();
    let mut i: usize = 0;
    while i < refs.len()
        invariant
            i <= refs.len(),
            d == refs.deep_view(),
            out.deep_view() == edges_of(d.take(i as int)),
        decreases refs.len() - i,
    {
        broadcast use take_next;

        assert(d[i as int] == refs@[i as int]);
        assert(d.take(i + 1).last() == d[i as int]);
        let (s, t, c) = refs[i];
        if c >= MIN_CONFIDENCE {
            let mut v = match out.get(&s) {
                Some(v) => copy_edges(v),
                None => Vec::new(),
            };
            let ghost before = v.deep_view();
            assert(!out.deep_view().dom().contains(s) ==> before =~= Seq::<(i64, u8)>::empty());
            v.push((t, c));
            assert(v.deep_view() =~= before.push((t, c)));
            out.insert(s, v);
        }
        i += 1;
    }
    broadcast use take_all;

    assert(d.take(i as int) == d);
    out
}

fn copy_edges(v: &Vec<(i64, u8)>) -> (r: Vec<(i64, u8)>)
    ensures
        r.deep_view() == v.deep_view(),
{
    let mut out: Vec<(i64, u8)> = Vec::new();
    let mut i: usize = 0;
    while i < v.len()
        invariant
            i <= v.len(),
            out.deep_view() == v.deep_view().take(i as int),
        decreases v.len() - i,
    {
        let ghost before = out.deep_view();
        out.push(v[i]);
        assert(out.deep_view() =~= before.push(v.deep_view()[i as int]));
        i += 1;
        assert(out.deep_view() =~= v.deep_view().take(i as int));
    }
    assert(out.deep_view() =~= v.deep_view());
    out
}

fn copy_accesses(v: &Vec<(i64, String)>) -> (r: Vec<(i64, String)>)
    ensures
        r.deep_view() == v.deep_view(),
{
    let mut out: Vec<(i64, String)> = Vec::new();
    let mut i: usize = 0;
    while i < v.len()
        invariant
            i <= v.len(),
            out.deep_view() == v.deep_view().take(i as int),
        decreases v.len() - i,
    {
        let ghost before = out.deep_view();
        out.push((v[i].0, v[i].1.clone()));
        assert(out.deep_view() =~= before.push(v.deep_view()[i as int]));
        i += 1;
        assert(out.deep_view() =~= v.deep_view().take(i as int));
    }
    assert(out.deep_view() =~= v.deep_view());
    out
}

fn load_accesses(access: &Vec<(i64, i64, String)>) -> (r: IdMap<Vec<(i64, String)>>)
    ensures
        r.deep_view() == accesses_of(access.deep_view()),
{
    let ghost d = access.deep_view();
    let mut out: IdMap<Vec<(i64, String)>> = IdMap::new();
    let mut i: usize = 0;
    while i < access.len()
        invariant
            i <= access.len(),
            d == access.deep_view(),
            out.deep_view() == accesses_of(d.take(i as int)),
        decreases access.len() - i,
    {
        broadcast use take_next;

        assert(d[i as int] == access@[i as int].deep_view());
        assert(d.take(i + 1).last() == d[i as int]);
        let s: i64 = access[i].0;
        let mut v = match out.get(&s) {
            Some(v) => copy_accesses(v),
            None => Vec::new(),
        };
        let ghost before = v.deep_view();
        assert(!out.deep_view().dom().contains(s) ==> before =~= Seq::<(i64, Seq<char>)>::empty());
        v.push((access[i].1, access[i].2.clone()));
        assert(v.deep_view() =~= before.push((access@[i as int].1, access@[i as int].2@)));
        out.insert(s, v);
        i += 1;
    }
    broadcast use take_all;

    assert(d.take(i as int) == d);
    out
}

/// The graph of the resolved references, the table accesses and the symbols.
pub fn load_graph(
    refs: &Vec<(i64, i64, u8)>,
    access: &Vec<(i64, i64, String)>,
    symbols: &Vec<SymbolRow>,
) -> (r: Graph)
    ensures
        r.deep_view() == (GraphView {
            edges: edges_of(refs.deep_view()),
            tables: accesses_of(access.deep_view()),
            names: names_of(symbols.deep_view()),
            members: members_of(symbols.deep_view()),
        }),
{
    let ghost d = symbols.deep_view();
    let mut names: IdMap<String> = IdMap::new();
    let mut members: IdMap<Vec<i64>> = IdMap::new();
    let mut i: usize = 0;
    while i < symbols.len()
        invariant
            i <= symbols.len(),
            d == symbols.deep_view(),
            names.deep_view() == names_of(d.take(i as int)),
            members.deep_view() == members_of(d.take(i as int)),
        decreases symbols.len() - i,
    {
        broadcast use take_next;

        assert(d[i as int] == symbols@[i as int].deep_view());
        assert(d.take(i + 1).last() == d[i as int]);
        let s = &symbols[i];
        names.insert(s.id, s.label.clone());
        if same(s.kind.as_str(), "method") {
            match s.parent {
                Some(p) => {
                    let mut v: Vec<i64> = match members.get(&p) {
                        Some(v) => v.clone(),
                        None => Vec::new(),
                    };
                    let ghost before = v.deep_view();
                    assert(!members.deep_view().dom().contains(p) ==> before =~= Seq::<i64>::empty());
                    v.push(s.id);
                    assert(v.deep_view() =~= before.push(s.id));
                    members.insert(p, v);
                },
                None => {},
            }
        }
        i += 1;
    }
    broadcast use take_all;

    assert(d.take(i as int) == d);
    Graph { edges: load_edges(refs), tables: load_accesses(access), names, members }
}

// ---------------------------------------------------------------------------
// The walk

/// What a walk has so far.
#[verifier::ext_equal]
pub struct WalkState {
    /// Symbols that were reached. A shared helper is expanded once per walk.
    pub seen: Set<i64>,
    /// Tables already explained by a shorter path.
    pub covered: Set<i64>,
    pub out: Seq<TracePathView>,
    /// The paths to go on from, one hop deeper, each with its lowest confidence.
    pub next: Seq<(Seq<i64>, u8)>,
}

/// The tables that a symbol touches.
pub open spec fn touched(g: GraphView, s: i64) -> Seq<(i64, Seq<char>)> {
    if g.tables.dom().contains(s) {
        g.tables[s]
    } else {
        Seq::empty()
    }
}

pub open spec fn outgoing(g: GraphView, s: i64) -> Seq<(i64, u8)> {
    if g.edges.dom().contains(s) {
        g.edges[s]
    } else {
        Seq::empty()
    }
}

/// Whether one of the accesses is of table `t`.
pub open spec fn of_table(accesses: Seq<(i64, Seq<char>)>, t: i64) -> bool {
    exists|i: int| 0 <= i < accesses.len() && (#[trigger] accesses[i]).0 == t
}

/// Whether one of the accesses is of a table not yet covered.
pub open spec fn new_table(accesses: Seq<(i64, Seq<char>)>, covered: Set<i64>) -> bool {
    exists|i: int| 0 <= i < accesses.len() && !covered.contains((#[trigger] accesses[i]).0)
}

/// `covered` with the tables of the accesses.
pub open spec fn covering(accesses: Seq<(i64, Seq<char>)>, covered: Set<i64>) -> Set<i64>
    decreases accesses.len(),
{
    if accesses.len() == 0 {
        covered
    } else {
        covering(accesses.drop_last(), covered).insert(accesses.last().0)
    }
}

pub open spec fn name_of(g: GraphView, s: i64) -> Seq<char> {
    if g.names.dom().contains(s) {
        g.names[s]
    } else {
        Seq::empty()
    }
}

pub open spec fn found_path(g: GraphView, path: Seq<i64>, conf: u8) -> TracePathView {
    TracePathView {
        symbols: path,
        labels: path.map_values(|s: i64| name_of(g, s)),
        min_confidence: conf,
    }
}

/// Goes on from the path along the edges, to the symbols that were not reached yet.
pub open spec fn expanded(
    st: WalkState,
    edges: Seq<(i64, u8)>,
    path: Seq<i64>,
    conf: u8,
) -> WalkState
    decreases edges.len(),
{
    if edges.len() == 0 {
        st
    } else {
        let before = expanded(st, edges.drop_last(), path, conf);
        let (dst, c) = edges.last();
        if before.seen.contains(dst) {
            before
        } else {
            WalkState {
                seen: before.seen.insert(dst),
                next: before.next.push(
                    (
                        path.push(dst),
                        if c < conf {
                            c
                        } else {
                            conf
                        },
                    ),
                ),
                ..before
            }
        }
    }
}

/// Looks at the tip of a path. Reaching table access ends the branch: deeper hops would
/// be inside the persistence layer, not part of the business flow.
pub open spec fn visited(g: GraphView, st: WalkState, path: Seq<i64>, conf: u8) -> WalkState {
    let accesses = touched(g, path.last());
    if st.out.len() >= MAX_PATHS_PER_ENTRY {
        st
    } else if new_table(accesses, st.covered) {
        WalkState {
            covered: covering(accesses, st.covered),
            out: st.out.push(found_path(g, path, conf)),
            ..st
        }
    } else if accesses.len() > 0 || path.len() >= MAX_DEPTH {
        st
    } else {
        expanded(st, outgoing(g, path.last()), path, conf)
    }
}

/// Looks at each path of a level.
pub open spec fn visited_all(
    g: GraphView,
    st: WalkState,
    level: Seq<(Seq<i64>, u8)>,
) -> WalkState
    decreases level.len(),
{
    if level.len() == 0 {
        st
    } else {
        visited(g, visited_all(g, st, level.drop_last()), level.last().0, level.last().1)
    }
}

/// Level after level, from the level of paths of `depth` hops on.
pub open spec fn walked(g: GraphView, st: WalkState, level: Seq<(Seq<i64>, u8)>, depth: nat) -> Seq<
    TracePathView,
>
    decreases MAX_DEPTH - depth,
{
    let after = visited_all(g, WalkState { next: Seq::empty(), ..st }, level);
    if depth >= MAX_DEPTH {
        after.out
    } else {
        walked(g, after, after.next, depth + 1)
    }
}

pub open spec fn walk_of(g: GraphView, root: i64) -> Seq<TracePathView> {
    walked(
        g,
        WalkState {
            seen: set![root],
            covered: Set::empty(),
            out: Seq::empty(),
            next: Seq::empty(),
        },
        seq![(seq![root], 10u8)],
        1,
    )
}

/// Whether the accesses hold a table not yet covered.
fn has_new_table(accesses: &Vec<(i64, String)>, covered: &IdMap<bool>) -> (r: bool)
    ensures
        r == new_table(accesses.deep_view(), covered.deep_view().dom()),
{
    let ghost a = accesses.deep_view();
    let mut i: usize = 0;
    while i < accesses.len()
        invariant
            i <= accesses.len(),
            a == accesses.deep_view(),
            forall|j: int|
                0 <= j < i ==> covered.deep_view().dom().contains((#[trigger] a[j]).0),
        decreases accesses.len() - i,
    {
        assert(a[i as int].0 == accesses@[i as int].0);
        if !covered.contains_key(&accesses[i].0) {
            return true;
        }
        i += 1;
    }
    false
}

fn cover(accesses: &Vec<(i64, String)>, covered: &mut IdMap<bool>)
    ensures
        final(covered).deep_view().dom() == covering(
            accesses.deep_view(),
            old(covered).deep_view().dom(),
        ),
{
    let ghost a = accesses.deep_view();
    let ghost start = covered.deep_view().dom();
    let mut i: usize = 0;
    assert(a.take(0) =~= Seq::empty());
    while i < accesses.len()
        invariant
            i <= accesses.len(),
            a == accesses.deep_view(),
            covered.deep_view().dom() == covering(a.take(i as int), start),
        decreases accesses.len() - i,
    {
        broadcast use take_next;

        assert(a[i as int].0 == accesses@[i as int].0);
        assert(a.take(i + 1).last() == a[i as int]);
        covered.insert(accesses[i].0, true);
        assert(covered.deep_view().dom() =~= covering(a.take(i + 1), start));
        i += 1;
    }
    broadcast use take_all;

    assert(a.take(i as int) == a);
}

fn label_path(g: &Graph, path: &Vec<i64>) -> (r: Vec<String>)
    ensures
        r.deep_view() == path@.map_values(|s: i64| name_of(g.deep_view(), s)),
{
    let ghost gv = g.deep_view();
    let ghost all = path@.map_values(|s: i64| name_of(gv, s));
    let mut out: Vec<String> = Vec::new();
    let mut i: usize = 0;
    while i < path.len()
        invariant
            i <= path.len(),
            gv == g.deep_view(),
            all == path@.map_values(|s: i64| name_of(gv, s)),
            out.deep_view() == all.take(i as int),
        decreases path.len() - i,
    {
        let ghost before = out.deep_view();
        let label = match g.names.get(&path[i]) {
            Some(n) => n.clone(),
            None => String::new(),
        };
        let ghost x = label@;
        assert(x =~= all[i as int]);
        out.push(label);
        i += 1;
        assert(out.deep_view() =~= before.push(x));
        assert(out.deep_view() =~= all.take(i as int));
    }
    assert(out.deep_view() =~= all);
    out
}

/// The paths of a level.
pub open spec fn level_view(level: Seq<(Vec<i64>, u8)>) -> Seq<(Seq<i64>, u8)> {
    level.map_values(|e: (Vec<i64>, u8)| (e.0@, e.1))
}

fn expand(
    edges: &Vec<(i64, u8)>,
    path: &Vec<i64>,
    conf: u8,
    seen: &mut IdMap<bool>,
    next: &mut Vec<(Vec<i64>, u8)>,
    Ghost(st): Ghost<WalkState>,
)
    requires
        st.seen == old(seen).deep_view().dom(),
        st.next == level_view(old(next)@),
    ensures
        ({
            let after = expanded(st, edges.deep_view(), path@, conf);
            &&& after.seen == final(seen).deep_view().dom()
            &&& after.next == level_view(final(next)@)
            &&& after.out == st.out
            &&& after.covered == st.covered
        }),
{
    let ghost e = edges.deep_view();
    let mut i: usize = 0;
    assert(e.take(0) =~= Seq::empty());
    while i < edges.len()
        invariant
            i <= edges.len(),
            e == edges.deep_view(),
            expanded(st, e.take(i as int), path@, conf).seen == seen.deep_view().dom(),
            expanded(st, e.take(i as int), path@, conf).next == level_view(next@),
            expanded(st, e.take(i as int), path@, conf).out == st.out,
            expanded(st, e.take(i as int), path@, conf).covered == st.covered,
        decreases edges.len() - i,
    {
        broadcast use take_next;

        let (dst, c) = edges[i];
        let ghost before = level_view(next@);
        assert(e[i as int] == edges@[i as int]);
        assert(e.take(i + 1).last() == e[i as int]);
        if !seen.contains_key(&dst) {
            let mut longer: Vec<i64> = path.clone();
            longer.push(dst);
            assert(longer@ =~= path@.push(dst));
            let least: u8 = if c < conf {
                c
            } else {
                conf
            };
            next.push((longer, least));
            seen.insert(dst, true);
            proof {
                assert(level_view(next@) =~= before.push((path@.push(dst), least)));
                assert(seen.deep_view().dom() =~= expanded(st, e.take(i + 1), path@, conf).seen);
            }
        }
        i += 1;
    }
    broadcast use take_all;

    assert(e.take(i as int) == e);
}

/// Breadth-first walk from `root`, recording paths that reach table access.
///
/// Breadth-first rather than depth-first so that the shortest route to each
/// table is the one reported: that is the path a reader should follow.
pub fn walk(g: &Graph, root: i64) -> (r: Vec<TracePath>)
    ensures
        r.deep_view() == walk_of(g.deep_view(), root),
{
    let ghost gv = g.deep_view();
    let mut out: Vec<TracePath> = Vec::new();
    let mut covered: IdMap<bool> = IdMap::new();
    let mut seen: IdMap<bool> = IdMap::new();
    seen.insert(root, true);
    let mut first: Vec<i64> = Vec::new();
    first.push(root);
    let mut level: Vec<(Vec<i64>, u8)> = Vec::new();
    level.push((first, 10));
    let mut depth: usize = 1;
    let ghost mut st = WalkState {
        seen: seen.deep_view().dom(),
        covered: covered.deep_view().dom(),
        out: out.deep_view(),
        next: Seq::empty(),
    };
    proof {
        assert(st.seen =~= set![root]);
        assert(st.covered =~= Set::empty());
        assert(st.out =~= Seq::empty());
        assert(first@ =~= seq![root]);
        assert(level_view(level@) =~= seq![(seq![root], 10u8)]);
    }
    loop
        invariant
            1 <= depth <= MAX_DEPTH,
            gv == g.deep_view(),
            st.seen == seen.deep_view().dom(),
            st.covered == covered.deep_view().dom(),
            st.out == out.deep_view(),
            forall|j: int| 0 <= j < level.len() ==> (#[trigger] level@[j]).0.len() > 0,
            walk_of(gv, root) == walked(gv, st, level_view(level@), depth as nat),
        decreases MAX_DEPTH - depth,
    {
        let ghost lv = level_view(level@);
        let ghost start = WalkState { next: Seq::empty(), ..st };
        let mut next: Vec<(Vec<i64>, u8)> = Vec::new();
        let ghost mut now = start;
        let mut i: usize = 0;
        proof {
            assert(lv.take(0) =~= Seq::empty());
            assert(level_view(next@) =~= Seq::empty());
        }
        while i < level.len()
            invariant
                i <= level.len(),
                gv == g.deep_view(),
                lv == level_view(level@),
                now == visited_all(gv, start, lv.take(i as int)),
                now.seen == seen.deep_view().dom(),
                now.covered == covered.deep_view().dom(),
                now.out == out.deep_view(),
                now.next == level_view(next@),
                forall|j: int| 0 <= j < level.len() ==> (#[trigger] level@[j]).0.len() > 0,
                forall|j: int| 0 <= j < next.len() ==> (#[trigger] next@[j]).0.len() > 0,
            decreases level.len() - i,
        {
            broadcast use take_next;

            let path = &level[i].0;
            let conf: u8 = level[i].1;
            let ghost pv = path@;
            proof {
                assert(lv[i as int] == (pv, conf));
                assert(lv.take(i + 1).last() == lv[i as int]);
                assert(level@[i as int].0.len() > 0);
            }
            if out.len() < MAX_PATHS_PER_ENTRY {
                let tip: i64 = path[path.len() - 1];
                let ghost before = out.deep_view();
                let (touches, hit): (bool, bool) = match g.tables.get(&tip) {
                    Some(v) => (v.len() > 0, has_new_table(v, &covered)),
                    None => (false, false),
                };
                if hit {
                    match g.tables.get(&tip) {
                        Some(v) => {
                            cover(v, &mut covered);
                        },
                        None => {},
                    }
                    let p = TracePath {
                        labels: label_path(g, path),
                        symbols: path.clone(),
                        min_confidence: conf,
                    };
                    let ghost x = p.deep_view();
                    assert(x.symbols =~= pv);
                    assert(x =~= found_path(gv, pv, conf));
                    out.push(p);
                    assert(out.deep_view() =~= before.push(x));
                } else if !touches && path.len() < MAX_DEPTH {
                    match g.edges.get(&tip) {
                        Some(v) => {
                            expand(v, path, conf, &mut seen, &mut next, Ghost(now));
                            proof {
                                long_paths(now, v.deep_view(), pv, conf);
                                let more = expanded(now, v.deep_view(), pv, conf).next;
                                assert forall|j: int| 0 <= j < next.len() implies (
                                #[trigger] next@[j]).0.len() > 0 by {
                                    assert(level_view(next@)[j] == (next@[j].0@, next@[j].1));
                                    assert(more[j].0.len() > 0);
                                }
                            }
                        },
                        None => {},
                    }
                }
            }
            proof {
                now = visited(gv, now, pv, conf);
                assert(now == visited_all(gv, start, lv.take(i + 1)));
            }
            i += 1;
        }
        broadcast use take_all;

        assert(lv.take(i as int) == lv);
        if depth >= MAX_DEPTH {
            return out;
        }
        proof {
            st = now;
        }
        level = next;
        depth += 1;
    }
}

proof fn long_paths(st: WalkState, edges: Seq<(i64, u8)>, path: Seq<i64>, conf: u8)
    requires
        forall|j: int| 0 <= j < st.next.len() ==> (#[trigger] st.next[j]).0.len() > 0,
    ensures
        forall|j: int|
            0 <= j < expanded(st, edges, path, conf).next.len() ==> (#[trigger] expanded(
                st,
                edges,
                path,
                conf,
            ).next[j]).0.len() > 0,
    decreases edges.len(),
{
    if edges.len() > 0 {
        long_paths(st, edges.drop_last(), path, conf);
        let before = expanded(st, edges.drop_last(), path, conf).next;
        let after = expanded(st, edges, path, conf).next;
        assert forall|j: int| 0 <= j < after.len() implies (#[trigger] after[j]).0.len() > 0 by {
            if j < before.len() {
                assert(before[j].0.len() > 0);
            }
        }
    }
}

// ---------------------------------------------------------------------------
// Tables along a path

/// All accesses along a path.
pub open spec fn accesses_on(g: GraphView, symbols: Seq<i64>) -> Seq<(i64, Seq<char>)> {
    flat(symbols, |s: i64| touched(g, s))
}

/// The operations on a table.
pub open spec fn ops_on(accesses: Seq<(i64, Seq<char>)>, t: i64) -> Set<Seq<char>> {
    Set::new(|op: Seq<char>| accesses.contains((t, op)))
}

/// Whether the map gives each table of the accesses, with its operations in order.
pub open spec fn tables_map(
    accesses: Seq<(i64, Seq<char>)>,
    m: Map<i64, Seq<Seq<char>>>,
) -> bool {
    &&& forall|t: i64| #[trigger] m.dom().contains(t) <==> of_table(accesses, t)
    &&& forall|t: i64|
        m.dom().contains(t) ==> crate::lists::lists_set(#[trigger] m[t], ops_on(accesses, t))
}

proof fn ops_grow(a: Seq<(i64, Seq<char>)>, x: (i64, Seq<char>), t: i64)
    ensures
        ops_on(a.push(x), t) == (if t == x.0 {
            ops_on(a, t).insert(x.1)
        } else {
            ops_on(a, t)
        }),
        of_table(a.push(x), t) <==> of_table(a, t) || t == x.0,
{
    let more = a.push(x);
    assert forall|op: Seq<char>| more.contains((t, op)) <==> a.contains((t, op)) || (t, op)
        == x by {
        if a.contains((t, op)) {
            let i = choose|i: int| 0 <= i < a.len() && a[i] == (t, op);
            assert(more[i] == (t, op));
        }
        if (t, op) == x {
            assert(more[a.len() as int] == x);
        }
        if more.contains((t, op)) && (t, op) != x {
            let i = choose|i: int| 0 <= i < more.len() && more[i] == (t, op);
            assert(a[i] == (t, op));
        }
    }
    assert(ops_on(more, t) =~= (if t == x.0 {
        ops_on(a, t).insert(x.1)
    } else {
        ops_on(a, t)
    }));
    if of_table(a, t) {
        let i = choose|i: int| 0 <= i < a.len() && (#[trigger] a[i]).0 == t;
        assert(more[i].0 == t);
    }
    if t == x.0 {
        assert(more[a.len() as int].0 == t);
    }
    if of_table(more, t) && t != x.0 {
        let i = choose|i: int| 0 <= i < more.len() && (#[trigger] more[i]).0 == t;
        assert(a[i].0 == t);
    }
}

/// Adds one access to the map.
fn add_op(
    m: &mut IdMap<Vec<String>>,
    table: i64,
    op: &String,
    Ghost(a): Ghost<Seq<(i64, Seq<char>)>>,
)
    requires
        tables_map(a, old(m).deep_view()),
    ensures
        tables_map(a.push((table, op@)), final(m).deep_view()),
{
    let ghost before = m.deep_view();
    let ghost more = a.push((table, op@));
    let mut ops = match m.get(&table) {
        Some(v) => v.clone(),
        None => Vec::new(),
    };
    proof {
        if !before.dom().contains(table) {
            assert(ops.deep_view() =~= Seq::<Seq<char>>::empty());
            assert forall|x: Seq<char>| !ops_on(a, table).contains(x) by {
                if a.contains((table, x)) {
                    let i = choose|i: int| 0 <= i < a.len() && a[i] == (table, x);
                    assert(a[i].0 == table);
                }
            }
        } else {
            assert(crate::lists::lists_set(before[table], ops_on(a, table)));
        }
        assert(ascending(ops.deep_view()));
    }
    let ghost was = ops.deep_view();
    put_sorted(&mut ops, op.clone());
    let ghost now = ops.deep_view();
    m.insert(table, ops);
    proof {
        let after = m.deep_view();
        assert forall|t: i64| #[trigger] after.dom().contains(t) <==> of_table(more, t) by {
            ops_grow(a, (table, op@), t);
            assert(before.dom().contains(t) <==> of_table(a, t));
        }
        assert forall|t: i64| after.dom().contains(t) implies crate::lists::lists_set(
            #[trigger] after[t],
            ops_on(more, t),
        ) by {
            ops_grow(a, (table, op@), t);
            if t == table {
                assert forall|x: Seq<char>| #[trigger] now.contains(x) <==> ops_on(
                    more,
                    t,
                ).contains(x) by {
                    assert(was.contains(x) <==> ops_on(a, t).contains(x));
                }
            } else {
                assert(before.dom().contains(t));
                assert(before[t] == after[t]);
            }
        }
    }
}

/// Table ids and operations reachable along a path.
pub fn tables_on(g: &Graph, symbols: &Vec<i64>) -> (r: IdMap<Vec<String>>)
    ensures
        tables_map(accesses_on(g.deep_view(), symbols@), r.deep_view()),
{
    let ghost gv = g.deep_view();
    let ghost f = |s: i64| touched(gv, s);
    let mut out: IdMap<Vec<String>> = IdMap::new();
    let mut i: usize = 0;
    assert(symbols@.take(0) =~= Seq::empty());
    while i < symbols.len()
        invariant
            i <= symbols.len(),
            gv == g.deep_view(),
            f == (|s: i64| touched(gv, s)),
            tables_map(flat(symbols@.take(i as int), f), out.deep_view()),
        decreases symbols.len() - i,
    {
        broadcast use take_next;

        let s: i64 = symbols[i];
        let ghost base = flat(symbols@.take(i as int), f);
        assert(symbols@.take(i + 1).last() == s);
        assert(f(s) == touched(gv, s));
        match g.tables.get(&s) {
            Some(v) => {
                let ghost a = v.deep_view();
                let mut k: usize = 0;
                assert(base + a.take(0) =~= base);
                while k < v.len()
                    invariant
                        k <= v.len(),
                        a == v.deep_view(),
                        tables_map(base + a.take(k as int), out.deep_view()),
                    decreases v.len() - k,
                {
                    let ghost so_far = base + a.take(k as int);
                    assert(a[k as int] == (v@[k as int].0, v@[k as int].1@));
                    add_op(&mut out, v[k].0, &v[k].1, Ghost(so_far));
                    assert(base + a.take(k + 1) =~= so_far.push(a[k as int]));
                    k += 1;
                }
                assert(a.take(k as int) =~= a);
            },
            None => {
                assert(base + touched(gv, s) =~= base);
            },
        }
        i += 1;
    }
    broadcast use take_all;

    assert(symbols@.take(i as int) == symbols@);
    out
}

// ---------------------------------------------------------------------------
// All entrypoints

/// Where the walk of an entrypoint starts. A Dubbo entrypoint points at an interface,
/// not a method; it is expanded to the methods that the interface declares.
pub open spec fn roots_of(g: GraphView, sym: i64) -> Seq<i64> {
    if g.members.dom().contains(sym) && g.members[sym].len() > 0 {
        g.members[sym]
    } else {
        seq![sym]
    }
}

pub open spec fn traces_of(g: GraphView, entry: (i64, Option<i64>)) -> Seq<(i64, TracePathView)> {
    match entry.1 {
        Some(sym) => flat(
            roots_of(g, sym),
            |root: i64| walk_of(g, root).map_values(|p: TracePathView| (entry.0, p)),
        ),
        None => Seq::empty(),
    }
}

fn entry_roots(g: &Graph, sym: i64) -> (r: Vec<i64>)
    ensures
        r@ == roots_of(g.deep_view(), sym),
{
    match g.members.get(&sym) {
        Some(v) => {
            if v.len() > 0 {
                let c: Vec<i64> = v.clone();
                assert(c@ =~= v.deep_view());
                return c;
            }
        },
        None => {},
    }
    let mut one: Vec<i64> = Vec::new();
    one.push(sym);
    assert(one@ =~= seq![sym]);
    one
}

fn trace_entry(g: &Graph, id: i64, sym: i64) -> (r: Vec<(i64, TracePath)>)
    ensures
        r.deep_view() == traces_of(g.deep_view(), (id, Some(sym))),
{
    let ghost gv = g.deep_view();
    let roots = entry_roots(g, sym);
    let ghost f = |root: i64| walk_of(gv, root).map_values(|p: TracePathView| (id, p));
    let mut out: Vec<(i64, TracePath)> = Vec::new();
    let mut i: usize = 0;
    assert(out.deep_view() =~= flat(roots@.take(0), f));
    while i < roots.len()
        invariant
            i <= roots.len(),
            gv == g.deep_view(),
            f == (|root: i64| walk_of(gv, root).map_values(|p: TracePathView| (id, p))),
            out.deep_view() == flat(roots@.take(i as int), f),
        decreases roots.len() - i,
    {
        broadcast use take_next;

        let root: i64 = roots[i];
        let paths = walk(g, root);
        let ghost ps = paths.deep_view();
        let ghost base = out.deep_view();
        let ghost mine = ps.map_values(|p: TracePathView| (id, p));
        assert(roots@.take(i + 1).last() == root);
        assert(f(root) == mine);
        let mut k: usize = 0;
        assert(base + mine.take(0) =~= base);
        while k < paths.len()
            invariant
                k <= paths.len(),
                ps == paths.deep_view(),
                mine == ps.map_values(|p: TracePathView| (id, p)),
                out.deep_view() == base + mine.take(k as int),
            decreases paths.len() - k,
        {
            let ghost before = out.deep_view();
            let p = paths[k].clone();
            let ghost x = p.deep_view();
            assert(ps[k as int] == paths@[k as int].deep_view());
            assert(mine[k as int] == (id, x));
            out.push((id, p));
            assert(out.deep_view() =~= before.push((id, x)));
            k += 1;
            assert(base + mine.take(k as int) =~= before.push((id, x)));
        }
        assert(mine.take(k as int) =~= mine);
        i += 1;
    }
    broadcast use take_all;

    assert(roots@.take(i as int) == roots@);
    out
}

/// The traces of every entrypoint that has a symbol: the entrypoint's id with each
/// path.
pub fn build(g: &Graph, entries: &Vec<(i64, Option<i64>)>) -> (r: Vec<(i64, TracePath)>)
    ensures
        r.deep_view() == flat(
            entries.deep_view(),
            |e: (i64, Option<i64>)| traces_of(g.deep_view(), e),
        ),
{
    let ghost gv = g.deep_view();
    let ghost d = entries.deep_view();
    let ghost f = |e: (i64, Option<i64>)| traces_of(gv, e);
    let mut out: Vec<(i64, TracePath)> = Vec::new();
    let mut i: usize = 0;
    assert(out.deep_view() =~= flat(d.take(0), f));
    while i < entries.len()
        invariant
            i <= entries.len(),
            gv == g.deep_view(),
            d == entries.deep_view(),
            f == (|e: (i64, Option<i64>)| traces_of(gv, e)),
            out.deep_view() == flat(d.take(i as int), f),
        decreases entries.len() - i,
    {
        broadcast use take_next;

        let ghost base = out.deep_view();
        assert(d[i as int] == entries@[i as int].deep_view());
        assert(d.take(i + 1).last() == d[i as int]);
        assert(f(d[i as int]) == traces_of(gv, d[i as int]));
        match entries[i].1 {
            Some(sym) => {
                let mut more = trace_entry(g, entries[i].0, sym);
                let ghost m = more.deep_view();
                let ghost raw = more@;
                out.append(&mut more);
                assert(out.deep_view() =~= base + m);
            },
            None => {
                assert(base + Seq::<(i64, TracePathView)>::empty() =~= base);
            },
        }
        i += 1;
    }
    broadcast use take_all;

    assert(d.take(i as int) == d);
    out
}

// ---------------------------------------------------------------------------
// Laws

/// Whether `path` follows edges from its first symbol on, `conf` being the lowest
/// confidence of those edges.
pub open spec fn carried(g: GraphView, path: Seq<i64>, conf: u8) -> bool
    decreases path.len(),
{
    if path.len() == 0 {
        false
    } else if path.len() == 1 {
        conf == 10
    } else {
        exists|before: u8, c: u8| #[trigger]
            hop(g, path, before, c) && conf == (if c < before {
                c
            } else {
                before
            }) && carried(g, path.drop_last(), before)
    }
}

/// Whether the last hop of the path has confidence `c`, the way to it `before`.
pub open spec fn hop(g: GraphView, path: Seq<i64>, before: u8, c: u8) -> bool {
    outgoing(g, path[path.len() - 2]).contains((path.last(), c))
}

/// Whether no symbol before the last touches a table.
pub open spec fn passes(g: GraphView, path: Seq<i64>) -> bool {
    forall|k: int| 0 <= k < path.len() - 1 ==> touched(g, #[trigger] path[k]).len() == 0
}

/// Whether a path is one that a walk from `root` may record.
pub open spec fn is_trace(g: GraphView, root: i64, p: TracePathView) -> bool {
    &&& 1 <= p.symbols.len() <= MAX_DEPTH
    &&& p.symbols[0] == root
    &&& carried(g, p.symbols, p.min_confidence)
    &&& p.symbols.no_duplicates()
    &&& passes(g, p.symbols)
    &&& p.labels == p.symbols.map_values(|s: i64| name_of(g, s))
    &&& touched(g, p.symbols.last()).len() > 0
}

/// Whether path `j` reaches a table that no earlier one reaches.
pub open spec fn explains(g: GraphView, out: Seq<TracePathView>, j: int) -> bool {
    exists|t: i64| #[trigger]
        of_table(touched(g, out[j].symbols.last()), t) && forall|i: int|
            0 <= i < j ==> !of_table(touched(g, (#[trigger] out[i]).symbols.last()), t)
}

/// Whether a walk from `root` that reached `seen` may stand at the path, with its lowest
/// confidence.
spec fn path_ok(g: GraphView, root: i64, seen: Set<i64>, e: (Seq<i64>, u8), depth: nat) -> bool {
    &&& e.0.len() == depth
    &&& e.0[0] == root
    &&& carried(g, e.0, e.1)
    &&& e.0.no_duplicates()
    &&& passes(g, e.0)
    &&& forall|k: int| 0 <= k < e.0.len() ==> seen.contains(#[trigger] e.0[k])
}

spec fn level_ok(
    g: GraphView,
    root: i64,
    seen: Set<i64>,
    level: Seq<(Seq<i64>, u8)>,
    depth: nat,
) -> bool {
    forall|j: int| 0 <= j < level.len() ==> path_ok(g, root, seen, #[trigger] level[j], depth)
}

spec fn out_ok(g: GraphView, root: i64, st: WalkState, depth: nat) -> bool {
    &&& st.out.len() <= MAX_PATHS_PER_ENTRY
    &&& forall|i: int|
        0 <= i < st.out.len() ==> is_trace(g, root, #[trigger] st.out[i])
            && st.out[i].symbols.len() <= depth
    &&& forall|i: int, j: int|
        0 <= i < j < st.out.len() ==> (#[trigger] st.out[i]).symbols.len() <= (
        #[trigger] st.out[j]).symbols.len()
    &&& forall|j: int| 0 <= j < st.out.len() ==> #[trigger] explains(g, st.out, j)
    &&& forall|i: int, t: int|
        0 <= i < st.out.len() && 0 <= t < touched(g, st.out[i].symbols.last()).len()
            ==> st.covered.contains(
            (#[trigger] touched(g, (#[trigger] st.out[i]).symbols.last())[t]).0,
        )
}

proof fn expanded_keeps(
    g: GraphView,
    root: i64,
    st: WalkState,
    edges: Seq<(i64, u8)>,
    path: Seq<i64>,
    conf: u8,
)
    requires
        path.len() > 0,
        path_ok(g, root, st.seen, (path, conf), path.len()),
        touched(g, path.last()).len() == 0,
        forall|i: int| 0 <= i < edges.len() ==> outgoing(g, path.last()).contains(
            #[trigger] edges[i],
        ),
        level_ok(g, root, st.seen, st.next, path.len() + 1),
    ensures
        level_ok(
            g,
            root,
            expanded(st, edges, path, conf).seen,
            expanded(st, edges, path, conf).next,
            path.len() + 1,
        ),
        expanded(st, edges, path, conf).out == st.out,
        expanded(st, edges, path, conf).covered == st.covered,
        st.seen.subset_of(expanded(st, edges, path, conf).seen),
    decreases edges.len(),
{
    if edges.len() > 0 {
        assert forall|i: int| 0 <= i < edges.drop_last().len() implies outgoing(
            g,
            path.last(),
        ).contains(#[trigger] edges.drop_last()[i]) by {
            assert(edges.drop_last()[i] == edges[i]);
        }
        expanded_keeps(g, root, st, edges.drop_last(), path, conf);
        let before = expanded(st, edges.drop_last(), path, conf);
        let after = expanded(st, edges, path, conf);
        let (dst, c) = edges.last();
        assert(edges[edges.len() - 1] == edges.last());
        let longer = path.push(dst);
        assert(longer.drop_last() =~= path);
        assert(hop(g, longer, conf, c));
        assert forall|j: int| 0 <= j < after.next.len() implies path_ok(
            g,
            root,
            after.seen,
            #[trigger] after.next[j],
            path.len() + 1,
        ) by {
            if j < before.next.len() {
                assert(before.next[j] == after.next[j]);
                assert(path_ok(g, root, before.seen, before.next[j], path.len() + 1));
            } else {
                assert(after.next[j].0 == longer);
                assert(longer[0] == root);
                assert forall|k: int| 0 <= k < path.len() implies #[trigger] longer[k] == path[k]
                    && before.seen.contains(path[k]) by {
                    assert(st.seen.contains(path[k]));
                }
                assert(longer[path.len() as int] == dst);
                assert(longer.no_duplicates());
                assert forall|k: int| 0 <= k < longer.len() - 1 implies touched(
                    g,
                    #[trigger] longer[k],
                ).len() == 0 by {
                    assert(longer[k] == path[k]);
                    if k < path.len() - 1 {
                        assert(touched(g, path[k]).len() == 0);
                    }
                }
            }
        }
    }
}

proof fn covering_holds(a: Seq<(i64, Seq<char>)>, covered: Set<i64>)
    ensures
        forall|t: i64| covered.contains(t) ==> #[trigger] covering(a, covered).contains(t),
        forall|i: int| 0 <= i < a.len() ==> covering(a, covered).contains((#[trigger] a[i]).0),
    decreases a.len(),
{
    if a.len() > 0 {
        covering_holds(a.drop_last(), covered);
        assert forall|t: i64| covered.contains(t) implies #[trigger] covering(
            a,
            covered,
        ).contains(t) by {
            assert(covering(a.drop_last(), covered).contains(t));
        }
        assert forall|i: int| 0 <= i < a.len() implies covering(a, covered).contains(
            (#[trigger] a[i]).0,
        ) by {
            if i < a.len() - 1 {
                assert(a.drop_last()[i] == a[i]);
            }
        }
    }
}

proof fn visited_keeps(g: GraphView, root: i64, st: WalkState, path: Seq<i64>, conf: u8)
    requires
        1 <= path.len() <= MAX_DEPTH,
        path_ok(g, root, st.seen, (path, conf), path.len()),
        out_ok(g, root, st, path.len()),
        level_ok(g, root, st.seen, st.next, path.len() + 1),
    ensures
        out_ok(g, root, visited(g, st, path, conf), path.len()),
        level_ok(
            g,
            root,
            visited(g, st, path, conf).seen,
            visited(g, st, path, conf).next,
            path.len() + 1,
        ),
        st.seen.subset_of(visited(g, st, path, conf).seen),
{
    let accesses = touched(g, path.last());
    let after = visited(g, st, path, conf);
    if st.out.len() >= MAX_PATHS_PER_ENTRY {
    } else if new_table(accesses, st.covered) {
        covering_holds(accesses, st.covered);
        let n = st.out.len() as int;
        assert(after.out[n] == found_path(g, path, conf));
        assert forall|i: int| 0 <= i < n implies after.out[i] == st.out[i] by {}
        let k = choose|i: int|
            0 <= i < accesses.len() && !st.covered.contains((#[trigger] accesses[i]).0);
        let t0 = accesses[k].0;
        assert(of_table(touched(g, after.out[n].symbols.last()), t0));
        assert forall|i: int| 0 <= i < n implies !of_table(
            touched(g, (#[trigger] after.out[i]).symbols.last()),
            t0,
        ) by {
            let a = touched(g, st.out[i].symbols.last());
            if of_table(a, t0) {
                let j = choose|j: int| 0 <= j < a.len() && (#[trigger] a[j]).0 == t0;
                assert(st.covered.contains(touched(g, st.out[i].symbols.last())[j].0));
            }
        }
        assert(explains(g, after.out, n));
        assert forall|j: int| 0 <= j < after.out.len() implies #[trigger] explains(
            g,
            after.out,
            j,
        ) by {
            if j < n {
                assert(explains(g, st.out, j));
                let t = choose|t: i64| #[trigger]
                    of_table(touched(g, st.out[j].symbols.last()), t) && forall|i: int|
                        0 <= i < j ==> !of_table(
                            touched(g, (#[trigger] st.out[i]).symbols.last()),
                            t,
                        );
                assert(of_table(touched(g, after.out[j].symbols.last()), t));
                assert forall|i: int| 0 <= i < j implies !of_table(
                    touched(g, (#[trigger] after.out[i]).symbols.last()),
                    t,
                ) by {
                    assert(after.out[i] == st.out[i]);
                }
            }
        }
        assert forall|i: int, t: int|
            0 <= i < after.out.len() && 0 <= t < touched(
                g,
                after.out[i].symbols.last(),
            ).len() implies after.covered.contains(
            (#[trigger] touched(g, (#[trigger] after.out[i]).symbols.last())[t]).0,
        ) by {
            if i < n {
                assert(st.covered.contains(touched(g, st.out[i].symbols.last())[t].0));
            } else {
                assert(accesses[t] == touched(g, after.out[i].symbols.last())[t]);
            }
        }
        assert(is_trace(g, root, after.out[n]));
    } else if accesses.len() > 0 || path.len() >= MAX_DEPTH {
    } else {
        let edges = outgoing(g, path.last());
        expanded_keeps(g, root, st, edges, path, conf);
    }
}

proof fn visited_all_keeps(
    g: GraphView,
    root: i64,
    st: WalkState,
    level: Seq<(Seq<i64>, u8)>,
    depth: nat,
)
    requires
        1 <= depth <= MAX_DEPTH,
        level_ok(g, root, st.seen, level, depth),
        out_ok(g, root, st, depth),
        level_ok(g, root, st.seen, st.next, depth + 1),
    ensures
        out_ok(g, root, visited_all(g, st, level), depth),
        level_ok(
            g,
            root,
            visited_all(g, st, level).seen,
            visited_all(g, st, level).next,
            depth + 1,
        ),
        st.seen.subset_of(visited_all(g, st, level).seen),
    decreases level.len(),
{
    if level.len() > 0 {
        let rest = level.drop_last();
        assert(level_ok(g, root, st.seen, rest, depth)) by {
            assert forall|j: int| 0 <= j < rest.len() implies path_ok(
                g,
                root,
                st.seen,
                #[trigger] rest[j],
                depth,
            ) by {
                assert(rest[j] == level[j]);
            }
        }
        visited_all_keeps(g, root, st, rest, depth);
        let before = visited_all(g, st, rest);
        assert(level[level.len() - 1] == level.last());
        assert(path_ok(g, root, before.seen, level.last(), depth));
        visited_keeps(g, root, before, level.last().0, level.last().1);
    }
}

spec fn walk_ok(g: GraphView, root: i64, out: Seq<TracePathView>) -> bool {
    exists|st: WalkState| #[trigger] out_ok(g, root, st, MAX_DEPTH as nat) && st.out == out
}

proof fn walked_keeps(
    g: GraphView,
    root: i64,
    st: WalkState,
    level: Seq<(Seq<i64>, u8)>,
    depth: nat,
)
    requires
        1 <= depth <= MAX_DEPTH,
        level_ok(g, root, st.seen, level, depth),
        out_ok(g, root, st, depth),
    ensures
        walk_ok(g, root, walked(g, st, level, depth)),
    decreases MAX_DEPTH - depth,
{
    let start = WalkState { next: Seq::empty(), ..st };
    visited_all_keeps(g, root, start, level, depth);
    let after = visited_all(g, start, level);
    if depth < MAX_DEPTH {
        assert(out_ok(g, root, after, depth + 1));
        walked_keeps(g, root, after, after.next, depth + 1);
    } else {
        assert(out_ok(g, root, after, MAX_DEPTH as nat));
    }
}

/// What every walk keeps: it records a bounded number of paths; each starts at the
/// root, is of bounded depth, follows edges, carries the lowest confidence on its way
/// and ends at the first symbol that touches a table; no symbol stands in it twice; a
/// shorter path comes before a longer one; and each path reaches a table that none before
/// it reaches.
pub proof fn walk_is_sound(g: GraphView, root: i64)
    ensures
        ({
            let r = walk_of(g, root);
            &&& r.len() <= MAX_PATHS_PER_ENTRY
            &&& forall|i: int| 0 <= i < r.len() ==> is_trace(g, root, #[trigger] r[i])
            &&& forall|i: int, j: int|
                0 <= i < j < r.len() ==> (#[trigger] r[i]).symbols.len() <= (
                #[trigger] r[j]).symbols.len()
            &&& forall|j: int| 0 <= j < r.len() ==> #[trigger] explains(g, r, j)
        }),
{
    let st = WalkState {
        seen: set![root],
        covered: Set::empty(),
        out: Seq::empty(),
        next: Seq::empty(),
    };
    let level = seq![(seq![root], 10u8)];
    assert(level_ok(g, root, st.seen, level, 1)) by {
        assert(carried(g, seq![root], 10u8));
        assert(path_ok(g, root, st.seen, level[0], 1));
    }
    walked_keeps(g, root, st, level, 1);
}

/// Whether `path` follows edges from its first symbol on.
pub open spec fn is_route(g: GraphView, path: Seq<i64>) -> bool {
    &&& path.len() > 0
    &&& forall|k: int|
        0 < k < path.len() ==> leads_to(g, path[k - 1], #[trigger] path[k])
}

pub open spec fn leads_to(g: GraphView, s: i64, d: i64) -> bool {
    exists|i: int| 0 <= i < outgoing(g, s).len() && (#[trigger] outgoing(g, s)[i]).0 == d
}

/// Whether a recorded path of at most `n` symbols ends where table `t` is touched.
pub open spec fn reported(g: GraphView, out: Seq<TracePathView>, t: i64, n: nat) -> bool {
    exists|i: int|
        0 <= i < out.len() && (#[trigger] out[i]).symbols.len() <= n && of_table(
            touched(g, out[i].symbols.last()),
            t,
        )
}

/// Whether a path of the level ends at `s`.
spec fn pending(level: Seq<(Seq<i64>, u8)>, s: i64) -> bool {
    exists|i: int| 0 <= i < level.len() && (#[trigger] level[i]).0.last() == s
}

/// Whether the walk is done with `s`: its tables are covered, and, but for the last
/// level, it touches a table or all it leads to was reached.
spec fn settled(g: GraphView, st: WalkState, s: i64, depth: nat) -> bool {
    &&& forall|t: i64| #[trigger] of_table(touched(g, s), t) ==> st.covered.contains(t)
    &&& depth < MAX_DEPTH && touched(g, s).len() == 0 ==> forall|d: i64| #[trigger]
        leads_to(g, s, d) ==> st.seen.contains(d)
}

spec fn covered_reported(g: GraphView, st: WalkState) -> bool {
    forall|t: i64| #[trigger]
        st.covered.contains(t) ==> exists|i: int|
            0 <= i < st.out.len() && of_table(touched(g, (#[trigger] st.out[i]).symbols.last()), t)
}

/// Whether `b` is a later state of the walk than `a`.
spec fn grown(a: WalkState, b: WalkState) -> bool {
    &&& a.seen.subset_of(b.seen)
    &&& a.covered.subset_of(b.covered)
    &&& a.out.len() <= b.out.len()
    &&& forall|i: int| 0 <= i < a.out.len() ==> #[trigger] b.out[i] == a.out[i]
    &&& a.next.len() <= b.next.len()
    &&& forall|i: int| 0 <= i < a.next.len() ==> #[trigger] b.next[i] == a.next[i]
}

proof fn settled_stays(g: GraphView, a: WalkState, b: WalkState, s: i64, depth: nat)
    requires
        settled(g, a, s, depth),
        grown(a, b),
    ensures
        settled(g, b, s, depth),
{
}

proof fn pending_stays(a: Seq<(Seq<i64>, u8)>, b: Seq<(Seq<i64>, u8)>, s: i64)
    requires
        pending(a, s),
        a.len() <= b.len(),
        forall|i: int| 0 <= i < a.len() ==> #[trigger] b[i] == a[i],
    ensures
        pending(b, s),
{
    let i = choose|i: int| 0 <= i < a.len() && (#[trigger] a[i]).0.last() == s;
    assert(b[i] == a[i]);
}

proof fn expanded_reaches(
    st: WalkState,
    edges: Seq<(i64, u8)>,
    path: Seq<i64>,
    conf: u8,
)
    ensures
        grown(st, expanded(st, edges, path, conf)),
        forall|i: int|
            0 <= i < edges.len() ==> expanded(st, edges, path, conf).seen.contains(
                (#[trigger] edges[i]).0,
            ),
        forall|s: i64| #[trigger]
            expanded(st, edges, path, conf).seen.contains(s) ==> st.seen.contains(s) || pending(
                expanded(st, edges, path, conf).next,
                s,
            ),
    decreases edges.len(),
{
    if edges.len() > 0 {
        expanded_reaches(st, edges.drop_last(), path, conf);
        let before = expanded(st, edges.drop_last(), path, conf);
        let after = expanded(st, edges, path, conf);
        let dst = edges.last().0;
        assert forall|i: int| 0 <= i < edges.len() implies after.seen.contains(
            (#[trigger] edges[i]).0,
        ) by {
            if i < edges.len() - 1 {
                assert(edges.drop_last()[i] == edges[i]);
            }
        }
        assert forall|i: int| 0 <= i < before.next.len() implies #[trigger] after.next[i]
            == before.next[i] by {}
        assert forall|s: i64| #[trigger] after.seen.contains(s) implies st.seen.contains(s)
            || pending(after.next, s) by {
            if before.seen.contains(s) {
                if !st.seen.contains(s) {
                    pending_stays(before.next, after.next, s);
                }
            } else {
                let n = before.next.len() as int;
                assert(after.next[n].0 == path.push(dst));
                assert(path.push(dst).last() == dst);
            }
        }
    }
}

proof fn visited_settles(g: GraphView, st: WalkState, path: Seq<i64>, conf: u8)
    requires
        path.len() > 0,
        path.len() <= MAX_DEPTH,
        st.out.len() < MAX_PATHS_PER_ENTRY,
        covered_reported(g, st),
    ensures
        grown(st, visited(g, st, path, conf)),
        covered_reported(g, visited(g, st, path, conf)),
        settled(g, visited(g, st, path, conf), path.last(), path.len()),
        forall|s: i64| #[trigger]
            visited(g, st, path, conf).seen.contains(s) ==> st.seen.contains(s) || pending(
                visited(g, st, path, conf).next,
                s,
            ),
{
    let accesses = touched(g, path.last());
    let after = visited(g, st, path, conf);
    if new_table(accesses, st.covered) {
        covering_holds(accesses, st.covered);
        covering_is(accesses, st.covered);
        let n = st.out.len() as int;
        assert(after.out[n] == found_path(g, path, conf));
        assert(after.out[n].symbols.last() == path.last());
        assert forall|i: int| 0 <= i < n implies #[trigger] after.out[i] == st.out[i] by {}
        assert forall|t: i64| #[trigger] after.covered.contains(t) implies exists|i: int|
            0 <= i < after.out.len() && of_table(
                touched(g, (#[trigger] after.out[i]).symbols.last()),
                t,
            ) by {
            if st.covered.contains(t) {
                let i = choose|i: int|
                    0 <= i < st.out.len() && of_table(
                        touched(g, (#[trigger] st.out[i]).symbols.last()),
                        t,
                    );
                assert(after.out[i] == st.out[i]);
            } else {
                assert(of_table(touched(g, after.out[n].symbols.last()), t));
            }
        }
    } else if accesses.len() > 0 || path.len() >= MAX_DEPTH {
    } else {
        let edges = outgoing(g, path.last());
        expanded_reaches(st, edges, path, conf);
        expanded_only_reaches(st, edges, path, conf);
        assert forall|d: i64| #[trigger] leads_to(g, path.last(), d) implies after.seen.contains(
            d,
        ) by {
            let i = choose|i: int| 0 <= i < edges.len() && (#[trigger] edges[i]).0 == d;
            assert(after.seen.contains(edges[i].0));
        }
        assert(covered_reported(g, after));
    }
}

proof fn expanded_only_reaches(
    st: WalkState,
    edges: Seq<(i64, u8)>,
    path: Seq<i64>,
    conf: u8,
)
    ensures
        expanded(st, edges, path, conf).out == st.out,
        expanded(st, edges, path, conf).covered == st.covered,
    decreases edges.len(),
{
    if edges.len() > 0 {
        expanded_only_reaches(st, edges.drop_last(), path, conf);
    }
}

proof fn covering_is(a: Seq<(i64, Seq<char>)>, covered: Set<i64>)
    ensures
        forall|t: i64| #[trigger]
            covering(a, covered).contains(t) ==> covered.contains(t) || of_table(a, t),
    decreases a.len(),
{
    if a.len() > 0 {
        let rest = a.drop_last();
        covering_is(rest, covered);
        assert forall|t: i64| #[trigger] covering(a, covered).contains(t) implies covered.contains(
            t,
        ) || of_table(a, t) by {
            if t == a.last().0 {
                assert(a[a.len() - 1].0 == t);
            } else {
                assert(covering(rest, covered).contains(t));
                if !covered.contains(t) {
                    let i = choose|i: int| 0 <= i < rest.len() && (#[trigger] rest[i]).0 == t;
                    assert(a[i].0 == t);
                }
            }
        }
    }
}

proof fn visited_all_grows(g: GraphView, st: WalkState, level: Seq<(Seq<i64>, u8)>, depth: nat)
    requires
        forall|i: int| 0 <= i < level.len() ==> (#[trigger] level[i]).0.len() == depth,
    ensures
        grown(st, visited_all(g, st, level)),
    decreases level.len(),
{
    if level.len() > 0 {
        let rest = level.drop_last();
        assert forall|i: int| 0 <= i < rest.len() implies (#[trigger] rest[i]).0.len()
            == depth by {
            assert(rest[i] == level[i]);
        }
        visited_all_grows(g, st, rest, depth);
        visited_grows(g, visited_all(g, st, rest), level.last().0, level.last().1);
    }
}

proof fn visited_grows(g: GraphView, st: WalkState, path: Seq<i64>, conf: u8)
    ensures
        grown(st, visited(g, st, path, conf)),
{
    let accesses = touched(g, path.last());
    covering_holds(accesses, st.covered);
    expanded_reaches(st, outgoing(g, path.last()), path, conf);
}

/// After a level, what was reached before it is done with, but for what was neither waiting
/// nor done with; what was reached in it waits for the next one.
proof fn visited_all_settles(g: GraphView, st: WalkState, level: Seq<(Seq<i64>, u8)>, depth: nat)
    requires
        1 <= depth <= MAX_DEPTH,
        forall|i: int| 0 <= i < level.len() ==> (#[trigger] level[i]).0.len() == depth,
        visited_all(g, st, level).out.len() < MAX_PATHS_PER_ENTRY,
        covered_reported(g, st),
    ensures
        covered_reported(g, visited_all(g, st, level)),
        forall|s: i64| #[trigger]
            visited_all(g, st, level).seen.contains(s) ==> if st.seen.contains(s) {
                pending(level, s) || settled(g, st, s, depth) ==> settled(
                    g,
                    visited_all(g, st, level),
                    s,
                    depth,
                )
            } else {
                pending(visited_all(g, st, level).next, s)
            },
    decreases level.len(),
{
    if level.len() > 0 {
        let after = visited_all(g, st, level);
        let rest = level.drop_last();
        let before = visited_all(g, st, rest);
        let (path, conf) = level.last();
        assert(level[level.len() - 1] == level.last());
        assert forall|i: int| 0 <= i < rest.len() implies (#[trigger] rest[i]).0.len()
            == depth by {
            assert(rest[i] == level[i]);
        }
        visited_grows(g, before, path, conf);
        visited_all_grows(g, st, rest, depth);
        visited_all_settles(g, st, rest, depth);
        visited_settles(g, before, path, conf);
        assert forall|s: i64| #[trigger] after.seen.contains(s) implies if st.seen.contains(s) {
            pending(level, s) || settled(g, st, s, depth) ==> settled(g, after, s, depth)
        } else {
            pending(after.next, s)
        } by {
            if before.seen.contains(s) {
                if !st.seen.contains(s) {
                    pending_stays(before.next, after.next, s);
                } else if s != path.last() && (pending(level, s) || settled(g, st, s, depth)) {
                    if pending(level, s) {
                        let i = choose|i: int|
                            0 <= i < level.len() && (#[trigger] level[i]).0.last() == s;
                        assert(rest[i] == level[i]);
                        assert(pending(rest, s));
                    }
                    settled_stays(g, before, after, s, depth);
                }
            }
        }
    }
}

proof fn walked_grows(
    g: GraphView,
    root: i64,
    st: WalkState,
    level: Seq<(Seq<i64>, u8)>,
    depth: nat,
)
    requires
        1 <= depth <= MAX_DEPTH,
        level_ok(g, root, st.seen, level, depth),
        out_ok(g, root, st, depth),
    ensures
        st.out.len() <= walked(g, st, level, depth).len(),
        forall|i: int|
            0 <= i < st.out.len() ==> #[trigger] walked(g, st, level, depth)[i] == st.out[i],
    decreases MAX_DEPTH - depth,
{
    let start = WalkState { next: Seq::empty(), ..st };
    let after = visited_all(g, start, level);
    visited_all_grows(g, start, level, depth);
    visited_all_keeps(g, root, start, level, depth);
    if depth < MAX_DEPTH {
        assert(out_ok(g, root, after, depth + 1));
        walked_grows(g, root, after, after.next, depth + 1);
        assert forall|i: int| 0 <= i < st.out.len() implies #[trigger] walked(
            g,
            st,
            level,
            depth,
        )[i] == st.out[i] by {
            assert(after.out[i] == start.out[i]);
        }
    }
}

proof fn walked_reports(
    g: GraphView,
    root: i64,
    st: WalkState,
    level: Seq<(Seq<i64>, u8)>,
    depth: nat,
    path: Seq<i64>,
    t: i64,
)
    requires
        1 <= depth <= path.len() <= MAX_DEPTH,
        level_ok(g, root, st.seen, level, depth),
        out_ok(g, root, st, depth),
        covered_reported(g, st),
        forall|s: i64| #[trigger]
            st.seen.contains(s) ==> pending(level, s) || settled(g, st, s, depth),
        is_route(g, path),
        st.seen.contains(path[depth - 1]),
        of_table(touched(g, path.last()), t),
        walked(g, st, level, depth).len() < MAX_PATHS_PER_ENTRY,
        passes(g, path),
    ensures
        reported(g, walked(g, st, level, depth), t, path.len()),
    decreases MAX_DEPTH - depth,
{
    let r = walked(g, st, level, depth);
    let start = WalkState { next: Seq::empty(), ..st };
    let after = visited_all(g, start, level);
    visited_all_keeps(g, root, start, level, depth);
    visited_all_grows(g, start, level, depth);
    if depth < MAX_DEPTH {
        assert(out_ok(g, root, after, depth + 1));
        walked_grows(g, root, after, after.next, depth + 1);
    }
    assert(after.out.len() <= r.len());
    assert(forall|i: int| 0 <= i < after.out.len() ==> #[trigger] r[i] == after.out[i]);
    assert(covered_reported(g, start));
    visited_all_settles(g, start, level, depth);
    let tip = path[depth - 1];
    assert forall|s: i64| st.seen.contains(s) implies settled(g, start, s, depth) == settled(
        g,
        st,
        s,
        depth,
    ) by {}
    assert(after.seen.contains(tip));
    assert(settled(g, after, tip, depth));
    if depth == path.len() {
        assert(after.covered.contains(t));
        let i = choose|i: int|
            0 <= i < after.out.len() && of_table(
                touched(g, (#[trigger] after.out[i]).symbols.last()),
                t,
            );
        assert(r[i] == after.out[i]);
    } else {
        assert(touched(g, path[depth - 1]).len() == 0);
        assert(leads_to(g, path[depth - 1], path[depth as int]));
        assert(after.seen.contains(path[depth as int]));
        assert forall|s: i64| #[trigger] after.seen.contains(s) implies pending(after.next, s)
            || settled(g, after, s, depth + 1) by {
            if st.seen.contains(s) {
                assert(settled(g, after, s, depth));
            }
        }
        walked_reports(g, root, after, after.next, depth + 1, path, t);
    }
}

/// The shortest route to each table is the one that is reported: where a route of bounded
/// depth reaches a table and touches none on the way, a path that is no longer reports it,
/// unless the walk recorded as many paths as it may.
pub proof fn shortest_routes_reported(g: GraphView, root: i64, path: Seq<i64>, t: i64)
    requires
        is_route(g, path),
        path[0] == root,
        path.len() <= MAX_DEPTH,
        of_table(touched(g, path.last()), t),
        walk_of(g, root).len() < MAX_PATHS_PER_ENTRY,
        passes(g, path),
    ensures
        reported(g, walk_of(g, root), t, path.len()),
{
    let st = WalkState {
        seen: set![root],
        covered: Set::empty(),
        out: Seq::empty(),
        next: Seq::empty(),
    };
    let level = seq![(seq![root], 10u8)];
    assert(level_ok(g, root, st.seen, level, 1)) by {
        assert(carried(g, seq![root], 10u8));
        assert(path_ok(g, root, st.seen, level[0], 1));
    }
    assert(level[0].0.last() == root);
    assert(pending(level, root));
    walked_reports(g, root, st, level, 1, path, t);
}

/// Where every edge was trusted, every recorded path is.
pub proof fn trusted_paths(g: GraphView, path: Seq<i64>, conf: u8)
    requires
        carried(g, path, conf),
        forall|s: i64, i: int|
            0 <= i < outgoing(g, s).len() ==> (#[trigger] outgoing(g, s)[i]).1 >= MIN_CONFIDENCE,
    ensures
        conf >= MIN_CONFIDENCE,
    decreases path.len(),
{
    if path.len() > 1 {
        let (before, c) = choose|before: u8, c: u8| #[trigger]
            hop(g, path, before, c) && conf == (if c < before {
                c
            } else {
                before
            }) && carried(g, path.drop_last(), before);
        trusted_paths(g, path.drop_last(), before);
        let o = outgoing(g, path[path.len() - 2]);
        let i = choose|i: int| 0 <= i < o.len() && o[i] == (path.last(), c);
        assert(outgoing(g, path[path.len() - 2])[i].1 >= MIN_CONFIDENCE);
    }
}

/// The edges of a loaded graph are all trusted.
pub proof fn loaded_edges_trusted(refs: Seq<(i64, i64, u8)>, s: i64, i: int)
    requires
        edges_of(refs).dom().contains(s),
        0 <= i < edges_of(refs)[s].len(),
    ensures
        edges_of(refs)[s][i].1 >= MIN_CONFIDENCE,
    decreases refs.len(),
{
    if refs.len() > 0 {
        let before = edges_of(refs.drop_last());
        let r = refs.last();
        if r.2 >= MIN_CONFIDENCE && s == r.0 {
            if before.dom().contains(s) && i < before[s].len() {
                loaded_edges_trusted(refs.drop_last(), s, i);
            }
        } else {
            loaded_edges_trusted(refs.drop_last(), s, i);
        }
    }
}

} // verus!

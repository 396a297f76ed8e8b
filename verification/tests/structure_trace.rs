//! Call paths from entry points to tables.
use codeatlas::idmap::IdMap;
use codeatlas::structure::trace::{
    build, load_graph, tables_on, walk, Graph, SymbolRow, MAX_DEPTH, MAX_PATHS_PER_ENTRY,
};

fn edges(entries: Vec<(i64, Vec<(i64, u8)>)>) -> IdMap<Vec<(i64, u8)>> {
    let mut m = IdMap::new();
    for (k, v) in entries {
        m.insert(k, v);
    }
    m
}

fn tables(entries: Vec<(i64, Vec<(i64, String)>)>) -> IdMap<Vec<(i64, String)>> {
    let mut m = IdMap::new();
    for (k, v) in entries {
        m.insert(k, v);
    }
    m
}

fn names(entries: Vec<(i64, String)>) -> IdMap<String> {
    let mut m = IdMap::new();
    for (k, v) in entries {
        m.insert(k, v);
    }
    m
}

/// a → b → c, where c writes table 7; plus an unrelated leaf d.
fn graph() -> Graph {
    Graph {
        edges: edges(vec![(1, vec![(2, 10), (4, 6)]), (2, vec![(3, 10)])]),
        tables: tables(vec![(3, vec![(7, "update".to_string())])]),
        names: names(vec![
            (1, "A#go".into()),
            (2, "B#mid".into()),
            (3, "C#save".into()),
            (4, "D#leaf".into()),
        ]),
        members: IdMap::new(),
    }
}

#[test]
fn reaches_table_access_and_records_path() {
    let paths = walk(&graph(), 1);
    assert_eq!(paths.len(), 1);
    assert_eq!(paths[0].symbols, vec![1, 2, 3]);
    assert_eq!(paths[0].labels, vec!["A#go", "B#mid", "C#save"]);
    assert_eq!(paths[0].min_confidence, 10);
}

#[test]
fn min_confidence_is_the_weakest_hop() {
    let mut g = graph();
    g.edges.insert(1, vec![(2, 6)]);
    let paths = walk(&g, 1);
    assert_eq!(paths[0].min_confidence, 6);
}

#[test]
fn collects_tables_with_operations() {
    let g = graph();
    let t = tables_on(&g, &vec![1, 2, 3]);
    assert_eq!(t.get(&7).unwrap(), &vec!["update".to_string()]);
}

#[test]
fn stops_at_depth_limit() {
    // A chain longer than MAX_DEPTH with the table only at the very end.
    let n = MAX_DEPTH as i64 + 3;
    let chain = (1..n).map(|i| (i, vec![(i + 1, 10)])).collect();
    let g = Graph {
        edges: edges(chain),
        tables: tables(vec![(n, vec![(9, "select".to_string())])]),
        names: names((1..=n).map(|i| (i, format!("S{i}"))).collect()),
        members: IdMap::new(),
    };
    assert!(walk(&g, 1).is_empty());
}

#[test]
fn cycles_terminate() {
    let g = Graph {
        edges: edges(vec![(1, vec![(2, 10)]), (2, vec![(1, 10)])]),
        tables: tables(vec![]),
        names: names(vec![(1, "A".into()), (2, "B".into())]),
        members: IdMap::new(),
    };
    assert!(walk(&g, 1).is_empty());
}

#[test]
fn each_table_reported_once_by_shortest_path() {
    // Two routes to the same table; only the shorter is kept.
    let g = Graph {
        edges: edges(vec![(1, vec![(2, 10), (3, 10)]), (3, vec![(2, 10)])]),
        tables: tables(vec![(2, vec![(7, "select".to_string())])]),
        names: names((1..=3).map(|i| (i, format!("S{i}"))).collect()),
        members: IdMap::new(),
    };
    let paths = walk(&g, 1);
    assert_eq!(paths.len(), 1);
    assert_eq!(paths[0].symbols, vec![1, 2]);
}

#[test]
fn paths_of_one_entry_are_bounded() {
    // One entry with more leaves than the bound, each with a table of its own.
    let n = MAX_PATHS_PER_ENTRY as i64 + 5;
    let g = Graph {
        edges: edges(vec![(0, (1..=n).map(|i| (i, 10)).collect())]),
        tables: tables((1..=n).map(|i| (i, vec![(100 + i, "select".to_string())])).collect()),
        names: names(vec![]),
        members: IdMap::new(),
    };
    assert_eq!(walk(&g, 0).len(), MAX_PATHS_PER_ENTRY);
}

#[test]
fn doubtful_references_are_not_followed() {
    let symbols = vec![
        SymbolRow { id: 1, label: "A#go".into(), kind: "method".into(), parent: None },
        SymbolRow { id: 2, label: "B#a".into(), kind: "method".into(), parent: None },
        SymbolRow { id: 3, label: "B#b".into(), kind: "method".into(), parent: None },
    ];
    let access = vec![(2, 7, "select".to_string()), (3, 8, "select".to_string())];
    let g = load_graph(&vec![(1, 2, 5), (1, 3, 6)], &access, &symbols);
    let paths = walk(&g, 1);
    assert_eq!(paths.len(), 1);
    assert_eq!(paths[0].symbols, vec![1, 3]);
    assert_eq!(paths[0].min_confidence, 6);
}

#[test]
fn a_type_entry_is_traced_through_its_methods() {
    let symbols = vec![
        SymbolRow { id: 1, label: "A".into(), kind: "interface".into(), parent: None },
        SymbolRow { id: 2, label: "A#go".into(), kind: "method".into(), parent: Some(1) },
        SymbolRow { id: 3, label: "A#f".into(), kind: "field".into(), parent: Some(1) },
    ];
    let access = vec![(2, 7, "select".to_string()), (3, 8, "select".to_string())];
    let g = load_graph(&vec![], &access, &symbols);
    let found = build(&g, &vec![(50, Some(1)), (51, None)]);
    assert_eq!(found.len(), 1);
    assert_eq!(found[0].0, 50);
    assert_eq!(*found[0].1.symbols.last().unwrap(), 2);
}

#[test]
fn the_shortest_route_is_the_reported_one() {
    // 1 → 2 → 3 → 5 and 1 → 4 → 5: the table at 5 is reported by the shorter route.
    let g = Graph {
        edges: edges(vec![
            (1, vec![(2, 10), (4, 10)]),
            (2, vec![(3, 10)]),
            (3, vec![(5, 10)]),
            (4, vec![(5, 9)]),
        ]),
        tables: tables(vec![(5, vec![(7, "select".to_string())])]),
        names: names((1..=5).map(|i| (i, format!("S{i}"))).collect()),
        members: IdMap::new(),
    };
    let paths = walk(&g, 1);
    assert_eq!(paths.len(), 1);
    assert_eq!(paths[0].symbols, vec![1, 4, 5]);
    assert_eq!(paths[0].min_confidence, 9);
}

#[test]
fn a_branch_ends_where_any_table_is_touched() {
    // 3 touches only the table that 2 reports; what lies behind it is persistence.
    let g = Graph {
        edges: edges(vec![(1, vec![(2, 10), (3, 10)]), (3, vec![(4, 10)])]),
        tables: tables(vec![
            (2, vec![(7, "select".to_string())]),
            (3, vec![(7, "update".to_string())]),
            (4, vec![(8, "select".to_string())]),
        ]),
        names: names((1..=4).map(|i| (i, format!("S{i}"))).collect()),
        members: IdMap::new(),
    };
    let paths = walk(&g, 1);
    assert_eq!(paths.len(), 1);
    assert_eq!(paths[0].symbols, vec![1, 2]);
}

#[test]
fn no_symbol_stands_twice_in_a_path() {
    let g = Graph {
        edges: edges(vec![(1, vec![(2, 10)]), (2, vec![(1, 10), (3, 10)]), (3, vec![(2, 10)])]),
        tables: tables(vec![(3, vec![(7, "select".to_string())])]),
        names: names((1..=3).map(|i| (i, format!("S{i}"))).collect()),
        members: IdMap::new(),
    };
    let paths = walk(&g, 1);
    assert_eq!(paths.len(), 1);
    assert_eq!(paths[0].symbols, vec![1, 2, 3]);
}

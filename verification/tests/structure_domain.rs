//! Business domains: seeds, spellings, tables and votes.
use codeatlas::structure::domain::{
    assignments, churn_pairs, curated_path, flatten_eq, fold_variants, group_files, is_curated,
    is_excluded, load_files, namespace_segments, owners, package_votes, path_segments, relinked,
    relinked_row, resolve_key, seed_candidates, table_groups, table_votes, tables_by_usage,
    variant_index, variant_shape, winner, DomainConfig, FileRow, NoteLink,
};
use codeatlas::idmap::IdMap;
use codeatlas::textmap::TextMap;
use codeatlas::util::to_snake;

fn counts(entries: &[(&str, u64)]) -> TextMap<u64> {
    let mut m = TextMap::new();
    for (k, n) in entries {
        m.insert(k.to_string(), *n);
    }
    m
}

/// Scores in an order-keeping form: the bits of a float that is not negative.
fn scores(entries: &[(&str, f64)]) -> TextMap<u64> {
    let mut m = TextMap::new();
    for (k, x) in entries {
        m.insert(k.to_string(), x.to_bits());
    }
    m
}

#[test]
fn path_segments_drop_build_layout_and_filename() {
    assert_eq!(
        path_segments("promotion-service/src/main/java/com/yaoex/promotion/service/impl/coupon/CouponServiceImpl.java"),
        vec!["com", "yaoex", "promotion", "service", "impl", "coupon"]
    );
    assert_eq!(
        path_segments("promotion-model/src/main/resources/com/yaoex/promotion/model/defective/DefectiveDao.xml"),
        vec!["com", "yaoex", "promotion", "model", "defective"]
    );
}

#[test]
fn camel_package_segments_normalize() {
    assert_eq!(
        path_segments("a/src/main/java/p/buyTogether/X.java"),
        vec!["p", "buy_together"]
    );
}

#[test]
fn excludes_tests_and_web_assets() {
    assert!(is_excluded("promotion-service/src/test/groovy/spock/support/X.java"));
    assert!(is_excluded("promotion-web/src/main/webapp/WEB-INF/web.xml"));
    assert!(is_excluded("promotion-web/src/main/webapp/crossdomain.xml"));
    assert!(!is_excluded("promotion-service/src/main/java/p/coupon/A.java"));
}

#[test]
fn project_namespace_segments_are_not_domains() {
    // Every file sits under `com/yaoex/promotion`, so those segments describe
    // the project, not a domain inside it. Only `coupon` and `draw` do.
    let paths: Vec<String> = (0..10)
        .map(|i| format!("m/src/main/java/com/yaoex/promotion/coupon/A{i}.java"))
        .chain((0..6).map(|i| {
            format!("m/src/main/java/com/yaoex/promotion/draw/B{i}.java")
        }))
        .collect();
    let files: Vec<FileRow> = paths
        .iter()
        .enumerate()
        .map(|(i, p)| FileRow {
            id: i as i64,
            path: p.clone(),
            segments: path_segments(p),
        })
        .collect();

    let seeds = seed_candidates(&files, &DomainConfig::default());
    assert!(seeds.contains_key("coupon"));
    assert!(seeds.contains_key("draw"));
    assert!(!seeds.contains_key("promotion"), "namespace leaked in: {seeds:?}");
    assert!(!seeds.contains_key("yaoex"));
    assert!(!seeds.contains_key("com"));
}

#[test]
fn response_shape_suffixes_are_not_domains() {
    // `bidding` must coexist with another domain, otherwise it is this
    // fixture's namespace rather than a domain within it.
    let paths: Vec<String> = (0..5)
        .map(|i| format!("m/src/main/java/p/bidding/rsp/R{i}.java"))
        .chain((0..5).map(|i| format!("m/src/main/java/p/coupon/C{i}.java")))
        .collect();
    let files: Vec<FileRow> = paths
        .iter()
        .enumerate()
        .map(|(i, p)| FileRow {
            id: i as i64,
            path: p.clone(),
            segments: path_segments(p),
        })
        .collect();
    let seeds = seed_candidates(&files, &DomainConfig::default());
    assert!(!seeds.contains_key("rsp"), "shape suffix leaked in: {seeds:?}");
    assert!(seeds.contains_key("bidding"));
    assert!(seeds.contains_key("coupon"));
}

#[test]
fn seeds_exclude_infra_segments_and_rare_ones() {
    let files: Vec<FileRow> = [
        "a/src/main/java/p/coupon/A.java",
        "a/src/main/java/p/coupon/B.java",
        "a/src/main/java/p/coupon/C.java",
        "a/src/main/java/p/util/D.java",
        "a/src/main/java/p/util/E.java",
        "a/src/main/java/p/util/F.java",
        "a/src/main/java/p/rare/G.java",
    ]
    .iter()
    .enumerate()
    .map(|(i, p)| FileRow {
        id: i as i64,
        path: p.to_string(),
        segments: path_segments(p),
    })
    .collect();

    let seeds = seed_candidates(&files, &DomainConfig::default());
    assert!(seeds.contains_key("coupon"));
    // Infrastructure segment, despite meeting the file threshold.
    assert!(!seeds.contains_key("util"));
    // Below the threshold.
    assert!(!seeds.contains_key("rare"));
}

#[test]
fn aliases_fold_spelling_variants() {
    let mut cfg = DomainConfig::default();
    // One alias entry must cover every casing and separator variant, since
    // this project spells the same domain `groupbuying`, `groupBuying` and
    // `groupBuy` in different packages.
    cfg.aliases.insert("group_buy".into(), vec!["groupbuying".into()]);
    assert_eq!(cfg.canonical("groupBuying"), "group_buy");
    assert_eq!(cfg.canonical("groupbuying"), "group_buy");
    assert_eq!(cfg.canonical("group_buying"), "group_buy");
    assert_eq!(cfg.canonical("groupBuy"), "group_buy");
    assert_eq!(cfg.canonical("coupon"), "coupon");
}

#[test]
fn canonical_key_itself_matches_its_variants() {
    let mut cfg = DomainConfig::default();
    cfg.aliases.insert("buy_together".into(), Vec::new());
    assert_eq!(cfg.canonical("buyTogether"), "buy_together");
}

#[test]
fn spelling_variants_fold_into_one_domain() {
    let spelled = counts(&[
        ("groupbuying", 42),
        ("group_buy", 18),
        ("buy_together", 48),
        ("buytogether", 4),
        ("coupon", 230),
    ]);
    let folded = fold_variants(&spelled);
    // The dominant spelling survives and absorbs the others' counts.
    assert_eq!(folded.get("groupbuying"), Some(&60));
    assert_eq!(folded.get("buy_together"), Some(&52));
    assert_eq!(folded.get("coupon"), Some(&230));
    assert!(!folded.contains_key("group_buy"));
    assert!(!folded.contains_key("buytogether"));
}

#[test]
fn variant_shape_ignores_separators_and_suffixes() {
    // Inputs are already snake_case keys, as produced by `to_snake`.
    assert_eq!(variant_shape("group_buying"), variant_shape("groupbuying"));
    assert_eq!(variant_shape("group_buying"), variant_shape(&to_snake("groupBuy")));
    assert_eq!(variant_shape("buy_together"), variant_shape("buytogether"));
    // Short words keep their suffix: `maps` must not collapse to `map`.
    assert_ne!(variant_shape("coupon"), variant_shape("draw"));
}

#[test]
fn transport_segments_are_not_domains() {
    let paths: Vec<String> = (0..20)
        .map(|i| format!("m/src/main/java/p/dubbo/service/bean/D{i}.java"))
        .chain((0..8).map(|i| format!("m/src/main/java/p/coupon/C{i}.java")))
        .collect();
    let files: Vec<FileRow> = paths
        .iter()
        .enumerate()
        .map(|(i, p)| FileRow {
            id: i as i64,
            path: p.clone(),
            segments: path_segments(p),
        })
        .collect();
    let seeds = seed_candidates(&files, &DomainConfig::default());
    assert!(!seeds.contains_key("dubbo"), "transport leaked in: {seeds:?}");
    assert!(seeds.contains_key("coupon"));
}

#[test]
fn table_prefix_grouping_prefers_longest_match() {
    let seeds = counts(&[("group", 5), ("group_buying", 5), ("coupon", 5)]);
    let names = vec![
        (1i64, "t_group_buying_product".to_string()),
        (2, "t_coupon_template".to_string()),
        (3, "t_unrelated_thing".to_string()),
    ];
    let g = table_groups(&names, &seeds, &DomainConfig::default());
    assert_eq!(g.get(&1).unwrap(), "group_buying");
    assert_eq!(g.get(&2).unwrap(), "coupon");
    assert!(!g.contains_key(&3));
}

#[test]
fn domain_word_is_found_past_a_generic_prefix() {
    // `t_promotion_defective_*` is a `defective` table wearing a generic
    // `promotion_` prefix; matching only leading tokens would orphan it.
    let seeds = counts(&[
        ("defective", 96),
        ("coupon", 305),
    ]);
    let names = vec![
        (1i64, "t_promotion_defective".to_string()),
        (2, "t_promotion_defective_black_user".to_string()),
        (3, "t_activity_coupon_template".to_string()),
    ];
    let g = table_groups(&names, &seeds, &DomainConfig::default());
    assert_eq!(g.get(&1).unwrap(), "defective");
    assert_eq!(g.get(&2).unwrap(), "defective");
    assert_eq!(g.get(&3).unwrap(), "coupon");
}

#[test]
fn earlier_match_wins_among_equal_lengths() {
    // Both words are seeds; the one nearer the front names the table.
    let seeds = counts(&[("coupon", 9), ("product", 9)]);
    let names = vec![(1i64, "t_coupon_product_rel".to_string())];
    let g = table_groups(&names, &seeds, &DomainConfig::default());
    assert_eq!(g.get(&1).unwrap(), "coupon");
}

#[test]
fn winner_is_deterministic_on_ties() {
    let s = scores(&[("alpha", 1.0), ("beta", 1.0)]);
    assert_eq!(winner(&s).unwrap(), "alpha");
    assert!(winner(&scores(&[])).is_none());
}

#[test]
fn winner_reports_vote_share() {
    let s = scores(&[("a", 3.0), ("b", 1.0)]);
    let key = winner(&s).unwrap();
    assert_eq!(key, "a");
    let total: f64 = (0..s.len()).map(|i| f64::from_bits(*s.value_at(i))).sum();
    let share = f64::from_bits(*s.get(&key).unwrap()) / total;
    assert!((share - 0.75).abs() < 1e-9);
}

#[test]
fn a_score_of_nothing_wins_nothing() {
    assert!(winner(&scores(&[("a", 0.0)])).is_none());
    assert_eq!(winner(&scores(&[("a", 0.25), ("b", 0.5)])).unwrap(), "b");
}

#[test]
fn config_exclusions_are_not_seeds() {
    let rows: Vec<(i64, String)> = (0..4)
        .map(|i| (i, format!("m/src/main/java/p/coupon/A{i}.java")))
        .chain((4..8).map(|i| (i, format!("m/src/main/java/p/draw/B{i}.java"))))
        .collect();
    let files = load_files(&rows);
    assert_eq!(files.len(), 8);
    let mut cfg = DomainConfig::default();
    cfg.exclude.push("draw".into());
    let seeds = seed_candidates(&files, &cfg);
    assert_eq!(seeds.len(), 1);
    assert_eq!(seeds.get("coupon"), Some(&4));
}

#[test]
fn a_word_in_nearly_every_file_is_no_domain() {
    // Not at one depth, so no namespace segment, but in 18 files of 20.
    let rows: Vec<(i64, String)> = (0..9)
        .map(|i| (i, format!("m/src/main/java/a/market/A{i}.java")))
        .chain((9..18).map(|i| (i, format!("m/src/main/java/market/B{i}.java"))))
        .chain((18..20).map(|i| (i, format!("m/src/main/java/draw/C{i}.java"))))
        .collect();
    let seeds = seed_candidates(&load_files(&rows), &DomainConfig::default());
    assert!(!seeds.contains_key("market"));
}

#[test]
fn excluded_files_are_not_loaded() {
    let rows = vec![
        (1, "m/src/test/java/p/coupon/A.java".to_string()),
        (2, "m/src/main/java/p/coupon/B.java".to_string()),
    ];
    let files = load_files(&rows);
    assert_eq!(files.len(), 1);
    assert_eq!(files[0].id, 2);
    assert_eq!(files[0].segments, vec!["p", "coupon"]);
}

#[test]
fn namespace_is_what_nearly_every_file_shares_at_a_depth() {
    let rows: Vec<(i64, String)> = (0..9)
        .map(|i| (i, format!("m/src/main/java/com/x/A{i}.java")))
        .chain((9..10).map(|i| (i, format!("m/src/main/java/org/y/B{i}.java"))))
        .collect();
    assert_eq!(namespace_segments(&load_files(&rows)), vec!["com", "x"]);
    let rows: Vec<(i64, String)> = (0..8)
        .map(|i| (i, format!("m/src/main/java/com/x/A{i}.java")))
        .chain((8..10).map(|i| (i, format!("m/src/main/java/org/y/B{i}.java"))))
        .collect();
    assert!(namespace_segments(&load_files(&rows)).is_empty());
}

#[test]
fn folding_keeps_the_total() {
    let c = counts(&[("group_buy", 18), ("groupbuying", 42), ("coupon", 7)]);
    let f = fold_variants(&c);
    let total: u64 = (0..f.len()).map(|i| *f.value_at(i)).sum();
    assert_eq!(total, 67);
    // The busier spelling survives, and no two survivors look alike.
    assert_eq!(f.get("groupbuying"), Some(&60));
    assert_ne!(variant_shape(f.key_at(0)), variant_shape(f.key_at(1)));
}

#[test]
fn segments_resolve_to_seeds_by_spelling() {
    let seeds = counts(&[("group_buying", 5)]);
    let variants = variant_index(&seeds);
    let cfg = DomainConfig::default();
    assert_eq!(resolve_key(&cfg, &seeds, &variants, "group_buying").unwrap(), "group_buying");
    assert_eq!(resolve_key(&cfg, &seeds, &variants, "groupbuy").unwrap(), "group_buying");
    assert_eq!(resolve_key(&cfg, &seeds, &variants, "draw"), None);
    assert!(flatten_eq("Group-Buying", "groupbuying"));
    assert!(!flatten_eq("group", "groupbuying"));
}

#[test]
fn package_votes_carry_the_depth() {
    let seeds = counts(&[("coupon", 5), ("draw", 5)]);
    let variants = variant_index(&seeds);
    let f = FileRow {
        id: 1,
        path: "x".into(),
        segments: vec!["p".into(), "coupon".into(), "draw".into()],
    };
    let votes = package_votes(&f, &DomainConfig::default(), &seeds, &variants);
    assert_eq!(votes, vec![("coupon".to_string(), 2, 3), ("draw".to_string(), 3, 3)]);
}

#[test]
fn table_access_votes_for_the_owner_of_the_table() {
    let mut owners: IdMap<String> = IdMap::new();
    owners.insert(7, "coupon".into());
    let votes = table_votes(&vec![(1, 7), (2, 8), (3, 7)], &owners);
    assert_eq!(votes, vec![(1, "coupon".to_string()), (3, "coupon".to_string())]);
}

#[test]
fn files_of_one_commit_are_paired() {
    // Commit 1 touches three files, commit 2 only one, commit 3 more than twenty.
    let mut rows = vec![(1, 30), (1, 10), (1, 20), (2, 10)];
    rows.extend((0..21).map(|f| (3, f)));
    assert_eq!(
        churn_pairs(&rows),
        vec![((10, 30), 2), ((20, 30), 2), ((10, 20), 2)]
    );
}

#[test]
fn curated_paths_win() {
    let mut cfg = DomainConfig::default();
    cfg.paths.insert("coupon".into(), vec!["m/legacy/".into()]);
    assert_eq!(curated_path(&cfg, "m/legacy/A.java").unwrap(), "coupon");
    assert_eq!(curated_path(&cfg, "m/other/A.java"), None);
    assert!(is_curated(&cfg, "coupon"));
    assert!(!is_curated(&cfg, "draw"));
}

#[test]
fn usage_owns_a_table_from_seven_tenths_on() {
    let groups = group_files(&vec![(1, "coupon".to_string()), (2, "draw".to_string())]);
    // Table 5: seven accesses from coupon, three from draw. Table 6: six and four.
    let mut access: Vec<(i64, i64)> = Vec::new();
    for i in 0..10 {
        access.push((5, if i < 7 { 1 } else { 2 }));
        access.push((6, if i < 6 { 1 } else { 2 }));
    }
    let owners = tables_by_usage(&access, &groups);
    assert_eq!(owners.get(&5).unwrap(), "coupon");
    assert!(!owners.contains_key(&6));
}

#[test]
fn a_table_belongs_to_one_domain() {
    let groups = group_files(&vec![
        (1, "coupon".to_string()),
        (2, "draw".to_string()),
        (3, "coupon".to_string()),
    ]);
    let tables = vec![
        (10, "t_coupon".to_string()),
        (11, "t_draw".to_string()),
        (12, "t_other".to_string()),
    ];
    let cfg = DomainConfig::default();
    let seeds = counts(&[("coupon", 3), ("draw", 3)]);
    let by_name = table_groups(&tables, &seeds, &cfg);
    let mut by_usage: IdMap<String> = IdMap::new();
    by_usage.insert(12, "draw".into());
    by_usage.insert(10, "draw".into());
    let found = assignments(&groups, &tables, &cfg, &by_name, &by_usage, &seeds);
    assert_eq!(found.len(), 2);
    assert_eq!(found[0].key, "coupon");
    assert_eq!(found[0].files, vec![1, 3]);
    assert_eq!(found[0].tables, vec![10]);
    assert_eq!(found[1].key, "draw");
    assert_eq!(found[1].files, vec![2]);
    assert_eq!(found[1].tables, vec![11, 12]);
}

#[test]
fn a_file_counts_once_for_a_segment() {
    // One file says `coupon` three times, four files say `draw` once.
    let rows: Vec<(i64, String)> = vec![(
        0,
        "m/src/main/java/coupon/x/coupon/y/coupon/A.java".to_string(),
    )]
    .into_iter()
    .chain((1..5).map(|i| (i, format!("m/src/main/java/q{i}/draw/B{i}.java"))))
    .collect();
    let seeds = seed_candidates(&load_files(&rows), &DomainConfig::default());
    assert!(!seeds.contains_key("coupon"));
    assert_eq!(seeds.get("draw"), Some(&4));
}

#[test]
fn a_curated_path_beats_the_vote() {
    let files = load_files(&vec![
        (1, "m/src/main/java/p/coupon/A.java".to_string()),
        (2, "m/src/main/java/p/draw/B.java".to_string()),
        (3, "m/src/main/java/p/misc/C.java".to_string()),
    ]);
    let mut cfg = DomainConfig::default();
    cfg.paths.insert("pinned".to_string(), vec!["m/src/main/java/p/coupon/".to_string()]);
    let mut voted = IdMap::new();
    voted.insert(1, "coupon".to_string());
    voted.insert(2, "draw".to_string());
    assert_eq!(
        owners(&files, &cfg, &voted),
        vec![(1, "pinned".to_string()), (2, "draw".to_string())]
    );
}

#[test]
fn notes_follow_their_domain_by_key() {
    let note = |id: i64, key: Option<&str>, domain: Option<i64>| NoteLink {
        id,
        key: key.map(str::to_string),
        domain,
        status: "confirmed".to_string(),
    };
    let mut domains = TextMap::new();
    domains.insert("coupon".to_string(), 9);
    let out = relinked(
        &vec![
            note(1, Some("coupon"), Some(4)),
            note(2, Some("draw"), Some(9)),
            note(3, None, Some(5)),
            note(4, None, None),
        ],
        &domains,
    );
    let seen: Vec<_> = out.iter().map(|n| (n.id, n.domain, n.status.as_str())).collect();
    assert_eq!(
        seen,
        vec![
            (1, Some(9), "confirmed"),
            (2, None, "stale"),
            (3, Some(5), "confirmed"),
            (4, None, "stale"),
        ]
    );
    assert_eq!(relinked_row(&Some("coupon".to_string()), None, &domains), Some(9));
    assert_eq!(relinked_row(&Some("draw".to_string()), Some(9), &domains), None);
}

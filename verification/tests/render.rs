//! The rendered pages.
use codeatlas::idmap::IdMap;
use codeatlas::render::claude_md::{block, splice, BlockDomain, BEGIN, END};
use codeatlas::render::domains::{
    index_section, page, tables_named, trace_tables, DomainConstant, DomainEntry, DomainNote,
    DomainRow, DomainTable, DomainTrace, HotFile, PageSource,
};
use codeatlas::render::glossary::{self, term_line, TermRow};
use codeatlas::render::reference::{
    self, anchor, route_row, service_row, short_fqn, ColumnSheet, EntrySheet, TableSheet,
};
use codeatlas::render::{cell, overview, summarize, text_or, Scale};
use codeatlas::textmap::TextMap;

// The managed block

#[test]
fn appends_when_no_markers_present() {
    let out = splice("# 我的项目\n\n手写的说明。\n", "<!-- catlas:begin -->\nB\n<!-- catlas:end -->");
    assert!(out.starts_with("# 我的项目\n\n手写的说明。"));
    assert!(out.contains("catlas:begin"));
}

#[test]
fn replaces_only_the_managed_block() {
    let existing = "前言保留\n\n<!-- catlas:begin -->\n旧内容\n<!-- catlas:end -->\n\n后记保留\n";
    let out = splice(existing, "<!-- catlas:begin -->\n新内容\n<!-- catlas:end -->");
    assert!(out.contains("前言保留"));
    assert!(out.contains("后记保留"));
    assert!(out.contains("新内容"));
    assert!(!out.contains("旧内容"));
}

#[test]
fn repeated_renders_are_idempotent() {
    let block = "<!-- catlas:begin -->\nX\n<!-- catlas:end -->";
    let once = splice("手写\n", block);
    let twice = splice(&once, block);
    assert_eq!(once.trim(), twice.trim());
    assert_eq!(twice.matches(BEGIN).count(), 1);
}

#[test]
fn empty_file_gets_just_the_block() {
    let out = splice("", "<!-- catlas:begin -->\nX\n<!-- catlas:end -->");
    assert_eq!(out.trim(), "<!-- catlas:begin -->\nX\n<!-- catlas:end -->");
}

#[test]
fn malformed_markers_do_not_destroy_content() {
    // END before BEGIN: appending is safer than splicing a bogus range.
    let existing = "重要内容\n<!-- catlas:end -->\n<!-- catlas:begin -->\n";
    let out = splice(existing, "<!-- catlas:begin -->\nX\n<!-- catlas:end -->");
    assert!(out.contains("重要内容"));
}

#[test]
fn block_directs_sessions_to_propose_insights() {
    // A session gets the write-path guidance from the block itself — without
    // this section, findings evaporate with the session.
    let b = block(".knowledge", &vec![], "catlas render");
    assert!(b.contains("propose_insight"));
    assert!(b.contains("business_rule"));
    assert!(b.contains("landmine"));
    assert!(b.contains("term"));
}

#[test]
fn the_block_is_delimited_and_names_its_domains() {
    let b = block(
        ".knowledge",
        &vec![BlockDomain { key: "coupon".into(), label: Some("优惠券".into()), files: 30 }],
        "catlas build && catlas render",
    );
    assert!(b.trim().starts_with(BEGIN));
    assert!(b.trim().ends_with(END));
    assert!(b.contains("优惠券"));
    assert!(b.contains("30"));
    assert!(b.contains("重新生成：`catlas build && catlas render`\n"));
}

// Pages

fn row(key: &str) -> DomainRow {
    DomainRow {
        key: key.into(),
        label: Some("优惠券".into()),
        confidence: "0.80".into(),
        files: 30,
        tables: 4,
        entrypoints: 5,
    }
}

#[test]
fn cells_stay_on_their_row() {
    let c = cell("a|b\nc");
    assert!(!c.contains('\n'));
    assert_eq!(c, "a\\|b c");
    assert_eq!(text_or(&None, "—"), "—");
    assert_eq!(text_or(&Some("x".into()), "—"), "x");
}

#[test]
fn summaries_take_a_line_of_prose() {
    assert_eq!(summarize(&Some("第一行\n@param id 编号".into()), 80), "第一行");
    assert_eq!(summarize(&None, 80), "");
}

#[test]
fn the_overview_states_the_scale() {
    let scale = Scale { modules: 3, files: 120, symbols: 900, tables: 14, entrypoints: 40, domains: 6 };
    let s = overview("promotion", "/work/promotion", "2024-01-01", &scale, &vec![row("coupon")]);
    for part in ["promotion", "2024-01-01", "120", "900", "14", "优惠券"] {
        assert!(s.contains(part), "{part} is missing");
    }
}

#[test]
fn the_map_has_a_row_for_each_domain() {
    let s = index_section(&vec![row("coupon"), row("draw")]);
    assert!(s.contains("coupon") && s.contains("draw"));
    assert!(s.contains("0.80"));
}

#[test]
fn a_domain_page_holds_what_is_known() {
    let p = PageSource {
        domain: row("coupon"),
        notes: vec![DomainNote { title: "档案".into(), body: "券的生命周期".into() }],
        tables: vec![DomainTable { name: "t_coupon".into(), columns: 8 }],
        entrypoints: vec![DomainEntry {
            kind: "http".into(),
            addr: "GET /coupon".into(),
            doc: Some("券列表".into()),
        }],
        constants: vec![DomainConstant {
            owner: "CouponEnum".into(),
            name: "TEJIA".into(),
            signature: None,
            doc: Some("特价".into()),
        }],
        traces: vec![DomainTrace {
            kind: "http".into(),
            addr: "GET /coupon".into(),
            labels: vec!["a.A#go".into(), "a.B#save".into()],
            tables: vec!["t_coupon".into()],
        }],
        hot_files: vec![HotFile {
            path: "a/A.java".into(),
            commits: 17,
            last: Some("2024-02-01".into()),
        }],
    };
    let s = page(&p);
    for part in ["优惠券", "券的生命周期", "t_coupon", "GET /coupon", "TEJIA", "B#save", "a/A.java", "17"] {
        assert!(s.contains(part), "{part} is missing");
    }
}

fn term(name: &str, domain: Option<&str>, status: &str) -> TermRow {
    TermRow {
        term: name.into(),
        definition: Some("限时低价".into()),
        aliases_json: Some("[\"秒杀价\"]".into()),
        domain: domain.map(str::to_string),
        status: status.into(),
        refs: vec!["CouponEnum.TEJIA".into()],
    }
}

#[test]
fn weak_terms_are_marked() {
    let s = glossary::page(&vec![
        term("特价", Some("coupon"), "fresh"),
        term("满减", Some("coupon"), "needs_review"),
    ]);
    assert!(s.contains("特价") && s.contains("秒杀价") && s.contains("CouponEnum.TEJIA"));
    let weak = s.lines().find(|l| l.contains("满减")).unwrap();
    assert!(weak.contains("待确认"));
    let strong = s.lines().find(|l| l.contains("**特价**") || l.contains("特价")).unwrap();
    assert!(!strong.contains("待确认"));
    assert!(glossary::page(&vec![]).contains("catlas deepen"));
    assert!(term_line(&term("特价", None, "fresh"), &vec!["别名".into()]).contains("别名"));
}

fn entry(addr: &str, config: Option<&str>) -> EntrySheet {
    EntrySheet {
        addr: addr.into(),
        name: Some("a.b.CouponService".into()),
        doc: Some("券服务".into()),
        domain: Some("coupon".into()),
        config_json: config.map(str::to_string),
    }
}

#[test]
fn reference_pages_list_their_rows() {
    let t = TableSheet {
        name: "t_coupon".into(),
        source: "mapper".into(),
        domain: Some("coupon".into()),
        reads: 3,
        writes: 2,
        columns: vec![ColumnSheet {
            name: "id".into(),
            property: Some("id".into()),
            java_type: Some("Long".into()),
            doc: Some("主键".into()),
            is_pk: true,
        }],
    };
    let s = reference::tables(&vec![t]);
    assert!(s.contains("t_coupon") && s.contains("主键"));
    let s = reference::entrypoints(
        &vec![entry("a.b.CouponService", Some("{\"timeout\":\"3000\"}"))],
        &vec![entry("GET /coupon", Some("{\"guards\":[\"RequireLogin\"]}"))],
    );
    assert!(s.contains("CouponService") && s.contains("3000"));
    assert!(s.contains("GET /coupon") && s.contains("RequireLogin"));
    assert!(reference::jobs(&vec![entry("couponJob", None)]).contains("couponJob"));
    assert!(reference::mq(&vec![entry("TOPIC", None)]).contains("TOPIC"));
}

#[test]
fn rows_show_configuration_that_is_given() {
    assert!(service_row(&entry("a.b.S", None), &Some("500".into())).contains("500"));
    assert!(route_row(&entry("GET /x", None), &vec!["Guard".into()]).contains("Guard"));
    assert_eq!(short_fqn("a.b.C"), "b.C");
    assert_eq!(short_fqn("com.yaoex.a.b.C#m"), "b.C#m");
    assert_eq!(short_fqn("b.C"), "b.C");
    assert_eq!(short_fqn("C"), "C");
    assert_eq!(anchor("T_Coupon"), "t_coupon");
}

#[test]
fn traces_name_the_tables_they_reach() {
    let mut names = IdMap::new();
    names.insert(9, "t_coupon".to_string());
    names.insert(10, "t_log".to_string());
    let json = r#"{"9":["select"],"10":["insert"],"77":["select"],"x":[]}"#;
    assert_eq!(trace_tables(&names, json), vec!["t_log", "t_coupon"]);
    assert!(trace_tables(&names, "[]").is_empty());
    let mut touched = TextMap::new();
    touched.insert("9".to_string(), vec!["select".to_string()]);
    assert_eq!(tables_named(&names, &touched), vec!["t_coupon"]);
}

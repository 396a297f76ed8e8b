//! The build passes: modules, the Java index, call edges, entry points and tables.
use codeatlas::build::entry::{index_dubbo, index_http_routes, index_mq, EntryConfig};
use codeatlas::build::java_pass::{
    build_index, count_resolved, link_overrides, resolve_refs, JavaIndex, ParsedFile, RefKind,
};
use codeatlas::build::xml_pass::{
    annotated_table, annotated_table_of, entity_columns, field_docs, is_dubbo_text, is_mapper_text,
    is_spring_text, members_pattern, merge_properties, result_map_columns, statement_access,
    table_of_args, FieldRow,
};
use codeatlas::build::{
    count_lines, is_pom, module_dir, module_name, module_order, owning_module, parent_module_dir,
    touched_ids,
};
use codeatlas::extract::java::{extract, parser};
use codeatlas::extract::{dubbo_xml, mybatis};
use codeatlas::json::lists;
use codeatlas::path::{file_name, parent};
use codeatlas::store::model::{EntrypointKind, TableOp};
use codeatlas::sync::{cacheable, reusable};
use codeatlas::textmap::TextMap;

fn ids(entries: &[(&str, i64)]) -> TextMap<i64> {
    let mut m = TextMap::new();
    for (k, v) in entries {
        m.insert(k.to_string(), *v);
    }
    m
}

/// A file whose symbols have the rows from `first` on.
fn parsed(rel: &str, src: &str, first: i64) -> ParsedFile {
    let file = extract(src, &mut parser().unwrap()).unwrap();
    let ids = (0..file.symbols.len() as i64).map(|i| first + i).collect();
    ParsedFile { rel: rel.into(), file, ids }
}

fn project() -> Vec<ParsedFile> {
    vec![
        parsed(
            "a/CouponService.java",
            "package a;\n/** 券服务 */\npublic interface CouponService { void send(Long id); }",
            100,
        ),
        parsed(
            "a/CouponServiceImpl.java",
            "package a;\nclass CouponServiceImpl implements CouponService {\n  CouponDao couponDao;\n  public void send(Long id) { couponDao.save(id); log(); }\n  void log() {}\n}",
            200,
        ),
        parsed(
            "a/CouponDao.java",
            "package a;\npublic interface CouponDao { int save(Long id); }",
            300,
        ),
        parsed(
            "a/CouponController.java",
            "package a;\n@RestController\n@RequestMapping(\"/coupon\")\nclass CouponController {\n  CouponService couponService;\n  /** 发券 */\n  @PostMapping(\"/send\")\n  void send(Long id) { couponService.send(id); }\n}",
            400,
        ),
    ]
}

fn id_of(files: &[ParsedFile], fqn: &str) -> i64 {
    for f in files {
        for (i, s) in f.file.symbols.iter().enumerate() {
            if s.fqn.as_deref() == Some(fqn) {
                return f.ids[i];
            }
        }
    }
    panic!("{fqn}")
}

// Modules

#[test]
fn modules_are_the_directories_of_poms() {
    assert!(is_pom("pom.xml") && is_pom("svc/pom.xml"));
    assert!(!is_pom("svc/pom.xml.bak"));
    assert_eq!(module_dir("pom.xml"), ".");
    assert_eq!(module_dir("svc/order/pom.xml"), "svc/order");
    assert_eq!(module_name(&Some("order".into()), "svc/order"), "order");
    let order = module_order(&vec![
        "svc/order/pom.xml".to_string(),
        "pom.xml".to_string(),
        "svc/pom.xml".to_string(),
    ]);
    assert_eq!(order, vec![1, 2, 0]);
}

#[test]
fn parents_are_the_nearest_known_directories() {
    let known = ids(&[(".", 1), ("svc", 2)]);
    assert_eq!(parent_module_dir("svc/a/b", &known).as_deref(), Some("svc"));
    assert_eq!(parent_module_dir("other", &known).as_deref(), Some("."));
    assert_eq!(parent_module_dir("x", &ids(&[])), None);
}

#[test]
fn files_belong_to_the_deepest_module() {
    let modules = ids(&[(".", 1), ("svc", 2), ("svc/order", 3)]);
    assert_eq!(owning_module("svc/order/src/A.java", &modules), Some(3));
    assert_eq!(owning_module("svc/src/A.java", &modules), Some(2));
    assert_eq!(owning_module("svc-x/A.java", &modules), Some(1));
    assert_eq!(owning_module("A.java", &ids(&[("svc", 2)])), None);
}

#[test]
fn lines_and_touched_files_are_counted() {
    assert_eq!(count_lines(b"a\nb"), 2);
    assert_eq!(count_lines(b""), 1);
    let known = ids(&[("a", 1), ("b", 2)]);
    assert_eq!(touched_ids(&vec!["b".into(), "x".into(), "a".into()], &known), vec![2, 1]);
}

// The Java layer

#[test]
fn the_index_knows_types_methods_and_implementors() {
    let files = project();
    let idx = build_index(&files);
    assert_eq!(idx.types.get("a.CouponService"), Some(&id_of(&files, "a.CouponService")));
    assert_eq!(idx.simple_names.get("CouponDao").unwrap(), "a.CouponDao");
    assert_eq!(idx.type_files.get("a.CouponDao").unwrap(), "a/CouponDao.java");
    assert_eq!(
        idx.methods.get("a.CouponDao#save"),
        Some(&id_of(&files, "a.CouponDao#save"))
    );
    assert_eq!(idx.type_docs.get("a.CouponService").unwrap(), "券服务");
    assert_eq!(idx.implementors.get("a.CouponService").unwrap(), &vec!["a.CouponServiceImpl"]);
}

#[test]
fn ambiguous_simple_names_are_dropped() {
    let files = vec![
        parsed("a/X.java", "package a;\nclass X {}", 1),
        parsed("b/X.java", "package b;\nclass X {}", 10),
    ];
    let idx = build_index(&files);
    assert!(idx.types.contains_key("a.X") && idx.types.contains_key("b.X"));
    assert!(!idx.simple_names.contains_key("X"));
}

#[test]
fn calls_are_resolved_through_fields() {
    let files = project();
    let idx = build_index(&files);
    let refs = resolve_refs(&files, &idx);
    let call = refs.iter().find(|r| r.raw == "couponService.send").unwrap();
    assert_eq!(call.kind, RefKind::Call);
    assert_eq!(call.src, id_of(&files, "a.CouponController#send"));
    assert_eq!(call.dst, Some(id_of(&files, "a.CouponService#send")));
    assert_eq!(call.confidence, 10);
    let own = refs.iter().find(|r| r.raw == "log").unwrap();
    assert_eq!(own.dst, Some(id_of(&files, "a.CouponServiceImpl#log")));
    assert_eq!(own.confidence, 10);
    assert_eq!(count_resolved(&refs), refs.iter().filter(|r| r.dst.is_some()).count());
}

#[test]
fn interface_methods_lead_to_what_overrides_them() {
    let files = project();
    let links = link_overrides(&build_index(&files));
    assert_eq!(links.len(), 1);
    assert_eq!(links[0].kind, RefKind::Override);
    assert_eq!(links[0].src, id_of(&files, "a.CouponService#send"));
    assert_eq!(links[0].dst, Some(id_of(&files, "a.CouponServiceImpl#send")));
}

#[test]
fn unknown_callees_keep_their_text() {
    let files = vec![parsed("a/X.java", "package a;\nclass X { void go() { nowhere.to(); } }", 1)];
    let refs = resolve_refs(&files, &build_index(&files));
    assert_eq!(refs[0].raw, "nowhere.to");
    assert_eq!(refs[0].dst, None);
    assert_eq!(refs[0].confidence, 0);
    assert_eq!(count_resolved(&refs), 0);
}

// Entry points

#[test]
fn routes_become_entrypoints() {
    let files = project();
    let rows = index_http_routes(&files[3], 9);
    assert_eq!(rows.len(), 1);
    assert_eq!(rows[0].kind, EntrypointKind::Http);
    assert_eq!(rows[0].addr, "POST /coupon/send");
    assert_eq!(rows[0].symbol_id, Some(id_of(&files, "a.CouponController#send")));
    assert_eq!(rows[0].file_id, Some(9));
    assert_eq!(rows[0].doc.as_deref(), Some("发券"));
}

#[test]
fn services_take_the_docs_of_their_interface() {
    let files = project();
    let idx = build_index(&files);
    let d = dubbo_xml::parse(
        "<beans><dubbo:service interface=\"a.CouponService\" ref=\"x\" timeout=\"500\"/></beans>",
    )
    .unwrap();
    let rows = index_dubbo(&d, &idx, None);
    assert_eq!(rows.len(), 1);
    assert_eq!(rows[0].kind, EntrypointKind::Dubbo);
    assert_eq!(rows[0].name, "a.CouponService");
    assert_eq!(rows[0].addr, "CouponService");
    assert_eq!(rows[0].symbol_id, Some(id_of(&files, "a.CouponService")));
    assert_eq!(rows[0].doc.as_deref(), Some("券服务"));
    match &rows[0].config {
        EntryConfig::Dubbo { timeout, .. } => assert_eq!(timeout.as_deref(), Some("500")),
        other => panic!("{other:?}"),
    }
}

#[test]
fn topics_are_resolved_where_they_can_be() {
    let mut props = TextMap::new();
    props.insert("coupon.topic".to_string(), "TOPIC_COUPON".to_string());
    let rows = index_mq(
        &vec![
            ("a.L".to_string(), "${coupon.topic}".to_string()),
            ("a.M".to_string(), "${other.topic}".to_string()),
        ],
        &JavaIndex::new(),
        &props,
        &ids(&[("w.xml", 5)]),
        "w.xml",
    );
    assert_eq!(rows[0].addr, "TOPIC_COUPON");
    assert_eq!(rows[1].addr, "${other.topic}");
    let resolved: Vec<bool> = rows
        .iter()
        .map(|r| match &r.config {
            EntryConfig::Mq { resolved, .. } => *resolved,
            other => panic!("{other:?}"),
        })
        .collect();
    assert_eq!(resolved, vec![true, false]);
    assert_eq!(rows[0].file_id, Some(5));
}

// Tables

#[test]
fn columns_take_type_and_docs_from_the_class() {
    let docs = field_docs(&vec![FieldRow {
        name: "enterpriseId".into(),
        signature: Some("Long enterpriseId".into()),
        doc: Some("企业".into()),
    }]);
    let m = mybatis::parse(
        "<mapper namespace=\"a.D\"><resultMap type=\"a.P\" id=\"M\"><id property=\"id\" column=\"id\"/><result property=\"enterpriseId\" column=\"enterprise_id\"/></resultMap></mapper>",
    )
    .unwrap();
    let cols = result_map_columns(&m.result_maps[0], &docs);
    assert_eq!(cols.len(), 2);
    assert!(cols[0].is_pk && cols[0].java_type.is_none());
    assert_eq!(cols[1].name, "enterprise_id");
    assert_eq!(cols[1].java_type.as_deref(), Some("Long"));
    assert_eq!(cols[1].doc.as_deref(), Some("企业"));
    let cols = entity_columns(&docs);
    assert_eq!(cols[0].name, "enterprise_id");
    assert!(!cols[0].is_pk);
}

#[test]
fn statements_are_attributed_to_dao_methods() {
    let files = project();
    let idx = build_index(&files);
    let m = mybatis::parse(
        "<mapper namespace=\"a.CouponDao\"><insert id=\"save\">insert into t_coupon (id) values (1)</insert><select id=\"other\">select 1 from t_other</select></mapper>",
    )
    .unwrap();
    let rows = statement_access(&m, &idx);
    assert_eq!(rows.len(), 2);
    assert_eq!(rows[0].table, "t_coupon");
    assert_eq!(rows[0].op, TableOp::Insert);
    assert_eq!(rows[0].symbol_id, Some(id_of(&files, "a.CouponDao#save")));
    assert_eq!(rows[1].symbol_id, None);
}

#[test]
fn the_first_value_of_a_property_stays() {
    let mut merged = TextMap::new();
    merged.insert("a".to_string(), "1".to_string());
    let mut more = TextMap::new();
    more.insert("a".to_string(), "2".to_string());
    more.insert("b".to_string(), "3".to_string());
    merge_properties(&mut merged, &more);
    assert_eq!(merged.get("a").unwrap(), "1");
    assert_eq!(merged.get("b").unwrap(), "3");
}

#[test]
fn texts_are_told_apart() {
    assert!(is_mapper_text("<mapper namespace=\"x\">") && !is_mapper_text("<beans/>"));
    assert!(is_dubbo_text("<dubbo:service/>") && !is_dubbo_text("<dubbo:reference/>"));
    assert!(is_spring_text("<bean id=\"x\"/>"));
    assert_eq!(members_pattern("a.My_Type"), "a.My\\_Type#%");
    assert_eq!(annotated_table(" T_Coupon ").as_deref(), Some("t_coupon"));
    assert_eq!(annotated_table("  "), None);
}

#[test]
fn overloads_of_one_type_are_one_declaring_type() {
    let mut files = vec![
        parsed("a/Tool.java", "package a;\nclass Tool { void twice(int a) {} void twice(long a) {} }", 10),
        parsed("a/User.java", "package a;\nclass User { void go() { tool.twice(1); } }", 50),
    ];
    let refs = resolve_refs(&files, &build_index(&files));
    let call = refs.iter().find(|r| r.raw == "tool.twice").unwrap();
    assert_eq!(call.dst, Some(id_of(&files, "a.Tool#twice")));
    assert_eq!(call.confidence, 3);

    files.push(parsed("a/Other.java", "package a;\nclass Other { void twice() {} }", 90));
    let refs = resolve_refs(&files, &build_index(&files));
    let call = refs.iter().find(|r| r.raw == "tool.twice").unwrap();
    assert_eq!((call.dst, call.confidence), (None, 0));
}

#[test]
fn annotation_arguments_name_a_table() {
    assert_eq!(
        annotated_table_of(r#"{"value":" T_Coupon ","schema":"db"}"#).as_deref(),
        Some("t_coupon")
    );
    assert_eq!(annotated_table_of(r#"{"value":"  "}"#), None);
    assert_eq!(annotated_table_of(r#"{"name":"t"}"#), None);
    assert_eq!(annotated_table_of(r#"{"value":"t","keep":true}"#), None);
    assert_eq!(annotated_table_of("not json"), None);
    let mut args = TextMap::new();
    args.insert("value".to_string(), "T_A".to_string());
    assert_eq!(table_of_args(&args).as_deref(), Some("t_a"));
}

#[test]
fn serial_versions_are_no_columns() {
    let row = |name: &str| FieldRow { name: name.into(), signature: None, doc: None };
    let docs = field_docs(&vec![row("serialVersionUID"), row("enterpriseId")]);
    assert_eq!(docs.len(), 1);
    assert!(docs.contains_key("enterpriseId"));
}

#[test]
fn objects_of_lists_are_read() {
    let m = lists(r#"{"9":["select"],"10":["update","insert"]}"#);
    assert_eq!(m.len(), 2);
    assert_eq!(m.key_at(0), "10");
    assert_eq!(m.get("10").unwrap(), &vec!["update", "insert"]);
    assert!(lists(r#"{"9":["select"],"10":1}"#).is_empty());
    assert!(lists("[]").is_empty());
}

#[test]
fn only_clean_parses_are_cached_and_reused() {
    let clean = parsed("A.java", "class A {}", 1).file;
    let broken = parsed("B.java", "class B { void (", 1).file;
    assert!(cacheable(&clean));
    assert!(!cacheable(&broken));
    let mut cache = TextMap::new();
    cache.insert("abc".to_string(), "{}".to_string());
    assert_eq!(reusable("abc", &cache).unwrap(), "{}");
    assert!(reusable("def", &cache).is_none());
}

#[test]
fn an_object_with_a_wrong_value_is_read_as_none() {
    assert_eq!(annotated_table_of(r#"{"value":1,"value":"t_a"}"#), None);
    assert_eq!(annotated_table_of(r#"{"value":"t_a","value":"t_b"}"#).as_deref(), Some("t_b"));
    assert!(lists(r#"{"9":1,"9":["select"]}"#).is_empty());
}

#[test]
fn paths_are_read_by_components() {
    for p in [
        "a/b", "a//b", "a/./b", "a/b/", "a/b/.", "/x", "/", "//", "//x/y", "x/..", "..", ".", "./x",
        "./.", "", "a", "a/../b", ".a", "a/.", "./", "/./x", "a\\b/c", "x/.b",
    ] {
        let std = std::path::Path::new(p);
        let name = std.file_name().map(|n| n.to_string_lossy().to_string());
        let above = std.parent().map(|q| q.to_string_lossy().to_string());
        assert_eq!(file_name(p), name, "{p}");
        assert_eq!(parent(p), above, "{p}");
    }
}

#[test]
fn modules_above_are_found_by_components() {
    let known = ids(&[(".", 1), ("a/b", 2)]);
    assert_eq!(parent_module_dir("/x", &known), None);
    assert_eq!(parent_module_dir("a//x", &known).as_deref(), Some("."));
    assert_eq!(parent_module_dir("a\\b/x", &known).as_deref(), Some("a/b"));
    assert_eq!(parent_module_dir("./x", &known).as_deref(), Some("."));
    assert_eq!(module_name(&None, "x/.."), "x/..");
    assert_eq!(module_name(&None, "svc/order"), "order");
    assert_eq!(module_name(&None, "."), ".");
}

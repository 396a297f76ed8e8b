//! Java symbols and the entry points found in them.
use codeatlas::extract::entrypoint::{http_routes, xxl_job_handlers};
use codeatlas::extract::java::{extract, parser};
use codeatlas::store::model::{EntrypointKind, JavaFile, SymbolKind};

fn parse(src: &str) -> JavaFile {
    extract(src, &mut parser().unwrap()).unwrap()
}

#[test]
fn enum_members_keep_their_comments() {
    let f = parse(
        r#"package com.yaoex.promotion.core.model;
/**
 * 活动类型枚举类
 */
public enum PromotionTypeEnum {
    /** 特价 */
    BARGAIN,
    /** 满减 */
    FULL_SUB;
}"#,
    );
    assert!(!f.had_parse_error);
    assert_eq!(f.package.as_deref(), Some("com.yaoex.promotion.core.model"));
    let e = f.symbols.iter().find(|s| s.kind == SymbolKind::Enum).unwrap();
    assert_eq!(e.name, "PromotionTypeEnum");
    assert_eq!(e.doc.as_deref(), Some("活动类型枚举类"));
    let members: Vec<_> =
        f.symbols.iter().filter(|s| s.kind == SymbolKind::EnumMember).collect();
    assert_eq!(members.len(), 2);
    assert_eq!(members[0].doc.as_deref(), Some("特价"));
    assert_eq!(
        members[0].fqn.as_deref(),
        Some("com.yaoex.promotion.core.model.PromotionTypeEnum.BARGAIN")
    );
}

#[test]
fn static_final_fields_become_constants_with_docs() {
    let f = parse(
        r#"package p;
public class ConstantPromotion {
    /**
     * 促销活动商态0：“生效中”
     */
    public static final Integer PROMOTION_STATE_EFFECTIVE = 0;
    private String name;
}"#,
    );
    let c = f.symbols.iter().find(|s| s.kind == SymbolKind::Constant).unwrap();
    assert_eq!(c.name, "PROMOTION_STATE_EFFECTIVE");
    assert_eq!(c.doc.as_deref(), Some("促销活动商态0：“生效中”"));
    assert!(c.signature.as_deref().unwrap().contains("= 0"));
    assert!(f.symbols.iter().any(|s| s.kind == SymbolKind::Field && s.name == "name"));
}

#[test]
fn annotations_capture_table_and_route() {
    let f = parse(
        r#"package p;
@TableName(value = "t_combined_price")
public class A {}
"#,
    );
    let a = f.symbols.iter().find(|s| s.name == "A").unwrap();
    let t = a.annotations.iter().find(|x| x.name == "TableName").unwrap();
    assert_eq!(t.value(), Some("t_combined_price"));

    let f = parse(
        r#"package p;
@TableName("t_group_buying")
class B {}
"#,
    );
    let b = f.symbols.iter().find(|s| s.name == "B").unwrap();
    assert_eq!(b.annotations[0].value(), Some("t_group_buying"));
}

#[test]
fn methods_get_signature_docs_and_calls() {
    let f = parse(
        r#"package p;
public class S {
    /**
     * 获取特价活动信息
     * @param id 活动ID
     */
    public ResultModel<List<P>> getProductPromotion(Long id, boolean flag) {
        promotionDao.selectById(id);
        return build(id);
    }
}"#,
    );
    let m = f.symbols.iter().find(|s| s.kind == SymbolKind::Method).unwrap();
    assert_eq!(m.name, "getProductPromotion");
    assert_eq!(m.fqn.as_deref(), Some("p.S#getProductPromotion"));
    assert!(m.signature.as_deref().unwrap().starts_with("ResultModel<List<P>> getProductPromotion("));
    assert!(m.doc.as_deref().unwrap().contains("获取特价活动信息"));
    assert!(m.calls.contains(&"promotionDao.selectById".to_string()));
    assert!(m.calls.contains(&"build".to_string()));
}

#[test]
fn interface_methods_and_overloads_are_separate_symbols() {
    let f = parse(
        r#"package p;
/** 促销服务化接口 */
public interface PromotionDubboService {
    /** 取活动 A */
    ResultModel get(List<X> a, String b);
    /** 取活动 B */
    ResultModel get(List<X> a, String b, boolean c);
}"#,
    );
    assert!(f.symbols.iter().any(|s| s.kind == SymbolKind::Interface));
    let ms: Vec<_> = f.symbols.iter().filter(|s| s.kind == SymbolKind::Method).collect();
    assert_eq!(ms.len(), 2);
    assert_ne!(ms[0].signature, ms[1].signature);
    assert_eq!(ms[1].doc.as_deref(), Some("取活动 B"));
}

#[test]
fn nested_types_get_qualified_fqn() {
    let f = parse("package p;\nclass Outer { static class Inner { void go() {} } }");
    assert!(f.symbols.iter().any(|s| s.fqn.as_deref() == Some("p.Outer.Inner")));
    assert!(f.symbols.iter().any(|s| s.fqn.as_deref() == Some("p.Outer.Inner#go")));
}

#[test]
fn imports_normalize_static_and_wildcard() {
    let f = parse(
        "package p;\nimport java.util.*;\nimport static a.b.C.MENU;\nclass A {}",
    );
    assert!(f.imports.contains(&"java.util.*".to_string()));
    assert!(f.imports.contains(&"a.b.C.MENU".to_string()));
}

#[test]
fn line_comments_count_as_docs() {
    let f = parse("package p;\nclass A {\n  // 活动状态\n  private int st;\n}");
    let s = f.symbols.iter().find(|s| s.name == "st").unwrap();
    assert_eq!(s.doc.as_deref(), Some("活动状态"));
}

#[test]
fn combines_class_prefix_with_method_paths() {
    let f = parse(
        r#"package p;
@Controller
@RequestMapping("/defective")
@RequireListPermission({MENU_NAME_PROMOTION})
public class DefectiveController {
    @GetMapping("/queryInfo/{promotionId}")
    public Ret queryInfo(Long id) { return null; }

    @RequestMapping(value = "/list", method = RequestMethod.POST)
    public Ret list() { return null; }

    public Ret notARoute() { return null; }
}"#,
    );
    let routes = http_routes(&f);
    assert_eq!(routes.len(), 2);
    assert_eq!(routes[0].method, "GET");
    assert_eq!(routes[0].path, "/defective/queryInfo/{promotionId}");
    assert_eq!(routes[1].method, "POST");
    assert_eq!(routes[1].path, "/defective/list");
    // The class-level permission annotation guards every route inside it.
    assert_eq!(routes[0].guards, vec!["RequireListPermission"]);
}

#[test]
fn bare_request_mapping_is_any_method() {
    let f = parse(
        r#"package p;
@Controller
@RequestMapping("/x")
class C {
    @RequestMapping("/go")
    public String go() { return null; }
}"#,
    );
    let r = http_routes(&f);
    assert_eq!(r[0].method, "ANY");
    assert_eq!(r[0].path, "/x/go");
}

#[test]
fn non_controller_classes_yield_nothing() {
    let f = parse("package p;\n@Service\nclass S { @GetMapping(\"/a\") void a() {} }");
    assert!(http_routes(&f).is_empty());
}

#[test]
fn class_without_prefix_still_routes() {
    let f = parse(
        "package p;\n@RestController\nclass C { @PostMapping(\"/save\") void s() {} }",
    );
    let r = http_routes(&f);
    assert_eq!(r[0].path, "/save");
    assert_eq!(r[0].method, "POST");
}

#[test]
fn multi_path_mapping_takes_first() {
    let f = parse(
        r#"package p;
@Controller
class C { @RequestMapping({"/a", "/b"}) void go() {} }"#,
    );
    assert_eq!(http_routes(&f)[0].path, "/a");
}

#[test]
fn route_symbol_index_points_at_handler() {
    let f = parse(
        "package p;\n@Controller\nclass C { @GetMapping(\"/a\") public void handler() {} }",
    );
    let r = http_routes(&f);
    assert_eq!(f.symbols[r[0].symbol].name, "handler");
}

#[test]
fn finds_annotated_job_handlers() {
    let f = parse(
        r#"package p;
public class J {
    @XxlJob("couponExpireJobHandler")
    public void run() {}
}"#,
    );
    let h = xxl_job_handlers(&f);
    assert_eq!(h.len(), 1);
    assert_eq!(h[0].1, "couponExpireJobHandler");
    assert_eq!(f.symbols[h[0].0].name, "run");
}

#[test]
fn broken_sources_are_reported_and_still_read() {
    let f = parse("package p;\nclass A { void go( { }");
    assert!(f.had_parse_error);
    assert_eq!(f.package.as_deref(), Some("p"));
}

#[test]
fn a_file_without_a_package_has_bare_names() {
    let f = parse("class A { void go() {} }");
    assert_eq!(f.package, None);
    assert!(f.symbols.iter().any(|s| s.fqn.as_deref() == Some("A")));
}

#[test]
fn lines_count_from_one() {
    let f = parse("package p;\n\nclass A {\n  int x;\n}\n");
    let a = f.symbols.iter().find(|s| s.name == "A").unwrap();
    assert_eq!((a.start_line, a.end_line), (3, 5));
}

#[test]
fn a_symbol_follows_the_symbol_that_holds_it() {
    let f = parse(
        r#"package p;
class Outer {
    int a;
    class Inner {
        void go() {}
    }
    enum Kind { ONE }
    void last() {}
}"#,
    );
    assert!(f.symbols.len() >= 7);
    for (i, s) in f.symbols.iter().enumerate() {
        match s.parent {
            Some(p) => {
                assert!(p < i);
                assert!(matches!(f.symbols[p].kind, SymbolKind::Class | SymbolKind::Enum));
            }
            None => assert_eq!(s.name, "Outer"),
        }
    }
    let go = f.symbols.iter().find(|s| s.name == "go").unwrap();
    assert_eq!(f.symbols[go.parent.unwrap()].name, "Inner");
    assert!(go.kind.is_callable());
    assert!(!f.symbols[go.parent.unwrap()].kind.is_callable());
}

#[test]
fn entrypoint_kinds_have_labels() {
    assert_eq!(EntrypointKind::Dubbo.label_zh(), "Dubbo 接口");
    assert_eq!(EntrypointKind::Http.label_zh(), "HTTP 路由");
    assert_eq!(EntrypointKind::Job.label_zh(), "定时任务");
    assert_eq!(EntrypointKind::Mq.label_zh(), "消息消费");
}

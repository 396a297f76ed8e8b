//! Properties and SQL.
use codeatlas::extract::properties::{parse, resolve};
use codeatlas::extract::sql::{normalize, tables_with_ops};
use codeatlas::store::model::TableOp;
use codeatlas::textmap::TextMap;

fn names(sql: &str) -> Vec<String> {
    let mut v: Vec<String> = tables_with_ops(sql).into_iter().map(|(t, _)| t).collect();
    v.sort();
    v.dedup();
    v
}

fn props(entries: &[(&str, &str)]) -> TextMap<String> {
    let mut m = TextMap::new();
    for (k, v) in entries {
        m.insert(k.to_string(), v.to_string());
    }
    m
}

#[test]
fn handles_dynamic_sql_with_joins() {
    let sql = r#"
        SELECT t1.* FROM t_promotion_defective t1
        left join t_promotion_defective_group t2 on t1.id=t2.promotion_id
        <where><if test="enterpriseId != null">and t1.enterprise_id=#{enterpriseId}</if></where>"#;
    assert_eq!(names(sql), vec!["t_promotion_defective", "t_promotion_defective_group"]);
}

#[test]
fn classifies_operations() {
    let ops = tables_with_ops("insert into t_coupon (a) values (1)");
    assert_eq!(ops, vec![("t_coupon".into(), TableOp::Insert)]);
    let ops = tables_with_ops("update t_coupon set a = 1");
    assert_eq!(ops, vec![("t_coupon".into(), TableOp::Update)]);
    let ops = tables_with_ops("delete from t_coupon where id = 1");
    assert_eq!(ops, vec![("t_coupon".into(), TableOp::Delete)]);
}

#[test]
fn strips_backticks_and_schema() {
    assert_eq!(names("select * from `promotion`.`t_coupon`"), vec!["t_coupon"]);
}

#[test]
fn rejects_placeholders_and_noise() {
    assert!(names("select * from ${tableName}").is_empty());
    assert!(names("select * from #{t}").is_empty());
    assert!(names("select 1 from dual").is_empty());
    assert!(names("select * from information_schema.tables")
        .iter()
        .all(|t| t != "information_schema"));
}

#[test]
fn upsert_clause_columns_are_not_tables() {
    let sql = "insert into t_real (a, b) values (1, 2)
                   ON DUPLICATE KEY UPDATE
                   gross_profit = VALUES(gross_profit),
                   update_time = NOW()";
    assert_eq!(names(sql), vec!["t_real"]);
    assert_eq!(
        names("insert into t_x (a) values (1) on duplicate key update pic_url = 1"),
        vec!["t_x"]
    );
}

#[test]
fn real_update_statements_still_register() {
    assert_eq!(names("update t_coupon set status = 1"), vec!["t_coupon"]);
    let mut n = names(
        "update t_a set x = 1; insert into t_b (c) values (2) on duplicate key update c = 3",
    );
    n.sort();
    assert_eq!(n, vec!["t_a", "t_b"]);
}

#[test]
fn engine_catalogs_are_rejected() {
    assert!(names("select count(*) from information_schema.tables").is_empty());
    assert!(names("select * from mysql.user").is_empty());
    assert_eq!(names("select * from promotion.t_coupon"), vec!["t_coupon"]);
}

#[test]
fn insert_ignore_and_replace_are_writes() {
    assert_eq!(
        tables_with_ops("insert ignore into t_x (a) values (1)"),
        vec![("t_x".into(), TableOp::Insert)]
    );
    assert_eq!(
        tables_with_ops("replace into t_y (a) values (1)"),
        vec![("t_y".into(), TableOp::Insert)]
    );
}

#[test]
fn table_names_are_normalised() {
    assert_eq!(normalize("`Promotion`.`T_Coupon`").as_deref(), Some("t_coupon"));
    assert_eq!(normalize("mysql.user"), None);
    assert_eq!(normalize("dual"), None);
}

#[test]
fn a_table_read_twice_is_reported_once() {
    let ops = tables_with_ops("select * from t_a union select * from t_a");
    assert_eq!(ops, vec![("t_a".into(), TableOp::Select)]);
}

#[test]
fn parses_comments_and_both_separators() {
    let p = parse("# comment\n! also\nxxl.job.admin.addresses=http://a\nfoo : bar\n\n");
    assert_eq!(p.get("xxl.job.admin.addresses").unwrap(), "http://a");
    assert_eq!(p.get("foo").unwrap(), "bar");
    assert_eq!(p.len(), 2);
}

#[test]
fn honors_line_continuation() {
    let p = parse("topics=a,\\\n b,\\\n c");
    assert_eq!(p.get("topics").unwrap(), "a,b,c");
}

#[test]
fn value_may_contain_separators() {
    let p = parse("url=jdbc:mysql://h:3306/db?x=1");
    assert_eq!(p.get("url").unwrap(), "jdbc:mysql://h:3306/db?x=1");
}

#[test]
fn resolves_placeholders_with_defaults() {
    let p = props(&[("couponAudit.mq.topic", "TOPIC_COUPON_AUDIT")]);
    assert_eq!(resolve("${couponAudit.mq.topic}", &p), "TOPIC_COUPON_AUDIT");
    assert_eq!(resolve("${missing:FALLBACK}", &p), "FALLBACK");
    assert_eq!(resolve("${unknown.topic}", &p), "${unknown.topic}");
}

#[test]
fn resolves_nested_references() {
    let p = props(&[("a", "${b}"), ("b", "final")]);
    assert_eq!(resolve("${a}", &p), "final");
}

#[test]
fn placeholder_cycle_terminates() {
    let p = props(&[("a", "${b}"), ("b", "${a}")]);
    let _ = resolve("${a}", &p);
}

#[test]
fn plain_values_resolve_to_themselves() {
    let p = props(&[("a", "x")]);
    assert_eq!(resolve("no placeholder", &p), "no placeholder");
    assert_eq!(resolve("pre-${a}-post", &p), "pre-x-post");
}

#[test]
fn the_scan_ignores_case() {
    for sql in [
        "insert into T_Log (a) select b from t_Src join `Db`.`T_Dim` on 1 = 1",
        "update t_a set x = 1 on duplicate key update col = 2",
        "delete from information_schema.tables",
    ] {
        let plain = tables_with_ops(sql);
        assert_eq!(tables_with_ops(&sql.to_ascii_uppercase()), plain);
        assert_eq!(tables_with_ops(&sql.to_ascii_lowercase()), plain);
    }
    assert_eq!(
        tables_with_ops("SELECT * FROM T_COUPON"),
        vec![("t_coupon".to_string(), TableOp::Select)]
    );
}

#[test]
fn a_later_text_wins() {
    let (a, b) = ("k = 1\nonly.a=x\r", "  k: 2\nonly.b = y");
    let both = parse(&format!("{a}\n{b}"));
    assert_eq!(both.len(), 3);
    assert_eq!(both.get("k").unwrap(), "2");
    assert_eq!(both.get("only.a"), parse(a).get("only.a"));
    assert_eq!(both.get("only.b"), parse(b).get("only.b"));
    assert_eq!(both.get("only.a").unwrap(), "x");
}

//! Insights, search and the store's decisions, with a real full-text index.
use codeatlas::insight::{
    is_insight, kind_label, list, propose, review, Evidence, Insight, NoteRow,
};
use codeatlas::search::{
    escape_like, hit, label, query, read_aliases, rebuild, to_fts_query, ColumnSource,
    CommitSource, Doc, DomainSource, EntrySource, FileSource, Hit, NoteSource, Query, Sources,
    SymbolSource, TableSource, TermSource,
};
use codeatlas::store::{check_version, find_root};
use codeatlas::sync::{discards_cache, plan_history, HistoryPlan};
use codeatlas::textmap::TextMap;

const FTS: &str = "CREATE VIRTUAL TABLE search_fts USING fts5(
    title, body, kind UNINDEXED, subject_kind UNINDEXED,
    subject_id UNINDEXED, file_path UNINDEXED, tokenize = 'trigram')";

/// An index of the documents.
fn index(docs: &[Doc]) -> rusqlite::Connection {
    let conn = rusqlite::Connection::open_in_memory().unwrap();
    conn.execute_batch(FTS).unwrap();
    for d in docs {
        conn.execute(
            "INSERT INTO search_fts(title, body, kind, subject_kind, subject_id, file_path)
             VALUES (?1, ?2, ?3, ?4, ?5, ?6)",
            (&d.title, &d.body, &d.kind, &d.subject_kind, d.subject_id, &d.file),
        )
        .unwrap();
    }
    conn
}

fn find(conn: &rusqlite::Connection, text: &str) -> Result<Vec<Hit>, String> {
    let (sql, arg) = match query(text)? {
        Query::Like(p) => (
            "SELECT title, body, kind, subject_kind, subject_id, file_path FROM search_fts
             WHERE title LIKE ?1 ESCAPE '\\' OR body LIKE ?1 ESCAPE '\\' ORDER BY title",
            p,
        ),
        Query::Phrase(p) => (
            "SELECT title, body, kind, subject_kind, subject_id, file_path FROM search_fts
             WHERE search_fts MATCH ?1 ORDER BY bm25(search_fts)",
            p,
        ),
    };
    let mut stmt = conn.prepare(sql).unwrap();
    let rows = stmt
        .query_map([arg], |r| {
            Ok(hit(&Doc {
                title: r.get(0)?,
                body: r.get(1)?,
                kind: r.get(2)?,
                subject_kind: r.get(3)?,
                subject_id: r.get(4)?,
                file: r.get(5)?,
            }))
        })
        .unwrap();
    Ok(rows.map(|r| r.unwrap()).collect())
}

fn nothing() -> Sources {
    Sources {
        files: vec![],
        symbols: vec![],
        tables: vec![],
        entrypoints: vec![],
        domains: vec![],
        notes: vec![],
        terms: vec![],
        commits: vec![],
    }
}

fn with_symbol() -> Sources {
    let mut s = nothing();
    s.files.push(FileSource {
        id: 1,
        path: "a/CouponEnum.java".into(),
        lang: Some("java".into()),
    });
    s.symbols.push(SymbolSource {
        id: 2,
        title: "a.CouponEnum.TEJIA".into(),
        kind: "enum_member".into(),
        doc: Some("特价活动说明".into()),
        signature: None,
        file: Some("a/CouponEnum.java".into()),
    });
    s
}

fn titled(title: &str) -> Doc {
    Doc {
        title: title.into(),
        body: "".into(),
        kind: "symbol".into(),
        subject_kind: "class".into(),
        subject_id: 1,
        file: None,
    }
}

// Search

#[test]
fn rebuild_indexes_and_query_finds_cjk_substring() {
    let docs = rebuild(&with_symbol());
    assert!(docs.len() >= 1);
    let conn = index(&docs);
    // The doc carries a 4+ char CJK run, which trigram can match.
    let hits = find(&conn, "特价活动").unwrap();
    assert!(hits.iter().any(|h| h.title.contains("TEJIA")));
    assert_eq!(hits[0].file.as_deref(), Some("a/CouponEnum.java"));
    // A 2-char CJK query is below trigram's floor; it falls back to a
    // substring scan and still finds the term.
    let hits = find(&conn, "特价").unwrap();
    assert!(hits.iter().any(|h| h.title.contains("TEJIA")));
    // Single character works too.
    assert!(find(&conn, "价").unwrap().iter().any(|h| h.title.contains("TEJIA")));
}

#[test]
fn short_query_escapes_like_wildcards() {
    let conn = index(&[titled("x%y")]);
    // A literal `%` in the query must not be treated as a wildcard.
    assert_eq!(find(&conn, "%").unwrap()[0].title, "x%y");
    assert!(find(&conn, "z").unwrap().is_empty());
    let conn = index(&[titled("xy")]);
    assert!(find(&conn, "%").unwrap().is_empty());
    assert!(find(&conn, "_").unwrap().is_empty());
}

#[test]
fn query_is_case_insensitive_for_identifiers() {
    let conn = index(&[titled("CouponService")]);
    let hits = find(&conn, "coupon").unwrap();
    assert!(hits.iter().any(|h| h.title == "CouponService"));
}

#[test]
fn fts_query_escapes_double_quotes() {
    assert_eq!(to_fts_query("a\"b"), "\"a\"\"b\"");
    assert_eq!(to_fts_query("特价"), "\"特价\"");
}

#[test]
fn empty_query_is_rejected() {
    let conn = index(&[]);
    assert!(find(&conn, "   ").is_err());
    assert_eq!(query("").unwrap_err(), "查询词为空");
}

#[test]
fn labels_map_kinds() {
    assert_eq!(label("symbol", "method"), "符号·方法");
    assert_eq!(label("entrypoint", "dubbo"), "入口·Dubbo");
    assert_eq!(label("table", ""), "数据表");
    assert_eq!(label("glossary", ""), "术语");
}

#[test]
fn unknown_kinds_label_themselves() {
    assert_eq!(label("note", "term"), "文档·term");
    assert_eq!(label("file", "sql"), "文件·SQL");
    assert_eq!(label("odd", "thing"), "odd·thing");
    assert_eq!(label("symbol", "package"), "符号·package");
    assert_eq!(label("commit", "x"), "提交");
}

#[test]
fn a_query_is_normalised_before_it_is_measured() {
    assert!(matches!(query("  特价  ").unwrap(), Query::Like(p) if p == "%特价%"));
    assert!(matches!(query("a \n b").unwrap(), Query::Phrase(p) if p == "\"a b\""));
    assert_eq!(escape_like("a\\_%"), "a\\\\\\_\\%");
}

#[test]
fn punctuation_in_a_phrase_matches_itself() {
    let conn = index(&[titled("say \"hi\" AND (x)"), titled("other words")]);
    let hits = find(&conn, "\"hi\" AND (x").unwrap();
    assert_eq!(hits.len(), 1);
    assert_eq!(hits[0].title, "say \"hi\" AND (x)");
}

#[test]
fn every_kind_of_row_is_indexed() {
    let mut s = with_symbol();
    s.tables.push(TableSource {
        id: 3,
        name: "t_coupon".into(),
        file: None,
        columns: vec![
            ColumnSource {
                name: "state".into(),
                java_type: Some("Integer".into()),
                doc: Some("券状态".into()),
            },
            ColumnSource { name: "id".into(), java_type: None, doc: None },
        ],
    });
    s.entrypoints.push(EntrySource {
        id: 4,
        kind: "http".into(),
        name: "CouponController#list".into(),
        addr: Some("GET /coupon/list".into()),
        doc: Some("券列表".into()),
        file: None,
    });
    s.domains.push(DomainSource {
        id: 5,
        key: "coupon".into(),
        label: Some("优惠券".into()),
        rationale: None,
    });
    s.terms.push(TermSource {
        id: 6,
        term: "特价".into(),
        definition: Some("限时低价".into()),
        aliases_json: Some("[\"秒杀价\",\"活动价\"]".into()),
    });
    s.commits.push(CommitSource { id: 7, subject: "添加特价活动".into() });
    let docs = rebuild(&s);
    let kinds: Vec<&str> = docs.iter().map(|d| d.kind.as_str()).collect();
    assert_eq!(
        kinds,
        vec!["file", "symbol", "table", "entrypoint", "domain", "glossary", "commit"]
    );
    assert_eq!(docs[0].title, "a/CouponEnum.java");
    assert_eq!(docs[0].subject_kind, "java");
    assert_eq!(docs[5].body, "限时低价\n秒杀价\n活动价");
    assert_eq!(docs[6].title, "添加特价活动");
    let conn = index(&docs);
    assert!(find(&conn, "秒杀价").unwrap().iter().any(|h| h.kind == "glossary"));
    assert!(find(&conn, "券状态").unwrap().iter().any(|h| h.kind == "table"));
}

#[test]
fn aliases_that_are_no_list_of_strings_are_none() {
    assert_eq!(read_aliases(&Some("[\"a\",\"b\"]".into())), vec!["a", "b"]);
    assert!(read_aliases(&Some("{}".into())).is_empty());
    assert!(read_aliases(&Some("[1]".into())).is_empty());
    assert!(read_aliases(&None).is_empty());
}

#[test]
fn hits_carry_a_short_snippet() {
    let mut d = titled("x");
    d.body = "券".repeat(200);
    let h = hit(&d);
    assert!(h.snippet.starts_with("券"));
    assert_eq!(h.snippet, format!("{}…（已截断）", "券".repeat(160)));
}

// Insights

fn sample(kind: &str) -> Insight {
    Insight {
        kind: kind.into(),
        title: "待支付订单主动取消不释放优惠券".into(),
        body: "仅用户主动取消走 `releaseCoupon=false` 分支；超时关闭路径未验证。".into(),
        domain: None,
        evidence: vec![Evidence {
            file: "src/main/java/com/demo/OrderService.java".into(),
            symbol: Some("OrderService.cancel".into()),
            lines: Some("120-145".into()),
        }],
    }
}

/// Stores the proposal as a note.
fn keep(notes: &mut Vec<NoteRow>, ins: &Insight) -> Result<i64, String> {
    let p = propose(ins, &TextMap::new(), "session")?;
    let id = notes.len() as i64 + 1;
    notes.push(NoteRow {
        id,
        kind: p.kind,
        title: p.title,
        status: p.status,
        domain: Some(p.domain_key),
        body: p.body,
        created: "2024-01-01T00:00:00Z".into(),
        evidence: p.evidence,
    });
    Ok(id)
}

fn indexed(notes: &[NoteRow]) -> rusqlite::Connection {
    let mut s = nothing();
    for n in notes {
        s.notes.push(NoteSource {
            id: n.id,
            title: n.title.clone(),
            kind: n.kind.clone(),
            body: n.body.clone(),
            status: n.status.clone(),
        });
    }
    index(&rebuild(&s))
}

#[test]
fn propose_list_review_round_trip() {
    let mut notes = Vec::new();
    let id = keep(&mut notes, &sample("business_rule")).unwrap();

    let pending = list(&notes, "candidate").unwrap();
    assert_eq!(pending.len(), 1);
    assert_eq!(pending[0].id, id);
    assert_eq!(
        pending[0].evidence,
        vec!["src/main/java/com/demo/OrderService.java:OrderService.cancel:120-145"]
    );

    assert!(review(&mut notes, id, true));
    assert!(list(&notes, "candidate").unwrap().is_empty());
    let done = list(&notes, "confirmed").unwrap();
    assert_eq!(done.len(), 1);
    // Already confirmed: a second verdict is not a silent no-op.
    assert!(!review(&mut notes, id, true));
}

#[test]
fn rejected_stays_for_audit_but_out_of_search() {
    let mut notes = Vec::new();
    let a = keep(&mut notes, &sample("landmine")).unwrap();
    let b = keep(&mut notes, &sample("business_rule")).unwrap();
    assert!(review(&mut notes, a, false));
    assert!(review(&mut notes, b, true));

    let hits = find(&indexed(&notes), "优惠券").unwrap();
    let ids: Vec<i64> = hits.iter().filter(|h| h.kind == "note").map(|h| h.subject_id).collect();
    assert!(ids.contains(&b), "confirmed insight should be indexed");
    assert!(!ids.contains(&a), "rejected insight must not be indexed");
    // Still listed for audit.
    assert_eq!(list(&notes, "rejected").unwrap().len(), 1);
}

#[test]
fn candidate_is_not_indexed_until_confirmed() {
    let mut notes = Vec::new();
    let id = keep(&mut notes, &sample("term")).unwrap();
    let hits = find(&indexed(&notes), "优惠券").unwrap();
    assert!(
        !hits.iter().filter(|h| h.kind == "note").any(|h| h.subject_id == id),
        "a candidate must not appear in search before human confirmation"
    );
    assert!(review(&mut notes, id, true));
    let hits = find(&indexed(&notes), "优惠券").unwrap();
    assert!(hits.iter().any(|h| h.kind == "note" && h.subject_id == id));
}

#[test]
fn validation_rejects_missing_evidence_and_bad_kind() {
    let mut notes = Vec::new();
    let mut no_evidence = sample("business_rule");
    no_evidence.evidence.clear();
    let err = keep(&mut notes, &no_evidence).unwrap_err();
    assert!(err.contains("证据"), "{err}");

    let mut blank_file = sample("business_rule");
    blank_file.evidence[0].file = "  ".into();
    assert!(keep(&mut notes, &blank_file).is_err());

    let err = keep(&mut notes, &sample("opinion")).unwrap_err();
    assert!(err.contains("business_rule"), "{err}");

    let mut no_title = sample("term");
    no_title.title = "  ".into();
    assert!(keep(&mut notes, &no_title).is_err());

    let mut long_title = sample("term");
    long_title.title = "长".repeat(121);
    assert!(keep(&mut notes, &long_title).is_err());
    long_title.title = "长".repeat(120);
    assert!(keep(&mut notes, &long_title).is_ok());

    let mut no_body = sample("term");
    no_body.body = "\n".into();
    assert!(keep(&mut notes, &no_body).is_err());
}

#[test]
fn unknown_domain_is_rejected_with_the_key() {
    let mut ins = sample("business_rule");
    ins.domain = Some("no-such-domain".into());
    let err = propose(&ins, &TextMap::new(), "session").unwrap_err();
    assert!(err.contains("no-such-domain"), "{err}");
}

#[test]
fn a_known_domain_is_filed_under_its_row() {
    let mut domains = TextMap::new();
    domains.insert("coupon".to_string(), 7i64);
    let mut ins = sample("term");
    ins.domain = Some("coupon".into());
    let p = propose(&ins, &domains, "session").unwrap();
    assert_eq!(p.domain_id, Some(7));
    assert_eq!(p.domain_key, "coupon");
    assert_eq!(p.status, "candidate");
    assert_eq!(p.model, "session");
}

#[test]
fn review_names_an_unknown_id() {
    let mut notes = Vec::new();
    assert!(!review(&mut notes, 999, true));
}

#[test]
fn a_verdict_changes_the_status_only() {
    let mut notes = Vec::new();
    let a = keep(&mut notes, &sample("term")).unwrap();
    let b = keep(&mut notes, &sample("landmine")).unwrap();
    let before = notes[0].title.clone();
    assert!(review(&mut notes, a, false));
    assert_eq!(notes[0].status, "rejected");
    assert_eq!(notes[0].title, before);
    assert_eq!(notes[1].status, "candidate");
    assert_eq!(notes[1].id, b);
    assert_eq!(list(&notes, "all").unwrap().len(), 2);
    assert!(list(&notes, "open").is_err());
}

#[test]
fn kinds_are_three() {
    assert!(is_insight("business_rule") && is_insight("landmine") && is_insight("term"));
    assert!(!is_insight("dossier"));
    assert_eq!(kind_label("landmine"), "坑");
    assert_eq!(kind_label("dossier"), "洞察");
}

// The store

#[test]
fn find_root_walks_up_to_the_knowledge_base() {
    let up = |from: &str| -> Vec<(String, bool)> {
        let mut out = Vec::new();
        let mut d = from.to_string();
        loop {
            out.push((d.clone(), d == "/work/app"));
            match d.rfind('/') {
                Some(i) if i > 0 => d.truncate(i),
                _ => return out,
            }
        }
    };
    let deep = "/work/app/svc/order/src/main/java";
    assert_eq!(find_root(deep, &up(deep)).unwrap(), "/work/app");
    assert_eq!(find_root("/work/app", &up("/work/app")).unwrap(), "/work/app");
}

#[test]
fn find_root_reports_the_directory_it_started_from() {
    let dirs = vec![("/tmp/x".to_string(), false), ("/tmp".to_string(), false)];
    let err = find_root("/tmp/x", &dirs).unwrap_err();
    assert!(err.contains("/tmp/x"), "{err}");
    assert!(err.contains("catlas init"), "{err}");
}

#[test]
fn newer_databases_are_refused() {
    assert_eq!(check_version(&None), Ok(true));
    assert_eq!(check_version(&Some("2".into())), Ok(false));
    assert_eq!(check_version(&Some("1".into())), Ok(false));
    assert_eq!(check_version(&Some("junk".into())), Ok(false));
    let err = check_version(&Some("3".into())).unwrap_err();
    assert_eq!(err, "database schema v3 is newer than this build (v2) — upgrade `catlas`");
}

#[test]
fn a_cache_of_another_version_is_discarded() {
    assert!(!discards_cache(Some(4), 4));
    assert!(discards_cache(Some(999), 4));
    assert!(discards_cache(None, 4));
}

#[test]
fn cached_history_is_used_as_far_as_it_reaches() {
    let cached = Some("abc".to_string());
    assert_eq!(plan_history("abc", &cached, true), HistoryPlan::Replay);
    assert_eq!(plan_history("abc", &cached, false), HistoryPlan::Replay);
    assert_eq!(plan_history("def", &cached, true), HistoryPlan::Extend);
    assert_eq!(plan_history("def", &cached, false), HistoryPlan::Walk);
    assert_eq!(plan_history("def", &None, true), HistoryPlan::Walk);
}

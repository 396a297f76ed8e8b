//! Prompts, the client, evidence packs and what is made of the answers.
use codeatlas::idmap::IdMap;
use codeatlas::llm::client::{
    complete, complete_keyed, curl_args, curl_config, env_block, from_response, pick, prompt_hash,
    read_response, request_body, request_failure, ApiError, CachedResponse, Config, Response, Step,
    Usage,
};
use codeatlas::llm::deepen::{
    candidates, confidence_status, count_usage, dossier_note, effective_system, glossary_entries,
    judge, next_action, note_status, record, render_dossier, Action, Candidate, DeepenOptions,
    DeepenStats, Outcome, Verdict,
};
use codeatlas::llm::pack::{
    build, commits, entrypoints, enums, one_line, source, tables, traces, ConstantRow, Evidence,
    Pack, PackColumn, PackCommit, PackEntry, PackFile, PackHead, PackTable, PackTrace,
};
use codeatlas::llm::progress::tokens;
use codeatlas::llm::prompt::{
    capability_system, dossier_system, glossary_system, looks_truncated, outermost_object,
    parse_json, CapabilityInput, CapabilityResponse, Concept, DossierResponse, GlossaryResponse,
    GlossaryTerm, Landmine, Lifecycle, Rule, State,
};
use codeatlas::textmap::TextMap;
use codeatlas::util::{digest_parts, sha256_hex};
use serde_json::Value;

fn values(entries: &[(&str, &str)]) -> TextMap<String> {
    let mut m = TextMap::new();
    for (k, v) in entries {
        m.insert(k.to_string(), v.to_string());
    }
    m
}

// Progress

#[test]
fn tokens_abbreviate_past_a_thousand() {
    assert_eq!(tokens(0), "0");
    assert_eq!(tokens(999), "999");
    assert_eq!(tokens(1000), "1.0k");
    assert_eq!(tokens(12_432), "12.4k");
}

#[test]
fn tokens_are_written_as_a_double_is() {
    for n in [1049usize, 1050, 1051, 1150, 1250, 1950, 99_950, 123_456_789, usize::MAX] {
        assert_eq!(tokens(n), format!("{:.1}k", n as f64 / 1000.0));
    }
}

// Prompts

#[derive(Debug)]
struct Probe {
    a: String,
}

fn value(s: &str) -> Result<Value, String> {
    serde_json::from_str(s).map_err(|e| format!("{e}"))
}

fn text(v: &Value, k: &str) -> Option<String> {
    v[k].as_str().map(str::to_string)
}

fn required(v: &Value, k: &str) -> Result<String, String> {
    text(v, k).ok_or(format!("missing field `{k}`"))
}

fn list(v: &Value, k: &str) -> Vec<Value> {
    v[k].as_array().cloned().unwrap_or_default()
}

fn texts(v: &Value, k: &str) -> Vec<String> {
    list(v, k).iter().filter_map(|x| x.as_str().map(str::to_string)).collect()
}

fn probe(s: &str) -> Result<Probe, String> {
    Ok(Probe { a: required(&value(s)?, "a")? })
}

fn dossier(s: &str) -> Result<DossierResponse, String> {
    let v = value(s)?;
    Ok(DossierResponse {
        responsibility: required(&v, "responsibility")?,
        key_concepts: list(&v, "key_concepts")
            .iter()
            .map(|c| Concept {
                name: text(c, "name").unwrap(),
                description: text(c, "description").unwrap_or_default(),
            })
            .collect(),
        lifecycle: v["lifecycle"].as_object().map(|_| Lifecycle {
            description: text(&v["lifecycle"], "description").unwrap_or_default(),
            states: list(&v["lifecycle"], "states")
                .iter()
                .map(|s| State {
                    state: text(s, "state").unwrap(),
                    code_value: text(s, "code_value"),
                    meaning: text(s, "meaning").unwrap_or_default(),
                    transitions_to: texts(s, "transitions_to"),
                })
                .collect(),
        }),
        rules: list(&v, "rules")
            .iter()
            .map(|r| Rule {
                rule: text(r, "rule").unwrap(),
                evidence: text(r, "evidence"),
                confidence: text(r, "confidence"),
            })
            .collect(),
        landmines: list(&v, "landmines")
            .iter()
            .map(|l| Landmine {
                issue: text(l, "issue").unwrap(),
                why: text(l, "why").unwrap_or_default(),
                evidence: text(l, "evidence"),
            })
            .collect(),
        open_questions: texts(&v, "open_questions"),
    })
}

fn capability(s: &str) -> Result<CapabilityResponse, String> {
    let v = value(s)?;
    Ok(CapabilityResponse {
        summary: required(&v, "summary")?,
        inputs: list(&v, "inputs")
            .iter()
            .map(|i| CapabilityInput {
                name: text(i, "name").unwrap(),
                meaning: text(i, "meaning").unwrap_or_default(),
                required: i["required"].as_bool().unwrap_or_default(),
            })
            .collect(),
        behavior: text(&v, "behavior").unwrap_or_default(),
        side_effects: texts(&v, "side_effects"),
        rules: texts(&v, "rules"),
        caveats: texts(&v, "caveats"),
    })
}

#[test]
fn parses_bare_json() {
    let p = parse_json(r#"{"a":"x"}"#, probe).unwrap();
    assert_eq!(p.a, "x");
}

#[test]
fn strips_code_fences() {
    let p = parse_json("```json\n{\"a\":\"特价\"}\n```", probe).unwrap();
    assert_eq!(p.a, "特价");
    let p = parse_json("```\n{\"a\":\"y\"}\n```", probe).unwrap();
    assert_eq!(p.a, "y");
}

#[test]
fn recovers_from_leading_prose() {
    let p = parse_json("这是结果：\n{\"a\":\"z\"}\n希望有帮助", probe).unwrap();
    assert_eq!(p.a, "z");
}

#[test]
fn braces_inside_strings_do_not_confuse_the_scanner() {
    let p = parse_json(r#"noise {"a":"值里有 } 和 \" 引号"} tail"#, probe).unwrap();
    assert_eq!(p.a, "值里有 } 和 \" 引号");
}

#[test]
fn nested_objects_take_the_outermost_span() {
    let outer = |s: &str| -> Result<Probe, String> {
        Ok(Probe { a: required(&value(s)?["inner"], "a")? })
    };
    let o = parse_json(r#"{"inner":{"a":"deep"}}"#, outer).unwrap();
    assert_eq!(o.a, "deep");
}

#[test]
fn missing_json_is_an_error() {
    assert!(parse_json("完全没有 JSON", probe).is_err());
}

#[test]
fn truncation_is_named_in_the_error() {
    // A response cut off mid-array, as a token limit produces.
    let cut = r#"{"terms":[{"term":"捡漏专区","definition":"清库存活动"#;
    let err = parse_json(cut, probe).unwrap_err();
    assert!(err.contains("max_tokens"), "got: {err}");
    // The model's own output must not be echoed back into the error.
    assert!(!err.contains("捡漏专区"), "payload leaked: {err}");
}

#[test]
fn malformed_but_complete_json_is_not_blamed_on_truncation() {
    let err = parse_json(r#"{"wrong_field": 1}"#, probe).unwrap_err();
    assert!(err.contains("格式不符合预期"), "got: {err}");
}

#[test]
fn truncation_detection_sees_through_fences() {
    assert!(looks_truncated("```json\n{\"a\":\"unfinished"));
    assert!(!looks_truncated("```json\n{\"a\":\"done\"}\n```"));
}

#[test]
fn dossier_tolerates_missing_optional_fields() {
    let d = parse_json(r#"{"responsibility":"管优惠券"}"#, dossier).unwrap();
    assert_eq!(d.responsibility, "管优惠券");
    assert!(d.rules.is_empty());
    assert!(d.lifecycle.is_none());
}

#[test]
fn capability_tolerates_missing_optional_fields() {
    let c = parse_json(r#"{"summary":"查优惠券"}"#, capability).unwrap();
    assert_eq!(c.summary, "查优惠券");
    assert!(c.inputs.is_empty());
    assert!(c.side_effects.is_empty());
    assert!(c.caveats.is_empty());
    // Optional sub-fields default too.
    let c = parse_json(r#"{"summary":"s","inputs":[{"name":"id"}]}"#, capability).unwrap();
    assert_eq!(c.inputs[0].meaning, "");
    assert!(!c.inputs[0].required);
}

#[test]
fn prompts_carry_the_ground_rules() {
    for p in [glossary_system(), dossier_system(), capability_system()] {
        assert!(p.contains("UNKNOWN"));
        assert!(p.contains("只依据给定证据作答"));
        assert!(p.contains("只输出 JSON"));
    }
}

#[test]
fn the_outermost_object_is_cut_out() {
    assert_eq!(outermost_object("a {\"b\":{}} c }").as_deref(), Some("{\"b\":{}}"));
    assert_eq!(outermost_object("none"), None);
    assert_eq!(outermost_object("{ open"), None);
}

// The client

#[test]
fn env_block_reads_string_values_only() {
    let text = r#"{
        "env": {
            "ANTHROPIC_BASE_URL": "https://gateway.example.com",
            "CLAUDE_CODE_USE_BEDROCK": "0",
            "nested": { "ignored": true },
            "numeric": 42
        },
        "theme": "dark"
    }"#;
    let env = env_block(text);
    assert_eq!(env.get("ANTHROPIC_BASE_URL").unwrap(), "https://gateway.example.com");
    assert_eq!(env.get("CLAUDE_CODE_USE_BEDROCK").unwrap(), "0");
    assert!(!env.contains_key("nested"));
    assert!(!env.contains_key("numeric"));
}

#[test]
fn env_block_tolerates_junk_and_absence() {
    assert!(env_block("not json at all").is_empty());
    assert!(env_block("{}").is_empty());
    assert!(env_block(r#"{"env": "not an object"}"#).is_empty());
}

#[test]
fn settings_fill_in_what_the_environment_lacks() {
    let settings = values(&[("CATLAS_TEST_ONLY_IN_FILE", "from-file")]);
    let env = values(&[]);
    assert_eq!(pick("CATLAS_TEST_ONLY_IN_FILE", &env, &settings).unwrap(), "from-file");
    assert!(pick("CATLAS_TEST_NOWHERE", &env, &settings).is_none());
}

#[test]
fn the_environment_wins_over_the_file() {
    let key = "CATLAS_TEST_PRECEDENCE";
    let settings = values(&[(key, "from-file")]);
    assert_eq!(pick(key, &values(&[(key, "from-env")]), &settings).unwrap(), "from-env");

    // An empty variable means "unset", so the file still applies.
    assert_eq!(pick(key, &values(&[(key, "")]), &settings).unwrap(), "from-file");
}

fn config() -> Config {
    let env = values(&[("ANTHROPIC_API_KEY", "k\"1")]);
    Config::from_env(None, "sonnet", &env, &values(&[]), "/s").unwrap()
}

#[test]
fn configuration_has_defaults() {
    let c = config();
    assert_eq!(c.base_url, "https://api.anthropic.com");
    assert_eq!(c.api_key, "k\"1");
    assert_eq!(c.model, "sonnet");
    assert_eq!(c.max_tokens, 16384);
    assert_eq!(c.timeout_secs, 300);
    assert_eq!(c.budget_tokens, 0);
    let env = values(&[
        ("ANTHROPIC_API_KEY", "k"),
        ("ANTHROPIC_BASE_URL", "https://gateway.example.com/"),
    ]);
    let c = Config::from_env(Some("m"), "sonnet", &env, &values(&[]), "/s").unwrap();
    assert_eq!(c.model, "m");
    assert_eq!(c.base_url, "https://gateway.example.com");
}

#[test]
fn a_missing_credential_names_the_settings_file() {
    let err = Config::from_env(
        None,
        "sonnet",
        &values(&[]),
        &values(&[]),
        "/home/u/settings.json",
    )
    .unwrap_err();
    assert!(err.contains("/home/u/settings.json"), "{err}");
    assert!(err.contains("ANTHROPIC_API_KEY"), "{err}");
}

#[test]
fn requests_are_json() {
    let body = request_body(&config(), "sys \"q\"", "用户\n问题");
    let v: Value = serde_json::from_str(&body).unwrap();
    assert_eq!(v["system"], "sys \"q\"");
    assert_eq!(v["messages"][0]["role"], "user");
    assert_eq!(v["messages"][0]["content"], "用户\n问题");
    assert_eq!(v["max_tokens"], 16384);
}

#[test]
fn credentials_reach_curl_through_its_configuration() {
    let c = config();
    assert_eq!(curl_config(&c.api_key), "header = \"x-api-key: k\\\"1\"\n");
    let args = curl_args(&c, "/tmp/cfg", "/tmp/body");
    assert!(args.iter().all(|a| !a.contains("k\"1")));
    assert!(args.iter().any(|a| a.contains("/tmp/cfg")));
    assert!(args.iter().any(|a| a.contains("/tmp/body")));
}

#[test]
fn cache_keys_tell_requests_apart() {
    let c = config();
    assert_eq!(prompt_hash(&c, "s", "u"), prompt_hash(&c, "s", "u"));
    assert_ne!(prompt_hash(&c, "s", "u"), prompt_hash(&c, "su", ""));
    assert_eq!(prompt_hash(&c, "s", "u").len(), 64);
}

fn answer(content: &[&str], stop: Option<&str>) -> Response {
    Response {
        content: content.iter().map(|s| s.to_string()).collect(),
        usage: Usage { input_tokens: 10, output_tokens: 5 },
        stop_reason: stop.map(str::to_string),
        stop_shown: format!("{stop:?}"),
        error: None,
    }
}

#[test]
fn answers_are_read_or_refused() {
    assert_eq!(read_response(&answer(&["a", "b"], Some("end_turn")), 100).unwrap(), "ab");
    let err = read_response(&answer(&["a"], Some("max_tokens")), 100).unwrap_err();
    assert!(err.contains("100"), "{err}");
    assert!(read_response(&answer(&[], Some("end_turn")), 100).is_err());
    let mut bad = answer(&["a"], None);
    bad.error = Some(ApiError { kind: "overloaded_error".into(), message: "busy".into() });
    let err = read_response(&bad, 100).unwrap_err();
    assert!(err.contains("overloaded_error") && err.contains("busy"), "{err}");
}

#[test]
fn the_cache_answers_first() {
    let c = config();
    let cached = Some(CachedResponse {
        text: "old".into(),
        usage: Usage { input_tokens: 1, output_tokens: 2 },
    });
    let done = match complete(&c, "s", "u", &cached) {
        Step::Done(d) => d,
        Step::Send { .. } => panic!("sent"),
    };
    assert!(done.cached);
    assert_eq!(done.text, "old");
    assert!(done.persist().is_none());
    let (hash, body) = match complete(&c, "s", "u", &None) {
        Step::Send { prompt_hash, body } => (prompt_hash, body),
        Step::Done(_) => panic!("not cached"),
    };
    assert_eq!(hash, prompt_hash(&c, "s", "u"));
    let fresh = from_response(&c, &hash, &body, &answer(&["new"], Some("end_turn"))).unwrap();
    assert!(!fresh.cached);
    let row = fresh.persist().unwrap();
    assert_eq!(row.prompt_hash, hash);
    assert_eq!(row.response, "new");
    assert_eq!(row.request_json, body);
}

#[test]
fn retries_are_cached_under_the_first_prompt() {
    let c = config();
    match complete_keyed(&c, "s retry", "u", "s", &None) {
        Step::Send { prompt_hash: h, body } => {
            assert_eq!(h, prompt_hash(&c, "s", "u"));
            assert_eq!(body, request_body(&c, "s retry", "u"));
        }
        Step::Done(_) => panic!("not cached"),
    }
}

#[test]
fn a_failed_request_is_described() {
    let err = request_failure("exit status: 28", "", "timed out\n");
    assert!(err.contains("28") && err.contains("timed out"), "{err}");
}

// Evidence packs

fn constant(owner: &str, name: &str, span: i64) -> ConstantRow {
    ConstantRow {
        owner: owner.into(),
        name: name.into(),
        signature: None,
        doc: Some(format!("{name} 说明")),
        domain_span: span,
    }
}

fn evidence() -> Evidence {
    let mut names = IdMap::new();
    names.insert(7, "t_coupon".to_string());
    Evidence {
        constants: vec![constant("Shared", "A", 3), constant("Own", "B", 1)],
        tables: vec![PackTable {
            name: "t_coupon".into(),
            columns: vec![PackColumn {
                name: "id".into(),
                java_type: Some("Long".into()),
                doc: Some("主键".into()),
                is_pk: true,
            }],
        }],
        entrypoints: vec![PackEntry {
            kind: "http".into(),
            addr: "GET /coupon".into(),
            doc: Some("券列表".into()),
        }],
        traces: vec![PackTrace {
            addr: "GET /coupon".into(),
            labels: Some(vec!["a.A#go".into(), "a.B#save".into()]),
            tables: vec![("7".into(), vec!["select".into()])],
        }],
        table_names: names,
        commits: vec![PackCommit { subject: "添加特价活动".into(), month: "2024-01".into() }],
        files: vec![PackFile {
            path: "a/A.java".into(),
            churn: 4,
            text: Some("class A {}".into()),
        }],
    }
}

#[test]
fn a_pack_holds_every_kind_of_evidence() {
    let head = PackHead {
        id: 9,
        key: "coupon".into(),
        label: Some("优惠券".into()),
        confidence: "0.80".into(),
    };
    let p = build(&head, &evidence());
    assert_eq!(p.domain_id, 9);
    assert_eq!(p.domain_key, "coupon");
    for part in ["优惠券", "B 说明", "t_coupon", "GET /coupon", "B#save", "添加特价活动", "class A {}"] {
        assert!(p.body.contains(part), "{part} is missing");
    }
    assert_eq!(p.source_digest, sha256_hex(p.body.as_bytes()));
    assert_eq!(p.estimated_tokens, (p.body.len() as f64 / 2.5).ceil() as usize);
    // Equal evidence gives an equal digest, other evidence another one.
    assert_eq!(build(&head, &evidence()).source_digest, p.source_digest);
    let mut other = evidence();
    other.commits.clear();
    assert_ne!(build(&head, &other).source_digest, p.source_digest);
}

#[test]
fn a_domains_own_types_come_before_shared_ones() {
    let s = enums(&evidence().constants, 10_000);
    assert!(s.find("Own").unwrap() < s.find("Shared").unwrap());
    assert!(s.contains("跨领域共享"));
}

#[test]
fn sections_keep_to_their_budget() {
    let e = evidence();
    assert_eq!(enums(&e.constants, 0), "…（其余常量已省略）\n");
    assert_eq!(tables(&e.tables, 0), "…（其余表已省略）\n");
    assert_eq!(entrypoints(&e.entrypoints, 0), "…（其余入口已省略）\n");
    assert_eq!(traces(&e.traces, &e.table_names, 0), "…（其余链路已省略）\n");
    assert_eq!(commits(&e.commits, 0), "");
    assert_eq!(source(&e.files, 0), "");
    assert!(commits(&e.commits, 4_000).contains("添加特价活动"));
}

#[test]
fn docs_are_put_on_one_line() {
    assert_eq!(one_line("a\n\n  b \n @param x y\n"), "a b");
}

// Deepening

#[test]
fn dossier_renders_all_sections() {
    let d = parse_json(
        r#"{
          "responsibility": "管理优惠券的创建与发放。",
          "key_concepts": [{"name":"券模板","description":"一批券的共同配置"}],
          "lifecycle": {"description":"券从创建到过期。","states":[
            {"state":"生效中","code_value":"0","meaning":"可领取","transitions_to":["取消"]}]},
          "rules": [{"rule":"同一活动不可与满减叠加","evidence":"ConstantPromotion 注释","confidence":"high"},
                    {"rule":"弱依据规则","confidence":"low"}],
          "landmines": [{"issue":"命名与行为不一致","why":"历史遗留","evidence":"注释"}],
          "open_questions": ["黑名单优先级由谁决定？"]
        }"#,
        dossier,
    )
    .unwrap();
    let md = render_dossier(&d);
    assert!(md.contains("管理优惠券的创建与发放"));
    assert!(md.contains("### 核心概念"));
    assert!(md.contains("| 生效中 | 0 | 可领取 | 取消 |"));
    assert!(md.contains("### 业务规则"));
    assert!(md.contains("依据：ConstantPromotion 注释"));
    // Weak claims must be visibly marked, not presented as fact.
    assert!(md.contains("依据较弱，需确认"));
    assert!(md.contains("### ⚠️ 已知陷阱"));
    assert!(md.contains("### 待确认"));
}

#[test]
fn sparse_dossier_renders_without_empty_headings() {
    let d = parse_json(r#"{"responsibility":"只有职责说明。"}"#, dossier).unwrap();
    let md = render_dossier(&d);
    assert!(md.contains("只有职责说明"));
    assert!(!md.contains("### 核心概念"));
    assert!(!md.contains("### 生命周期"));
}

#[test]
fn thin_output_is_flagged_for_review() {
    let thin = parse_json(r#"{"responsibility":"UNKNOWN"}"#, dossier).unwrap();
    assert_eq!(note_status(&thin), "needs_review");
    let ok = parse_json(r#"{"responsibility":"清楚的职责说明"}"#, dossier).unwrap();
    assert_eq!(note_status(&ok), "fresh");
}

#[test]
fn low_confidence_terms_are_flagged() {
    assert_eq!(confidence_status(&Some("low".into())), "needs_review");
    assert_eq!(confidence_status(&Some("HIGH".into())), "fresh");
    assert_eq!(confidence_status(&None), "fresh");
}

fn rows() -> Vec<Candidate> {
    [(1, "coupon", 30), (2, "draw", 12), (3, "misc", 2)]
        .iter()
        .map(|(id, key, files)| Candidate { id: *id, key: key.to_string(), files: *files })
        .collect()
}

#[test]
fn candidates_go_by_size_name_and_limit() {
    let keys = |o: &DeepenOptions| -> Vec<String> {
        candidates(&rows(), o).unwrap().into_iter().map(|c| c.key).collect()
    };
    let mut o = DeepenOptions::default();
    o.min_files = 10;
    assert_eq!(keys(&o), vec!["coupon", "draw"]);
    o.limit = Some(1);
    assert_eq!(keys(&o), vec!["coupon"]);
    o.limit = None;
    o.domains = vec!["draw".into()];
    assert_eq!(keys(&o), vec!["draw"]);
    o.domains = vec!["nope".into()];
    assert!(candidates(&rows(), &o).is_err());
}

#[test]
fn dry_runs_plan_and_fresh_notes_are_left() {
    let mut o = DeepenOptions::default();
    o.dry_run = true;
    assert_eq!(next_action(&o, true), Action::Plan);
    o.dry_run = false;
    o.only_stale = true;
    assert_eq!(next_action(&o, true), Action::Skip);
    assert_eq!(next_action(&o, false), Action::Process);
}

#[test]
fn unreadable_answers_are_asked_for_once_more() {
    assert_eq!(judge(0, true), Verdict::Keep);
    assert_eq!(judge(0, false), Verdict::Retry);
    assert_eq!(judge(1, false), Verdict::GiveUp);
    assert_eq!(effective_system("s", 0), "s");
    assert!(effective_system("s", 1).starts_with("s\n\n重要"));
}

#[test]
fn cached_tokens_are_saved_not_spent() {
    let mut s = DeepenStats::default();
    count_usage(&mut s, false, Usage { input_tokens: 10, output_tokens: 5 });
    count_usage(&mut s, true, Usage { input_tokens: 7, output_tokens: 3 });
    assert_eq!((s.input_tokens, s.output_tokens), (10, 5));
    assert_eq!((s.saved_input_tokens, s.saved_output_tokens), (7, 3));
    assert_eq!(s.cache_hits, 1);
}

#[test]
fn one_failure_does_not_undo_the_rest() {
    let mut s = DeepenStats::default();
    record(&mut s, "coupon", Outcome::Processed);
    record(&mut s, "draw", Outcome::Failed("busy".into()));
    record(&mut s, "misc", Outcome::Skipped);
    record(&mut s, "cart", Outcome::Planned(120));
    assert_eq!(s.domains_processed, 1);
    assert_eq!(s.domains_skipped, 1);
    assert_eq!(s.failures, vec![("draw".to_string(), "busy".to_string())]);
    assert_eq!(s.planned, vec![("cart".to_string(), 120)]);
}

#[test]
fn notes_carry_the_digest_of_their_evidence() {
    let p = Pack {
        domain_key: "coupon".into(),
        domain_id: 9,
        body: "b".into(),
        source_digest: "digest".into(),
        estimated_tokens: 1,
    };
    let d = parse_json(r#"{"responsibility":"管优惠券"}"#, dossier).unwrap();
    let n = dossier_note("m", "coupon", &p, &d);
    assert_eq!(n.source_digest, "digest");
    assert_eq!(n.prompt_hash, digest_parts(&[&dossier_system(), "b"]));
    assert_eq!(n.subject_key, "coupon");
    assert_eq!(n.model, "m");
    assert_eq!(n.status, "fresh");
    let term = |name: &str, confidence: Option<&str>| GlossaryTerm {
        term: name.into(),
        definition: "d".into(),
        aliases: vec!["x".into()],
        code_refs: vec![],
        confidence: confidence.map(str::to_string),
    };
    let g = GlossaryResponse { terms: vec![term("特价", None), term("  ", None), term("秒杀", Some("low"))] };
    let es = glossary_entries("m", "coupon", &p, &g);
    assert_eq!(es.len(), 2);
    assert!(es.iter().all(|e| e.source_digest == "digest" && e.domain_key == "coupon"));
    assert_eq!(es[0].status, "fresh");
    assert_eq!(es[1].status, "needs_review");
}

#[test]
fn aliases_are_stored_as_a_json_array() {
    let p = Pack {
        domain_key: "coupon".into(),
        domain_id: 1,
        body: "b".into(),
        source_digest: "d".into(),
        estimated_tokens: 1,
    };
    let t = GlossaryTerm {
        term: "特价".into(),
        definition: "d".into(),
        aliases: vec!["a\"b".into(), "秒杀".into()],
        code_refs: vec![],
        confidence: None,
    };
    let es = glossary_entries("m", "coupon", &p, &GlossaryResponse { terms: vec![t] });
    assert_eq!(es[0].aliases_json, "[\"a\\\"b\",\"秒杀\"]");
}

#[test]
fn allowances_are_counted_in_characters() {
    let rows: Vec<PackCommit> = (0..3)
        .map(|i| PackCommit { subject: format!("特价活动{i}"), month: "2024-01".into() })
        .collect();
    let first = commits(&rows[..1].to_vec(), 1_000).chars().count();
    let all = commits(&rows, 1_000);
    assert_eq!(all.chars().count(), 3 * first);
    assert!(all.len() > 2 * first + 1);
    assert_eq!(commits(&rows, 2 * first + 1), all);
    assert_ne!(commits(&rows, 2 * first), all);
}

#[test]
fn prose_round_an_object_is_passed_over() {
    let object = "{\"a\": \"}\", \"b\": {\"c\": 1}}";
    assert_eq!(outermost_object(object).as_deref(), Some(object));
    let wrapped = format!("结果如下：{object} 以上 }} {{");
    assert_eq!(outermost_object(&wrapped).as_deref(), Some(object));
}

#[test]
fn fences_round_an_object_are_stripped() {
    for fenced in ["```json\n[1, 2]\n```", "```\n[1, 2]\n```", "[1, 2]"] {
        let read = parse_json(fenced, |s: &str| match s {
            "[1, 2]" => Ok(3),
            other => Err(other.to_string()),
        });
        assert_eq!(read.ok(), Some(3));
    }
}

#[test]
fn the_key_does_not_change_the_command_line() {
    let mut c = config();
    let args = curl_args(&c, "/tmp/cfg", "/tmp/body");
    c.api_key = "other".to_string();
    assert_eq!(curl_args(&c, "/tmp/cfg", "/tmp/body"), args);
    assert_eq!(args[3], c.timeout_secs.to_string());
    assert_eq!(args.last().unwrap(), "@/tmp/body");
}

//! The MCP server's replies.
use codeatlas::insight::{propose, Evidence, Insight};
use codeatlas::mcp::{
    handle_message, proposal_note, similar_notes, tool_reply, Reaction, Tool, PROTOCOL_VERSION,
};
use codeatlas::search::Hit;
use codeatlas::textmap::TextMap;
use serde_json::Value;

fn reply(line: &str) -> Value {
    match handle_message(line, "0.4.0") {
        Reaction::Reply(s) => serde_json::from_str(&s).unwrap(),
        other => panic!("no reply: {other:?}"),
    }
}

fn call(line: &str) -> (String, Tool) {
    match handle_message(line, "0.4.0") {
        Reaction::Call { id, tool } => (id, tool),
        other => panic!("no call: {other:?}"),
    }
}

#[test]
fn initialize_declares_protocol_and_tools_capability() {
    let line = r#"{"jsonrpc":"2.0","id":1,"method":"initialize","params":{}}"#;
    let resp = reply(line);
    assert_eq!(resp["result"]["protocolVersion"], PROTOCOL_VERSION);
    assert_eq!(resp["result"]["serverInfo"]["name"], "catlas");
    assert_eq!(resp["result"]["serverInfo"]["version"], "0.4.0");
    assert!(resp["result"]["capabilities"]["tools"].is_object());
    assert_eq!(resp["id"], 1);
}

#[test]
fn tools_list_exposes_three_tools() {
    let line = r#"{"jsonrpc":"2.0","id":2,"method":"tools/list"}"#;
    let resp = reply(line);
    let tools = resp["result"]["tools"].as_array().unwrap();
    let names: Vec<&str> = tools.iter().map(|t| t["name"].as_str().unwrap()).collect();
    assert_eq!(names, vec!["search", "domains", "status", "propose_insight"]);
    assert!(tools.iter().all(|t| t["inputSchema"]["type"] == "object"));
}

#[test]
fn notifications_get_no_reply() {
    let line = r#"{"jsonrpc":"2.0","method":"notifications/initialized"}"#;
    assert_eq!(handle_message(line, "0.4.0"), Reaction::Silent);
}

#[test]
fn search_tool_returns_a_hit() {
    let line = r#"{"jsonrpc":"2.0","id":3,"method":"tools/call","params":{"name":"search","arguments":{"query":"特价活动"}}}"#;
    let (id, tool) = call(line);
    assert_eq!(tool, Tool::Search { query: "特价活动".into(), limit: 20 });
    let found = r#"[{"title":"a.A.TEJIA"}]"#;
    let resp: Value = serde_json::from_str(&tool_reply(&id, Ok(found))).unwrap();
    assert_eq!(resp["id"], 3);
    assert_eq!(resp["result"]["isError"], false);
    let text = resp["result"]["content"][0]["text"].as_str().unwrap();
    let hits: Vec<Value> = serde_json::from_str(text).unwrap();
    assert!(hits.iter().any(|h| h["title"].as_str().unwrap().contains("TEJIA")));
}

#[test]
fn domains_tool_lists_domains() {
    let line = r#"{"jsonrpc":"2.0","id":4,"method":"tools/call","params":{"name":"domains"}}"#;
    let (id, tool) = call(line);
    assert_eq!(tool, Tool::Domains);
    let found = r#"[{"key":"coupon","label":"优惠券"}]"#;
    let resp: Value = serde_json::from_str(&tool_reply(&id, Ok(found))).unwrap();
    let text = resp["result"]["content"][0]["text"].as_str().unwrap();
    let doms: Vec<Value> = serde_json::from_str(text).unwrap();
    assert_eq!(doms[0]["key"], "coupon");
    assert_eq!(doms[0]["label"], "优惠券");
}

#[test]
fn unknown_tool_is_a_protocol_error() {
    let line = r#"{"jsonrpc":"2.0","id":5,"method":"tools/call","params":{"name":"nope"}}"#;
    assert_eq!(reply(line)["error"]["code"], -32602);
}

/// The insight that a proposal's arguments describe.
fn described(arguments: &str) -> Insight {
    let v: Value = serde_json::from_str(arguments).unwrap();
    let text = |v: &Value, k: &str| v[k].as_str().map(str::to_string);
    Insight {
        kind: text(&v, "kind").unwrap(),
        title: text(&v, "title").unwrap(),
        body: text(&v, "body").unwrap(),
        domain: text(&v, "domain"),
        evidence: v["evidence"]
            .as_array()
            .unwrap()
            .iter()
            .map(|e| Evidence {
                file: text(e, "file").unwrap(),
                symbol: text(e, "symbol"),
                lines: text(e, "lines"),
            })
            .collect(),
    }
}

#[test]
fn propose_insight_lands_as_candidate() {
    let line = r#"{"jsonrpc":"2.0","id":7,"method":"tools/call","params":{
        "name":"propose_insight",
        "arguments":{
            "kind":"landmine",
            "title":"优惠券核销不校验门店归属",
            "body":"核销入口只查状态，门店过滤在调用方，漏传即跨门店核销。",
            "evidence":[{"file":"a/A.java","symbol":"A.verify","lines":"10-20"}]
        }}}"#;
    let (id, tool) = call(line);
    assert_eq!(id, "7");
    let arguments = match tool {
        Tool::ProposeInsight { arguments } => arguments,
        other => panic!("{other:?}"),
    };
    let p = propose(&described(&arguments), &TextMap::new(), "session").unwrap();
    assert_eq!(p.status, "candidate");
    assert!(proposal_note(1, false).contains("人工确认"));
    assert!(proposal_note(12, false).contains("--accept 12）"));
    assert!(!proposal_note(12, true).contains("12"));
}

#[test]
fn propose_insight_without_evidence_is_a_tool_error() {
    let line = r#"{"jsonrpc":"2.0","id":8,"method":"tools/call","params":{
        "name":"propose_insight",
        "arguments":{"kind":"term","title":"无证据","body":"x","evidence":[]}}}"#;
    let (id, tool) = call(line);
    let arguments = match tool {
        Tool::ProposeInsight { arguments } => arguments,
        other => panic!("{other:?}"),
    };
    let err = propose(&described(&arguments), &TextMap::new(), "session").unwrap_err();
    let resp: Value = serde_json::from_str(&tool_reply(&id, Err(&err))).unwrap();
    assert_eq!(resp["result"]["isError"], true);
    let text = resp["result"]["content"][0]["text"].as_str().unwrap();
    assert!(text.contains("证据"), "{text}");
}

#[test]
fn there_is_no_mcp_path_to_confirmation() {
    // The client that proposes must not be able to confirm: the write
    // surface of the server is proposal only.
    let line = r#"{"jsonrpc":"2.0","id":9,"method":"tools/call","params":{
        "name":"confirm_insight","arguments":{"id":1}}}"#;
    assert_eq!(reply(line)["error"]["code"], -32602);
}

#[test]
fn unknown_method_is_a_protocol_error() {
    let line = r#"{"jsonrpc":"2.0","id":6,"method":"bogus/method"}"#;
    assert_eq!(reply(line)["error"]["code"], -32601);
}

#[test]
fn ids_are_echoed_verbatim() {
    let resp = reply(r#"{"jsonrpc":"2.0","id":"a\"b","method":"ping"}"#);
    assert_eq!(resp["id"], "a\"b");
    assert!(resp["result"].is_object());
}

#[test]
fn what_cannot_be_read_is_met_with_silence() {
    assert_eq!(handle_message("", "1"), Reaction::Silent);
    assert_eq!(handle_message("not json", "1"), Reaction::Silent);
    assert_eq!(handle_message("[1,2]", "1"), Reaction::Silent);
    assert_eq!(handle_message(r#"{"id":1}"#, "1"), Reaction::Silent);
}

#[test]
fn search_limits_are_clamped() {
    let line = |n: &str| {
        format!(
            r#"{{"id":1,"method":"tools/call","params":{{"name":"search","arguments":{{"query":"x","limit":{n}}}}}}}"#
        )
    };
    let limit = |n: &str| match call(&line(n)).1 {
        Tool::Search { limit, .. } => limit,
        other => panic!("{other:?}"),
    };
    assert_eq!(limit("5"), 5);
    assert_eq!(limit("1000"), 100);
    assert_eq!(limit("\"no\""), 20);
}

#[test]
fn calls_without_a_name_are_refused() {
    let line = r#"{"id":1,"method":"tools/call"}"#;
    assert_eq!(reply(line)["error"]["code"], -32602);
}

#[test]
fn only_notes_count_as_similar() {
    let h = |kind: &str| Hit {
        kind: kind.into(),
        subject_kind: "".into(),
        subject_id: 1,
        title: "t".into(),
        snippet: "".into(),
        file: None,
    };
    let kept = similar_notes(&vec![h("symbol"), h("note"), h("commit")]);
    assert_eq!(kept.len(), 1);
    assert_eq!(kept[0].kind, "note");
}

#[test]
fn a_search_without_a_query_is_refused() {
    let line = r#"{"jsonrpc":"2.0","id":9,"method":"tools/call","params":{"name":"search","arguments":{}}}"#;
    let resp = reply(line);
    assert_eq!(resp["id"], 9);
    assert_eq!(resp["result"]["isError"], true);
    assert_eq!(resp["result"]["content"][0]["text"], "参数 query 缺失");
}

//! MCP (Model Context Protocol) server over stdio.
//!
//! Exposes the knowledge base to coding sessions as read-only tools, so an agent can
//! query the domain model without shelling out to `catlas query` — plus exactly
//! one write path, `propose_insight`, which lands a session's business claim
//! as a `candidate` insight that only a human can promote (`catlas review`).
//!
//! Transport: JSON-RPC 2.0, one message per line on stdin/stdout. Notifications
//! (no `id`) get no reply; requests echo their `id` back verbatim.
//!
//! This module decides what a message asks for and writes the replies. Whoever owns the
//! streams runs the tool that [`handle_message`] names, and answers with [`tool_reply`].
use crate::json::{count, json_count, json_member, json_quoted, json_text, member, quote, text};
use crate::lists::{keep, take_all, take_next};
use crate::number::{decimal_i64, signed};
use crate::search::{Hit, HitView};
use crate::text::{owned, same};
use vstd::prelude::*;

verus! {

pub const PROTOCOL_VERSION: &'static str = "2025-06-18";

// The tools, each as the compact JSON that describes it.

pub const SEARCH_DEF: &'static str = "{\"description\":\"全文检索知识库：符号、数据表、入口、业务领域、术语、git 提交信息。支持中文子串与英文标识符（不区分大小写）。\",\"inputSchema\":{\"properties\":{\"limit\":{\"default\":20,\"description\":\"最多返回条数\",\"type\":\"integer\"},\"query\":{\"description\":\"检索关键词，中文或代码标识符\",\"type\":\"string\"}},\"required\":[\"query\"],\"type\":\"object\"},\"name\":\"search\"}";

pub const DOMAINS_DEF: &'static str = "{\"description\":\"列出已划分的业务领域：键、标签、置信度、文件/表/入口计数。\",\"inputSchema\":{\"properties\":{},\"type\":\"object\"},\"name\":\"domains\"}";

pub const STATUS_DEF: &'static str = "{\"description\":\"知识库各层统计：模块/文件/符号/数据表/入口/领域/链路/术语/文档等计数。\",\"inputSchema\":{\"properties\":{},\"type\":\"object\"},\"name\":\"status\"}";

pub const PROPOSE_DEF: &'static str = "{\"description\":\"沉淀业务洞察：分析代码后得出的、已验证的业务结论（规则/坑/术语），附代码位置，人工确认后进入检索供后续使用。只提交你从代码中核实过的主张——不确定的推断、猜测、待办不要提交，这不是笔记工具。\",\"inputSchema\":{\"properties\":{\"body\":{\"description\":\"Markdown：条件、例外、适用范围\",\"type\":\"string\"},\"domain\":{\"description\":\"所属领域 key（可选，见 domains 工具）\",\"type\":\"string\"},\"evidence\":{\"description\":\"代码证据，至少一条——无证据的结论无法复核\",\"items\":{\"properties\":{\"file\":{\"description\":\"仓库内相对路径（必填）\",\"type\":\"string\"},\"lines\":{\"description\":\"行号或行号范围，如 120-145（可选）\",\"type\":\"string\"},\"symbol\":{\"description\":\"符号名/fqn（可选）\",\"type\":\"string\"}},\"required\":[\"file\"],\"type\":\"object\"},\"minItems\":1,\"type\":\"array\"},\"kind\":{\"description\":\"business_rule=业务规则, landmine=坑/易踩陷阱, term=业务术语\",\"enum\":[\"business_rule\",\"landmine\",\"term\"],\"type\":\"string\"},\"title\":{\"description\":\"一句话结论（≤120 字符）\",\"type\":\"string\"}},\"required\":[\"kind\",\"title\",\"body\",\"evidence\"],\"type\":\"object\"},\"name\":\"propose_insight\"}";

/// A message as far as it is understood. Parts that are missing, or not of the kind that
/// is expected, are none.
#[derive(Debug)]
pub struct Message {
    /// The request's id, as compact JSON.
    pub id: Option<String>,
    pub method: Option<String>,
    /// Whether there are parameters at all.
    pub has_params: bool,
    /// The tool that is called.
    pub name: Option<String>,
    /// Its arguments, as compact JSON.
    pub arguments: Option<String>,
    pub query: Option<String>,
    pub limit: Option<u64>,
}

/// The content of a [`Message`].
#[verifier::ext_equal]
pub struct MessageView {
    pub id: Option<Seq<char>>,
    pub method: Option<Seq<char>>,
    pub has_params: bool,
    pub name: Option<Seq<char>>,
    pub arguments: Option<Seq<char>>,
    pub query: Option<Seq<char>>,
    pub limit: Option<u64>,
}

impl DeepView for Message {
    type V = MessageView;

    open spec fn deep_view(&self) -> MessageView {
        MessageView {
            id: self.id.deep_view(),
            method: self.method.deep_view(),
            has_params: self.has_params,
            name: self.name.deep_view(),
            arguments: self.arguments.deep_view(),
            query: self.query.deep_view(),
            limit: self.limit.deep_view(),
        }
    }
}

impl Clone for Message {
    fn clone(&self) -> (r: Self)
        ensures
            r.deep_view() == self.deep_view(),
    {
        Message {
            id: self.id.clone(),
            method: self.method.clone(),
            has_params: self.has_params,
            name: self.name.clone(),
            arguments: self.arguments.clone(),
            query: self.query.clone(),
            limit: self.limit.clone(),
        }
    }
}

/// The tool to run.
#[derive(Debug, PartialEq, Eq)]
pub enum Tool {
    Search { query: String, limit: u64 },
    Domains,
    Status,
    /// The one write path: the arguments as JSON.
    ProposeInsight { arguments: String },
}

/// What a message asks for.
#[derive(Debug, PartialEq, Eq)]
pub enum Reaction {
    /// No reply: notifications, and anything that cannot be read.
    Silent,
    Reply(String),
    /// Run the tool, and answer the request with the id.
    Call { id: String, tool: Tool },
}

// ---------------------------------------------------------------------------
// Reading

/// The string member `key` of a JSON object.
pub open spec fn text_member(json: Seq<char>, key: Seq<char>) -> Option<Seq<char>> {
    match json_member(json, key) {
        Some(m) => json_text(m),
        None => None,
    }
}

pub open spec fn member_of(json: Option<Seq<char>>, key: Seq<char>) -> Option<Seq<char>> {
    match json {
        Some(j) => json_member(j, key),
        None => None,
    }
}

pub open spec fn message_of(line: Seq<char>) -> MessageView {
    let params = json_member(line, "params"@);
    let arguments = member_of(params, "arguments"@);
    MessageView {
        id: json_member(line, "id"@),
        method: text_member(line, "method"@),
        has_params: params is Some,
        name: match params {
            Some(p) => text_member(p, "name"@),
            None => None,
        },
        arguments,
        query: match arguments {
            Some(a) => text_member(a, "query"@),
            None => None,
        },
        limit: match member_of(arguments, "limit"@) {
            Some(l) => json_count(l),
            None => None,
        },
    }
}

fn read_text(json: &str, key: &str) -> (r: Option<String>)
    ensures
        r.deep_view() == text_member(json@, key@),
{
    match member(json, key) {
        Some(m) => text(m.as_str()),
        None => None,
    }
}

/// Reads a line.
pub fn read_message(line: &str) -> (r: Message)
    ensures
        r.deep_view() == message_of(line@),
{
    let id = member(line, "id");
    let method = read_text(line, "method");
    let params = member(line, "params");
    let mut name: Option<String> = None;
    let mut arguments: Option<String> = None;
    let mut query: Option<String> = None;
    let mut limit: Option<u64> = None;
    let has_params = params.is_some();
    match &params {
        Some(p) => {
            name = read_text(p.as_str(), "name");
            arguments = member(p.as_str(), "arguments");
            match &arguments {
                Some(a) => {
                    query = read_text(a.as_str(), "query");
                    limit = match member(a.as_str(), "limit") {
                        Some(l) => count(l.as_str()),
                        None => None,
                    };
                },
                None => {},
            }
        },
        None => {},
    }
    Message { id, method, has_params, name, arguments, query, limit }
}

// ---------------------------------------------------------------------------
// Replies

pub open spec fn result_reply(id: Seq<char>, result: Seq<char>) -> Seq<char> {
    "{\"id\":"@ + id + ",\"jsonrpc\":\"2.0\",\"result\":"@ + result + "}"@
}

pub open spec fn error_reply(id: Seq<char>, code: i64, message: Seq<char>) -> Seq<char> {
    "{\"error\":{\"code\":"@ + signed(code as int) + ",\"message\":"@ + json_quoted(message)
        + "},\"id\":"@ + id + ",\"jsonrpc\":\"2.0\"}"@
}

fn write_result(id: &str, result: &str) -> (r: String)
    ensures
        r@ == result_reply(id@, result@),
{
    let mut s = owned("{\"id\":");
    s.append(id);
    s.append(",\"jsonrpc\":\"2.0\",\"result\":");
    s.append(result);
    s.append("}");
    s
}

fn write_error(id: &str, code: i64, message: &str) -> (r: String)
    ensures
        r@ == error_reply(id@, code, message@),
{
    let mut s = owned("{\"error\":{\"code\":");
    s.append(decimal_i64(code).as_str());
    s.append(",\"message\":");
    s.append(quote(message).as_str());
    s.append("},\"id\":");
    s.append(id);
    s.append(",\"jsonrpc\":\"2.0\"}");
    s
}

/// The answer to `initialize`.
pub open spec fn server_info(version: Seq<char>) -> Seq<char> {
    "{\"capabilities\":{\"tools\":{}},\"protocolVersion\":\""@ + PROTOCOL_VERSION@
        + "\",\"serverInfo\":{\"name\":\"catlas\",\"version\":"@ + json_quoted(version) + "}}"@
}

fn write_info(version: &str) -> (r: String)
    ensures
        r@ == server_info(version@),
{
    let mut s = owned("{\"capabilities\":{\"tools\":{}},\"protocolVersion\":\"");
    s.append(PROTOCOL_VERSION);
    s.append("\",\"serverInfo\":{\"name\":\"catlas\",\"version\":");
    s.append(quote(version).as_str());
    s.append("}}");
    s
}

/// The answer to `tools/list`.
pub open spec fn tool_list() -> Seq<char> {
    "{\"tools\":["@ + SEARCH_DEF@ + ","@ + DOMAINS_DEF@ + ","@ + STATUS_DEF@ + ","@ + PROPOSE_DEF@
        + "]}"@
}

/// The tool catalogue.
fn tool_defs() -> (r: String)
    ensures
        r@ == tool_list(),
{
    let mut s = owned("{\"tools\":[");
    s.append(SEARCH_DEF);
    s.append(",");
    s.append(DOMAINS_DEF);
    s.append(",");
    s.append(STATUS_DEF);
    s.append(",");
    s.append(PROPOSE_DEF);
    s.append("]}");
    s
}

pub open spec fn tool_result(text: Seq<char>, ok: bool) -> Seq<char> {
    "{\"content\":[{\"text\":"@ + json_quoted(text) + ",\"type\":\"text\"}],\"isError\":"@ + (
    if ok {
        "false"@
    } else {
        "true"@
    }) + "}"@
}

/// The reply to a tool call: what the tool gave, or what it failed on. A tool that fails
/// says so in its result, not in the JSON-RPC layer.
pub fn tool_reply(id: &str, outcome: Result<&str, &str>) -> (r: String)
    ensures
        r@ == (match outcome {
            Ok(t) => result_reply(id@, tool_result(t@, true)),
            Err(t) => result_reply(id@, tool_result(t@, false)),
        }),
{
    let mut s = owned("{\"content\":[{\"text\":");
    match outcome {
        Ok(t) => {
            s.append(quote(t).as_str());
            s.append(",\"type\":\"text\"}],\"isError\":");
            s.append("false");
        },
        Err(t) => {
            s.append(quote(t).as_str());
            s.append(",\"type\":\"text\"}],\"isError\":");
            s.append("true");
        },
    }
    s.append("}");
    write_result(id, s.as_str())
}

// ---------------------------------------------------------------------------
// Deciding

pub const METHOD_NOT_FOUND: i64 = -32601;

pub const INVALID_PARAMS: i64 = -32602;

/// Hits that a search gives unless it asks for less or more.
pub const DEFAULT_LIMIT: u64 = 20;

pub const MAX_LIMIT: u64 = 100;

/// The content of a [`Tool`].
#[verifier::ext_equal]
pub enum ToolView {
    Search { query: Seq<char>, limit: u64 },
    Domains,
    Status,
    ProposeInsight { arguments: Seq<char> },
}

impl DeepView for Tool {
    type V = ToolView;

    open spec fn deep_view(&self) -> ToolView {
        match self {
            Tool::Search { query, limit } => ToolView::Search { query: query@, limit: *limit },
            Tool::Domains => ToolView::Domains,
            Tool::Status => ToolView::Status,
            Tool::ProposeInsight { arguments } => ToolView::ProposeInsight {
                arguments: arguments@,
            },
        }
    }
}

/// The content of a [`Reaction`].
#[verifier::ext_equal]
pub enum ReactionView {
    Silent,
    Reply(Seq<char>),
    Call { id: Seq<char>, tool: ToolView },
}

impl DeepView for Reaction {
    type V = ReactionView;

    open spec fn deep_view(&self) -> ReactionView {
        match self {
            Reaction::Silent => ReactionView::Silent,
            Reaction::Reply(s) => ReactionView::Reply(s@),
            Reaction::Call { id, tool } => ReactionView::Call {
                id: id@,
                tool: tool.deep_view(),
            },
        }
    }
}

pub open spec fn limit_of(limit: Option<u64>) -> u64 {
    match limit {
        Some(n) => if n > MAX_LIMIT {
            MAX_LIMIT
        } else {
            n
        },
        None => DEFAULT_LIMIT,
    }
}

/// Dispatch of `tools/call`, which always gets a reply. An unknown tool is a protocol
/// error (the client named something the server does not have); a tool that exists but
/// fails reports that in its result instead.
pub open spec fn called(m: MessageView, id: Seq<char>) -> ReactionView {
    if !m.has_params {
        ReactionView::Reply(error_reply(id, INVALID_PARAMS, "missing params"@))
    } else {
        match m.name {
            None => ReactionView::Reply(error_reply(id, INVALID_PARAMS, "missing params.name"@)),
            Some(name) => if name == "search"@ {
                match m.query {
                    Some(q) => ReactionView::Call {
                        id,
                        tool: ToolView::Search { query: q, limit: limit_of(m.limit) },
                    },
                    None => ReactionView::Reply(
                        result_reply(id, tool_result("参数 query 缺失"@, false)),
                    ),
                }
            } else if name == "domains"@ {
                ReactionView::Call { id, tool: ToolView::Domains }
            } else if name == "status"@ {
                ReactionView::Call { id, tool: ToolView::Status }
            } else if name == "propose_insight"@ {
                ReactionView::Call {
                    id,
                    tool: ToolView::ProposeInsight {
                        arguments: match m.arguments {
                            Some(a) => a,
                            None => "null"@,
                        },
                    },
                }
            } else {
                ReactionView::Reply(
                    error_reply(id, INVALID_PARAMS, "Unknown tool: "@ + name),
                )
            },
        }
    }
}

/// What a message asks for.
pub open spec fn reaction_to(m: MessageView, version: Seq<char>) -> ReactionView {
    match (m.id, m.method) {
        (Some(id), Some(method)) => if method == "initialize"@ {
            ReactionView::Reply(result_reply(id, server_info(version)))
        } else if method == "ping"@ {
            ReactionView::Reply(result_reply(id, "{}"@))
        } else if method == "tools/list"@ {
            ReactionView::Reply(result_reply(id, tool_list()))
        } else if method == "tools/call"@ {
            called(m, id)
        } else {
            ReactionView::Reply(
                error_reply(id, METHOD_NOT_FOUND, "Method not found: "@ + method),
            )
        },
        _ => ReactionView::Silent,
    }
}

fn tool_call(m: &Message, id: &str) -> (r: Reaction)
    ensures
        r.deep_view() == called(m.deep_view(), id@),
{
    if !m.has_params {
        return Reaction::Reply(write_error(id, INVALID_PARAMS, "missing params"));
    }
    match &m.name {
        None => Reaction::Reply(write_error(id, INVALID_PARAMS, "missing params.name")),
        Some(name) => {
            if same(name.as_str(), "search") {
                match &m.query {
                    Some(q) => {
                        let limit: u64 = match m.limit {
                            Some(n) => if n > MAX_LIMIT {
                                MAX_LIMIT
                            } else {
                                n
                            },
                            None => DEFAULT_LIMIT,
                        };
                        Reaction::Call {
                            id: owned(id),
                            tool: Tool::Search { query: q.clone(), limit },
                        }
                    },
                    None => Reaction::Reply(tool_reply(id, Err("参数 query 缺失"))),
                }
            } else if same(name.as_str(), "domains") {
                Reaction::Call { id: owned(id), tool: Tool::Domains }
            } else if same(name.as_str(), "status") {
                Reaction::Call { id: owned(id), tool: Tool::Status }
            } else if same(name.as_str(), "propose_insight") {
                let arguments = match &m.arguments {
                    Some(a) => a.clone(),
                    None => owned("null"),
                };
                Reaction::Call { id: owned(id), tool: Tool::ProposeInsight { arguments } }
            } else {
                let mut e = owned("Unknown tool: ");
                e.append(name.as_str());
                Reaction::Reply(write_error(id, INVALID_PARAMS, e.as_str()))
            }
        },
    }
}

/// Decides on a message that was read.
pub fn react(m: &Message, version: &str) -> (r: Reaction)
    ensures
        r.deep_view() == reaction_to(m.deep_view(), version@),
{
    match (&m.id, &m.method) {
        (Some(id), Some(method)) => {
            let i = id.as_str();
            let name = method.as_str();
            if same(name, "initialize") {
                Reaction::Reply(write_result(i, write_info(version).as_str()))
            } else if same(name, "ping") {
                Reaction::Reply(write_result(i, "{}"))
            } else if same(name, "tools/list") {
                Reaction::Reply(write_result(i, tool_defs().as_str()))
            } else if same(name, "tools/call") {
                tool_call(m, i)
            } else {
                let mut e = owned("Method not found: ");
                e.append(name);
                Reaction::Reply(write_error(i, METHOD_NOT_FOUND, e.as_str()))
            }
        },
        _ => Reaction::Silent,
    }
}

/// Handle one incoming message.
pub fn handle_message(line: &str, version: &str) -> (r: Reaction)
    ensures
        r.deep_view() == reaction_to(message_of(line@), version@),
{
    react(&read_message(line), version)
}

// ---------------------------------------------------------------------------
// Proposals

/// What a session is told about its proposal. It is pointed at near-duplicates up front —
/// whoever reviews it sees them later, but the model can withdraw a redundant proposal
/// immediately.
pub fn proposal_note(id: i64, has_similar: bool) -> (r: String)
    ensures
        r@ == (if has_similar {
            "已记录为候选，但检索到相近的已有知识，确认时会提示复核是否重复"@
        } else {
            "已记录为候选洞察，等待人工确认（catlas review --accept "@ + signed(id as int)
                + "）后进入检索"@
        }),
{
    if has_similar {
        return owned("已记录为候选，但检索到相近的已有知识，确认时会提示复核是否重复");
    }
    let mut s = owned("已记录为候选洞察，等待人工确认（catlas review --accept ");
    s.append(decimal_i64(id).as_str());
    s.append("）后进入检索");
    s
}

/// The notes among the hits for a proposal's title.
pub fn similar_notes(hits: &Vec<Hit>) -> (r: Vec<Hit>)
    ensures
        r.deep_view() == keep(hits.deep_view(), |h: HitView| h.kind == "note"@),
{
    let ghost d = hits.deep_view();
    let ghost f = |h: HitView| h.kind == "note"@;
    let mut out: Vec<Hit> = Vec::new();
    let mut i: usize = 0;
    assert(out.deep_view() =~= keep(d.take(0), f));
    while i < hits.len()
        invariant
            i <= hits.len(),
            d == hits.deep_view(),
            f == (|h: HitView| h.kind == "note"@),
            out.deep_view() == keep(d.take(i as int), f),
        decreases hits.len() - i,
    {
        broadcast use take_next;

        let ghost before = out.deep_view();
        assert(d[i as int] == hits@[i as int].deep_view());
        assert(d.take(i + 1).last() == d[i as int]);
        if same(hits[i].kind.as_str(), "note") {
            assert(f(d[i as int]));
            out.push(hits[i].clone());
            assert(out.deep_view() =~= before.push(d[i as int]));
        } else {
            assert(!f(d[i as int]));
        }
        i += 1;
    }
    broadcast use take_all;

    assert(d.take(i as int) == d);
    out
}

// ---------------------------------------------------------------------------
// Laws

/// A notification gets no reply, whatever it says.
pub proof fn notifications_get_silence(m: MessageView, version: Seq<char>)
    requires
        m.id is None,
    ensures
        reaction_to(m, version) is Silent,
{
}

/// A request that names a method is answered, and every answer carries its id verbatim.
pub proof fn requests_are_answered(m: MessageView, version: Seq<char>)
    requires
        m.id is Some,
        m.method is Some,
    ensures
        match reaction_to(m, version) {
            ReactionView::Silent => false,
            ReactionView::Reply(r) => (exists|result: Seq<char>| r == #[trigger] result_reply(
                m.id->0,
                result,
            )) || (exists|code: i64, e: Seq<char>| r == #[trigger] error_reply(m.id->0, code, e)),
            ReactionView::Call { id, tool } => id == m.id->0,
        },
{
}

/// There is no way to confirm an insight: a message that runs anything reads, or
/// proposes a candidate.
pub proof fn no_path_to_confirmation(m: MessageView, version: Seq<char>)
    requires
        reaction_to(m, version) is Call,
    ensures
        m.name is Some,
        ({
            let name = m.name->0;
            ||| name == "search"@
            ||| name == "domains"@
            ||| name == "status"@
            ||| name == "propose_insight"@
        }),
        reaction_to(m, version)->tool is ProposeInsight ==> m.name == Some("propose_insight"@),
{
}

} // verus!


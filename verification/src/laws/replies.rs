//! The tool server: what a message is answered.
use crate::mcp::{
    called, error_reply, message_of, reaction_to, result_reply, server_info, tool_list,
    tool_result, MessageView, ReactionView, ToolView,
};
use crate::json::{json_member, json_quoted};
use vstd::prelude::*;

verus! {

proof fn method_words()
    ensures
        "initialize"@ != "ping"@ && "initialize"@ != "tools/list"@ && "initialize"@
            != "tools/call"@,
        "ping"@ != "tools/list"@ && "ping"@ != "tools/call"@,
        "tools/list"@ != "tools/call"@,
{
    reveal_strlit("initialize");
    reveal_strlit("ping");
    reveal_strlit("tools/list");
    reveal_strlit("tools/call");
    assert("initialize"@.len() == 10 && "ping"@.len() == 4);
    assert("tools/list"@.len() == 10 && "tools/call"@.len() == 10);
    assert("initialize"@[0] == 'i' && "tools/list"@[0] == 't' && "tools/call"@[0] == 't');
    assert("tools/list"@[6] == 'l' && "tools/call"@[6] == 'c');
}

proof fn tool_words()
    ensures
        "search"@ != "domains"@ && "search"@ != "status"@ && "search"@ != "propose_insight"@,
        "domains"@ != "status"@ && "domains"@ != "propose_insight"@,
        "status"@ != "propose_insight"@,
{
    reveal_strlit("search");
    reveal_strlit("domains");
    reveal_strlit("status");
    reveal_strlit("propose_insight");
    assert("search"@.len() == 6 && "status"@.len() == 6 && "domains"@.len() == 7);
    assert("propose_insight"@.len() == 15);
    assert("search"@[1] == 'e' && "status"@[1] == 't');
}

/// Each method has its answer, under the id of the request; an unknown one is refused, and a
/// message without an id or a method gets none.
pub proof fn methods_have_their_answers(m: MessageView, version: Seq<char>, id: Seq<char>)
    requires
        m.id == Some(id),
    ensures
        m.method == Some("initialize"@) ==> reaction_to(m, version) == ReactionView::Reply(
            result_reply(id, server_info(version)),
        ),
        m.method == Some("ping"@) ==> reaction_to(m, version) == ReactionView::Reply(
            result_reply(id, "{}"@),
        ),
        m.method == Some("tools/list"@) ==> reaction_to(m, version) == ReactionView::Reply(
            result_reply(id, tool_list()),
        ),
        m.method == Some("tools/call"@) ==> reaction_to(m, version) == called(m, id),
        m.method is None ==> reaction_to(m, version) is Silent,
        m.method matches Some(x) ==> x != "initialize"@ && x != "ping"@ && x != "tools/list"@ && x
            != "tools/call"@ ==> reaction_to(m, version) == ReactionView::Reply(
            error_reply(id, (-32601) as i64, "Method not found: "@ + x),
        ),
{
    method_words();
}

/// Each tool is called with its arguments; what is missing or unknown is said.
pub proof fn tools_are_called(m: MessageView, id: Seq<char>)
    requires
        m.has_params,
    ensures
        m.name == Some("search"@) && m.query is Some && m.limit is None ==> called(m, id)
            == (ReactionView::Call { id, tool: ToolView::Search { query: m.query->0, limit: 20 } }),
        m.name == Some("search"@) && m.query is Some && m.limit is Some && m.limit->0 <= 100
            ==> called(m, id) == (ReactionView::Call {
            id,
            tool: ToolView::Search { query: m.query->0, limit: m.limit->0 },
        }),
        m.name == Some("search"@) && m.query is Some && m.limit is Some && m.limit->0 > 100
            ==> called(m, id) == (ReactionView::Call {
            id,
            tool: ToolView::Search { query: m.query->0, limit: 100 },
        }),
        m.name == Some("search"@) && m.query is None ==> called(m, id) == ReactionView::Reply(
            result_reply(id, tool_result("参数 query 缺失"@, false)),
        ),
        m.name == Some("domains"@) ==> called(m, id) == (ReactionView::Call {
            id,
            tool: ToolView::Domains,
        }),
        m.name == Some("status"@) ==> called(m, id) == (ReactionView::Call {
            id,
            tool: ToolView::Status,
        }),
        m.name == Some("propose_insight"@) && m.arguments is Some ==> called(m, id)
            == (ReactionView::Call {
            id,
            tool: ToolView::ProposeInsight { arguments: m.arguments->0 },
        }),
        m.name == Some("propose_insight"@) && m.arguments is None ==> called(m, id)
            == (ReactionView::Call {
            id,
            tool: ToolView::ProposeInsight { arguments: "null"@ },
        }),
        m.name is None ==> called(m, id) == ReactionView::Reply(
            error_reply(id, (-32602) as i64, "missing params.name"@),
        ),
        m.name matches Some(x) ==> x != "search"@ && x != "domains"@ && x != "status"@ && x
            != "propose_insight"@ ==> called(m, id) == ReactionView::Reply(
            error_reply(id, (-32602) as i64, "Unknown tool: "@ + x),
        ),
{
    tool_words();
}

/// A call without parameters is refused.
pub proof fn calls_need_parameters(m: MessageView, id: Seq<char>)
    requires
        !m.has_params,
    ensures
        called(m, id) == ReactionView::Reply(error_reply(id, (-32602) as i64, "missing params"@)),
{
}

/// How answers are written.
pub proof fn answers_are_written_so(id: Seq<char>, x: Seq<char>, code: i64)
    ensures
        result_reply(id, x) == "{\"id\":"@ + id + ",\"jsonrpc\":\"2.0\",\"result\":"@ + x + "}"@,
        error_reply(id, code, x) == "{\"error\":{\"code\":"@ + crate::number::signed(code as int)
            + ",\"message\":"@ + json_quoted(x) + "},\"id\":"@ + id + ",\"jsonrpc\":\"2.0\"}"@,
        tool_result(x, true) == "{\"content\":[{\"text\":"@ + json_quoted(x)
            + ",\"type\":\"text\"}],\"isError\":"@ + "false"@ + "}"@,
        tool_result(x, false) == "{\"content\":[{\"text\":"@ + json_quoted(x)
            + ",\"type\":\"text\"}],\"isError\":"@ + "true"@ + "}"@,
{
}

/// What a message says is read from its members, those of a call from its parameters and
/// their arguments.
pub proof fn messages_are_read_from_members(line: Seq<char>)
    ensures
        ({
            let m = message_of(line);
            let params = json_member(line, "params"@);
            let args = if params is Some {
                json_member(params->0, "arguments"@)
            } else {
                None
            };
            &&& m.id == json_member(line, "id"@)
            &&& m.has_params <==> params is Some
            &&& m.arguments == args
            &&& params is None ==> m.name is None && m.arguments is None
            &&& args is None ==> m.query is None && m.limit is None
            &&& json_member(line, "method"@) is None ==> m.method is None
            &&& json_member(line, "method"@) is Some ==> m.method == crate::json::json_text(
                json_member(line, "method"@)->0,
            )
            &&& params is Some && json_member(params->0, "name"@) is Some ==> m.name
                == crate::json::json_text(json_member(params->0, "name"@)->0)
            &&& args is Some && json_member(args->0, "query"@) is Some ==> m.query
                == crate::json::json_text(json_member(args->0, "query"@)->0)
            &&& args is Some && json_member(args->0, "limit"@) is Some ==> m.limit
                == crate::json::json_count(json_member(args->0, "limit"@)->0)
        }),
{
}

} // verus!

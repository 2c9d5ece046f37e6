//! MCP client: what is sent to a server, and what its replies mean.

use vstd::prelude::*;
use crate::error::{internal2, AgentError, ErrorView};
use crate::json::{
    array_member, empty_object, json_parsed, json_text, json_views, member, member_in, no_members,
    object, object1, object2, str_json, text_member, with_member, Json, JsonV,
};
use crate::mcp::types::{tool_views, McpToolInfo, ToolView};
use crate::text::{join, joined, texts};

verus! {

/// The requests of one connection.
pub struct McpClient {
    /// The id of the next request.
    pub request_id: u64,
}

/// A request.
pub open spec fn request_json(id: u64, method: Seq<char>, params: JsonV) -> JsonV {
    JsonV::Object(
        seq![
            ("jsonrpc"@, JsonV::Str("2.0"@)),
            ("id"@, JsonV::UInt(id)),
            ("method"@, JsonV::Str(method)),
            ("params"@, params),
        ],
    )
}

/// What a response means: its error, or its result, `null` where it has none.
pub open spec fn response_meaning(res: JsonV) -> Result<JsonV, ErrorView> {
    match member(res, "error"@) {
        Some(e) => Err(ErrorView::Internal("MCP error: "@ + json_text(e))),
        None => match member(res, "result"@) {
            Some(v) => Ok(v),
            None => Ok(JsonV::Null),
        },
    }
}

/// What a response line means.
pub open spec fn line_meaning(line: Seq<char>) -> Result<JsonV, ErrorView> {
    match json_parsed(line) {
        Ok(v) => response_meaning(v),
        Err(e) => Err(ErrorView::Json("parse: "@ + e)),
    }
}

pub open spec fn meaning_of(r: Result<Json, AgentError>) -> Result<JsonV, ErrorView> {
    match r {
        Ok(j) => Ok(j@),
        Err(e) => Err(e@),
    }
}

/// What a server says of one tool, with stand-ins for what it leaves out.
pub open spec fn tool_of(v: JsonV) -> ToolView {
    ToolView {
        name: match text_member(v, "name"@) {
            Some(s) => s,
            None => "unknown"@,
        },
        description: match text_member(v, "description"@) {
            Some(s) => s,
            None => ""@,
        },
        input_schema: match member(v, "inputSchema"@) {
            Some(s) => s,
            None => JsonV::Object(seq![("type"@, JsonV::Str("object"@))]),
        },
    }
}

/// The tools in the result of `tools/list`.
pub open spec fn tools_of(result: JsonV) -> Option<Seq<ToolView>> {
    match array_member(result, "tools"@) {
        Some(a) => Some(Seq::new(a.len(), |i: int| tool_of(a[i]))),
        None => None,
    }
}

fn read_tool(v: &Json) -> (r: McpToolInfo)
    ensures
        r@ == tool_of(v@),
{
    let name = match v.get_str("name") {
        Some(s) => s.to_owned(),
        None => "unknown".to_owned(),
    };
    let description = match v.get_str("description") {
        Some(s) => s.to_owned(),
        None => "".to_owned(),
    };
    let input_schema = match v.get("inputSchema") {
        Some(s) => s.copy(),
        None => object1("type", str_json("object")),
    };
    McpToolInfo { name, description, input_schema }
}

impl McpClient {
    /// A connection that has sent nothing yet.
    pub fn new() -> (r: Self)
        ensures
            r.request_id == 1,
    {
        McpClient { request_id: 1 }
    }

    /// The next request; its id is the one after the last, and starts anew
    /// once the ids are used up.
    pub fn next_request(&mut self, method: &str, params: Json) -> (r: Json)
        ensures
            r@ == request_json(old(self).request_id, method@, params@),
            final(self).request_id == if old(self).request_id == u64::MAX {
                0
            } else {
                (old(self).request_id + 1) as u64
            },
    {
        let id: u64 = self.request_id;
        self.request_id = if id == u64::MAX {
            0
        } else {
            id + 1
        };
        let m = with_member(no_members(), "jsonrpc", str_json("2.0"));
        let m = with_member(m, "id", Json::UInt(id));
        let m = with_member(m, "method", str_json(method));
        let m = with_member(m, "params", params);
        let r = object(m);
        assert(r@->Object_0 =~= request_json(id, method@, params@)->Object_0);
        r
    }

    /// A request as the line that is sent.
    pub fn request_line(request: &Json) -> (r: String)
        ensures
            r@ == json_text(request@) + "\n"@,
    {
        let mut s = request.to_text();
        s.append("\n");
        s
    }

    /// The request for the server's tools.
    pub fn list_tools_request(&mut self) -> (r: Json)
        ensures
            r@ == request_json(
                old(self).request_id,
                "tools/list"@,
                JsonV::Object(Seq::empty()),
            ),
            final(self).request_id == if old(self).request_id == u64::MAX {
                0
            } else {
                (old(self).request_id + 1) as u64
            },
    {
        self.next_request("tools/list", empty_object())
    }

    /// The request that calls a tool.
    pub fn call_tool(&mut self, tool_name: &str, arguments: &Json) -> (r: Json)
        ensures
            r@ == request_json(
                old(self).request_id,
                "tools/call"@,
                JsonV::Object(
                    seq![("name"@, JsonV::Str(tool_name@)), ("arguments"@, arguments@)],
                ),
            ),
            final(self).request_id == if old(self).request_id == u64::MAX {
                0
            } else {
                (old(self).request_id + 1) as u64
            },
    {
        let params = object2("name", str_json(tool_name), "arguments", arguments.copy());
        self.next_request("tools/call", params)
    }

    /// What a response means.
    pub fn interpret(res: &Json) -> (r: Result<Json, AgentError>)
        ensures
            meaning_of(r) == response_meaning(res@),
    {
        if let Some(e) = res.get("error") {
            return Err(internal2("MCP error: ", e.to_text().as_str()));
        }
        match res.get("result") {
            Some(v) => Ok(v.copy()),
            None => Ok(Json::Null),
        }
    }

    /// What a response line means.
    pub fn interpret_line(line: &str) -> (r: Result<Json, AgentError>)
        ensures
            meaning_of(r) == line_meaning(line@),
    {
        match Json::parse(line) {
            Ok(j) => McpClient::interpret(&j),
            Err(e) => {
                let mut m = "parse: ".to_owned();
                m.append(e.as_str());
                Err(AgentError::Json(m))
            },
        }
    }

    /// The tools in the result of `tools/list`.
    pub fn list_tools(result: &Json) -> (r: Result<Vec<McpToolInfo>, AgentError>)
        ensures
            match tools_of(result@) {
                Some(t) => r matches Ok(v) && tool_views(v@) == t,
                None => r matches Err(e) && e@ == ErrorView::Internal(
                    "MCP: invalid tools/list response"@,
                ),
            },
    {
        let tools = match result.get_array("tools") {
            Some(a) => a,
            None => {
                return Err(AgentError::Internal("MCP: invalid tools/list response".to_owned()));
            },
        };
        let ghost all = json_views(tools@);
        let ghost want = Seq::new(all.len(), |i: int| tool_of(all[i]));
        let mut infos: Vec<McpToolInfo> = Vec::new();
        let mut i: usize = 0;
        while i < tools.len()
            invariant
                i <= tools@.len(),
                all == json_views(tools@),
                want == Seq::new(all.len(), |i: int| tool_of(all[i])),
                tool_views(infos@) == want.take(i as int),
            decreases tools@.len() - i,
        {
            let ghost before = tool_views(infos@);
            let t = read_tool(&tools[i]);
            infos.push(t);
            i += 1;
            assert(tool_views(infos@) == before.push(t@));
            assert(want.take(i as int) == want.take(i - 1).push(want[i - 1]));
        }
        assert(want.take(want.len() as int) == want);
        Ok(infos)
    }
}

/// A server's tool, offered under a name that tells it from those of other
/// servers.
pub struct McpToolAdapter {
    /// The name it is offered under: `mcp.{server}.{tool}`.
    pub name: String,
    /// The tool's name on its server.
    pub original_name: String,
    pub description: String,
    pub input_schema: Json,
}

/// The name a server's tool is offered under.
pub open spec fn adapter_name(server: Seq<char>, tool: Seq<char>) -> Seq<char> {
    "mcp."@ + server + "."@ + tool
}

/// The texts of the items that have one, among the first `n`.
pub open spec fn item_texts(items: Seq<JsonV>, n: int) -> Seq<Seq<char>>
    decreases n,
{
    if n <= 0 || n > items.len() {
        Seq::empty()
    } else {
        match text_member(items[n - 1], "text"@) {
            Some(s) => item_texts(items, n - 1).push(s),
            None => item_texts(items, n - 1),
        }
    }
}

/// What a tool's result says: the texts of its content, one per line; where
/// that comes to nothing, the result itself.
pub open spec fn result_says(result: JsonV) -> Seq<char> {
    match array_member(result, "content"@) {
        Some(a) => {
            let t = joined(item_texts(a, a.len() as int), "\n"@);
            if t.len() > 0 {
                t
            } else {
                json_text(result)
            }
        },
        None => json_text(result),
    }
}

impl McpToolAdapter {
    pub fn new(info: McpToolInfo, server_name: &str) -> (r: Self)
        ensures
            r.name@ == adapter_name(server_name@, info.name@),
            r.original_name == info.name,
            r.description == info.description,
            r.input_schema == info.input_schema,
    {
        let mut name = "mcp.".to_owned();
        name.append(server_name);
        name.append(".");
        name.append(info.name.as_str());
        McpToolAdapter {
            name,
            original_name: info.name,
            description: info.description,
            input_schema: info.input_schema,
        }
    }

    /// What a tool's result says.
    pub fn result_text(result: &Json) -> (r: String)
        ensures
            r@ == result_says(result@),
    {
        if let Some(items) = result.get_array("content") {
            let ghost all = json_views(items@);
            let mut out: Vec<String> = Vec::new();
            let mut i: usize = 0;
            assert(texts(out@) == item_texts(all, 0));
            while i < items.len()
                invariant
                    i <= items@.len(),
                    all == json_views(items@),
                    texts(out@) == item_texts(all, i as int),
                decreases items@.len() - i,
            {
                let ghost before = texts(out@);
                if let Some(s) = items[i].get_str("text") {
                    out.push(s.to_owned());
                    assert(texts(out@) == before.push(s@));
                }
                i += 1;
            }
            let t = join(&out, "\n");
            if !t.as_str().is_empty() {
                return t;
            }
        }
        result.to_text()
    }
}

/// Tools of servers with different names are offered under different names, as
/// long as no server name holds a dot.
pub proof fn law_adapter_names_tell_servers_apart(
    s1: Seq<char>,
    t1: Seq<char>,
    s2: Seq<char>,
    t2: Seq<char>,
)
    requires
        !s1.contains('.'),
        !s2.contains('.'),
        adapter_name(s1, t1) == adapter_name(s2, t2),
    ensures
        s1 == s2,
        t1 == t2,
{
    reveal_strlit("mcp.");
    reveal_strlit(".");
    let n = adapter_name(s1, t1);
    let m = adapter_name(s2, t2);
    let a = s1.len() as int;
    let b = s2.len() as int;
    assert(n[4 + a] == '.');
    assert(m[4 + b] == '.');
    if a < b {
        assert(m[4 + a] == s2[a]);
        assert(s2.contains(s2[a]));
        assert(false);
    }
    if b < a {
        assert(n[4 + b] == s1[b]);
        assert(s1.contains(s1[b]));
        assert(false);
    }
    assert(s1 =~= n.subrange(4, 4 + a));
    assert(s2 =~= m.subrange(4, 4 + b));
    assert(t1 =~= n.skip(5 + a));
    assert(t2 =~= m.skip(5 + b));
}

/// A response with an error is never taken for a success.
pub proof fn law_errors_are_reported(res: JsonV)
    ensures
        member(res, "error"@) is Some <==> response_meaning(res) is Err,
{
}

/// Where every item of the content has a text, whatever else it holds, the
/// result says those texts, one for each item in order, joined by line feeds,
/// unless that comes to nothing.
pub proof fn law_results_say_every_text(
    result: JsonV,
    items: Seq<JsonV>,
    says: Seq<Seq<char>>,
)
    requires
        member(result, "content"@) == Some(JsonV::Array(items)),
        says.len() == items.len(),
        forall|i: int|
            0 <= i < items.len() ==> member(#[trigger] items[i], "text"@) == Some(
                JsonV::Str(says[i]),
            ),
        joined(says, "\n"@).len() > 0,
    ensures
        result_says(result) == joined(says, "\n"@),
{
    lemma_all_texts(items, says, items.len() as int);
    assert(says.take(says.len() as int) =~= says);
}

proof fn lemma_all_texts(items: Seq<JsonV>, says: Seq<Seq<char>>, n: int)
    requires
        0 <= n <= items.len(),
        says.len() == items.len(),
        forall|i: int|
            0 <= i < items.len() ==> member(#[trigger] items[i], "text"@) == Some(
                JsonV::Str(says[i]),
            ),
    ensures
        item_texts(items, n) == says.take(n),
    decreases n,
{
    if n > 0 {
        lemma_all_texts(items, says, n - 1);
        assert(member(items[n - 1], "text"@) == Some(JsonV::Str(says[n - 1])));
        assert(says.take(n) =~= says.take(n - 1).push(says[n - 1]));
    } else {
        assert(says.take(0) =~= item_texts(items, 0));
    }
}

/// Items without a text add nothing, and the texts of the others stay in order:
/// one more item adds its text behind the others, or nothing.
pub proof fn law_items_add_their_text(items: Seq<JsonV>, item: JsonV)
    ensures
        item_texts(Seq::<JsonV>::empty(), 0).len() == 0,
        forall|s: Seq<char>|
            member(item, "text"@) == Some(JsonV::Str(s)) ==> #[trigger] item_texts(
                items.push(item),
                (items.len() + 1) as int,
            ) == item_texts(items, items.len() as int).push(s),
        !(member(item, "text"@) matches Some(v) && v is Str) ==> item_texts(
            items.push(item),
            (items.len() + 1) as int,
        ) == item_texts(items, items.len() as int),
{
    lemma_items_prefix(items, item, items.len() as int);
}

proof fn lemma_items_prefix(items: Seq<JsonV>, item: JsonV, n: int)
    requires
        0 <= n <= items.len(),
    ensures
        item_texts(items.push(item), n) == item_texts(items, n),
    decreases n,
{
    if n > 0 {
        lemma_items_prefix(items, item, n - 1);
    }
}

/// A result without content, or whose content comes to no text, says itself.
pub proof fn law_results_without_text_say_themselves(result: JsonV)
    ensures
        !(member(result, "content"@) matches Some(v) && v is Array) ==> result_says(result)
            == json_text(result),
        member(result, "content"@) matches Some(JsonV::Array(a)) ==> joined(
            item_texts(a, a.len() as int),
            "\n"@,
        ).len() == 0 ==> result_says(result) == json_text(result),
{
}

/// A response without an error gives its result, as it is.
pub proof fn law_results_are_handed_on(res: JsonV)
    requires
        member(res, "error"@) is None,
    ensures
        forall|v: JsonV|
            member(res, "result"@) == Some(v) ==> #[trigger] response_meaning(res) == Ok::<
                JsonV,
                ErrorView,
            >(v),
        member(res, "result"@) is None ==> response_meaning(res) == Ok::<JsonV, ErrorView>(
            JsonV::Null,
        ),
{
}

/// Every tool that a server lists is there, in order, with what the server says
/// of it.
pub proof fn law_every_listed_tool_is_there(result: JsonV, tools: Seq<JsonV>, i: int)
    requires
        member(result, "tools"@) == Some(JsonV::Array(tools)),
        0 <= i < tools.len(),
    ensures
        tools_of(result) matches Some(t) && t.len() == tools.len() && {
            &&& member(tools[i], "name"@) is None ==> t[i].name == "unknown"@
            &&& member(tools[i], "description"@) is None ==> t[i].description.len() == 0
            &&& member(tools[i], "inputSchema"@) matches Some(v) ==> t[i].input_schema == v
        },
        member(tools[i], "description"@) matches Some(JsonV::Str(d)) ==> tools_of(
            result,
        )->0[i].description == d,
        member(tools[i], "name"@) matches Some(JsonV::Str(d)) ==> tools_of(result)->0[i].name == d,
{
    reveal_strlit("");
    assert(tools_of(result)->0[i] == tool_of(tools[i]));
}

/// A request names its method, carries its parameters and its own id.
pub proof fn law_requests_carry_what_is_asked(id: u64, method: Seq<char>, params: JsonV)
    ensures
        text_member(request_json(id, method, params), "jsonrpc"@) == Some("2.0"@),
        member(request_json(id, method, params), "id"@) == Some(JsonV::UInt(id)),
        text_member(request_json(id, method, params), "method"@) == Some(method),
        member(request_json(id, method, params), "params"@) == Some(params),
{
    reveal_strlit("jsonrpc");
    reveal_strlit("id");
    reveal_strlit("method");
    reveal_strlit("params");
    assert("jsonrpc"@.len() == 7);
    assert("id"@.len() == 2);
    assert("method"@.len() == 6 && "method"@[0] == 'm');
    assert("params"@.len() == 6 && "params"@[0] == 'p');
    reveal_with_fuel(member_in, 5);
}

/// A tool is offered under the names of its server and its own, and an error of
/// the server is reported with what the server sent.
pub proof fn law_names_and_errors_are_handed_on(
    server: Seq<char>,
    tool: Seq<char>,
    res: JsonV,
    line: Seq<char>,
)
    ensures
        adapter_name(server, tool) == "mcp."@ + server + "."@ + tool,
        member(res, "error"@) matches Some(e) ==> response_meaning(res) == Err::<
            JsonV,
            ErrorView,
        >(ErrorView::Internal("MCP error: "@ + json_text(e))),
        json_parsed(line) == Ok::<JsonV, Seq<char>>(res) ==> line_meaning(line)
            == response_meaning(res),
        json_parsed(line) matches Err(e) ==> line_meaning(line) == Err::<JsonV, ErrorView>(
            ErrorView::Json("parse: "@ + e),
        ),
{
}

/// What a response means stands for the value, or for the error.
pub proof fn law_meanings_stand_for_themselves(r: Result<Json, AgentError>)
    ensures
        r matches Ok(j) ==> meaning_of(r) == Ok::<JsonV, ErrorView>(j@),
        r matches Err(e) ==> meaning_of(r) == Err::<JsonV, ErrorView>(e@),
{
}

} // verus!

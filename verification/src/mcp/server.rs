//! MCP server: exposes an agent as a server with the single tool `run`.
//!
//! The protocol is JSON-RPC 2.0.  [`McpServer::handle_request`] answers every
//! request but a valid `tools/call`, for which it names the prompt to run.
//! While the agent runs, [`RunLog::record`] collects its events and gives the
//! progress to report; [`McpServer::finish_tools_call`] makes the answer.

use vstd::prelude::*;
use crate::events::{RunOutcome, RuntimeEvent};
use crate::json::{
    array1, empty_object, member, member_in, object1, object2, object3, opt_json_owned, str_json, text_member,
    Json, JsonV,
};
use crate::text::{
    debug_form, debug_text, decimal, decimal_text, join, joined, same_text, texts, trim, trimmed,
};

verus! {

// ---------------------------------------------------------------------------
// JSON-RPC 2.0
// ---------------------------------------------------------------------------

pub const JSONRPC_VERSION: &'static str = "2.0";

pub const PARSE_ERROR: i32 = -32700;

pub const METHOD_NOT_FOUND: i32 = -32601;

pub const INVALID_PARAMS: i32 = -32602;

/// A JSON-RPC request; a notification has no `id`.
pub struct JsonRpcRequest {
    pub jsonrpc: String,
    pub id: Option<Json>,
    pub method: String,
    pub params: Option<Json>,
}

/// A JSON-RPC error object.
#[derive(Debug)]
pub struct JsonRpcError {
    pub code: i32,
    pub message: String,
    pub data: Option<Json>,
}

/// A JSON-RPC response.
pub struct JsonRpcResponse {
    pub jsonrpc: &'static str,
    pub id: Option<Json>,
    pub result: Option<Json>,
    pub error: Option<JsonRpcError>,
}

/// A JSON-RPC notification.
pub struct JsonRpcNotification {
    pub jsonrpc: &'static str,
    pub method: String,
    pub params: Option<Json>,
}

/// What a response carries: a result, or an error's code and message.
pub enum Payload {
    Result(JsonV),
    Error { code: i32, message: Seq<char> },
}

/// Whether `r` answers the request with id `id`, carrying `p`: the id is the
/// request's own, and exactly one of result and error is there.
pub open spec fn answers(r: JsonRpcResponse, id: Option<JsonV>, p: Payload) -> bool {
    &&& r.jsonrpc@ == JSONRPC_VERSION@
    &&& opt_json_owned(r.id) == id
    &&& match p {
        Payload::Result(v) => opt_json_owned(r.result) == Some(v) && r.error is None,
        Payload::Error { code, message } => {
            &&& r.result is None
            &&& r.error matches Some(e)
            &&& e.code == code
            &&& e.message@ == message
            &&& e.data is None
        },
    }
}

fn copy_id(id: &Option<Json>) -> (r: Option<Json>)
    ensures
        opt_json_owned(r) == opt_json_owned(*id),
{
    match id {
        Some(j) => Some(j.copy()),
        None => None,
    }
}

/// A response that carries a result.
pub fn result_response(id: &Option<Json>, result: Json) -> (r: JsonRpcResponse)
    ensures
        answers(r, opt_json_owned(*id), Payload::Result(result@)),
{
    JsonRpcResponse {
        jsonrpc: JSONRPC_VERSION,
        id: copy_id(id),
        result: Some(result),
        error: None,
    }
}

/// A response that carries an error.
pub fn error_response(id: &Option<Json>, code: i32, message: String) -> (r: JsonRpcResponse)
    ensures
        answers(r, opt_json_owned(*id), Payload::Error { code, message: message@ }),
{
    JsonRpcResponse {
        jsonrpc: JSONRPC_VERSION,
        id: copy_id(id),
        result: None,
        error: Some(JsonRpcError { code, message, data: None }),
    }
}

/// The answer to a line that is not a request, where `error` says why.
pub fn parse_error_response(error: &str) -> (r: JsonRpcResponse)
    ensures
        answers(
            r,
            None,
            Payload::Error { code: PARSE_ERROR, message: "Parse error: "@ + error@ },
        ),
{
    let mut m = "Parse error: ".to_owned();
    m.append(error);
    error_response(&None, PARSE_ERROR, m)
}

/// The request text on a line: the line without surrounding white space, or
/// nothing for a blank line.
pub fn request_text(line: &str) -> (r: Option<String>)
    ensures
        match r {
            Some(s) => s@ == trimmed(line@) && s@.len() > 0,
            None => trimmed(line@).len() == 0,
        },
{
    let t = trim(line);
    if t.as_str().is_empty() {
        None
    } else {
        Some(t)
    }
}

// ---------------------------------------------------------------------------
// Server
// ---------------------------------------------------------------------------

/// Transport mode for the MCP server.
#[derive(Debug)]
pub enum McpServerTransport {
    /// Line-delimited JSON on stdin/stdout (subprocess mode).
    Stdio,
    /// Line-delimited JSON over a TCP socket.
    Http { host: String, port: u16 },
}

/// Configuration for running as an MCP server.
#[derive(Debug)]
pub struct McpServeConfig {
    /// Human-readable server name.
    pub name: String,
    /// Server version reported during `initialize`.
    pub version: String,
    /// Transport mode.
    pub transport: McpServerTransport,
}

pub const SERVER_NAME: &'static str = "phi-agent";

pub const SERVER_VERSION: &'static str = "0.1.7";

impl Default for McpServeConfig {
    fn default() -> (r: Self)
        ensures
            r.name@ == SERVER_NAME@,
            r.version@ == SERVER_VERSION@,
            r.transport is Stdio,
    {
        McpServeConfig {
            name: SERVER_NAME.to_owned(),
            version: SERVER_VERSION.to_owned(),
            transport: McpServerTransport::Stdio,
        }
    }
}

/// An MCP server's side of the protocol.
pub struct McpServer {
    pub config: McpServeConfig,
}

/// What to do about a request.
pub enum ServerAction {
    /// Send this response.
    Respond(JsonRpcResponse),
    /// Send nothing.
    Silent,
    /// Run the agent on this prompt, then answer with what came of it.
    Run(String),
}

/// What a request calls for.
pub enum Plan {
    Respond(Payload),
    Silent,
    Run(Seq<char>),
}

pub open spec fn action_follows(a: ServerAction, id: Option<JsonV>, plan: Plan) -> bool {
    match plan {
        Plan::Respond(p) => a matches ServerAction::Respond(r) && answers(r, id, p),
        Plan::Silent => a is Silent,
        Plan::Run(prompt) => a matches ServerAction::Run(s) && s@ == prompt,
    }
}

pub const PROTOCOL_VERSION: &'static str = "2024-11-05";

pub const RUN_DESCRIPTION: &'static str = "Execute a task using the phi-agent AI agent. The agent will perform a full ReAct loop — thinking, calling internal tools, and iterating — to complete the task.";

pub const PROMPT_DESCRIPTION: &'static str = "The task description or question for the agent to handle.";

pub const MODEL_DESCRIPTION: &'static str = "Optional model override (e.g. 'opus', 'sonnet', 'gpt-4o').";

pub open spec fn str_v(s: Seq<char>) -> JsonV {
    JsonV::Str(s)
}

/// The result of `initialize`.
pub open spec fn initialize_result(name: Seq<char>, version: Seq<char>) -> JsonV {
    JsonV::Object(
        seq![
            ("protocolVersion"@, str_v(PROTOCOL_VERSION@)),
            (
                "serverInfo"@,
                JsonV::Object(seq![("name"@, str_v(name)), ("version"@, str_v(version))]),
            ),
            (
                "capabilities"@,
                JsonV::Object(seq![("tools"@, JsonV::Object(Seq::empty()))]),
            ),
        ],
    )
}

/// The schema of a string parameter.
pub open spec fn string_schema(description: Seq<char>) -> JsonV {
    JsonV::Object(
        seq![("type"@, str_v("string"@)), ("description"@, str_v(description))],
    )
}

/// The schema of `run`'s arguments: a required `prompt`, an optional `model`.
pub open spec fn run_schema() -> JsonV {
    JsonV::Object(
        seq![
            ("type"@, str_v("object"@)),
            (
                "properties"@,
                JsonV::Object(
                    seq![
                        ("prompt"@, string_schema(PROMPT_DESCRIPTION@)),
                        ("model"@, string_schema(MODEL_DESCRIPTION@)),
                    ],
                ),
            ),
            ("required"@, JsonV::Array(seq![str_v("prompt"@)])),
        ],
    )
}

/// The result of `tools/list`: the tool `run` alone.
pub open spec fn tools_list_result() -> JsonV {
    JsonV::Object(
        seq![
            (
                "tools"@,
                JsonV::Array(
                    seq![
                        JsonV::Object(
                            seq![
                                ("name"@, str_v("run"@)),
                                ("description"@, str_v(RUN_DESCRIPTION@)),
                                ("inputSchema"@, run_schema()),
                            ],
                        ),
                    ],
                ),
            ),
        ],
    )
}

/// The member `key` of optional parameters.
pub open spec fn param(params: Option<JsonV>, key: Seq<char>) -> Option<JsonV> {
    match params {
        Some(p) => member(p, key),
        None => None,
    }
}

/// The tool that a `tools/call` names.
pub open spec fn tool_name(params: Option<JsonV>) -> Option<Seq<char>> {
    match params {
        Some(p) => text_member(p, "name"@),
        None => None,
    }
}

/// An optional text as `Debug` prints it.
pub open spec fn debug_opt(o: Option<Seq<char>>) -> Seq<char> {
    match o {
        Some(s) => "Some("@ + debug_form(s) + ")"@,
        None => "None"@,
    }
}

/// The prompt in the arguments; an absent one, or one that is not a string,
/// counts as empty.
pub open spec fn prompt_of(arguments: JsonV) -> Seq<char> {
    match text_member(arguments, "prompt"@) {
        Some(s) => s,
        None => Seq::empty(),
    }
}

pub open spec fn invalid_params(message: Seq<char>) -> Plan {
    Plan::Respond(Payload::Error { code: INVALID_PARAMS, message })
}

/// What a `tools/call` calls for: its arguments, its tool's name and its
/// prompt are looked at in that order.
pub open spec fn tools_call_plan(params: Option<JsonV>) -> Plan {
    match param(params, "arguments"@) {
        None => invalid_params("Missing arguments"@),
        Some(arguments) => if tool_name(params) != Some("run"@) {
            invalid_params(
                "Unknown tool: "@ + debug_opt(tool_name(params))
                    + ". The only available tool is \"run\"."@,
            )
        } else if prompt_of(arguments).len() == 0 {
            invalid_params("Missing required parameter: prompt"@)
        } else {
            Plan::Run(prompt_of(arguments))
        },
    }
}

/// What a request calls for.
pub open spec fn request_plan(
    name: Seq<char>,
    version: Seq<char>,
    method: Seq<char>,
    params: Option<JsonV>,
) -> Plan {
    if method == "initialize"@ {
        Plan::Respond(Payload::Result(initialize_result(name, version)))
    } else if method == "initialized"@ || method == "notifications/initialized"@ {
        Plan::Silent
    } else if method == "tools/list"@ {
        Plan::Respond(Payload::Result(tools_list_result()))
    } else if method == "tools/call"@ {
        tools_call_plan(params)
    } else {
        Plan::Respond(
            Payload::Error { code: METHOD_NOT_FOUND, message: "Method not found: "@ + method },
        )
    }
}

fn string_schema_json(description: &str) -> (r: Json)
    ensures
        r@ == string_schema(description@),
{
    object2("type", str_json("string"), "description", str_json(description))
}

impl McpServer {
    pub fn new(config: McpServeConfig) -> (r: Self)
        ensures
            r.config == config,
    {
        McpServer { config }
    }

    /// Answers a request, or says what to run for it.
    pub fn handle_request(&self, request: &JsonRpcRequest) -> (r: ServerAction)
        ensures
            action_follows(
                r,
                opt_json_owned(request.id),
                request_plan(
                    self.config.name@,
                    self.config.version@,
                    request.method@,
                    opt_json_owned(request.params),
                ),
            ),
    {
        let method = request.method.as_str();
        if same_text(method, "initialize") {
            ServerAction::Respond(self.handle_initialize(request))
        } else if same_text(method, "initialized") || same_text(
            method,
            "notifications/initialized",
        ) {
            ServerAction::Silent
        } else if same_text(method, "tools/list") {
            ServerAction::Respond(self.handle_tools_list(request))
        } else if same_text(method, "tools/call") {
            self.handle_tools_call(request)
        } else {
            let mut m = "Method not found: ".to_owned();
            m.append(method);
            ServerAction::Respond(error_response(&request.id, METHOD_NOT_FOUND, m))
        }
    }

    /// Answers `initialize`.
    pub fn handle_initialize(&self, request: &JsonRpcRequest) -> (r: JsonRpcResponse)
        ensures
            answers(
                r,
                opt_json_owned(request.id),
                Payload::Result(initialize_result(self.config.name@, self.config.version@)),
            ),
    {
        let info = object2(
            "name",
            str_json(self.config.name.as_str()),
            "version",
            str_json(self.config.version.as_str()),
        );
        let result = object3(
            "protocolVersion",
            str_json(PROTOCOL_VERSION),
            "serverInfo",
            info,
            "capabilities",
            object1("tools", empty_object()),
        );
        result_response(&request.id, result)
    }

    /// Answers `tools/list`.
    pub fn handle_tools_list(&self, request: &JsonRpcRequest) -> (r: JsonRpcResponse)
        ensures
            answers(r, opt_json_owned(request.id), Payload::Result(tools_list_result())),
    {
        let properties = object2(
            "prompt",
            string_schema_json(PROMPT_DESCRIPTION),
            "model",
            string_schema_json(MODEL_DESCRIPTION),
        );
        let schema = object3(
            "type",
            str_json("object"),
            "properties",
            properties,
            "required",
            array1(str_json("prompt")),
        );
        let tool = object3(
            "name",
            str_json("run"),
            "description",
            str_json(RUN_DESCRIPTION),
            "inputSchema",
            schema,
        );
        result_response(&request.id, object1("tools", array1(tool)))
    }

    /// Refuses a malformed `tools/call`, or says what to run for it.
    pub fn handle_tools_call(&self, request: &JsonRpcRequest) -> (r: ServerAction)
        ensures
            action_follows(
                r,
                opt_json_owned(request.id),
                tools_call_plan(opt_json_owned(request.params)),
            ),
    {
        let params = match &request.params {
            Some(p) => p,
            None => {
                return ServerAction::Respond(
                    error_response(&request.id, INVALID_PARAMS, "Missing arguments".to_owned()),
                );
            },
        };
        let arguments = match params.get("arguments") {
            Some(a) => a,
            None => {
                return ServerAction::Respond(
                    error_response(&request.id, INVALID_PARAMS, "Missing arguments".to_owned()),
                );
            },
        };
        // `run` is the only tool there is.
        let name = params.get_str("name");
        let is_run = match name {
            Some(n) => same_text(n, "run"),
            None => false,
        };
        if !is_run {
            let mut m = "Unknown tool: ".to_owned();
            let shown = match name {
                Some(n) => {
                    let mut d = "Some(".to_owned();
                    d.append(debug_text(n).as_str());
                    d.append(")");
                    d
                },
                None => "None".to_owned(),
            };
            m.append(shown.as_str());
            m.append(". The only available tool is \"run\".");
            return ServerAction::Respond(error_response(&request.id, INVALID_PARAMS, m));
        }
        let prompt = match arguments.get_str("prompt") {
            Some(s) => s.to_owned(),
            None => String::new(),
        };
        if prompt.as_str().is_empty() {
            return ServerAction::Respond(
                error_response(
                    &request.id,
                    INVALID_PARAMS,
                    "Missing required parameter: prompt".to_owned(),
                ),
            );
        }
        ServerAction::Run(prompt)
    }

    /// The answer to a `tools/call` whose run is over: `log` is what the run
    /// reported, `outcome` how it ended.
    pub fn finish_tools_call(
        &self,
        id: &Option<Json>,
        log: &RunLog,
        outcome: &Result<RunOutcome, String>,
    ) -> (r: JsonRpcResponse)
        ensures
            answers(r, opt_json_owned(*id), Payload::Result(run_result(log@, *outcome))),
    {
        let text = log.content(outcome);
        let item = object2("type", str_json("text"), "text", Json::Str(text));
        result_response(id, object1("content", array1(item)))
    }
}

// ---------------------------------------------------------------------------
// Collecting a run
// ---------------------------------------------------------------------------

/// What a run has reported so far.
pub struct RunLog {
    pub thought_texts: Vec<String>,
    pub tool_calls: Vec<String>,
    pub final_text: Vec<String>,
}

/// The mathematical value of a [`RunLog`].
#[verifier::ext_equal]
pub struct RunLogView {
    pub thoughts: Seq<Seq<char>>,
    pub tools: Seq<Seq<char>>,
    pub finals: Seq<Seq<char>>,
}

impl View for RunLog {
    type V = RunLogView;

    open spec fn view(&self) -> RunLogView {
        RunLogView {
            thoughts: texts(self.thought_texts@),
            tools: texts(self.tool_calls@),
            finals: texts(self.final_text@),
        }
    }
}

/// The log after one more event.
pub open spec fn logged(log: RunLogView, event: RuntimeEvent) -> RunLogView {
    match event {
        RuntimeEvent::ThoughtDelta { text } => RunLogView {
            thoughts: log.thoughts.push(text@),
            ..log
        },
        RuntimeEvent::ToolCallStarted { tool_name, args_json } => RunLogView {
            tools: log.tools.push(tool_name@),
            ..log
        },
        RuntimeEvent::TextDelta { text } => RunLogView { finals: log.finals.push(text@), ..log },
        _ => log,
    }
}

/// The progress that an event is reported as.
pub open spec fn progress_of(event: RuntimeEvent) -> Option<JsonV> {
    match event {
        RuntimeEvent::ThoughtDelta { text } => Some(
            JsonV::Object(seq![("type"@, str_v("thought"@)), ("text"@, str_v(text@))]),
        ),
        RuntimeEvent::ToolCallStarted { tool_name, args_json } => Some(
            JsonV::Object(seq![("type"@, str_v("tool_call"@)), ("name"@, str_v(tool_name@))]),
        ),
        RuntimeEvent::ToolCallFinished { tool_name, summary } => Some(
            JsonV::Object(
                seq![
                    ("type"@, str_v("tool_result"@)),
                    ("name"@, str_v(tool_name@)),
                    ("summary"@, str_v(summary@)),
                ],
            ),
        ),
        RuntimeEvent::TextDelta { text } => Some(
            JsonV::Object(seq![("type"@, str_v("text"@)), ("text"@, str_v(text@))]),
        ),
        _ => None,
    }
}

/// What the run's ending makes of the text it produced.
pub open spec fn result_text(
    finals: Seq<Seq<char>>,
    outcome: Result<RunOutcome, String>,
) -> Seq<char> {
    let all = joined(finals, "\n"@);
    match outcome {
        Ok(RunOutcome::Completed) => all,
        Ok(RunOutcome::Cancelled) => if finals.len() == 0 {
            "Task cancelled."@
        } else {
            all
        },
        Ok(RunOutcome::MaxTurnsExceeded { turns }) => "Reached max turns ("@ + decimal(
            turns as nat,
        ) + ").\n\nPartial output:\n"@ + all,
        Ok(RunOutcome::Failed { error }) => "Error: "@ + error@ + "\n\nPartial output:\n"@ + all,
        Err(e) => "Agent error: "@ + e@,
    }
}

/// The tools called, one per line.
pub open spec fn tool_rows(tools: Seq<Seq<char>>) -> Seq<Seq<char>> {
    Seq::new(tools.len(), |i: int| "- "@ + tools[i])
}

/// The text a run is answered with: its result, the tools it called if any,
/// and its reasoning.
pub open spec fn run_content(log: RunLogView, outcome: Result<RunOutcome, String>) -> Seq<char> {
    let result = result_text(log.finals, outcome);
    let thoughts = joined(log.thoughts, "\n"@);
    if log.tools.len() == 0 {
        result + "\n\n"@ + thoughts
    } else {
        result + "\n\n工具调用:\n"@ + joined(tool_rows(log.tools), "\n"@) + "\n\n思考过程:\n"@
            + thoughts
    }
}

/// The result that a run is answered with.
pub open spec fn run_result(log: RunLogView, outcome: Result<RunOutcome, String>) -> JsonV {
    JsonV::Object(
        seq![
            (
                "content"@,
                JsonV::Array(
                    seq![
                        JsonV::Object(
                            seq![
                                ("type"@, str_v("text"@)),
                                ("text"@, str_v(run_content(log, outcome))),
                            ],
                        ),
                    ],
                ),
            ),
        ],
    )
}

fn push_text(v: &mut Vec<String>, s: &String)
    ensures
        texts(final(v)@) == texts(old(v)@).push(s@),
{
    v.push(s.clone());
    assert(texts(v@) == texts(old(v)@).push(s@));
}

impl RunLog {
    /// Nothing reported yet.
    pub fn new() -> (r: Self)
        ensures
            r@ == (RunLogView { thoughts: seq![], tools: seq![], finals: seq![] }),
    {
        let r = RunLog {
            thought_texts: Vec::new(),
            tool_calls: Vec::new(),
            final_text: Vec::new(),
        };
        assert(r@ =~= (RunLogView { thoughts: seq![], tools: seq![], finals: seq![] }));
        r
    }

    /// Takes note of an event and gives the progress to report for it.
    pub fn record(&mut self, event: &RuntimeEvent) -> (r: Option<Json>)
        ensures
            final(self)@ == logged(old(self)@, *event),
            opt_json_owned(r) == progress_of(*event),
    {
        match event {
            RuntimeEvent::ThoughtDelta { text } => {
                push_text(&mut self.thought_texts, text);
                Some(object2("type", str_json("thought"), "text", str_json(text.as_str())))
            },
            RuntimeEvent::ToolCallStarted { tool_name, args_json: _ } => {
                push_text(&mut self.tool_calls, tool_name);
                Some(object2("type", str_json("tool_call"), "name", str_json(tool_name.as_str())))
            },
            RuntimeEvent::ToolCallFinished { tool_name, summary } => {
                Some(
                    object3(
                        "type",
                        str_json("tool_result"),
                        "name",
                        str_json(tool_name.as_str()),
                        "summary",
                        str_json(summary.as_str()),
                    ),
                )
            },
            RuntimeEvent::TextDelta { text } => {
                push_text(&mut self.final_text, text);
                Some(object2("type", str_json("text"), "text", str_json(text.as_str())))
            },
            _ => None,
        }
    }

    fn result(&self, outcome: &Result<RunOutcome, String>) -> (r: String)
        ensures
            r@ == result_text(self@.finals, *outcome),
    {
        let all = join(&self.final_text, "\n");
        match outcome {
            Ok(RunOutcome::Completed) => all,
            Ok(RunOutcome::Cancelled) => {
                if self.final_text.len() == 0 {
                    "Task cancelled.".to_owned()
                } else {
                    all
                }
            },
            Ok(RunOutcome::MaxTurnsExceeded { turns }) => {
                let mut m = "Reached max turns (".to_owned();
                m.append(decimal_text(*turns as u64).as_str());
                m.append(").\n\nPartial output:\n");
                m.append(all.as_str());
                m
            },
            Ok(RunOutcome::Failed { error }) => {
                let mut m = "Error: ".to_owned();
                m.append(error.as_str());
                m.append("\n\nPartial output:\n");
                m.append(all.as_str());
                m
            },
            Err(e) => {
                let mut m = "Agent error: ".to_owned();
                m.append(e.as_str());
                m
            },
        }
    }

    /// The text a run is answered with.
    pub fn content(&self, outcome: &Result<RunOutcome, String>) -> (r: String)
        ensures
            r@ == run_content(self@, *outcome),
    {
        let mut m = self.result(outcome);
        let thoughts = join(&self.thought_texts, "\n");
        if self.tool_calls.len() == 0 {
            m.append("\n\n");
            m.append(thoughts.as_str());
            return m;
        }
        let mut rows: Vec<String> = Vec::new();
        let ghost tools = texts(self.tool_calls@);
        let mut i: usize = 0;
        while i < self.tool_calls.len()
            invariant
                i <= self.tool_calls@.len(),
                tools == texts(self.tool_calls@),
                texts(rows@) == tool_rows(tools).take(i as int),
            decreases self.tool_calls@.len() - i,
        {
            let ghost before = texts(rows@);
            let mut row = "- ".to_owned();
            row.append(self.tool_calls[i].as_str());
            rows.push(row);
            i += 1;
            assert(texts(rows@) == before.push(row@));
            assert(tool_rows(tools).take(i as int) == tool_rows(tools).take(i - 1).push(row@));
        }
        assert(tool_rows(tools).take(tools.len() as int) == tool_rows(tools));
        m.append("\n\n工具调用:\n");
        m.append(join(&rows, "\n").as_str());
        m.append("\n\n思考过程:\n");
        m.append(thoughts.as_str());
        m
    }
}

/// The notification that reports progress.
pub fn progress_notification(progress: Json) -> (r: JsonRpcNotification)
    ensures
        r.jsonrpc@ == JSONRPC_VERSION@,
        r.method@ == "notifications/progress"@,
        opt_json_owned(r.params) == Some(JsonV::Object(seq![("progress"@, progress@)])),
{
    JsonRpcNotification {
        jsonrpc: JSONRPC_VERSION,
        method: "notifications/progress".to_owned(),
        params: Some(object1("progress", progress)),
    }
}

// ---------------------------------------------------------------------------
// Laws
// ---------------------------------------------------------------------------

/// The log after a whole run.
pub open spec fn logged_all(log: RunLogView, events: Seq<RuntimeEvent>) -> RunLogView
    decreases events.len(),
{
    if events.len() == 0 {
        log
    } else {
        logged(logged_all(log, events.drop_last()), events.last())
    }
}

/// A response carries a result or an error, never both and never neither.
pub proof fn law_result_xor_error(r: JsonRpcResponse, id: Option<JsonV>, p: Payload)
    requires
        answers(r, id, p),
    ensures
        r.result is Some <==> r.error is None,
{
}

/// The server runs the agent only for a `tools/call` of the tool `run` with a
/// prompt that is not empty, and then on exactly that prompt.
pub proof fn law_runs_only_valid_calls(
    name: Seq<char>,
    version: Seq<char>,
    method: Seq<char>,
    params: Option<JsonV>,
)
    ensures
        request_plan(name, version, method, params) matches Plan::Run(prompt) ==> {
            &&& method == "tools/call"@
            &&& tool_name(params) == Some("run"@)
            &&& prompt.len() > 0
            &&& param(params, "arguments"@) matches Some(a) && text_member(a, "prompt"@) == Some(
                prompt,
            )
        },
{
}

/// Every request but the two initialization notices is answered.
pub proof fn law_only_initialized_is_silent(
    name: Seq<char>,
    version: Seq<char>,
    method: Seq<char>,
    params: Option<JsonV>,
)
    ensures
        request_plan(name, version, method, params) is Silent <==> method == "initialized"@
            || method == "notifications/initialized"@,
{
    reveal_strlit("initialize");
    reveal_strlit("initialized");
    reveal_strlit("notifications/initialized");
    assert("initialize"@.len() == 10);
    assert("initialized"@.len() == 11);
    assert("notifications/initialized"@.len() == 25);
}

/// A piece of the answer's text.
pub open spec fn text_piece(e: RuntimeEvent) -> Option<Seq<char>> {
    match e {
        RuntimeEvent::TextDelta { text } => Some(text@),
        _ => None,
    }
}

/// A piece of reasoning.
pub open spec fn thought_piece(e: RuntimeEvent) -> Option<Seq<char>> {
    match e {
        RuntimeEvent::ThoughtDelta { text } => Some(text@),
        _ => None,
    }
}

/// The name of a tool that was called.
pub open spec fn called_tool(e: RuntimeEvent) -> Option<Seq<char>> {
    match e {
        RuntimeEvent::ToolCallStarted { tool_name, args_json } => Some(tool_name@),
        _ => None,
    }
}

/// What `pick` takes from the events, in their order.
pub open spec fn picked(
    events: Seq<RuntimeEvent>,
    pick: spec_fn(RuntimeEvent) -> Option<Seq<char>>,
) -> Seq<Seq<char>>
    decreases events.len(),
{
    if events.len() == 0 {
        Seq::empty()
    } else {
        match pick(events.last()) {
            Some(s) => picked(events.drop_last(), pick).push(s),
            None => picked(events.drop_last(), pick),
        }
    }
}

/// A run's log holds the pieces of text, the pieces of reasoning and the names
/// of the tools called, each in the order of the events and with nothing left
/// out.
pub proof fn law_log_keeps_order(log: RunLogView, events: Seq<RuntimeEvent>)
    ensures
        logged_all(log, events) == (RunLogView {
            thoughts: log.thoughts + picked(events, |e: RuntimeEvent| thought_piece(e)),
            tools: log.tools + picked(events, |e: RuntimeEvent| called_tool(e)),
            finals: log.finals + picked(events, |e: RuntimeEvent| text_piece(e)),
        }),
    decreases events.len(),
{
    let want = RunLogView {
        thoughts: log.thoughts + picked(events, |e: RuntimeEvent| thought_piece(e)),
        tools: log.tools + picked(events, |e: RuntimeEvent| called_tool(e)),
        finals: log.finals + picked(events, |e: RuntimeEvent| text_piece(e)),
    };
    if events.len() > 0 {
        law_log_keeps_order(log, events.drop_last());
    }
    assert(logged_all(log, events) =~= want);
}

/// A `tools/call` of `run` is run whenever its arguments hold a prompt that is
/// not empty, whatever else is in it and in its parameters.
pub proof fn law_valid_calls_are_run(
    name: Seq<char>,
    version: Seq<char>,
    params: JsonV,
    arguments: JsonV,
    prompt: Seq<char>,
)
    requires
        member(params, "name"@) == Some(JsonV::Str("run"@)),
        member(params, "arguments"@) == Some(arguments),
        member(arguments, "prompt"@) == Some(JsonV::Str(prompt)),
        prompt.len() > 0,
    ensures
        request_plan(name, version, "tools/call"@, Some(params)) == Plan::Run(prompt),
{
    lemma_methods_differ();
}

proof fn lemma_methods_differ()
    ensures
        "tools/call"@ != "tools/list"@,
        "tools/call"@ != "initialize"@,
        "tools/call"@ != "initialized"@,
        "tools/call"@ != "notifications/initialized"@,
        "tools/list"@ != "initialize"@,
        "tools/list"@ != "initialized"@,
        "tools/list"@ != "notifications/initialized"@,
{
    reveal_strlit("tools/call");
    reveal_strlit("tools/list");
    reveal_strlit("initialize");
    reveal_strlit("initialized");
    reveal_strlit("notifications/initialized");
    assert("tools/call"@[6] == 'c');
    assert("tools/list"@[6] == 'l');
    assert("tools/call"@[0] == 't');
    assert("tools/list"@[0] == 't');
    assert("initialize"@[0] == 'i');
    assert("initialized"@[0] == 'i');
    assert("notifications/initialized"@[0] == 'n');
}

/// A malformed `tools/call` is refused as having invalid parameters, and the
/// message says the first thing that is wrong: no arguments, a tool that is not
/// `run`, or no prompt.
pub proof fn law_malformed_calls_are_refused(
    name: Seq<char>,
    version: Seq<char>,
    params: JsonV,
    arguments: JsonV,
)
    ensures
        request_plan(name, version, "tools/call"@, None) == Plan::Respond(
            Payload::Error { code: (-32602) as i32, message: "Missing arguments"@ },
        ),
        member(params, "arguments"@) is None ==> request_plan(
            name,
            version,
            "tools/call"@,
            Some(params),
        ) == Plan::Respond(Payload::Error { code: (-32602) as i32, message: "Missing arguments"@ }),
        member(params, "arguments"@) is Some && !(member(params, "name"@) matches Some(
            JsonV::Str(s),
        )) ==> request_plan(name, version, "tools/call"@, Some(params)) == Plan::Respond(
            Payload::Error {
                code: (-32602) as i32,
                message: "Unknown tool: "@ + "None"@ + ". The only available tool is \"run\"."@,
            },
        ),
        member(params, "arguments"@) is Some ==> (member(params, "name"@) matches Some(
            JsonV::Str(s),
        ) ==> s != "run"@ ==> request_plan(name, version, "tools/call"@, Some(params))
            == Plan::Respond(
            Payload::Error {
                code: (-32602) as i32,
                message: "Unknown tool: "@ + ("Some("@ + debug_form(s) + ")"@)
                    + ". The only available tool is \"run\"."@,
            },
        )),
        member(params, "arguments"@) == Some(arguments) && member(params, "name"@) == Some(
            JsonV::Str("run"@),
        ) && !(member(arguments, "prompt"@) matches Some(JsonV::Str(p)) && p.len() > 0)
            ==> request_plan(name, version, "tools/call"@, Some(params)) == Plan::Respond(
            Payload::Error { code: (-32602) as i32, message: "Missing required parameter: prompt"@ },
        ),
{
    lemma_methods_differ();
}

/// A method the server does not know is answered with an error that names it,
/// whatever its parameters; no method it knows is.
pub proof fn law_unknown_methods_are_named(
    name: Seq<char>,
    version: Seq<char>,
    method: Seq<char>,
    params: Option<JsonV>,
)
    ensures
        (request_plan(name, version, method, params) == Plan::Respond(
            Payload::Error { code: (-32601) as i32, message: "Method not found: "@ + method },
        )) <==> !(method == "initialize"@ || method == "initialized"@ || method
            == "notifications/initialized"@ || method == "tools/list"@ || method == "tools/call"@),
{
    lemma_methods_differ();
}

/// `initialize` is answered with the protocol's version, the server's own name
/// and version, and that it has tools.
pub proof fn law_initialize_tells_the_server(
    name: Seq<char>,
    version: Seq<char>,
    params: Option<JsonV>,
)
    ensures
        request_plan(name, version, "initialize"@, params) matches Plan::Respond(
            Payload::Result(v),
        ) && {
            &&& member(v, "protocolVersion"@) == Some(JsonV::Str("2024-11-05"@))
            &&& member(v, "serverInfo"@) matches Some(info)
            &&& member(info, "name"@) == Some(JsonV::Str(name))
            &&& member(info, "version"@) == Some(JsonV::Str(version))
            &&& member(v, "capabilities"@) matches Some(c)
            &&& member(c, "tools"@) matches Some(JsonV::Object(_))
        },
{
    reveal_with_fuel(member_in, 4);
    let v = initialize_result(name, version);
    let m = v->Object_0;
    reveal_strlit("protocolVersion");
    reveal_strlit("serverInfo");
    reveal_strlit("capabilities");
    reveal_strlit("name");
    reveal_strlit("version");
    assert("protocolVersion"@.len() == 15);
    assert("serverInfo"@.len() == 10);
    assert("capabilities"@.len() == 12);
    assert("name"@.len() == 4);
    assert("version"@.len() == 7);
    assert(m.drop_first()[0] == m[1]);
    assert(m.drop_first().drop_first()[0] == m[2]);
    let info = m[1].1->Object_0;
    assert(info.drop_first()[0] == info[1]);
}

/// `tools/list` is answered with one tool, `run`, whose arguments are an object
/// with a string `prompt`, which is required, and a string `model`.
pub proof fn law_the_one_tool_is_run(
    name: Seq<char>,
    version: Seq<char>,
    params: Option<JsonV>,
)
    ensures
        request_plan(name, version, "tools/list"@, params) matches Plan::Respond(
            Payload::Result(v),
        ) && {
            &&& member(v, "tools"@) matches Some(JsonV::Array(tools))
            &&& tools.len() == 1
            &&& member(tools[0], "name"@) == Some(JsonV::Str("run"@))
            &&& member(tools[0], "description"@) matches Some(JsonV::Str(_))
            &&& member(tools[0], "inputSchema"@) matches Some(schema)
            &&& member(schema, "type"@) == Some(JsonV::Str("object"@))
            &&& member(schema, "required"@) == Some(
                JsonV::Array(seq![JsonV::Str("prompt"@)]),
            )
            &&& member(schema, "properties"@) matches Some(p)
            &&& member(p, "prompt"@) matches Some(prompt)
            &&& member(prompt, "type"@) == Some(JsonV::Str("string"@))
            &&& member(p, "model"@) matches Some(model)
            &&& member(model, "type"@) == Some(JsonV::Str("string"@))
        },
{
    lemma_methods_differ();
    reveal_with_fuel(member_in, 4);
    reveal_strlit("name");
    reveal_strlit("description");
    reveal_strlit("inputSchema");
    reveal_strlit("type");
    reveal_strlit("properties");
    reveal_strlit("required");
    reveal_strlit("prompt");
    reveal_strlit("model");
    assert("name"@.len() == 4);
    assert("description"@[0] == 'd');
    assert("inputSchema"@[0] == 'i');
    assert("type"@.len() == 4);
    assert("properties"@.len() == 10);
    assert("required"@.len() == 8);
    assert("prompt"@.len() == 6);
    assert("model"@.len() == 5);
    assert("description"@.len() == 11);
    assert("inputSchema"@.len() == 11);
    let tool = tools_list_result()->Object_0[0].1->Array_0[0]->Object_0;
    assert(tool.drop_first()[0] == tool[1]);
    assert(tool.drop_first().drop_first()[0] == tool[2]);
    let s = run_schema()->Object_0;
    assert(s.drop_first()[0] == s[1]);
    assert(s.drop_first().drop_first()[0] == s[2]);
    let p = s[1].1->Object_0;
    assert(p.drop_first()[0] == p[1]);
}

/// However a run that gave text ends, all of its text is in the answer, in
/// order and each piece on a line of its own; a run that could not be made is
/// answered with why.
pub proof fn law_answers_hold_all_the_text(
    finals: Seq<Seq<char>>,
    piece: Seq<char>,
    outcome: Result<RunOutcome, String>,
)
    ensures
        outcome is Ok && finals.len() > 0 ==> result_text(finals.push(piece), outcome)
            == result_text(finals, outcome) + "\n"@ + piece,
        outcome is Ok ==> result_text(seq![piece], outcome) == (match outcome->Ok_0 {
            RunOutcome::Completed => piece,
            RunOutcome::Cancelled => piece,
            _ => result_text(Seq::empty(), outcome) + piece,
        }),
        result_text(Seq::empty(), outcome) == (match outcome {
            Ok(RunOutcome::Completed) => Seq::empty(),
            Ok(RunOutcome::Cancelled) => "Task cancelled."@,
            Ok(RunOutcome::MaxTurnsExceeded { turns }) => "Reached max turns ("@ + decimal(
                turns as nat,
            ) + ").\n\nPartial output:\n"@,
            Ok(RunOutcome::Failed { error }) => "Error: "@ + error@ + "\n\nPartial output:\n"@,
            Err(e) => "Agent error: "@ + e@,
        }),
        outcome is Err ==> result_text(finals, outcome) == result_text(Seq::empty(), outcome),
{
    assert(finals.push(piece).drop_last() =~= finals);
    assert(finals.push(piece).last() == piece);
    let none = Seq::<Seq<char>>::empty();
    assert(joined(none, "\n"@) =~= Seq::<char>::empty());
    if outcome is Ok {
        if finals.len() > 0 {
            assert(result_text(finals.push(piece), outcome) =~= result_text(finals, outcome)
                + "\n"@ + piece);
        }
        assert(result_text(none, outcome) + piece =~= result_text(none, outcome) + piece);
        assert(result_text(none, outcome) =~= (match outcome->Ok_0 {
            RunOutcome::Completed => Seq::empty(),
            RunOutcome::Cancelled => "Task cancelled."@,
            RunOutcome::MaxTurnsExceeded { turns } => "Reached max turns ("@ + decimal(
                turns as nat,
            ) + ").\n\nPartial output:\n"@,
            RunOutcome::Failed { error } => "Error: "@ + error@ + "\n\nPartial output:\n"@,
        }));
    }
}

/// Behind the result stand the tools that were called, where any were, and all
/// of the reasoning; each further tool and piece of reasoning adds its line.
pub proof fn law_answers_hold_tools_and_reasoning(
    log: RunLogView,
    outcome: Result<RunOutcome, String>,
    thought: Seq<char>,
    tool: Seq<char>,
)
    ensures
        ({
            let content = run_content(log, outcome);
            let more = run_content(
                RunLogView { thoughts: log.thoughts.push(thought), ..log },
                outcome,
            );
            &&& log.thoughts.len() > 0 ==> more == content + "\n"@ + thought
            &&& log.thoughts.len() == 0 ==> more == content + thought
            &&& log.thoughts.len() == 0 && log.tools.len() == 0 ==> content == result_text(
                log.finals,
                outcome,
            ) + "\n\n"@
            &&& log.thoughts.len() == 0 && log.tools.len() == 0 ==> run_content(
                RunLogView { tools: log.tools.push(tool), ..log },
                outcome,
            ) == result_text(log.finals, outcome) + "\n\n工具调用:\n"@ + ("- "@ + tool)
                + "\n\n思考过程:\n"@
            &&& log.thoughts.len() == 0 && log.tools.len() > 0 ==> exists|head: Seq<char>|
                content == head + "\n\n思考过程:\n"@ && #[trigger] (head + "\n"@ + ("- "@ + tool)
                    + "\n\n思考过程:\n"@) == run_content(
                    RunLogView { tools: log.tools.push(tool), ..log },
                    outcome,
                )
        }),
{
    let content = run_content(log, outcome);
    let with_thought = RunLogView { thoughts: log.thoughts.push(thought), ..log };
    let with_tool = RunLogView { tools: log.tools.push(tool), ..log };
    let result = result_text(log.finals, outcome);
    assert(log.thoughts.push(thought).drop_last() =~= log.thoughts);
    assert(joined(Seq::<Seq<char>>::empty(), "\n"@) =~= Seq::<char>::empty());
    if log.thoughts.len() == 0 {
        assert(log.thoughts =~= Seq::<Seq<char>>::empty());
        assert(run_content(with_thought, outcome) =~= content + thought);
        if log.tools.len() == 0 {
            assert(content =~= result + "\n\n"@);
            assert(tool_rows(log.tools.push(tool)) =~= seq!["- "@ + tool]);
            assert(run_content(with_tool, outcome) =~= result + "\n\n工具调用:\n"@ + ("- "@ + tool)
                + "\n\n思考过程:\n"@);
        } else {
            let head = result + "\n\n工具调用:\n"@ + joined(tool_rows(log.tools), "\n"@);
            assert(tool_rows(log.tools.push(tool)).drop_last() =~= tool_rows(log.tools));
            assert(tool_rows(log.tools.push(tool)).last() == "- "@ + tool);
            assert(content =~= head + "\n\n思考过程:\n"@);
            assert(run_content(with_tool, outcome) =~= head + "\n"@ + ("- "@ + tool)
                + "\n\n思考过程:\n"@);
        }
    } else {
        assert(run_content(with_thought, outcome) =~= content + "\n"@ + thought);
    }
}

/// Text, reasoning, tool calls and tool results are reported as progress, each
/// under its kind and with all that it holds; nothing else is.
pub proof fn law_progress_tells_the_event(event: RuntimeEvent)
    ensures
        match event {
            RuntimeEvent::TextDelta { text } => progress_of(event) matches Some(p) && member(
                p,
                "type"@,
            ) == Some(JsonV::Str("text"@)) && member(p, "text"@) == Some(JsonV::Str(text@)),
            RuntimeEvent::ThoughtDelta { text } => progress_of(event) matches Some(p) && member(
                p,
                "type"@,
            ) == Some(JsonV::Str("thought"@)) && member(p, "text"@) == Some(JsonV::Str(text@)),
            RuntimeEvent::ToolCallStarted { tool_name, args_json } => progress_of(
                event,
            ) matches Some(p) && member(p, "type"@) == Some(JsonV::Str("tool_call"@)) && member(
                p,
                "name"@,
            ) == Some(JsonV::Str(tool_name@)),
            RuntimeEvent::ToolCallFinished { tool_name, summary } => progress_of(
                event,
            ) matches Some(p) && member(p, "type"@) == Some(JsonV::Str("tool_result"@)) && member(
                p,
                "name"@,
            ) == Some(JsonV::Str(tool_name@)) && member(p, "summary"@) == Some(
                JsonV::Str(summary@),
            ),
            _ => progress_of(event) is None,
        },
{
    reveal_with_fuel(member_in, 4);
    reveal_strlit("type");
    reveal_strlit("text");
    reveal_strlit("name");
    reveal_strlit("summary");
    assert("type"@[1] == 'y');
    assert("text"@[1] == 'e');
    assert("name"@[1] == 'a');
    assert("summary"@[1] == 'u');
    if let Some(p) = progress_of(event) {
        let m = p->Object_0;
        assert(m.drop_first()[0] == m[1]);
        if m.len() == 3 {
            assert(m.drop_first().drop_first()[0] == m[2]);
        }
    }
}

/// What answers a request is a response of the protocol's version with the
/// request's own id: it carries the result as it is, or the error with its code
/// and message.
pub proof fn law_answers_carry_id_and_payload(
    r: JsonRpcResponse,
    id: Option<JsonV>,
    value: JsonV,
    code: i32,
    message: Seq<char>,
)
    ensures
        answers(r, id, Payload::Result(value)) || answers(r, id, Payload::Error { code, message })
            ==> {
            &&& r.jsonrpc@ == "2.0"@
            &&& id is None ==> r.id is None
            &&& id matches Some(v) ==> r.id matches Some(j) && j@ == v
        },
        answers(r, id, Payload::Result(value)) ==> (r.result matches Some(j) && j@ == value)
            && r.error is None,
        answers(r, id, Payload::Error { code, message }) ==> r.result is None && (
        r.error matches Some(e) && e.code == code && e.message@ == message && e.data is None),
{
}

/// What is done about a request is what it calls for: the agent runs on exactly
/// the prompt, nothing is sent, or the response answers the request.
pub proof fn law_actions_do_what_is_called_for(
    a: ServerAction,
    id: Option<JsonV>,
    prompt: Seq<char>,
    p: Payload,
)
    ensures
        action_follows(a, id, Plan::Run(prompt)) <==> (a matches ServerAction::Run(s) && s@
            == prompt),
        action_follows(a, id, Plan::Silent) <==> a is Silent,
        action_follows(a, id, Plan::Respond(p)) <==> (a matches ServerAction::Respond(r)
            && answers(r, id, p)),
{
}

} // verus!

use agent_works::events::{RunOutcome, RuntimeEvent};
use agent_works::json::Json;
use agent_works::mcp::server::{
    parse_error_response, progress_notification, request_text, JsonRpcRequest, JsonRpcResponse,
    McpServeConfig, McpServer, McpServerTransport, RunLog, ServerAction,
};

fn server() -> McpServer {
    McpServer::new(McpServeConfig::default())
}

fn req(method: &str, params: &str) -> JsonRpcRequest {
    JsonRpcRequest {
        jsonrpc: "2.0".to_string(),
        id: Some(Json::UInt(1)),
        method: method.to_string(),
        params: Some(Json::parse(params).unwrap()),
    }
}

fn respond(action: ServerAction) -> JsonRpcResponse {
    match action {
        ServerAction::Respond(r) => r,
        ServerAction::Silent => panic!("no response"),
        ServerAction::Run(p) => panic!("wants to run {p}"),
    }
}

#[test]
fn test_default_config() {
    let config = McpServeConfig::default();
    assert_eq!(config.name, "phi-agent");
    assert!(!config.version.is_empty());
    assert!(matches!(config.transport, McpServerTransport::Stdio));
}

#[test]
fn test_handle_initialize() {
    let resp = server().handle_initialize(&req("initialize", "{}"));
    assert!(resp.error.is_none());
    let result = resp.result.unwrap();
    assert_eq!(result.get_str("protocolVersion"), Some("2024-11-05"));
    assert_eq!(result.get("serverInfo").unwrap().get_str("name"), Some("phi-agent"));
    assert!(!result.get("serverInfo").unwrap().get_str("version").unwrap().is_empty());
    assert!(matches!(
        result.get("capabilities").unwrap().get("tools"),
        Some(Json::Object(_))
    ));
}

#[test]
fn test_handle_tools_list() {
    let resp = server().handle_tools_list(&req("tools/list", "{}"));
    assert!(resp.error.is_none());
    let result = resp.result.unwrap();
    let tools = result.get_array("tools").unwrap();
    assert_eq!(tools.len(), 1);
    assert_eq!(tools[0].get_str("name"), Some("run"));
    assert!(tools[0]
        .get("inputSchema")
        .unwrap()
        .get_array("required")
        .unwrap()
        .contains(&Json::Str("prompt".to_string())));
}

#[test]
fn test_handle_request_unknown_method() {
    let resp = respond(server().handle_request(&req("foo/bar", "{}")));
    assert_eq!(resp.id, Some(Json::UInt(1)));
    assert_eq!(resp.jsonrpc, "2.0");
    let err = resp.error.unwrap();
    assert_eq!(err.code, -32601);
    assert_eq!(err.message, "Method not found: foo/bar");
}

#[test]
fn test_handle_request_notifications_return_none() {
    let server = server();
    for m in ["initialized", "notifications/initialized"] {
        assert!(matches!(server.handle_request(&req(m, "{}")), ServerAction::Silent));
    }
}

#[test]
fn test_handle_tools_call_missing_arguments() {
    let resp = respond(server().handle_tools_call(&req("tools/call", r#"{"name": "run"}"#)));
    let err = resp.error.unwrap();
    assert_eq!(err.code, -32602);
    assert!(err.message.contains("Missing arguments"));
    let mut bare = req("tools/call", "{}");
    bare.params = None;
    let err = respond(server().handle_tools_call(&bare)).error.unwrap();
    assert_eq!(err.message, "Missing arguments");
}

#[test]
fn test_handle_tools_call_unknown_tool() {
    let resp = respond(server().handle_tools_call(&req(
        "tools/call",
        r#"{"name": "nope", "arguments": {"prompt": "x"}}"#,
    )));
    let err = resp.error.unwrap();
    assert_eq!(err.code, -32602);
    assert_eq!(
        err.message,
        "Unknown tool: Some(\"nope\"). The only available tool is \"run\"."
    );
}

#[test]
fn test_handle_tools_call_missing_prompt() {
    for args in ["{}", r#"{"prompt": ""}"#, r#"{"prompt": 7}"#] {
        let params = format!(r#"{{"name": "run", "arguments": {args}}}"#);
        let resp = respond(server().handle_tools_call(&req("tools/call", &params)));
        let err = resp.error.unwrap();
        assert!(err.message.contains("Missing required parameter: prompt"));
    }
}

/// The message for a tool's name, as the parameters give it.
fn unknown_tool(params: &str) -> String {
    respond(server().handle_request(&req("tools/call", params))).error.unwrap().message
}

#[test]
fn test_tools_call_tool_name_validation() {
    // Valid: name = "run"
    let valid = r#"{"name": "run", "arguments": {"prompt": "do something"}}"#;
    match server().handle_request(&req("tools/call", valid)) {
        ServerAction::Run(p) => assert_eq!(p, "do something"),
        _ => panic!("expected a run"),
    }
    // Invalid: unknown tool name
    assert!(unknown_tool(r#"{"name": "nonexistent", "arguments": {}}"#)
        .contains("Some(\"nonexistent\")"));
    // Missing name field entirely
    assert!(unknown_tool(r#"{"arguments": {"prompt": "test"}}"#).contains("Unknown tool: None"));
    // Missing params entirely
    let mut bare = req("tools/call", "{}");
    bare.params = None;
    assert!(respond(server().handle_request(&bare)).error.is_some());
    // Empty name
    assert!(unknown_tool(r#"{"name": "", "arguments": {}}"#).contains("Some(\"\")"));
    // A name with characters that are escaped
    assert!(unknown_tool(r#"{"name": "a\"\n", "arguments": {}}"#).contains(r#"Some("a\"\n")"#));
}

fn text(s: &str) -> RuntimeEvent {
    RuntimeEvent::TextDelta { text: s.to_string() }
}

fn thought(s: &str) -> RuntimeEvent {
    RuntimeEvent::ThoughtDelta { text: s.to_string() }
}

fn started(s: &str) -> RuntimeEvent {
    RuntimeEvent::ToolCallStarted { tool_name: s.to_string(), args_json: "{}".to_string() }
}

#[test]
fn test_handle_tools_call_success() {
    let mut log = RunLog::new();
    log.record(&text("hello"));
    let id = Some(Json::Str("abc".to_string()));
    let resp = server().finish_tools_call(&id, &log, &Ok(RunOutcome::Completed));
    assert!(resp.error.is_none(), "unexpected error: {:?}", resp.error);
    assert_eq!(resp.id, id);
    let result = resp.result.unwrap();
    let content = &result.get_array("content").unwrap()[0];
    assert_eq!(content.get_str("type"), Some("text"));
    assert_eq!(content.get_str("text"), Some("hello\n\n"));
}

#[test]
fn runs_are_reported_as_they_go() {
    let mut log = RunLog::new();
    let p = log.record(&thought("hm")).unwrap();
    assert_eq!((p.get_str("type"), p.get_str("text")), (Some("thought"), Some("hm")));
    let p = log.record(&started("echo")).unwrap();
    assert_eq!((p.get_str("type"), p.get_str("name")), (Some("tool_call"), Some("echo")));
    let finished = RuntimeEvent::ToolCallFinished {
        tool_name: "echo".to_string(),
        summary: "ok".to_string(),
    };
    let p = log.record(&finished).unwrap();
    assert_eq!((p.get_str("type"), p.get_str("summary")), (Some("tool_result"), Some("ok")));
    let p = log.record(&text("a")).unwrap();
    assert_eq!((p.get_str("type"), p.get_str("text")), (Some("text"), Some("a")));
    assert!(log.record(&RuntimeEvent::RunFinished).is_none());
    log.record(&text("b"));
    assert_eq!(
        log.content(&Ok(RunOutcome::Completed)),
        "a\nb\n\n工具调用:\n- echo\n\n思考过程:\nhm"
    );
    let note = progress_notification(Json::Null);
    assert_eq!(note.method, "notifications/progress");
    assert_eq!(note.params.unwrap().get("progress"), Some(&Json::Null));
}

#[test]
fn every_ending_has_its_text() {
    let empty = RunLog::new();
    assert_eq!(empty.content(&Ok(RunOutcome::Cancelled)), "Task cancelled.\n\n");
    assert_eq!(
        empty.content(&Ok(RunOutcome::MaxTurnsExceeded { turns: 50 })),
        "Reached max turns (50).\n\nPartial output:\n\n\n"
    );
    let mut log = RunLog::new();
    log.record(&text("part"));
    assert_eq!(log.content(&Ok(RunOutcome::Cancelled)), "part\n\n");
    assert_eq!(
        log.content(&Ok(RunOutcome::Failed { error: "boom".to_string() })),
        "Error: boom\n\nPartial output:\npart\n\n"
    );
    assert_eq!(log.content(&Err("down".to_string())), "Agent error: down\n\n");
}

#[test]
fn lines_that_are_no_requests() {
    assert_eq!(request_text("  {} \r\n").as_deref(), Some("{}"));
    assert!(request_text(" \t\n").is_none());
    let r = parse_error_response("oops");
    assert!(r.id.is_none() && r.result.is_none());
    let e = r.error.unwrap();
    assert_eq!((e.code, e.message.as_str()), (-32700, "Parse error: oops"));
}

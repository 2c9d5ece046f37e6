use std::time::Duration;

use agent_works::error::AgentError;
use agent_works::json::Json;
use agent_works::mcp::client::{McpClient, McpToolAdapter};
use agent_works::mcp::enhanced_hub::{ConnectionState, EnhancedMcpHub, ServerEntry};
use agent_works::mcp::hub::McpHub;
use agent_works::mcp::types::{McpServerConfig, McpToolInfo, McpTransport};

fn json(s: &str) -> Json {
    Json::parse(s).unwrap()
}

// ── Client ──

#[test]
fn requests_are_numbered() {
    let mut c = McpClient::new();
    assert_eq!(
        McpClient::request_line(&c.next_request("tools/list", json("{}"))),
        "{\"id\":1,\"jsonrpc\":\"2.0\",\"method\":\"tools/list\",\"params\":{}}\n"
    );
    let r = c.call_tool("echo", &json(r#"{"a": [1]}"#));
    assert_eq!(r.get("id"), Some(&Json::UInt(2)));
    assert_eq!(r.get_str("method"), Some("tools/call"));
    assert_eq!(r.get("params").unwrap().get_str("name"), Some("echo"));
    assert_eq!(r.get("params").unwrap().get("arguments"), Some(&json(r#"{"a": [1]}"#)));
    let r = c.list_tools_request();
    assert_eq!((r.get("id"), c.request_id), (Some(&Json::UInt(3)), 4));
    let mut c = McpClient { request_id: u64::MAX };
    assert_eq!(c.list_tools_request().get("id"), Some(&Json::UInt(u64::MAX)));
    assert_eq!(c.request_id, 0);
}

#[test]
fn responses_are_interpreted() {
    assert_eq!(McpClient::interpret_line(r#"{"result": {"x": 1}}"#), Ok(json(r#"{"x": 1}"#)));
    assert_eq!(McpClient::interpret_line("{}"), Ok(Json::Null));
    assert_eq!(
        McpClient::interpret_line(r#"{"error": {"code": -1, "message": "no"}, "result": 1}"#),
        Err(AgentError::Internal(r#"MCP error: {"code":-1,"message":"no"}"#.to_string()))
    );
    assert_eq!(
        McpClient::interpret(&json(r#"{"error": null}"#)),
        Err(AgentError::Internal("MCP error: null".to_string()))
    );
    match McpClient::interpret_line("nope") {
        Err(AgentError::Json(m)) => assert!(m.starts_with("parse: expected"), "{m}"),
        other => panic!("expected a parse error, got {:?}", other),
    }
}

#[test]
fn tools_are_listed_with_stand_ins() {
    let result = json(
        r#"{"tools": [{"name": "search", "description": "d", "inputSchema": {"q": 1}}, {}]}"#,
    );
    let tools = McpClient::list_tools(&result).unwrap();
    assert_eq!(
        tools,
        vec![
            McpToolInfo {
                name: "search".to_string(),
                description: "d".to_string(),
                input_schema: json(r#"{"q": 1}"#),
            },
            McpToolInfo {
                name: "unknown".to_string(),
                description: String::new(),
                input_schema: json(r#"{"type": "object"}"#),
            },
        ]
    );
    for bad in ["{}", r#"{"tools": 1}"#, "null"] {
        assert_eq!(
            McpClient::list_tools(&json(bad)),
            Err(AgentError::Internal("MCP: invalid tools/list response".to_string()))
        );
    }
}

fn tool(name: &str) -> McpToolInfo {
    McpToolInfo {
        name: name.to_string(),
        description: "d".to_string(),
        input_schema: Json::Null,
    }
}

#[test]
fn adapters_are_named_after_their_server() {
    let a = McpToolAdapter::new(tool("search"), "web");
    assert_eq!(a.name, "mcp.web.search");
    assert_eq!(a.original_name, "search");
}

#[test]
fn results_say_their_text() {
    let say = |s: &str| McpToolAdapter::result_text(&json(s));
    assert_eq!(say(r#"{"content": [{"text": "a"}, {"image": 1}, {"text": "b"}]}"#), "a\nb");
    assert_eq!(say(r#"{"content": [{"text": ""}]}"#), r#"{"content":[{"text":""}]}"#);
    assert_eq!(say(r#"{"content": 1}"#), r#"{"content":1}"#);
    assert_eq!(say("[1, 2.5, \"x\"]"), r#"[1,2.5,"x"]"#);
}

// ── Hubs ──

fn config(name: &str, auto_reconnect: bool) -> McpServerConfig {
    McpServerConfig {
        name: name.to_string(),
        transport: McpTransport::Http { url: "http://localhost:1".to_string() },
        auto_reconnect,
    }
}

fn fail(s: &str) -> Result<(), AgentError> {
    Err(AgentError::Internal(s.to_string()))
}

#[test]
fn test_new_and_interval_builder() {
    let hub = EnhancedMcpHub::new();
    assert_eq!(hub.health_check_interval, Duration::from_secs(30));
    let hub = hub.with_health_check_interval(Duration::from_millis(1500));
    assert_eq!(hub.health_check_interval, Duration::from_millis(1500));
}

#[test]
fn test_add_server_and_get_state() {
    let mut hub = EnhancedMcpHub::new();
    hub.add_server(config("a", false));
    hub.add_server(config("b", false));
    hub.add_server(config("a", true));
    assert_eq!(hub.get_all_states().len(), 2);
    assert_eq!(hub.get_connection_state("a"), Some(ConnectionState::Disconnected));
    assert_eq!(hub.get_connection_state("zzz"), None);
    assert!(hub.servers[0].config.auto_reconnect);
}

#[test]
fn one_connection_is_enough() {
    let mut hub = EnhancedMcpHub::new();
    hub.add_server(config("a", false));
    hub.add_server(config("b", false));
    assert_eq!(hub.connect_all(&vec![fail("x"), Ok(())]), Ok(()));
    assert_eq!(
        hub.get_connection_state("a"),
        Some(ConnectionState::Failed("Internal error: x".to_string()))
    );
    assert_eq!(hub.get_connection_state("b"), Some(ConnectionState::Connected));
}

#[test]
fn test_connect_all_all_fail() {
    let mut hub = EnhancedMcpHub::new();
    hub.add_server(config("a", false));
    hub.add_server(config("b", false));
    let err = hub.connect_all(&vec![fail("spawn"), fail("spawn")]).unwrap_err();
    assert!(err.to_text().contains("All MCP servers failed"));
}

#[test]
fn all_servers_failing_is_an_error() {
    let mut hub = EnhancedMcpHub::new();
    assert_eq!(hub.connect_all(&vec![]), Ok(()));
    hub.add_server(config("a", false));
    hub.add_server(config("b", false));
    assert_eq!(
        hub.connect_all(&vec![fail("x"), fail("y")]),
        Err(AgentError::Internal(
            "All MCP servers failed to connect: a: Internal error: x; b: Internal error: y"
                .to_string()
        ))
    );
}

#[test]
fn pools_are_bounded_and_used_in_turn() {
    let mut e = ServerEntry::new(config("a", false));
    assert_eq!((e.get_available_client(), e.next_client()), (None, None));
    for _ in 0..5 {
        assert!(e.has_room());
        assert_eq!(e.add_client(&Ok(())), Ok(()));
    }
    assert!(!e.has_room());
    assert_eq!(
        e.add_client(&Ok(())),
        Err(AgentError::ResourceUnavailable("Maximum connections reached".to_string()))
    );
    let picks: Vec<usize> = (0..7).map(|_| e.get_available_client().unwrap()).collect();
    assert_eq!(picks, vec![0, 1, 2, 3, 4, 0, 1]);
    e.round_robin_idx = usize::MAX;
    e.get_available_client();
    assert_eq!(e.round_robin_idx, 0);
}

#[test]
fn reconnecting_backs_off() {
    let mut e = ServerEntry::new(config("a", true));
    let waits: Vec<u64> = (0..7).map(|_| e.begin_reconnect()).collect();
    assert_eq!(waits, vec![2000, 4000, 8000, 16000, 30000, 30000, 30000]);
    assert!(e.finish_reconnect(&fail("x")).is_err());
    assert_eq!(e.state, ConnectionState::Failed("Internal error: x".to_string()));
    assert_eq!(e.reconnect_attempts, 7);
    assert_eq!(e.finish_reconnect(&Ok(())), Ok(()));
    assert_eq!((e.clients, e.reconnect_attempts), (1, 0));
}

#[test]
fn unhealthy_servers_are_reconnected_where_asked() {
    for auto in [true, false] {
        let mut e = ServerEntry::new(config("a", auto));
        // Without a connection there is nothing to ask over.
        let healthy = e.health_check(&Ok(()));
        assert!(!healthy && !e.needs_reconnect(healthy));
        assert_eq!(e.state, ConnectionState::Disconnected);
        e.add_client(&Ok(())).unwrap();
        let healthy = e.health_check(&fail("x"));
        assert_eq!(e.state, ConnectionState::Unhealthy("Internal error: x".to_string()));
        assert_eq!(e.needs_reconnect(healthy), auto);
        assert!(e.health_check(&Ok(())));
        assert_eq!(e.round_robin_idx, 2);
        assert_eq!(e.state, ConnectionState::Connected);
    }
}

#[test]
fn tools_are_discovered_and_registered() {
    let mut hub = EnhancedMcpHub::new();
    for n in ["a", "b", "c"] {
        hub.add_server(config(n, false));
    }
    hub.connect_all(&vec![Ok(()), fail("x"), Ok(())]).unwrap();
    hub.connect_one("a", &Ok(())).unwrap();
    let outcomes = vec![
        Ok(vec![tool("t"), tool("u"), tool("v")]),
        Ok(vec![tool("never")]),
        Err(AgentError::Internal("gone".to_string())),
    ];
    let found = hub.discover_all(&outcomes);
    assert_eq!(found.len(), 1);
    assert_eq!(found[0].0, "a");
    assert_eq!(found[0].1.len(), 3);
    assert_eq!(
        hub.get_connection_state("c"),
        Some(ConnectionState::Failed("Internal error: gone".to_string()))
    );
    let regs: Vec<(usize, usize, usize)> =
        hub.register_all().iter().map(|r| (r.server, r.tool, r.client)).collect();
    assert_eq!(regs, vec![(0, 0, 1), (0, 1, 0), (0, 2, 1)]);
    assert_eq!(hub.register_server("a"), vec![0, 1, 0]);
    assert!(hub.register_server("none").is_empty());
}

#[test]
fn servers_come_and_go() {
    let mut hub = EnhancedMcpHub::new();
    hub.add_server(config("a", false));
    assert_eq!(
        hub.connect_one("x", &Ok(())),
        Err(AgentError::ResourceUnavailable("MCP server 'x' not found".to_string()))
    );
    assert_eq!(hub.connect_one("a", &Ok(())), Ok(ConnectionState::Connected));
    assert!(hub.connect_one("a", &fail("x")).is_err());
    assert_eq!(hub.get_connection_state("a"), Some(ConnectionState::Connected));
    assert!(hub.disconnect_one("a") && !hub.disconnect_one("x"));
    assert_eq!(hub.get_connection_state("a"), Some(ConnectionState::Disconnected));
    hub.update_server(config("b", true));
    assert!(hub.remove_server("a") && !hub.remove_server("a"));
    assert_eq!(hub.get_all_states().len(), 1);
    hub.connect_one("b", &Ok(())).unwrap();
    hub.disconnect_all();
    assert!(hub.shutdown);
    assert_eq!(hub.servers[0].clients, 0);
}

#[test]
fn test_new_empty() {
    let hub = McpHub::new();
    assert!(hub.servers.is_empty());
}

#[test]
fn the_plain_hub_stops_at_the_first_failure() {
    let mut hub = McpHub::new();
    for n in ["a", "b", "c"] {
        hub.add_server(config(n, false));
    }
    assert_eq!(hub.connect_all(&vec![Ok(()), fail("x")]), fail("x"));
    assert!(hub.servers[0].connected && !hub.servers[1].connected && !hub.servers[2].connected);
    let found = hub.discover_all(&vec![
        Ok(vec![tool("t"), tool("u")]),
        Ok(vec![tool("never")]),
        fail("z").map(|_| vec![]),
    ]);
    assert_eq!(found.len(), 1);
    assert_eq!((found[0].0.as_str(), found[0].1.len()), ("a", 2));
    assert!(!hub.on_discovered(1, &Ok(vec![tool("t")])));
    assert_eq!(hub.register_all(), vec![(0, 0), (0, 1)]);
    assert!(!hub.on_discovered(0, &Err(AgentError::Internal("y".to_string()))));
    assert_eq!(hub.servers[0].state, ConnectionState::Failed("Internal error: y".to_string()));
    assert_eq!(hub.connect_all(&vec![Ok(()), Ok(()), Ok(())]), Ok(()));
    hub.disconnect_all();
    assert!(hub.register_all().is_empty());
    assert_eq!(hub.servers[2].state, ConnectionState::Disconnected);
}

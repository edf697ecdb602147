//! The session registry: idempotent start, cascading stop, rename, tool
//! routing, and index consistency across operation sequences.

use tome::errors::McpError;
use tome::mcp::{get_tools, rename_server, resolve_tool, start, stop, stop_session};
use tome::server::{render_tool_result, ToolContent};
use tome::server::{McpServer, McpTransport, Tool};
use tome::state::State;

fn tool(name: &str) -> Tool {
    Tool {
        name: name.to_string(),
        description: format!("{} description", name),
        input_schema: "{}".to_string(),
    }
}

fn http_server(service: u64, reported: &str, tools: Vec<Tool>) -> McpServer {
    McpServer::new(
        service,
        McpTransport::Http { url: "http://localhost:1234/mcp".to_string(), session_id: None },
        reported.to_string(),
        "{}".to_string(),
        tools,
    )
}

#[test]
fn start_records_server_and_tools() {
    let mut state = State::new();
    start(&mut state, 1, http_server(7, "echo", vec![tool("echo_tool")]));
    let tools = get_tools(&state, 1);
    assert_eq!(tools.len(), 1);
    assert_eq!(tools[0].name, "echo_tool");
    let owner = resolve_tool(&state, 1, &"echo_tool".to_string()).unwrap();
    assert_eq!(owner.name(), "echo");
    assert_eq!(owner.service, 7);
}

#[test]
fn repeated_start_keeps_one_entry() {
    let mut state = State::new();
    start(&mut state, 1, http_server(7, "echo", vec![tool("echo_tool")]));
    start(&mut state, 1, http_server(8, "echo", vec![tool("echo_tool")]));
    let tools = get_tools(&state, 1);
    assert_eq!(tools.len(), 1);
    // The first server is the one kept untouched; the duplicate was discarded.
    let owner = resolve_tool(&state, 1, &"echo_tool".to_string()).unwrap();
    assert_eq!(owner.service, 7);
}

#[test]
fn sessions_are_independent() {
    let mut state = State::new();
    start(&mut state, 1, http_server(1, "alpha", vec![tool("a")]));
    start(&mut state, 2, http_server(2, "beta", vec![tool("b")]));
    assert_eq!(get_tools(&state, 1).len(), 1);
    assert_eq!(get_tools(&state, 2).len(), 1);
    stop_session(&mut state, 1);
    assert_eq!(get_tools(&state, 1).len(), 0);
    assert_eq!(get_tools(&state, 2).len(), 1);
}

#[test]
fn stop_removes_server_and_its_tools() {
    let mut state = State::new();
    start(&mut state, 1, http_server(1, "alpha", vec![tool("a1"), tool("a2")]));
    start(&mut state, 1, http_server(2, "beta", vec![tool("b1")]));
    assert_eq!(get_tools(&state, 1).len(), 3);
    stop(&mut state, 1, &"alpha".to_string());
    let tools = get_tools(&state, 1);
    assert_eq!(tools.len(), 1);
    assert_eq!(tools[0].name, "b1");
    // The removed server's tools resolve to nothing now.
    assert!(resolve_tool(&state, 1, &"a1".to_string()).is_err());
    assert!(resolve_tool(&state, 1, &"b1".to_string()).is_ok());
}

#[test]
fn stop_is_idempotent_on_missing_names() {
    let mut state = State::new();
    start(&mut state, 1, http_server(1, "alpha", vec![tool("a")]));
    stop(&mut state, 1, &"nobody".to_string());
    stop(&mut state, 9, &"alpha".to_string());
    assert_eq!(get_tools(&state, 1).len(), 1);
}

#[test]
fn stop_session_clears_everything() {
    let mut state = State::new();
    start(&mut state, 1, http_server(1, "alpha", vec![tool("a")]));
    start(&mut state, 1, http_server(2, "beta", vec![tool("b")]));
    stop_session(&mut state, 1);
    assert_eq!(get_tools(&state, 1).len(), 0);
    assert!(resolve_tool(&state, 1, &"a".to_string()).is_err());
    // The identifier can be reused afterwards.
    start(&mut state, 1, http_server(3, "gamma", vec![tool("g")]));
    assert_eq!(get_tools(&state, 1).len(), 1);
}

#[test]
fn rename_moves_tools_to_new_name() {
    let mut state = State::new();
    start(&mut state, 1, http_server(1, "alpha", vec![tool("a1"), tool("a2")]));
    rename_server(&mut state, 1, &"alpha".to_string(), "omega".to_string());
    // Tools previously owned by "alpha" dispatch to the server now named "omega".
    let owner = resolve_tool(&state, 1, &"a1".to_string()).unwrap();
    assert_eq!(owner.name(), "omega");
    let owner2 = resolve_tool(&state, 1, &"a2".to_string()).unwrap();
    assert_eq!(owner2.name(), "omega");
    // The old name is gone.
    stop(&mut state, 1, &"alpha".to_string());
    assert_eq!(get_tools(&state, 1).len(), 2);
}

#[test]
fn rename_missing_is_a_no_op() {
    let mut state = State::new();
    start(&mut state, 1, http_server(1, "alpha", vec![tool("a")]));
    rename_server(&mut state, 1, &"nobody".to_string(), "omega".to_string());
    rename_server(&mut state, 5, &"alpha".to_string(), "omega".to_string());
    let owner = resolve_tool(&state, 1, &"a".to_string()).unwrap();
    assert_eq!(owner.name(), "alpha");
}

#[test]
fn tool_index_consistent_after_sequences() {
    let mut state = State::new();
    start(&mut state, 1, http_server(1, "alpha", vec![tool("a")]));
    start(&mut state, 1, http_server(2, "beta", vec![tool("b")]));
    rename_server(&mut state, 1, &"alpha".to_string(), "gamma".to_string());
    stop(&mut state, 1, &"beta".to_string());
    start(&mut state, 1, http_server(3, "delta", vec![tool("d")]));
    // Every tool the session lists resolves to a present server.
    for t in get_tools(&state, 1) {
        let owner = resolve_tool(&state, 1, &t.name).expect("tool must resolve");
        assert!(!owner.name().is_empty());
    }
}

#[test]
fn resolve_tool_reports_lookup_errors() {
    let mut state = State::new();
    match resolve_tool(&state, 3, &"x".to_string()) {
        Err(McpError::UnknownSession { session_id }) => assert_eq!(session_id, 3),
        other => panic!("expected unknown session, got {:?}", other.map(|s| s.service)),
    }
    start(&mut state, 3, http_server(1, "alpha", vec![tool("a")]));
    match resolve_tool(&state, 3, &"missing".to_string()) {
        Err(McpError::UnknownTool { name }) => assert_eq!(name, "missing"),
        other => panic!("expected unknown tool, got {:?}", other.map(|s| s.service)),
    }
}

#[test]
fn pipe_scenario_list_call_stop() {
    // A pipe-based server reporting name "echo" with one advertised tool.
    let mut state = State::new();
    let server = McpServer::new(
        11,
        McpTransport::Stdio { pid: 4_294_000_111 },
        "echo".to_string(),
        "{\"name\":\"echo\"}".to_string(),
        vec![tool("echo_tool")],
    );
    start(&mut state, 1, server);
    let tools = get_tools(&state, 1);
    assert_eq!(tools.len(), 1);
    assert_eq!(tools[0].name, "echo_tool");
    // call_tool dispatches through the index to the owning server ...
    let owner = resolve_tool(&state, 1, &"echo_tool".to_string()).unwrap();
    assert_eq!(owner.name(), "echo");
    // ... whose reply is rendered from its text segments.
    let reply = render_tool_result(&vec![ToolContent::Text("hi".to_string())]);
    assert_eq!(reply, "hi");
    stop_session(&mut state, 1);
    assert_eq!(get_tools(&state, 1).len(), 0);
}

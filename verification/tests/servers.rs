//! Server handles: display names, kill semantics per transport, tool-result
//! rendering; plus deep-link dispatch and the watcher boundary.

use tome::deeplink::{handle, import_app, mcp_install, DeepLink};
use tome::server::{render_tool_result, McpServer, McpTransport, Tool, ToolContent};
use tome::watch::{watch_event_name, FsEventKind};

fn server(custom: Option<&str>) -> McpServer {
    let mut s = McpServer::new(
        1,
        McpTransport::Http { url: "http://h/mcp".to_string(), session_id: None },
        "reported".to_string(),
        "{}".to_string(),
        vec![],
    );
    if let Some(name) = custom {
        s.set_name(name.to_string());
    }
    s
}

#[test]
fn name_falls_back_to_the_handshake() {
    assert_eq!(server(None).name(), "reported");
    assert_eq!(server(Some("override")).name(), "override");
}

#[test]
fn set_name_keeps_everything_else() {
    let mut s = server(None);
    s.set_name("new".to_string());
    assert_eq!(s.name(), "new");
    assert_eq!(s.reported_name, "reported");
    assert_eq!(s.peer_info(), "{}");
    assert_eq!(s.service, 1);
}

#[test]
fn http_kill_is_a_no_op_success() {
    assert!(server(None).kill());
}

#[test]
fn pipe_kill_of_a_gone_process_reports_failure() {
    let s = McpServer::new(
        1,
        McpTransport::Stdio { pid: u32::MAX - 9 },
        "reported".to_string(),
        "{}".to_string(),
        vec![],
    );
    assert!(!s.kill());
}

#[test]
fn tool_duplicate_copies_fields() {
    let t = Tool {
        name: "n".to_string(),
        description: "d".to_string(),
        input_schema: "{}".to_string(),
    };
    let c = t.duplicate();
    assert_eq!(c.name, "n");
    assert_eq!(c.description, "d");
    assert_eq!(c.input_schema, "{}");
}

#[test]
fn tool_result_joins_text_with_newlines() {
    let content = vec![
        ToolContent::Text("first".to_string()),
        ToolContent::Text("second".to_string()),
        ToolContent::Text("third".to_string()),
    ];
    assert_eq!(render_tool_result(&content), "first\nsecond\nthird");
}

#[test]
fn non_text_segments_are_dropped_entirely() {
    // A non-text segment leaves no empty line behind.
    let content = vec![
        ToolContent::Text("a".to_string()),
        ToolContent::Other,
        ToolContent::Text("b".to_string()),
    ];
    assert_eq!(render_tool_result(&content), "a\nb");
    assert_eq!(render_tool_result(&vec![]), "");
    assert_eq!(render_tool_result(&vec![ToolContent::Other]), "");
    assert_eq!(
        render_tool_result(&vec![ToolContent::Other, ToolContent::Text("x".to_string())]),
        "x"
    );
}

#[test]
fn deeplink_notifications() {
    let n = mcp_install("pkg=%7B%7D");
    assert_eq!(n.event, "mcp/install");
    assert_eq!(n.payload, "pkg=%7B%7D");
    let n = import_app("app=%7B%7D");
    assert_eq!(n.event, "apps/import");
}

#[test]
fn deeplink_handle_routes_both_forms() {
    // The well-formed form: scheme://domain/path?query.
    let link = DeepLink {
        full: "tome://apps/import?app=x".to_string(),
        domain: Some("apps".to_string()),
        path: "/import".to_string(),
        query: Some("app=x".to_string()),
    };
    let n = handle(&link).expect("import link dispatches");
    assert_eq!(n.event, "apps/import");
    assert_eq!(n.payload, "app=x");
    // The scheme-only form some installers emit: scheme:action?query.
    let link = DeepLink {
        full: "tome:mcp/install?pkg=y".to_string(),
        domain: None,
        path: "mcp/install".to_string(),
        query: Some("pkg=y".to_string()),
    };
    let n = handle(&link).expect("install link dispatches");
    assert_eq!(n.event, "mcp/install");
    assert_eq!(n.payload, "pkg=y");
}

#[test]
fn deeplink_handle_drops_unknown_or_bare_links() {
    let link = DeepLink {
        full: "tome://other/thing?x=1".to_string(),
        domain: Some("other".to_string()),
        path: "/thing".to_string(),
        query: Some("x=1".to_string()),
    };
    assert!(handle(&link).is_none());
    let link = DeepLink {
        full: "tome:mcp/install".to_string(),
        domain: None,
        path: "mcp/install".to_string(),
        query: None,
    };
    assert!(handle(&link).is_none());
}

#[test]
fn watch_events_map_to_channels() {
    assert_eq!(
        watch_event_name(FsEventKind::Created).as_deref(),
        Some("filesystem/created")
    );
    assert_eq!(
        watch_event_name(FsEventKind::ContentModified).as_deref(),
        Some("filesystem/updated")
    );
    assert!(watch_event_name(FsEventKind::Other).is_none());
}

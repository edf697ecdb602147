//! The HTTP transport's configuration, headers, handshake bodies and status
//! handling, and the proxy helper's types.

use tome::errors::McpError;
use tome::http_transport::{
    apply_session_id, build_http_config, check_status, initialize_request,
    initialized_notification, is_event_stream, parse_transport_kind, post_headers, status_ok,
    stream_headers, HttpTransportConfig, TransportKind,
};
use tome::http_types::{default_method, response_body_allowed, HttpMethod};
use tome::json::parse_http_config;

#[test]
fn config_defaults() {
    let c = HttpTransportConfig::default();
    assert_eq!(c.url, "");
    assert_eq!(c.timeout, 30);
    assert_eq!(c.retries, 3);
    assert!(c.session_id.is_none());
    assert!(c.headers.is_empty());
}

#[test]
fn build_config_requires_a_url() {
    assert!(matches!(
        build_http_config(None, Some(5), None, vec![]),
        Err(McpError::MissingUrl)
    ));
    let c = build_http_config(Some("http://h/mcp".to_string()), None, None, vec![]).unwrap();
    assert_eq!(c.url, "http://h/mcp");
    assert_eq!(c.timeout, 30);
    assert_eq!(c.retries, 3);
    let c = build_http_config(Some("u".to_string()), Some(9), Some(7), vec![]).unwrap();
    assert_eq!(c.timeout, 9);
    assert_eq!(c.retries, 7);
}

#[test]
fn parse_config_reads_the_json_object() {
    let v: serde_json::Value = serde_json::from_str(
        "{\"url\":\"http://h/mcp\",\"timeout\":9,\"retries\":2,\"headers\":{\"Authorization\":\"SECRET-REDACTED\",\"X-N\":7}}",
    )
    .unwrap();
    let c = parse_http_config(&v).unwrap();
    assert_eq!(c.url, "http://h/mcp");
    assert_eq!(c.timeout, 9);
    assert_eq!(c.retries, 2);
    // Only string-valued headers are taken, in object order.
    assert_eq!(c.headers.len(), 1);
    assert_eq!(c.headers[0].0, "Authorization");
    let v: serde_json::Value = serde_json::from_str("{\"timeout\":9}").unwrap();
    assert!(matches!(parse_http_config(&v), Err(McpError::MissingUrl)));
    let v: serde_json::Value = serde_json::from_str("{\"url\":17}").unwrap();
    assert!(matches!(parse_http_config(&v), Err(McpError::MissingUrl)));
}

#[test]
fn session_token_is_recorded_once() {
    let mut c = HttpTransportConfig::default();
    apply_session_id(&mut c, Some("abc123".to_string()));
    assert_eq!(c.session_id.as_deref(), Some("abc123"));
    let mut c2 = HttpTransportConfig::default();
    apply_session_id(&mut c2, None);
    assert!(c2.session_id.is_none());
}

#[test]
fn post_headers_carry_token_and_custom_headers() {
    let mut c = HttpTransportConfig::default();
    c.headers.push(("X-Custom".to_string(), "v".to_string()));
    let h = post_headers(&c);
    assert_eq!(h.len(), 3);
    assert_eq!(h[0], ("Content-Type".to_string(), "application/json".to_string()));
    assert_eq!(
        h[1],
        ("Accept".to_string(), "application/json, text/event-stream".to_string())
    );
    assert_eq!(h[2], ("X-Custom".to_string(), "v".to_string()));
    c.session_id = Some("tok".to_string());
    let h = post_headers(&c);
    assert_eq!(h.len(), 4);
    assert_eq!(h[2], ("Mcp-Session-Id".to_string(), "tok".to_string()));
    assert_eq!(h[3], ("X-Custom".to_string(), "v".to_string()));
}

#[test]
fn stream_headers_ask_for_an_event_stream() {
    let mut c = HttpTransportConfig::default();
    c.session_id = Some("tok".to_string());
    let h = stream_headers(&c);
    assert_eq!(h.len(), 2);
    assert_eq!(h[0], ("Accept".to_string(), "text/event-stream".to_string()));
    assert_eq!(h[1], ("Mcp-Session-Id".to_string(), "tok".to_string()));
}

#[test]
fn status_bounds() {
    assert!(status_ok(200));
    assert!(status_ok(204));
    assert!(status_ok(299));
    assert!(!status_ok(199));
    assert!(!status_ok(300));
    assert!(!status_ok(404));
    assert!(!status_ok(500));
    assert!(check_status(201).is_ok());
    match check_status(503) {
        Err(McpError::HttpStatus { status }) => assert_eq!(status, 503),
        other => panic!("expected a transport error, got {:?}", other),
    }
}

#[test]
fn content_type_detection() {
    assert!(is_event_stream("text/event-stream"));
    assert!(is_event_stream("text/event-stream; charset=utf-8"));
    assert!(!is_event_stream("application/json"));
}

#[test]
fn handshake_bodies_are_exact() {
    let init = initialize_request();
    let v: serde_json::Value = serde_json::from_str(&init).unwrap();
    assert_eq!(v["method"], "initialize");
    assert_eq!(v["params"]["protocolVersion"], "2025-03-26");
    assert_eq!(v["params"]["clientInfo"]["name"], "tome");
    let note = initialized_notification();
    let v: serde_json::Value = serde_json::from_str(&note).unwrap();
    assert_eq!(v["method"], "notifications/initialized");
}

#[test]
fn transport_kinds() {
    assert_eq!(parse_transport_kind("stdio").unwrap(), TransportKind::Stdio);
    assert_eq!(parse_transport_kind("http").unwrap(), TransportKind::Http);
    match parse_transport_kind("carrier-pigeon") {
        Err(McpError::UnsupportedTransport { kind }) => assert_eq!(kind, "carrier-pigeon"),
        other => panic!("expected a configuration error, got {:?}", other),
    }
}

#[test]
fn proxy_method_defaults_to_get() {
    assert_eq!(default_method(), HttpMethod::GET);
    assert!(response_body_allowed(HttpMethod::GET));
    assert!(response_body_allowed(HttpMethod::POST));
    assert!(!response_body_allowed(HttpMethod::HEAD));
}

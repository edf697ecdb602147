//! The HTTP transport's decision logic: its configuration, the headers each
//! exchange carries, the handshake bodies, the one-time session token, and
//! what counts as a transport error. The network exchanges themselves are
//! the unverified host's; it posts and reads exactly what these functions
//! hand it.

use crate::errors::McpError;
use crate::strutil::{seq_contains, str_contains, str_eq};
use vstd::prelude::*;
use vstd::string::StringExecFns;

verus! {

/// How a server is reached: a spawned child on pipes, or an HTTP endpoint.
#[derive(Clone, Copy, Debug, PartialEq, Eq, Structural)]
pub enum TransportKind {
    Stdio,
    Http,
}

/// Which transport a configuration names; anything else is a configuration
/// error, surfaced verbatim.
pub fn parse_transport_kind(kind: &str) -> (r: Result<TransportKind, McpError>)
    ensures
        kind@ == "stdio"@ ==> r == Ok::<TransportKind, McpError>(TransportKind::Stdio),
        kind@ == "http"@ ==> r == Ok::<TransportKind, McpError>(TransportKind::Http),
        kind@ != "stdio"@ && kind@ != "http"@ ==> (match r {
            Err(McpError::UnsupportedTransport { kind: k }) => k@ == kind@,
            _ => false,
        }),
{
    proof {
        reveal_strlit("stdio");
        reveal_strlit("http");
        assert("stdio"@ != "http"@) by {
            assert("stdio"@.len() == 5);
            assert("http"@.len() == 4);
        }
    }
    if str_eq(kind, "stdio") {
        Ok(TransportKind::Stdio)
    } else if str_eq(kind, "http") {
        Ok(TransportKind::Http)
    } else {
        Err(McpError::UnsupportedTransport { kind: String::from_str(kind) })
    }
}

/// An HTTP transport's configuration. Immutable once the server is up,
/// except the session token, which the handshake sets exactly once.
/// The timeout is in seconds.
#[derive(Clone, Debug)]
pub struct HttpTransportConfig {
    pub url: String,
    pub timeout: u64,
    pub retries: u32,
    pub session_id: Option<String>,
    pub headers: Vec<(String, String)>,
}

impl Default for HttpTransportConfig {
    /// An empty endpoint with the default timeout and retry budget.
    fn default() -> (r: HttpTransportConfig)
        ensures
            r.url@ == Seq::<char>::empty(),
            r.timeout == 30,
            r.retries == 3,
            r.session_id is None,
            r.headers@ == Seq::<(String, String)>::empty(),
    {
        HttpTransportConfig {
            url: String::new(),
            timeout: 30,
            retries: 3,
            session_id: None,
            headers: Vec::new(),
        }
    }
}

/// Assemble an HTTP transport configuration from the fields a configuration
/// object carried: the URL is required, the timeout defaults to 30 seconds,
/// the retry budget to 3, and the session token starts unset.
pub fn build_http_config(
    url: Option<String>,
    timeout: Option<u64>,
    retries: Option<u64>,
    headers: Vec<(String, String)>,
) -> (r: Result<HttpTransportConfig, McpError>)
    ensures
        (r is Ok) == (url is Some),
        (match r {
            Ok(c) => {
                &&& url matches Some(u) && c.url == u
                &&& c.timeout == (match timeout {
                    Some(t) => t,
                    None => 30u64,
                })
                &&& c.retries == (match retries {
                    Some(x) => x as u32,
                    None => 3u32,
                })
                &&& c.session_id is None
                &&& c.headers@ == headers@
            },
            Err(e) => e is MissingUrl,
        }),
{
    let url = match url {
        Some(u) => u,
        None => {
            return Err(McpError::MissingUrl);
        },
    };
    let timeout = match timeout {
        Some(t) => t,
        None => 30,
    };
    let retries = match retries {
        Some(x) => x as u32,
        None => 3,
    };
    Ok(HttpTransportConfig { url, timeout, retries, session_id: None, headers })
}

/// Record the session token the initialize response carried, exactly once:
/// the token can only be set while none is set. A server that sent no token
/// is sessionless and stays that way.
pub fn apply_session_id(config: &mut HttpTransportConfig, header: Option<String>)
    requires
        old(config).session_id is None,
    ensures
        *final(config) == (HttpTransportConfig { session_id: header, ..*old(config) }),
{
    config.session_id = header;
}

/// Whether an HTTP status is success; anything else is a transport error.
pub fn status_ok(status: u16) -> (r: bool)
    ensures
        r == (200 <= status < 300),
{
    200 <= status && status < 300
}

/// Refuse a non-success status as a transport error, verbatim.
pub fn check_status(status: u16) -> (r: Result<(), McpError>)
    ensures
        (200 <= status < 300) ==> r is Ok,
        !(200 <= status < 300) ==> (match r {
            Err(McpError::HttpStatus { status: s }) => s == status,
            _ => false,
        }),
{
    if status_ok(status) {
        Ok(())
    } else {
        Err(McpError::HttpStatus { status })
    }
}

/// Whether a response's content type announces an event stream rather than a
/// single JSON body.
pub fn is_event_stream(content_type: &str) -> (r: bool)
    ensures
        r == seq_contains(content_type@, "text/event-stream"@),
{
    str_contains(content_type, "text/event-stream")
}

/// The headers every outbound POST carries: the JSON content type, the
/// accept line for both response shapes, the session token where one is
/// set, then the configured headers in order.
pub fn post_headers(config: &HttpTransportConfig) -> (r: Vec<(String, String)>)
    ensures
        config.session_id matches Some(sid) ==> {
            &&& r@.len() == 3 + config.headers@.len()
            &&& r@[2].0@ == "Mcp-Session-Id"@ && r@[2].1 == sid
            &&& forall|i: int|
                0 <= i < config.headers@.len() ==> r@[3 + i] == config.headers@[i]
        },
        config.session_id is None ==> {
            &&& r@.len() == 2 + config.headers@.len()
            &&& forall|i: int|
                0 <= i < config.headers@.len() ==> r@[2 + i] == config.headers@[i]
        },
        r@[0].0@ == "Content-Type"@ && r@[0].1@ == "application/json"@,
        r@[1].0@ == "Accept"@ && r@[1].1@ == "application/json, text/event-stream"@,
{
    let mut r: Vec<(String, String)> = Vec::new();
    r.push((String::from_str("Content-Type"), String::from_str("application/json")));
    r.push((String::from_str("Accept"), String::from_str("application/json, text/event-stream")));
    if let Some(sid) = &config.session_id {
        r.push((String::from_str("Mcp-Session-Id"), sid.clone()));
    }
    let ghost base = r@;
    let n = config.headers.len();
    let mut i: usize = 0;
    while i < n
        invariant
            i <= n,
            n == config.headers@.len(),
            r@.len() == base.len() + i,
            forall|j: int| 0 <= j < base.len() ==> r@[j] == base[j],
            forall|j: int| 0 <= j < i ==> r@[base.len() + j] == config.headers@[j],
            base[0].0@ == "Content-Type"@ && base[0].1@ == "application/json"@,
            base[1].0@ == "Accept"@ && base[1].1@ == "application/json, text/event-stream"@,
            config.session_id matches Some(sid) ==> base.len() == 3 && base[2].0@
                == "Mcp-Session-Id"@ && base[2].1 == sid,
            config.session_id is None ==> base.len() == 2,
        decreases n - i,
    {
        r.push((config.headers[i].0.clone(), config.headers[i].1.clone()));
        i += 1;
    }
    r
}

/// The headers the long-lived inbound GET carries: the event-stream accept
/// line, the session token where one is set, then the configured headers.
pub fn stream_headers(config: &HttpTransportConfig) -> (r: Vec<(String, String)>)
    ensures
        config.session_id matches Some(sid) ==> {
            &&& r@.len() == 2 + config.headers@.len()
            &&& r@[1].0@ == "Mcp-Session-Id"@ && r@[1].1 == sid
            &&& forall|i: int|
                0 <= i < config.headers@.len() ==> r@[2 + i] == config.headers@[i]
        },
        config.session_id is None ==> {
            &&& r@.len() == 1 + config.headers@.len()
            &&& forall|i: int|
                0 <= i < config.headers@.len() ==> r@[1 + i] == config.headers@[i]
        },
        r@[0].0@ == "Accept"@ && r@[0].1@ == "text/event-stream"@,
{
    let mut r: Vec<(String, String)> = Vec::new();
    r.push((String::from_str("Accept"), String::from_str("text/event-stream")));
    if let Some(sid) = &config.session_id {
        r.push((String::from_str("Mcp-Session-Id"), sid.clone()));
    }
    let ghost base = r@;
    let n = config.headers.len();
    let mut i: usize = 0;
    while i < n
        invariant
            i <= n,
            n == config.headers@.len(),
            r@.len() == base.len() + i,
            forall|j: int| 0 <= j < base.len() ==> r@[j] == base[j],
            forall|j: int| 0 <= j < i ==> r@[base.len() + j] == config.headers@[j],
            base[0].0@ == "Accept"@ && base[0].1@ == "text/event-stream"@,
            config.session_id matches Some(sid) ==> base.len() == 2 && base[1].0@
                == "Mcp-Session-Id"@ && base[1].1 == sid,
            config.session_id is None ==> base.len() == 1,
        decreases n - i,
    {
        r.push((config.headers[i].0.clone(), config.headers[i].1.clone()));
        i += 1;
    }
    r
}

/// The initialize request the handshake opens with: protocol version,
/// capability negotiation and this client's identity, as one JSON body.
pub fn initialize_request() -> (r: String)
    ensures
        r@
            == "{\"jsonrpc\":\"2.0\",\"id\":1,\"method\":\"initialize\",\"params\":{\"protocolVersion\":\"2025-03-26\",\"capabilities\":{\"tools\":{}},\"clientInfo\":{\"name\":\"tome\",\"version\":\"0.9.0\"}}}"@,
{
    String::from_str(
        "{\"jsonrpc\":\"2.0\",\"id\":1,\"method\":\"initialize\",\"params\":{\"protocolVersion\":\"2025-03-26\",\"capabilities\":{\"tools\":{}},\"clientInfo\":{\"name\":\"tome\",\"version\":\"0.9.0\"}}}",
    )
}

/// The notification that closes the handshake once the session token is
/// recorded.
pub fn initialized_notification() -> (r: String)
    ensures
        r@ == "{\"jsonrpc\":\"2.0\",\"method\":\"notifications/initialized\"}"@,
{
    String::from_str("{\"jsonrpc\":\"2.0\",\"method\":\"notifications/initialized\"}")
}

} // verus!

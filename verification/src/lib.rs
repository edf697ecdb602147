//! Supervisor for MCP servers: a session registry that owns running servers,
//! maps tool names to their owning server, and enforces idempotent start,
//! safe rename and cascading stop; together with the process-tree bookkeeping,
//! launcher-command resolution, HTTP event-stream framing and deep-link
//! dispatch that the supervisor is built on.

pub mod deeplink;
pub mod errors;
pub mod http_transport;
pub mod http_types;
pub mod ikv;
pub mod json;
pub mod kv;
pub mod mcp;
pub mod process;
pub mod server;
pub mod sse;
pub mod state;
pub mod strutil;
pub mod watch;

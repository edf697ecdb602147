//! The supervisor's error taxonomy. Configuration and lookup failures are
//! surfaced by value; best-effort cleanup never raises one.

use vstd::prelude::*;

verus! {

/// Why a supervisor operation was refused.
#[derive(Debug)]
pub enum McpError {
    /// The configured launcher command is not one the supervisor knows.
    UnsupportedCommand { command: String },
    /// The command exists but not for the platform the supervisor runs on.
    UnsupportedPlatform { command: String },
    /// The transport kind is neither pipe nor HTTP.
    UnsupportedTransport { kind: String },
    /// An HTTP transport was configured without a URL.
    MissingUrl,
    /// An HTTP exchange answered with a non-success status.
    HttpStatus { status: u16 },
    /// No running session carries this identifier.
    UnknownSession { session_id: i32 },
    /// No server in the session advertises this tool.
    UnknownTool { name: String },
}

} // verus!

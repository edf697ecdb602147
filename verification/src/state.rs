//! The supervisor's in-memory state: per session, the map from display name
//! to running server and the derived index from tool name to owning server.
//!
//! Both maps are stored as association lists with distinct keys; contracts
//! speak of the finite maps they denote. The well-formedness invariant ties
//! the two together: every server sits under its own display name, and every
//! tool-index entry points at a server that is present.

use crate::ikv::{ikv_map, ikv_unique};
use crate::kv::{skv_map, skv_unique};
use crate::server::McpServer;
use vstd::prelude::*;

verus! {

/// The servers of one session, keyed by display name, with the session's
/// tool index: tool name to owning server's display name.
pub struct RunningSession {
    pub mcp_servers: Vec<(String, McpServer)>,
    pub tools: Vec<(String, String)>,
}

impl RunningSession {
    /// Display name to server.
    pub open spec fn servers(self) -> Map<Seq<char>, McpServer> {
        skv_map(self.mcp_servers@)
    }

    /// Tool name to owning server's display name.
    pub open spec fn tool_index(self) -> Map<Seq<char>, String> {
        skv_map(self.tools@)
    }

    /// Keys are distinct, every server sits under its own display name, and
    /// every tool-index entry points at a present server.
    pub open spec fn wf(self) -> bool {
        &&& skv_unique(self.mcp_servers@)
        &&& skv_unique(self.tools@)
        &&& forall|n: Seq<char>|
            #[trigger] self.servers().dom().contains(n) ==> self.servers()[n].spec_name() == n
        &&& forall|t: Seq<char>|
            #[trigger] self.tool_index().dom().contains(t) ==> self.servers().dom().contains(
                self.tool_index()[t]@,
            )
    }

    /// A session with no servers and no tools.
    pub fn empty() -> (r: RunningSession)
        ensures
            r.servers() =~= Map::<Seq<char>, McpServer>::empty(),
            r.tool_index() =~= Map::<Seq<char>, String>::empty(),
            r.wf(),
            r.mcp_servers@ == Seq::<(String, McpServer)>::empty(),
    {
        RunningSession { mcp_servers: Vec::new(), tools: Vec::new() }
    }
}

impl Default for RunningSession {
    /// Same as `empty`: a session with no servers and no tools.
    fn default() -> (r: RunningSession)
        ensures
            r.servers() =~= Map::<Seq<char>, McpServer>::empty(),
            r.tool_index() =~= Map::<Seq<char>, String>::empty(),
            r.wf(),
            r.mcp_servers@ == Seq::<(String, McpServer)>::empty(),
    {
        RunningSession::empty()
    }
}

/// Every running session, keyed by the caller-supplied session identifier.
pub struct State {
    pub sessions: Vec<(i32, RunningSession)>,
}

impl State {
    /// Session identifier to running session.
    pub open spec fn sessions_map(self) -> Map<i32, RunningSession> {
        ikv_map(self.sessions@)
    }

    /// The identifier names a running session.
    pub open spec fn has_session(self, session_id: i32) -> bool {
        self.sessions_map().dom().contains(session_id)
    }

    /// The named session's server map; an absent session reads as empty.
    pub open spec fn spec_servers(self, session_id: i32) -> Map<Seq<char>, McpServer> {
        if self.has_session(session_id) {
            self.sessions_map()[session_id].servers()
        } else {
            Map::empty()
        }
    }

    /// The named session's tool index; an absent session reads as empty.
    pub open spec fn spec_tool_index(self, session_id: i32) -> Map<Seq<char>, String> {
        if self.has_session(session_id) {
            self.sessions_map()[session_id].tool_index()
        } else {
            Map::empty()
        }
    }

    /// Identifiers are distinct and every session is well-formed.
    pub open spec fn wf(self) -> bool {
        &&& ikv_unique(self.sessions@)
        &&& forall|id: i32|
            #[trigger] self.sessions_map().dom().contains(id) ==> self.sessions_map()[id].wf()
    }

    /// A registry with no sessions at all.
    pub fn new() -> (r: State)
        ensures
            r.sessions_map() =~= Map::<i32, RunningSession>::empty(),
            r.wf(),
    {
        State { sessions: Vec::new() }
    }
}

impl Default for State {
    /// Same as `new`: a registry with no sessions at all.
    fn default() -> (r: State)
        ensures
            r.sessions_map() =~= Map::<i32, RunningSession>::empty(),
            r.wf(),
    {
        State::new()
    }
}

} // verus!

//! One running MCP server: its transport, its names, its tool catalog, and
//! how a tool call's content segments are rendered into the reply text.
//!
//! The live protocol session (the pipe or HTTP connection and its background
//! read loop) is owned by the unverified host around this library; a
//! `McpServer` value carries the key the host files that session under, plus
//! everything the supervisor itself decides over.

use crate::process::Process;
use crate::strutil::{seq_contains, str_contains};
use vstd::prelude::*;
use vstd::string::StringExecFns;

verus! {

/// A tool advertised by a server: name, human description, and the JSON
/// schema of its arguments, carried verbatim.
#[derive(Clone, Debug)]
pub struct Tool {
    pub name: String,
    pub description: String,
    pub input_schema: String,
}

impl Tool {
    /// A field-for-field copy, provably equal to the value it copies.
    pub fn duplicate(&self) -> (r: Tool)
        ensures
            r == *self,
    {
        Tool {
            name: self.name.clone(),
            description: self.description.clone(),
            input_schema: self.input_schema.clone(),
        }
    }
}

/// One content segment of a tool-call reply. Only text segments carry
/// anything this supervisor renders; every other kind is dropped.
#[derive(Clone, Debug)]
pub enum ToolContent {
    Text(String),
    Other,
}

/// The texts of the text segments, in order; every other segment is dropped
/// entirely and contributes no part.
pub open spec fn text_segments(content: Seq<ToolContent>) -> Seq<Seq<char>>
    decreases content.len(),
{
    if content.len() == 0 {
        Seq::empty()
    } else {
        text_segments(content.drop_last()) + (match content.last() {
            ToolContent::Text(t) => seq![t@],
            ToolContent::Other => Seq::<Seq<char>>::empty(),
        })
    }
}

/// The parts joined with single newlines, in order.
pub open spec fn spec_join_lines(parts: Seq<Seq<char>>) -> Seq<char>
    decreases parts.len(),
{
    if parts.len() == 0 {
        Seq::empty()
    } else if parts.len() == 1 {
        parts[0]
    } else {
        spec_join_lines(parts.drop_last()) + seq!['\n'] + parts.last()
    }
}

/// Render a tool call's content segments: the text segments verbatim, joined
/// with newlines; non-text segments are dropped entirely and leave no
/// separator behind.
pub fn render_tool_result(content: &Vec<ToolContent>) -> (r: String)
    ensures
        r@ == spec_join_lines(text_segments(content@)),
{
    let mut acc = String::new();
    let mut emitted = false;
    let n = content.len();
    let mut i: usize = 0;
    proof {
        assert(content@.subrange(0, 0) =~= Seq::<ToolContent>::empty());
    }
    while i < n
        invariant
            i <= n,
            n == content@.len(),
            acc@ == spec_join_lines(text_segments(content@.subrange(0, i as int))),
            emitted == (text_segments(content@.subrange(0, i as int)).len() > 0),
        decreases n - i,
    {
        let ghost prefix = content@.subrange(0, i as int);
        proof {
            assert(content@.subrange(0, i + 1).drop_last() =~= prefix);
            assert(content@.subrange(0, i + 1).last() == content@[i as int]);
        }
        match &content[i] {
            ToolContent::Text(t) => {
                proof {
                    assert(text_segments(content@.subrange(0, i + 1)) =~= text_segments(
                        prefix,
                    ).push(t@));
                    assert(text_segments(prefix).push(t@).drop_last() =~= text_segments(prefix));
                    assert(text_segments(prefix).push(t@).last() == t@);
                }
                if emitted {
                    acc.append("\n");
                    proof {
                        reveal_strlit("\n");
                        assert("\n"@ =~= seq!['\n']);
                    }
                } else {
                    proof {
                        assert(spec_join_lines(text_segments(prefix).push(t@)) == t@);
                        assert(acc@ =~= Seq::<char>::empty());
                    }
                }
                acc.append(t.as_str());
                emitted = true;
            },
            ToolContent::Other => {
                proof {
                    assert(text_segments(content@.subrange(0, i + 1)) =~= text_segments(prefix));
                }
            },
        }
        i += 1;
    }
    proof {
        assert(content@.subrange(0, n as int) =~= content@);
    }
    acc
}

/// The wire a server is reached over: a spawned child process driven through
/// its standard pipes, or an HTTP endpoint with an optional session token.
#[derive(Clone, Debug)]
pub enum McpTransport {
    Stdio { pid: u32 },
    Http { url: String, session_id: Option<String> },
}

/// A running MCP server as the supervisor sees it. `service` is the key the
/// unverified host files the live protocol session under.
#[derive(Clone, Debug)]
pub struct McpServer {
    pub service: u64,
    pub transport: McpTransport,
    pub custom_name: Option<String>,
    pub reported_name: String,
    pub peer_info: String,
    pub tools: Vec<Tool>,
}

impl McpServer {
    /// The display name: the override if one was set, else the name the
    /// server reported in its handshake.
    pub open spec fn spec_name(self) -> Seq<char> {
        self.spec_name_val()@
    }

    /// The same name as the `String` value `name` hands back.
    pub open spec fn spec_name_val(self) -> String {
        match self.custom_name {
            Some(n) => n,
            None => self.reported_name,
        }
    }

    /// A server fresh from a successful handshake, not yet renamed.
    pub fn new(
        service: u64,
        transport: McpTransport,
        reported_name: String,
        peer_info: String,
        tools: Vec<Tool>,
    ) -> (r: McpServer)
        ensures
            r == (McpServer {
                service,
                transport,
                custom_name: None,
                reported_name,
                peer_info,
                tools,
            }),
    {
        McpServer { service, transport, custom_name: None, reported_name, peer_info, tools }
    }

    /// The current display name.
    pub fn name(&self) -> (r: String)
        ensures
            r == self.spec_name_val(),
            r@ == self.spec_name(),
    {
        match &self.custom_name {
            Some(n) => n.clone(),
            None => self.reported_name.clone(),
        }
    }

    /// Override the display name; everything else is kept.
    pub fn set_name(&mut self, new_name: String)
        ensures
            *final(self) == (McpServer { custom_name: Some(new_name), ..*old(self) }),
    {
        self.custom_name = Some(new_name);
    }

    /// The raw handshake metadata, for display and diagnostics.
    pub fn peer_info(&self) -> (r: &String)
        ensures
            r@ == self.peer_info@,
    {
        &self.peer_info
    }

    /// The tool catalog the server advertised at handshake time.
    pub fn tools(&self) -> (r: &Vec<Tool>)
        ensures
            r@ == self.tools@,
    {
        &self.tools
    }

    /// Terminate the server: for a piped child, kill its whole process tree;
    /// for HTTP there is no process to signal, so this is a no-op success —
    /// dropping the connection is all the termination there is.
    pub fn kill(&self) -> (r: bool)
        ensures
            self.transport is Http ==> r,
    {
        match &self.transport {
            McpTransport::Stdio { pid } => {
                match Process::find(*pid) {
                    Some(p) => p.kill(),
                    None => false,
                }
            },
            McpTransport::Http { .. } => true,
        }
    }
}

/// Arguments as the launcher wants them: a package-runner (`npx`) launch gets
/// the non-interactive flag prepended; anything else runs unchanged.
pub fn prepare_stdio_args(command: &str, args: Vec<String>) -> (r: Vec<String>)
    ensures
        seq_contains(command@, "npx"@) ==> r@.len() == args@.len() + 1 && r@[0]@ == "-y"@
            && r@.subrange(1, r@.len() as int) == args@,
        !seq_contains(command@, "npx"@) ==> r@ == args@,
{
    if str_contains(command, "npx") {
        let mut out = args;
        out.insert(0, String::from_str("-y"));
        proof {
            assert(out@.subrange(1, out@.len() as int) =~= args@);
        }
        out
    } else {
        args
    }
}

} // verus!

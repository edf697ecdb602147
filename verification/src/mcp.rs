//! The supervisor operations: resolving launcher commands, starting and
//! stopping servers inside sessions, listing tools, routing tool calls, and
//! renaming servers. Every operation keeps the registry invariant: the tool
//! index never points at a server that is not present.

use crate::errors::McpError;
use crate::ikv::{ikv_get, ikv_remove, ikv_set};
use crate::kv::{
    skv_contains, skv_get, skv_map, skv_purge_value, skv_purge_values, skv_remove, skv_rename_value,
    skv_rename_values, skv_set, skv_unique,
};
use crate::server::{McpServer, Tool};
use crate::state::{RunningSession, State};
use crate::strutil::{seq_contains, str_contains, str_eq};
use vstd::prelude::*;
use vstd::string::StringExecFns;

verus! {

/// The platform the supervisor runs on; it decides which launcher binary a
/// configured command resolves to.
#[derive(Clone, Copy, Debug, PartialEq, Eq, Structural)]
pub enum Os {
    Windows,
    MacOs,
    Linux,
}

/// A launcher resolved for the platform. A user-installed program is run
/// from the path the user gave; anything else is resolved inside the
/// application's own resource directory by the host.
#[derive(Clone, Debug)]
pub struct ResolvedCommand {
    pub program: String,
    pub user_installed: bool,
}

/// Commands the user installs themselves rather than the application shipping
/// them.
pub open spec fn is_user_installed_command(c: Seq<char>) -> bool {
    seq_contains(c, "imcp-server"@) || seq_contains(c, "Tinderbox"@)
}

/// Commands the supervisor knows how to launch at all.
pub open spec fn known_launcher(c: Seq<char>) -> bool {
    ||| c == "python"@
    ||| c == "uvx"@
    ||| c == "node"@
    ||| c == "npx"@
    ||| c == "bunx"@
    ||| is_user_installed_command(c)
}

/// Whether resolution succeeds for this command on this platform.
pub open spec fn resolve_ok(c: Seq<char>, os: Os) -> bool {
    if c == "python"@ {
        !(os is Windows)
    } else if c == "uvx"@ || c == "node"@ || c == "npx"@ || c == "bunx"@ {
        true
    } else if is_user_installed_command(c) {
        os is MacOs
    } else {
        false
    }
}

/// The program a successful resolution names.
pub open spec fn resolved_program(c: Seq<char>, os: Os) -> Seq<char> {
    if c == "python"@ {
        "python"@
    } else if c == "uvx"@ {
        if os is Windows {
            "uvx.exe"@
        } else {
            "uvx"@
        }
    } else if c == "node"@ {
        if os is Windows {
            "node.cmd"@
        } else {
            "node"@
        }
    } else if c == "npx"@ {
        if os is Windows {
            "npx.cmd"@
        } else {
            "npx"@
        }
    } else if c == "bunx"@ {
        if os is Windows {
            "bunx.cmd"@
        } else {
            "bunx"@
        }
    } else {
        c
    }
}

/// Map a configured command to what must actually run on this platform.
/// An unsupported command is a configuration error, never a crash.
pub fn get_os_specific_command(command: &str, os: Os) -> (r: Result<ResolvedCommand, McpError>)
    ensures
        (r is Ok) == resolve_ok(command@, os),
        (match r {
            Ok(rc) => rc.program@ == resolved_program(command@, os) && rc.user_installed
                == is_user_installed_command(command@),
            Err(McpError::UnsupportedPlatform { command: c }) => c@ == command@ && known_launcher(
                command@,
            ),
            Err(McpError::UnsupportedCommand { command: c }) => c@ == command@ && !known_launcher(
                command@,
            ),
            Err(_) => false,
        }),
{
    let user_installed = str_contains(command, "imcp-server") || str_contains(
        command,
        "Tinderbox",
    );
    if str_eq(command, "python") {
        if let Os::Windows = os {
            Err(McpError::UnsupportedPlatform { command: String::from_str(command) })
        } else {
            Ok(ResolvedCommand { program: String::from_str("python"), user_installed })
        }
    } else if str_eq(command, "uvx") {
        let program = if let Os::Windows = os {
            String::from_str("uvx.exe")
        } else {
            String::from_str("uvx")
        };
        Ok(ResolvedCommand { program, user_installed })
    } else if str_eq(command, "node") {
        let program = if let Os::Windows = os {
            String::from_str("node.cmd")
        } else {
            String::from_str("node")
        };
        Ok(ResolvedCommand { program, user_installed })
    } else if str_eq(command, "npx") {
        let program = if let Os::Windows = os {
            String::from_str("npx.cmd")
        } else {
            String::from_str("npx")
        };
        Ok(ResolvedCommand { program, user_installed })
    } else if str_eq(command, "bunx") {
        let program = if let Os::Windows = os {
            String::from_str("bunx.cmd")
        } else {
            String::from_str("bunx")
        };
        Ok(ResolvedCommand { program, user_installed })
    } else if user_installed {
        if let Os::MacOs = os {
            Ok(ResolvedCommand { program: String::from_str(command), user_installed })
        } else {
            Err(McpError::UnsupportedPlatform { command: String::from_str(command) })
        }
    } else {
        Err(McpError::UnsupportedCommand { command: String::from_str(command) })
    }
}

/// The two interpreter launchers a fresh installation is probed for. The
/// caller runs each with a harmless help flag; a failure there is logged by
/// the caller, never fatal.
pub fn bootstrap(os: Os) -> (r: (ResolvedCommand, ResolvedCommand))
    ensures
        r.0.program@ == resolved_program("uvx"@, os),
        r.1.program@ == resolved_program("npx"@, os),
{
    proof {
        reveal_strlit("python");
        reveal_strlit("uvx");
        reveal_strlit("node");
        reveal_strlit("npx");
        assert("uvx"@ != "python"@) by {
            assert("uvx"@.len() == 3);
            assert("python"@.len() == 6);
        }
        assert("npx"@ != "python"@) by {
            assert("npx"@.len() == 3);
            assert("python"@.len() == 6);
        }
        assert("npx"@ != "uvx"@) by {
            assert("npx"@[0] != "uvx"@[0]);
        }
        assert("npx"@ != "node"@) by {
            assert("npx"@.len() == 3);
            assert("node"@.len() == 4);
        }
        assert(resolve_ok("uvx"@, os));
        assert(resolve_ok("npx"@, os));
    }
    let uvx = match get_os_specific_command("uvx", os) {
        Ok(rc) => rc,
        Err(_) => {
            proof {
                assert(false);
            }
            ResolvedCommand { program: String::new(), user_installed: false }
        },
    };
    let npx = match get_os_specific_command("npx", os) {
        Ok(rc) => rc,
        Err(_) => {
            proof {
                assert(false);
            }
            ResolvedCommand { program: String::new(), user_installed: false }
        },
    };
    (uvx, npx)
}

/// The tool index after a server's catalog is recorded under `owner`'s name.
pub open spec fn index_with_tools(
    idx: Map<Seq<char>, String>,
    tools: Seq<Tool>,
    owner: String,
) -> Map<Seq<char>, String>
    decreases tools.len(),
{
    if tools.len() == 0 {
        idx
    } else {
        index_with_tools(idx, tools.drop_last(), owner).insert(tools.last().name@, owner)
    }
}

/// Recording a catalog only adds entries owned by `owner` and keeps or
/// overwrites old ones; nothing else changes.
pub proof fn lemma_index_with_tools(
    idx: Map<Seq<char>, String>,
    tools: Seq<Tool>,
    owner: String,
)
    ensures
        forall|t: Seq<char>|
            #[trigger] index_with_tools(idx, tools, owner).dom().contains(t) ==> idx.dom().contains(
                t,
            ) || exists|i: int| 0 <= i < tools.len() && tools[i].name@ == t,
        forall|t: Seq<char>|
            #[trigger] index_with_tools(idx, tools, owner).dom().contains(t)
                ==> index_with_tools(idx, tools, owner)[t] == owner || (idx.dom().contains(t)
                && index_with_tools(idx, tools, owner)[t] == idx[t]),
        forall|t: Seq<char>|
            #[trigger] idx.dom().contains(t) ==> index_with_tools(idx, tools, owner).dom().contains(
                t,
            ),
    decreases tools.len(),
{
    if tools.len() == 0 {
    } else {
        lemma_index_with_tools(idx, tools.drop_last(), owner);
        assert(forall|i: int|
            0 <= i < tools.len() - 1 ==> tools.drop_last()[i] == tools[i]);
        assert(tools[tools.len() - 1] == tools.last());
        let inner = index_with_tools(idx, tools.drop_last(), owner);
        let outer = index_with_tools(idx, tools, owner);
        assert(outer =~= inner.insert(tools.last().name@, owner));
        assert forall|t: Seq<char>| #[trigger] outer.dom().contains(t) implies idx.dom().contains(
            t,
        ) || exists|i: int| 0 <= i < tools.len() && tools[i].name@ == t by {
            if t == tools.last().name@ {
                assert(tools[tools.len() - 1].name@ == t);
            } else {
                assert(inner.dom().contains(t));
                if !idx.dom().contains(t) {
                    let i = choose|i: int| 0 <= i < tools.drop_last().len() && tools.drop_last()[i].name@
                        == t;
                    assert(tools[i].name@ == t);
                }
            }
        }
        assert forall|t: Seq<char>| #[trigger] outer.dom().contains(t) implies outer[t] == owner
            || (idx.dom().contains(t) && outer[t] == idx[t]) by {
            if t == tools.last().name@ {
            } else {
                assert(inner.dom().contains(t));
            }
        }
    }
}

/// Start a server inside a session. The server was already spawned and has
/// finished its handshake — its reported name is only knowable then. If the
/// session already runs a server under that name, the newcomer is killed and
/// discarded and the session is left exactly as it was: repeated starts of
/// the same configuration are idempotent. Otherwise the server is recorded
/// under its name and each of its tools is indexed to it.
pub fn start(state: &mut State, session_id: i32, server: McpServer)
    requires
        old(state).wf(),
    ensures
        final(state).wf(),
        old(state).spec_servers(session_id).dom().contains(server.spec_name())
            ==> final(state).sessions_map() =~= old(state).sessions_map(),
        !old(state).spec_servers(session_id).dom().contains(server.spec_name()) ==> {
            &&& final(state).has_session(session_id)
            &&& final(state).spec_servers(session_id) =~= old(state).spec_servers(
                session_id,
            ).insert(server.spec_name(), server)
            &&& final(state).spec_tool_index(session_id) =~= index_with_tools(
                old(state).spec_tool_index(session_id),
                server.tools@,
                server.spec_name_val(),
            )
            &&& final(state).sessions_map().remove(session_id) =~= old(state).sessions_map().remove(
                session_id,
            )
        },
{
    let ghost old_map = state.sessions_map();
    let name = server.name();
    let mut session = match ikv_remove(&mut state.sessions, session_id) {
        Some(s) => s,
        None => RunningSession::empty(),
    };
    let ghost sess0 = session;
    if skv_contains(&session.mcp_servers, name.as_str()) {
        let _ = server.kill();
        ikv_set(&mut state.sessions, session_id, session);
        proof {
            assert(old_map.dom().contains(session_id));
            assert(state.sessions_map() =~= old_map);
        }
        return;
    }
    let ghost idx0 = session.tool_index();
    let n = server.tools.len();
    let mut i: usize = 0;
    while i < n
        invariant
            i <= n,
            n == server.tools@.len(),
            session.mcp_servers@ == sess0.mcp_servers@,
            skv_unique(session.tools@),
            skv_map(session.tools@) =~= index_with_tools(
                idx0,
                server.tools@.subrange(0, i as int),
                server.spec_name_val(),
            ),
            name == server.spec_name_val(),
        decreases n - i,
    {
        proof {
            assert(server.tools@.subrange(0, i + 1).drop_last() =~= server.tools@.subrange(
                0,
                i as int,
            ));
            assert(server.tools@.subrange(0, i + 1).last() == server.tools@[i as int]);
        }
        let tool_name = server.tools[i].name.clone();
        skv_set(&mut session.tools, tool_name, name.clone());
        i += 1;
    }
    proof {
        assert(server.tools@.subrange(0, n as int) =~= server.tools@);
    }
    skv_set(&mut session.mcp_servers, name, server);
    let ghost new_sess = session;
    ikv_set(&mut state.sessions, session_id, session);
    proof {
        lemma_index_with_tools(idx0, server.tools@, server.spec_name_val());
        assert(new_sess.wf()) by {
            assert(new_sess.servers() =~= sess0.servers().insert(server.spec_name(), server));
            assert forall|t: Seq<char>| #[trigger] new_sess.tool_index().dom().contains(t)
                implies new_sess.servers().dom().contains(new_sess.tool_index()[t]@) by {
                if new_sess.tool_index()[t] == server.spec_name_val() {
                } else {
                    assert(idx0.dom().contains(t) && new_sess.tool_index()[t] == idx0[t]);
                    assert(sess0.wf());
                }
            }
        }
        assert(state.sessions_map() =~= old_map.remove(session_id).insert(session_id, new_sess));
        assert(state.spec_servers(session_id) =~= old(state).spec_servers(session_id).insert(
            server.spec_name(),
            server,
        ));
        assert(state.spec_tool_index(session_id) =~= index_with_tools(
            old(state).spec_tool_index(session_id),
            server.tools@,
            server.spec_name_val(),
        ));
        assert(state.sessions_map().remove(session_id) =~= old_map.remove(session_id));
        assert(state.wf());
    }
}

/// Stop and remove one named server from a session. A missing session or a
/// missing name is a no-op, never an error. The removed server's tool-index
/// entries go with it, so the index keeps pointing only at present servers.
pub fn stop(state: &mut State, session_id: i32, name: &String)
    requires
        old(state).wf(),
    ensures
        final(state).wf(),
        final(state).spec_servers(session_id) =~= old(state).spec_servers(session_id).remove(
            name@,
        ),
        final(state).spec_tool_index(session_id) =~= skv_purge_values(
            old(state).spec_tool_index(session_id),
            name@,
        ),
        final(state).sessions_map().dom() =~= old(state).sessions_map().dom(),
        final(state).sessions_map().remove(session_id) =~= old(state).sessions_map().remove(
            session_id,
        ),
{
    let ghost old_map = state.sessions_map();
    match ikv_remove(&mut state.sessions, session_id) {
        None => {
            proof {
                assert(state.sessions_map() =~= old_map);
                assert(state.spec_servers(session_id) =~= old(state).spec_servers(
                    session_id,
                ).remove(name@));
                assert(state.spec_tool_index(session_id) =~= skv_purge_values(
                    old(state).spec_tool_index(session_id),
                    name@,
                ));
                assert(state.sessions_map().dom() =~= old_map.dom());
            }
        },
        Some(session) => {
            let mut session = session;
            let ghost sess0 = session;
            proof {
                assert(sess0.wf());
            }
            match skv_remove(&mut session.mcp_servers, name.as_str()) {
                Some(server) => {
                    let _ = server.kill();
                    skv_purge_value(&mut session.tools, name.as_str());
                },
                None => {
                    proof {
                        assert(skv_map(session.tools@) =~= skv_purge_values(
                            sess0.tool_index(),
                            name@,
                        ));
                    }
                },
            }
            let ghost new_sess = session;
            ikv_set(&mut state.sessions, session_id, session);
            proof {
                assert(new_sess.wf()) by {
                    assert(new_sess.servers() =~= sess0.servers().remove(name@));
                    assert(new_sess.tool_index() =~= skv_purge_values(sess0.tool_index(), name@));
                    assert forall|t: Seq<char>| #[trigger] new_sess.tool_index().dom().contains(t)
                        implies new_sess.servers().dom().contains(
                        new_sess.tool_index()[t]@,
                    ) by {
                        assert(sess0.tool_index().dom().contains(t));
                        assert(new_sess.tool_index()[t] == sess0.tool_index()[t]);
                    }
                }
                assert(state.sessions_map() =~= old_map.remove(session_id).insert(
                    session_id,
                    new_sess,
                ));
                assert(state.spec_servers(session_id) =~= old(state).spec_servers(
                    session_id,
                ).remove(name@));
                assert(state.spec_tool_index(session_id) =~= skv_purge_values(
                    old(state).spec_tool_index(session_id),
                    name@,
                ));
                assert(state.sessions_map().dom() =~= old_map.dom());
                assert(state.sessions_map().remove(session_id) =~= old_map.remove(session_id));
                assert forall|id2: i32| #[trigger] state.sessions_map().dom().contains(id2)
                    implies state.sessions_map()[id2].wf() by {
                    if id2 == session_id {
                        assert(state.sessions_map()[id2] == new_sess);
                    } else {
                        assert(state.sessions_map()[id2] == old_map[id2]);
                        assert(old_map.dom().contains(id2));
                    }
                }
                assert(state.wf());
            }
        },
    }
}

/// Stop a whole session: kill every server it runs, then discard the session
/// and its tool index. The identifier may be reused afterwards.
pub fn stop_session(state: &mut State, session_id: i32)
    requires
        old(state).wf(),
    ensures
        final(state).wf(),
        final(state).sessions_map() =~= old(state).sessions_map().remove(session_id),
{
    match ikv_remove(&mut state.sessions, session_id) {
        Some(session) => {
            let n = session.mcp_servers.len();
            let mut i: usize = 0;
            while i < n
                invariant
                    i <= n,
                    n == session.mcp_servers@.len(),
                decreases n - i,
            {
                let _ = session.mcp_servers[i].1.kill();
                i += 1;
            }
        },
        None => {},
    }
    proof {
        assert forall|id2: i32| #[trigger] state.sessions_map().dom().contains(id2)
            implies state.sessions_map()[id2].wf() by {
            assert(id2 != session_id);
            assert(old(state).sessions_map().dom().contains(id2));
            assert(state.sessions_map()[id2] == old(state).sessions_map()[id2]);
        }
        assert(state.wf());
    }
}

/// Every tool in the session, each server's catalog in turn.
pub open spec fn all_tools(servers: Seq<(String, McpServer)>) -> Seq<Tool>
    decreases servers.len(),
{
    if servers.len() == 0 {
        Seq::empty()
    } else {
        all_tools(servers.drop_last()) + servers.last().1.tools@
    }
}

/// What `get_tools` returns: the union of the catalogs of every server in
/// the session, and nothing for an unknown session.
pub open spec fn spec_get_tools(state: State, session_id: i32) -> Seq<Tool> {
    if state.has_session(session_id) {
        all_tools(state.sessions_map()[session_id].mcp_servers@)
    } else {
        Seq::empty()
    }
}

/// List the tools of every server in the session. An unknown session yields
/// an empty list, not an error.
pub fn get_tools(state: &State, session_id: i32) -> (r: Vec<Tool>)
    requires
        state.wf(),
    ensures
        r@ == spec_get_tools(*state, session_id),
{
    let mut out: Vec<Tool> = Vec::new();
    match ikv_get(&state.sessions, session_id) {
        None => {},
        Some(session) => {
            let n = session.mcp_servers.len();
            let mut i: usize = 0;
            while i < n
                invariant
                    i <= n,
                    n == session.mcp_servers@.len(),
                    out@ == all_tools(session.mcp_servers@.subrange(0, i as int)),
                decreases n - i,
            {
                proof {
                    assert(session.mcp_servers@.subrange(0, i + 1).drop_last()
                        =~= session.mcp_servers@.subrange(0, i as int));
                    assert(session.mcp_servers@.subrange(0, i + 1).last()
                        == session.mcp_servers@[i as int]);
                }
                let ghost before = out@;
                let tools = &session.mcp_servers[i].1.tools;
                let m = tools.len();
                let mut j: usize = 0;
                while j < m
                    invariant
                        j <= m,
                        m == tools@.len(),
                        out@ == before + tools@.subrange(0, j as int),
                    decreases m - j,
                {
                    proof {
                        assert(tools@.subrange(0, j + 1) =~= tools@.subrange(0, j as int).push(
                            tools@[j as int],
                        ));
                    }
                    out.push(tools[j].duplicate());
                    j += 1;
                }
                proof {
                    assert(tools@.subrange(0, m as int) =~= tools@);
                }
                i += 1;
            }
            proof {
                assert(session.mcp_servers@.subrange(0, n as int) =~= session.mcp_servers@);
            }
        },
    }
    out
}

/// Find the server a tool call must be dispatched to: the owner the tool
/// index records for the tool name. An unknown session or unknown tool is an
/// error the caller surfaces; under the registry invariant a recorded owner
/// is always present.
pub fn resolve_tool<'a>(state: &'a State, session_id: i32, name: &String) -> (r: Result<
    &'a McpServer,
    McpError,
>)
    requires
        state.wf(),
    ensures
        (match r {
            Ok(server) => state.has_session(session_id) && state.spec_tool_index(
                session_id,
            ).dom().contains(name@) && *server == state.spec_servers(session_id)[state.spec_tool_index(
                session_id,
            )[name@]@] && server.spec_name() == state.spec_tool_index(session_id)[name@]@,
            Err(McpError::UnknownSession { session_id: s }) => s == session_id
                && !state.has_session(session_id),
            Err(McpError::UnknownTool { name: n }) => n@ == name@ && state.has_session(session_id)
                && !state.spec_tool_index(session_id).dom().contains(name@),
            Err(_) => false,
        }),
{
    let session = match ikv_get(&state.sessions, session_id) {
        Some(s) => s,
        None => {
            return Err(McpError::UnknownSession { session_id });
        },
    };
    let owner = match skv_get(&session.tools, name.as_str()) {
        Some(o) => o,
        None => {
            return Err(McpError::UnknownTool { name: name.clone() });
        },
    };
    match skv_get(&session.mcp_servers, owner.as_str()) {
        Some(server) => Ok(server),
        None => {
            proof {
                assert(false);
            }
            Err(McpError::UnknownTool { name: name.clone() })
        },
    }
}

/// Rename a server: set its display-name override, rewrite every tool-index
/// entry that pointed at the old name, and re-key the server map. A missing
/// session or a missing old name is a silent no-op. A server already sitting
/// under the new name is replaced, exactly as a same-named map insert would.
pub fn rename_server(state: &mut State, session_id: i32, old_name: &String, new_name: String)
    requires
        old(state).wf(),
    ensures
        final(state).wf(),
        !old(state).spec_servers(session_id).dom().contains(old_name@)
            ==> final(state).sessions_map() =~= old(state).sessions_map(),
        old(state).spec_servers(session_id).dom().contains(old_name@) ==> {
            &&& final(state).spec_servers(session_id) =~= old(state).spec_servers(
                session_id,
            ).remove(old_name@).insert(
                new_name@,
                (McpServer {
                    custom_name: Some(new_name),
                    ..old(state).spec_servers(session_id)[old_name@]
                }),
            )
            &&& final(state).spec_tool_index(session_id) =~= skv_rename_values(
                old(state).spec_tool_index(session_id),
                old_name@,
                new_name,
            )
            &&& final(state).sessions_map().dom() =~= old(state).sessions_map().dom()
            &&& final(state).sessions_map().remove(session_id) =~= old(state).sessions_map().remove(
                session_id,
            )
        },
{
    let ghost old_map = state.sessions_map();
    match ikv_remove(&mut state.sessions, session_id) {
        None => {
            proof {
                assert(state.sessions_map() =~= old_map);
            }
        },
        Some(session) => {
            let mut session = session;
            let ghost sess0 = session;
            proof {
                assert(sess0.wf());
            }
            match skv_remove(&mut session.mcp_servers, old_name.as_str()) {
                None => {
                    let ghost new_sess = session;
                    ikv_set(&mut state.sessions, session_id, session);
                    proof {
                        assert(new_sess.servers() =~= sess0.servers());
                        assert(new_sess.tool_index() =~= sess0.tool_index());
                        assert(new_sess.wf());
                        assert(state.sessions_map() =~= old_map);
                        assert forall|id2: i32| #[trigger] state.sessions_map().dom().contains(id2)
                            implies state.sessions_map()[id2].wf() by {
                            if id2 == session_id {
                                assert(state.sessions_map()[id2] == new_sess);
                            } else {
                                assert(state.sessions_map()[id2] == old_map[id2]);
                            }
                        }
                        assert(state.wf());
                    }
                },
                Some(server) => {
                    let mut server = server;
                    let ghost srv0 = server;
                    server.set_name(new_name.clone());
                    skv_rename_value(&mut session.tools, old_name.as_str(), &new_name);
                    skv_set(&mut session.mcp_servers, new_name, server);
                    let ghost new_sess = session;
                    ikv_set(&mut state.sessions, session_id, session);
                    proof {
                        assert(new_sess.servers() =~= sess0.servers().remove(old_name@).insert(
                            new_name@,
                            (McpServer { custom_name: Some(new_name), ..srv0 }),
                        ));
                        assert(new_sess.tool_index() =~= skv_rename_values(
                            sess0.tool_index(),
                            old_name@,
                            new_name,
                        ));
                        assert(new_sess.wf()) by {
                            assert forall|n2: Seq<char>|
                                #[trigger] new_sess.servers().dom().contains(n2)
                                implies new_sess.servers()[n2].spec_name() == n2 by {
                                if n2 == new_name@ {
                                } else {
                                    assert(sess0.servers().dom().contains(n2));
                                }
                            }
                            assert forall|t: Seq<char>|
                                #[trigger] new_sess.tool_index().dom().contains(t)
                                implies new_sess.servers().dom().contains(
                                new_sess.tool_index()[t]@,
                            ) by {
                                assert(sess0.tool_index().dom().contains(t));
                                if sess0.tool_index()[t]@ == old_name@ {
                                    assert(new_sess.tool_index()[t] == new_name);
                                } else {
                                    assert(new_sess.tool_index()[t] == sess0.tool_index()[t]);
                                    assert(sess0.servers().dom().contains(
                                        sess0.tool_index()[t]@,
                                    ));
                                }
                            }
                        }
                        assert(state.sessions_map() =~= old_map.remove(session_id).insert(
                            session_id,
                            new_sess,
                        ));
                        assert(state.spec_servers(session_id) =~= old(state).spec_servers(
                            session_id,
                        ).remove(old_name@).insert(
                            new_name@,
                            (McpServer {
                                custom_name: Some(new_name),
                                ..old(state).spec_servers(session_id)[old_name@]
                            }),
                        ));
                        assert(state.spec_tool_index(session_id) =~= skv_rename_values(
                            old(state).spec_tool_index(session_id),
                            old_name@,
                            new_name,
                        ));
                        assert(state.sessions_map().dom() =~= old_map.dom());
                        assert(state.sessions_map().remove(session_id) =~= old_map.remove(
                            session_id,
                        ));
                        assert forall|id2: i32| #[trigger] state.sessions_map().dom().contains(id2)
                            implies state.sessions_map()[id2].wf() by {
                            if id2 == session_id {
                                assert(state.sessions_map()[id2] == new_sess);
                            } else {
                                assert(state.sessions_map()[id2] == old_map[id2]);
                                assert(old_map.dom().contains(id2));
                            }
                        }
                        assert(state.wf());
                    }
                },
            }
        },
    }
}

/// Tool-index consistency: in a well-formed registry, every tool-index entry
/// of every session names a server present in that session's server map.
/// `start`, `stop`, `stop_session` and `rename_server` each ensure
/// well-formedness, so this holds after any sequence of them.
pub proof fn lemma_tool_index_consistent(state: State, session_id: i32, tool: Seq<char>)
    requires
        state.wf(),
        state.spec_tool_index(session_id).dom().contains(tool),
    ensures
        state.spec_servers(session_id).dom().contains(
            state.spec_tool_index(session_id)[tool]@,
        ),
{
    assert(state.has_session(session_id));
    assert(state.sessions_map()[session_id].wf());
}

/// Rename correctness: after `old_name` is renamed to `new_name`, a tool
/// that pointed at the old name points at the new one, the server under the
/// new name is the renamed server and reads `new_name`, and the old name is
/// gone both from the server map and from the tool index's values. The two
/// map equations are exactly what `rename_server` ensures.
pub proof fn lemma_rename_correct(
    pre: State,
    post: State,
    session_id: i32,
    old_name: Seq<char>,
    new_name: String,
    tool: Seq<char>,
)
    requires
        pre.wf(),
        pre.spec_servers(session_id).dom().contains(old_name),
        old_name != new_name@,
        post.spec_servers(session_id) =~= pre.spec_servers(session_id).remove(old_name).insert(
            new_name@,
            (McpServer {
                custom_name: Some(new_name),
                ..pre.spec_servers(session_id)[old_name]
            }),
        ),
        post.spec_tool_index(session_id) =~= skv_rename_values(
            pre.spec_tool_index(session_id),
            old_name,
            new_name,
        ),
        pre.spec_tool_index(session_id).dom().contains(tool),
        pre.spec_tool_index(session_id)[tool]@ == old_name,
    ensures
        post.spec_tool_index(session_id).dom().contains(tool),
        post.spec_tool_index(session_id)[tool] == new_name,
        post.spec_servers(session_id).dom().contains(new_name@),
        post.spec_servers(session_id)[new_name@].spec_name() == new_name@,
        !post.spec_servers(session_id).dom().contains(old_name),
        forall|t: Seq<char>|
            #[trigger] post.spec_tool_index(session_id).dom().contains(t)
                ==> post.spec_tool_index(session_id)[t]@ != old_name,
{
}

/// Cascading stop: once `stop_session` has removed a session — its ensures
/// is the map equation required here — the session is gone and listing its
/// tools yields the empty list.
pub proof fn lemma_stop_session_clears(pre: State, post: State, session_id: i32)
    requires
        post.sessions_map() =~= pre.sessions_map().remove(session_id),
    ensures
        !post.has_session(session_id),
        spec_get_tools(post, session_id) == Seq::<Tool>::empty(),
{
}

} // verus!

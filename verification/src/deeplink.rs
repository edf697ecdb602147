//! Deep-link dispatch: which notification a deep-link URL asks the host
//! shell to emit. The URL arrives already split into its components; the
//! payload is opaque here — upstream UI code interprets it.

use crate::strutil::{seq_contains, str_contains, str_eq};
use vstd::prelude::*;
use vstd::string::StringExecFns;

verus! {

/// A notification for the host shell to emit: an event channel and its
/// payload.
#[derive(Clone, Debug)]
pub struct Notification {
    pub event: String,
    pub payload: String,
}

/// The "install this server" notification a deep link produces.
pub fn mcp_install(query: &str) -> (n: Notification)
    ensures
        n.event@ == "mcp/install"@,
        n.payload@ == query@,
{
    Notification { event: String::from_str("mcp/install"), payload: String::from_str(query) }
}

/// The "import this app" notification a deep link produces.
pub fn import_app(query: &str) -> (n: Notification)
    ensures
        n.event@ == "apps/import"@,
        n.payload@ == query@,
{
    Notification { event: String::from_str("apps/import"), payload: String::from_str(query) }
}

/// One deep-link URL, split into components by the host's URL parser.
#[derive(Clone, Debug)]
pub struct DeepLink {
    pub full: String,
    pub domain: Option<String>,
    pub path: String,
    pub query: Option<String>,
}

/// The action a link names. A well-formed link (`scheme://domain/path`)
/// keeps its action split across domain and path; the scheme-only form some
/// installers emit (`scheme:action?query`) carries it in the path alone.
pub open spec fn spec_action(link: DeepLink) -> Seq<char> {
    if seq_contains(link.full@, "tome://"@) {
        (match link.domain {
            Some(d) => d@,
            None => Seq::<char>::empty(),
        }) + link.path@
    } else {
        link.path@
    }
}

/// Which notification a deep link asks for: install for the install action,
/// import for the import action, nothing for an unknown action or a link
/// without a query.
pub fn handle(link: &DeepLink) -> (r: Option<Notification>)
    requires
        seq_contains(link.full@, "tome://"@) ==> link.domain is Some,
    ensures
        spec_action(*link) == "mcp/install"@ && link.query is Some ==> (match r {
            Some(n) => n.event@ == "mcp/install"@ && n.payload@ == link.query->Some_0@,
            None => false,
        }),
        spec_action(*link) == "apps/import"@ && link.query is Some ==> (match r {
            Some(n) => n.event@ == "apps/import"@ && n.payload@ == link.query->Some_0@,
            None => false,
        }),
        link.query is None ==> r is None,
        spec_action(*link) != "mcp/install"@ && spec_action(*link) != "apps/import"@ ==> r
            is None,
{
    proof {
        reveal_strlit("mcp/install");
        reveal_strlit("apps/import");
        assert("mcp/install"@ != "apps/import"@) by {
            assert("mcp/install"@[0] != "apps/import"@[0]);
        }
    }
    let action: String = if str_contains(link.full.as_str(), "tome://") {
        match &link.domain {
            Some(d) => d.clone().concat(link.path.as_str()),
            None => link.path.clone(),
        }
    } else {
        link.path.clone()
    };
    if str_eq(action.as_str(), "mcp/install") {
        match &link.query {
            Some(q) => Some(mcp_install(q.as_str())),
            None => None,
        }
    } else if str_eq(action.as_str(), "apps/import") {
        match &link.query {
            Some(q) => Some(import_app(q.as_str())),
            None => None,
        }
    } else {
        None
    }
}

} // verus!

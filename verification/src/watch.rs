//! The filesystem-watcher boundary: which event channel a change is
//! announced on. Watching itself — threads and the OS notification API —
//! is the unverified host's.

use vstd::prelude::*;
use vstd::string::StringExecFns;

verus! {

/// A filesystem change as the watcher reports it across the boundary.
#[derive(Clone, Copy, Debug, PartialEq, Eq, Structural)]
pub enum FsEventKind {
    Created,
    ContentModified,
    Other,
}

/// The event channel a change is announced on; anything but a creation or
/// a content change is dropped silently.
pub fn watch_event_name(kind: FsEventKind) -> (r: Option<String>)
    ensures
        (match kind {
            FsEventKind::Created => (match r {
                Some(n) => n@ == "filesystem/created"@,
                None => false,
            }),
            FsEventKind::ContentModified => (match r {
                Some(n) => n@ == "filesystem/updated"@,
                None => false,
            }),
            FsEventKind::Other => r is None,
        }),
{
    match kind {
        FsEventKind::Created => Some(String::from_str("filesystem/created")),
        FsEventKind::ContentModified => Some(String::from_str("filesystem/updated")),
        FsEventKind::Other => None,
    }
}

} // verus!

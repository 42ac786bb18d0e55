//! The messages that tell the operator what a replica does. Each function returns
//! the text of one message; printing it, with its mark, is up to the caller.
use vstd::prelude::*;

use crate::path_local::{full_text, PathLocal};
use crate::text::{decimal, int_text, port_text};

verus! {

/// The full text of a path.
pub open spec fn shown(p: &PathLocal) -> Seq<char> {
    full_text(p@.prefix, p@.names)
}

/// `head` + the path in quotes + `tail`.
fn quoted(head: &str, path: &PathLocal, tail: &str) -> (r: String)
    ensures
        r@ == head@ + "\""@ + shown(path) + "\""@ + tail@,
{
    let mut r = String::from_str(head);
    r.append("\"");
    r.append(path.display().as_str());
    r.append("\"");
    r.append(tail);
    r
}

/// Messages about local watches and events.
pub struct LocalBanner;

/// Messages about syncs.
pub struct SyncBanner;

impl LocalBanner {
    pub fn new_watch(path: &PathLocal) -> (r: String)
        ensures
            r@ == "Local Watch: "@ + "\""@ + shown(path) + "\""@ + " added"@,
    {
        quoted("Local Watch: ", path, " added")
    }

    pub fn remove_watch(path: &PathLocal) -> (r: String)
        ensures
            r@ == "Local Watch: "@ + "\""@ + shown(path) + "\""@ + " removed"@,
    {
        quoted("Local Watch: ", path, " removed")
    }

    pub fn create(parent: &PathLocal, name: &str) -> (r: String)
        ensures
            r@ == "Local Creation: \""@ + name@ + "\" in "@ + "\""@ + shown(parent) + "\""@ + ""@,
    {
        let mut head = String::from_str("Local Creation: \"");
        head.append(name);
        head.append("\" in ");
        quoted(head.as_str(), parent, "")
    }

    pub fn modify(path: &PathLocal) -> (r: String)
        ensures
            r@ == "Local Modification: "@ + "\""@ + shown(path) + "\""@ + ""@,
    {
        quoted("Local Modification: ", path, "")
    }

    pub fn delete(path: &PathLocal) -> (r: String)
        ensures
            r@ == "Local Deletion: "@ + "\""@ + shown(path) + "\""@ + ""@,
    {
        quoted("Local Deletion: ", path, "")
    }
}

impl SyncBanner {
    /// A sync request from replica `id1` (at `port1`) to replica `id2` (at `port2`).
    pub fn sync_request(id1: i32, port1: u16, id2: i32, port2: u16, path: &str) -> (r: String)
        ensures
            r@ == "Sync Request : replica-"@ + decimal(id1 as int) + "("@ + decimal(port1 as int)
                + ") -> replica-"@ + decimal(id2 as int) + "("@ + decimal(port2 as int)
                + "), path = \""@ + path@ + "\""@,
    {
        let mut r = String::from_str("Sync Request : replica-");
        r.append(int_text(id1).as_str());
        r.append("(");
        r.append(port_text(port1).as_str());
        r.append(") -> replica-");
        r.append(int_text(id2).as_str());
        r.append("(");
        r.append(port_text(port2).as_str());
        r.append("), path = \"");
        r.append(path);
        r.append("\"");
        r
    }

    pub fn skip_both_deleted(path: &PathLocal) -> (r: String)
        ensures
            r@ == "Sync Skip : "@ + "\""@ + shown(path) + "\""@ + " (both deleted)"@,
    {
        quoted("Sync Skip : ", path, " (both deleted)")
    }

    pub fn skip_newer(path: &PathLocal) -> (r: String)
        ensures
            r@ == "Sync Skip : "@ + "\""@ + shown(path) + "\""@ + " (newer)"@,
    {
        quoted("Sync Skip : ", path, " (newer)")
    }

    pub fn skip_from_independent_empty(path: &PathLocal) -> (r: String)
        ensures
            r@ == "Sync Skip : "@ + "\""@ + shown(path) + "\""@ + " (from independent empty)"@,
    {
        quoted("Sync Skip : ", path, " (from independent empty)")
    }

    pub fn skip_different_type(path: &PathLocal) -> (r: String)
        ensures
            r@ == "Sync Skip : "@ + "\""@ + shown(path) + "\""@ + " (different type)"@,
    {
        quoted("Sync Skip : ", path, " (different type)")
    }

    pub fn delete(path: &PathLocal) -> (r: String)
        ensures
            r@ == "Sync Deletion : "@ + "\""@ + shown(path) + "\""@ + ""@,
    {
        quoted("Sync Deletion : ", path, "")
    }

    pub fn create_to_independent_empty(path: &PathLocal) -> (r: String)
        ensures
            r@ == "Sync Creation : "@ + "\""@ + shown(path) + "\""@ + " (to independent empty)"@,
    {
        quoted("Sync Creation : ", path, " (to independent empty)")
    }

    pub fn create_for_parent(path: &PathLocal) -> (r: String)
        ensures
            r@ == "Sync Creation : "@ + "\""@ + shown(path) + "\""@ + " (for parent)"@,
    {
        quoted("Sync Creation : ", path, " (for parent)")
    }

    pub fn overwrite(path: &PathLocal) -> (r: String)
        ensures
            r@ == "Sync Overwrite : "@ + "\""@ + shown(path) + "\""@ + ""@,
    {
        quoted("Sync Overwrite : ", path, "")
    }

    pub fn conflict(path: &PathLocal) -> (r: String)
        ensures
            r@ == "Sync Conflict : "@ + "\""@ + shown(path) + "\""@ + ""@,
    {
        quoted("Sync Conflict : ", path, "")
    }
}

} // verus!

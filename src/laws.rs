//! Laws of the reconciliation, proved over the decision table and the events.
use vstd::prelude::*;

use crate::modification::event_applies;
use crate::node::{bumped, lemma_bumped, ModOption, ModType, Node};
use crate::sync::{table, SyncAction};
use crate::synchronization::writes_file;
use crate::timestamp::{lemma_leq_transitive, vt_leq, vt_valid};

verus! {

/// Whether an action leaves a node as it is.
pub open spec fn is_skip(a: SyncAction) -> bool {
    a == SyncAction::SkipBothDeleted || a == SyncAction::SkipNewer || a
        == SyncAction::SkipDifferentType || a == SyncAction::SkipFromIndependentEmpty
}

/// Syncing twice is a no-op the second time: once a file was written, removed or
/// created from a peer whose modification clock is below its sync clock, a second
/// sync from the same peer, whose sync clock can only have grown, skips it.
pub proof fn law_second_sync_skips(
    l_exist: bool,
    l_dir: bool,
    l_create: (i32, i32),
    l_mod: Map<i32, int>,
    l_sync: Map<i32, int>,
    r_exist: bool,
    r_dir: bool,
    r_create: (i32, i32),
    r_mod: Map<i32, int>,
    r_sync: Map<i32, int>,
    r_sync_later: Map<i32, int>,
    id: i32,
    time: i32,
)
    requires
        vt_valid(r_sync),
        vt_leq(r_mod, r_sync),
        vt_leq(r_sync, r_sync_later),
        writes_file(table(l_exist, l_dir, l_create, l_mod, l_sync, r_exist, r_dir, r_create, r_mod, r_sync)),
    ensures
        ({
            let a = table(l_exist, l_dir, l_create, l_mod, l_sync, r_exist, r_dir, r_create, r_mod, r_sync);
            let l2_exist = a != SyncAction::Delete;
            let l2_create = if a == SyncAction::Delete { l_create } else { r_create };
            is_skip(
                table(
                    l2_exist,
                    l_dir,
                    l2_create,
                    r_mod,
                    bumped(r_sync, id, time),
                    r_exist,
                    r_dir,
                    r_create,
                    r_mod,
                    r_sync_later,
                ),
            )
        }),
{
    lemma_bumped(r_sync, id, time);
    lemma_leq_transitive(r_mod, r_sync, bumped(r_sync, id, time));
}

/// Syncing back is a skip: after a replica took a file over from a peer, the
/// peer, whose own clocks did not move, finds nothing new when it syncs the file
/// from that replica.
pub proof fn law_sync_back_skips(
    b_dir: bool,
    b_create: (i32, i32),
    b_mod: Map<i32, int>,
    b_sync: Map<i32, int>,
    a_dir: bool,
    a_sync: Map<i32, int>,
)
    requires
        vt_leq(b_mod, b_sync),
    ensures
        table(true, b_dir, b_create, b_mod, b_sync, true, a_dir, b_create, b_mod, a_sync)
            == SyncAction::SkipNewer,
{
}

/// Empty directories synchronize: a live remote directory that the local side
/// does not know is synced as a directory, even when it has no children (the end
/// of its sync then brings the local tombstone back as a directory).
pub proof fn law_unknown_remote_dir_is_synced(
    l_create: (i32, i32),
    l_mod: Map<i32, int>,
    l_sync: Map<i32, int>,
    l_dir: bool,
    r_create: (i32, i32),
    r_mod: Map<i32, int>,
    r_sync: Map<i32, int>,
)
    requires
        !vt_leq(r_mod, l_sync),
        !l_dir,
    ensures
        table(false, l_dir, l_create, l_mod, l_sync, true, true, r_create, r_mod, r_sync)
            == SyncAction::SyncDir,
{
}

/// A move is a deletion and a creation: an event that moves an entry out of a
/// directory applies exactly where a deletion of it does, and one that moves an
/// entry in applies exactly where a creation does.
pub proof fn law_move_is_delete_and_create(
    n: Node,
    walk: Seq<Seq<char>>,
    depth: int,
    time: i32,
    name: String,
    is_dir: bool,
    has_created: bool,
)
    ensures
        event_applies(
            n,
            walk,
            depth,
            ModOption { ty: ModType::MovedFrom, time, name, is_dir },
            has_created,
        ) == event_applies(
            n,
            walk,
            depth,
            ModOption { ty: ModType::Delete, time, name, is_dir },
            has_created,
        ),
        event_applies(
            n,
            walk,
            depth,
            ModOption { ty: ModType::MovedTo, time, name, is_dir },
            has_created,
        ) == event_applies(
            n,
            walk,
            depth,
            ModOption { ty: ModType::Create, time, name, is_dir },
            has_created,
        ),
{
}

} // verus!

//! Reconciliation of one local node with the same node of a peer: the decision
//! table, and the changes to the tree once the decided file work is done.
use vstd::prelude::*;

use crate::node::{
    child_pos,    bumped, dominated, lemma_bumped, lemma_tree_watch_ok, mod_join, name_of, tree_watch_ok, watch_ok, Node,
    NodeStatus, SyncType,
};
use crate::query::RemoteData;
use crate::timestamp::{lemma_leq_transitive, vt_get, vt_leq, SingletonTime};

verus! {

/// What a sync does with a target node.
#[derive(Copy, Clone, PartialEq, Eq, Debug, Structural)]
pub enum SyncAction {
    /// Both sides are tombstones.
    SkipBothDeleted,
    /// The local side already knows everything the remote has.
    SkipNewer,
    /// A file on one side and a directory on the other.
    SkipDifferentType,
    /// The remote tombstone is of another file that shared the name.
    SkipFromIndependentEmpty,
    /// Replace the local file with the remote content.
    Overwrite,
    /// Remove the local file.
    Delete,
    /// Create the local file from the remote content.
    CreateToIndependentEmpty,
    /// Both sides changed the file independently.
    Conflict,
    /// Reconcile a directory, child by child.
    SyncDir,
}

/// Whether a creation stamp `(id, time)` is known to a clock: `time <= clock[id]`.
pub open spec fn stamp_leq(c: (i32, i32), m: Map<i32, int>) -> bool {
    c.1 <= vt_get(m, c.0)
}

/// The decision table over the plain facts of both sides: liveness, kind,
/// creation stamp, modification clock and sync clock.
pub open spec fn table(
    l_exist: bool,
    l_dir: bool,
    l_create: (i32, i32),
    l_mod: Map<i32, int>,
    l_sync: Map<i32, int>,
    r_exist: bool,
    r_dir: bool,
    r_create: (i32, i32),
    r_mod: Map<i32, int>,
    r_sync: Map<i32, int>,
) -> SyncAction {
    if !l_exist && !r_exist {
        SyncAction::SkipBothDeleted
    } else if r_exist && vt_leq(r_mod, l_sync) {
        SyncAction::SkipNewer
    } else if l_exist && r_exist && l_dir != r_dir {
        SyncAction::SkipDifferentType
    } else if (l_exist && !l_dir) || (r_exist && !r_dir) {
        if l_exist && r_exist {
            if vt_leq(l_mod, r_sync) {
                SyncAction::Overwrite
            } else if vt_leq(r_mod, l_sync) {
                SyncAction::SkipNewer
            } else {
                SyncAction::Conflict
            }
        } else if l_exist {
            if stamp_leq(l_create, r_sync) {
                if vt_leq(l_mod, r_sync) {
                    SyncAction::Delete
                } else {
                    SyncAction::Conflict
                }
            } else {
                SyncAction::SkipFromIndependentEmpty
            }
        } else {
            if stamp_leq(r_create, l_sync) {
                if vt_leq(r_mod, l_sync) {
                    SyncAction::SkipNewer
                } else {
                    SyncAction::Conflict
                }
            } else {
                SyncAction::CreateToIndependentEmpty
            }
        }
    } else {
        SyncAction::SyncDir
    }
}

/// The creation stamp of a node as a pair.
pub open spec fn stamp(c: SingletonTime) -> (i32, i32) {
    (c.spec_id(), c.spec_time())
}

/// The decision table for a local node `l` (a directory when `l_dir`) and the
/// peer's node `r` (a directory when `r_dir`).
pub open spec fn sync_decision(l: Node, l_dir: bool, r: RemoteData, r_dir: bool) -> SyncAction {
    table(
        l.status == NodeStatus::Exist,
        l_dir,
        stamp(l.create_time),
        l.mod_time@,
        l.sync_time@,
        r.status == NodeStatus::Exist,
        r_dir,
        stamp(r.create_time),
        r.mod_time@,
        r.sync_time@,
    )
}

/// What the end of a directory sync asks of the file system.
#[derive(Copy, Clone, PartialEq, Eq, Debug, Structural)]
pub enum DirOutcome {
    /// Nothing to do on disk.
    Keep,
    /// Remove the now empty directory; the watch given, if any, was dropped.
    Delete(Option<i32>),
    /// Make sure the directory exists and watch it.
    Materialize,
}

/// Whether any node of a list is live.
pub open spec fn any_exist(s: Seq<Node>) -> bool {
    exists|i: int| 0 <= i < s.len() && (#[trigger] s[i]).status == NodeStatus::Exist
}

impl Node {
    /// Decides what a sync does with this node, given the peer's view of it.
    pub fn decide(&self, local_is_dir: bool, remote: &RemoteData, remote_is_dir: bool) -> (r:
        SyncAction)
        ensures
            r == sync_decision(*self, local_is_dir, *remote, remote_is_dir),
    {
        let l_exist = self.status.exist();
        let r_exist = remote.status.exist();
        if !l_exist && !r_exist {
            SyncAction::SkipBothDeleted
        } else if r_exist && remote.mod_time.leq(&self.sync_time) {
            SyncAction::SkipNewer
        } else if l_exist && r_exist && local_is_dir != remote_is_dir {
            SyncAction::SkipDifferentType
        } else if (l_exist && !local_is_dir) || (r_exist && !remote_is_dir) {
            if l_exist && r_exist {
                if self.mod_time.leq(&remote.sync_time) {
                    SyncAction::Overwrite
                } else if remote.mod_time.leq(&self.sync_time) {
                    SyncAction::SkipNewer
                } else {
                    SyncAction::Conflict
                }
            } else if l_exist {
                if self.create_time.leq_vec(&remote.sync_time) {
                    if self.mod_time.leq(&remote.sync_time) {
                        SyncAction::Delete
                    } else {
                        SyncAction::Conflict
                    }
                } else {
                    SyncAction::SkipFromIndependentEmpty
                }
            } else {
                if remote.create_time.leq_vec(&self.sync_time) {
                    if remote.mod_time.leq(&self.sync_time) {
                        SyncAction::SkipNewer
                    } else {
                        SyncAction::Conflict
                    }
                } else {
                    SyncAction::CreateToIndependentEmpty
                }
            }
        } else {
            SyncAction::SyncDir
        }
    }

    /// Records a file-level sync step whose disk work is done: the node takes the
    /// peer's modification clock, and its sync clock becomes the peer's joined with
    /// `(id, time)`. A created or overwritten node takes the peer's creation stamp; a
    /// created one becomes live and a deleted one a tombstone without a watch.
    pub fn sync_work(&mut self, ty: SyncType, remote: &RemoteData, id: i32, time: i32)
        ensures
            final(self).mod_time@ == remote.mod_time@,
            final(self).sync_time@ == bumped(remote.sync_time@, id, time),
            final(self).create_time == (if ty == SyncType::Delete {
                old(self).create_time
            } else {
                remote.create_time
            }),
            final(self).status == (match ty {
                SyncType::Create => NodeStatus::Exist,
                SyncType::Override => old(self).status,
                SyncType::Delete => NodeStatus::Deleted,
            }),
            final(self).wd == (if ty == SyncType::Delete {
                None
            } else {
                old(self).wd
            }),
            final(self).children == old(self).children,
            final(self).path == old(self).path,
            final(self).is_dir == old(self).is_dir,
            watch_ok(*old(self)) ==> watch_ok(*final(self)),
            tree_watch_ok(*old(self)) ==> tree_watch_ok(*final(self)),
            vt_leq(remote.mod_time@, remote.sync_time@) ==> dominated(*final(self)),
            vt_get(final(self).sync_time@, id) >= time,
            time >= vt_get(old(self).sync_time@, id) ==> vt_get(final(self).sync_time@, id)
                >= vt_get(old(self).sync_time@, id),
    {
        self.mod_time = remote.mod_time.duplicate();
        let mut s = remote.sync_time.duplicate();
        s.join_one(id, time);
        self.sync_time = s;
        match ty {
            SyncType::Create => {
                self.create_time = remote.create_time;
                self.status = NodeStatus::Exist;
            },
            SyncType::Override => {
                self.create_time = remote.create_time;
            },
            SyncType::Delete => {
                self.status = NodeStatus::Deleted;
                self.wd = None;
            },
        }
        remote.sync_time.note_valid();
        proof {
            lemma_tree_watch_ok(*old(self));
            lemma_tree_watch_ok(*self);
            lemma_bumped(remote.sync_time@, id, time);
            if vt_leq(remote.mod_time@, remote.sync_time@) {
                lemma_leq_transitive(
                    remote.mod_time@,
                    remote.sync_time@,
                    bumped(remote.sync_time@, id, time),
                );
            }
        }
    }

    /// Ends the sync of a directory once its children are done: the modification
    /// clock is rolled up from the children and the sync clock becomes the peer's
    /// joined with `(id, time)`. When the peer deleted the directory, knows all of
    /// its changes and no child is live, the node becomes a tombstone; a tombstone
    /// whose peer is live becomes live again.
    pub fn finish_dir_sync(&mut self, remote: &RemoteData, id: i32, time: i32) -> (r: DirOutcome)
        ensures
            final(self).mod_time@ == mod_join(old(self).children@),
            final(self).sync_time@ == bumped(remote.sync_time@, id, time),
            final(self).children == old(self).children,
            final(self).path == old(self).path,
            final(self).is_dir == old(self).is_dir,
            final(self).create_time == old(self).create_time,
            ({
                let gone = remote.status == NodeStatus::Deleted && vt_leq(
                    mod_join(old(self).children@),
                    remote.sync_time@,
                ) && !any_exist(old(self).children@);
                if gone {
                    r == DirOutcome::Delete(old(self).wd) && final(self).status
                        == NodeStatus::Deleted && final(self).wd is None
                } else if old(self).status == NodeStatus::Deleted {
                    r == DirOutcome::Materialize && final(self).status == NodeStatus::Exist
                        && final(self).wd == old(self).wd
                } else {
                    r == DirOutcome::Keep && final(self).status == old(self).status
                        && final(self).wd == old(self).wd
                }
            }),
            watch_ok(*old(self)) ==> watch_ok(*final(self)),
            tree_watch_ok(*old(self)) ==> tree_watch_ok(*final(self)),
            vt_get(final(self).sync_time@, id) >= time,
    {
        proof {
            lemma_tree_watch_ok(*old(self));
        }
        let any_child = self.any_child_exist();
        self.pushup_mod();
        let mut s = remote.sync_time.duplicate();
        s.join_one(id, time);
        self.sync_time = s;
        remote.sync_time.note_valid();
        proof {
            lemma_bumped(remote.sync_time@, id, time);
        }
        if remote.status.deleted() && !any_child && self.mod_time.leq(&remote.sync_time) {
            let wd = self.wd;
            self.status = NodeStatus::Deleted;
            self.wd = None;
            proof {
                lemma_tree_watch_ok(*self);
            }
            DirOutcome::Delete(wd)
        } else if self.status.deleted() {
            self.status = NodeStatus::Exist;
            proof {
                lemma_tree_watch_ok(*self);
            }
            DirOutcome::Materialize
        } else {
            proof {
                lemma_tree_watch_ok(*self);
            }
            DirOutcome::Keep
        }
    }

    /// Whether any child is live.
    pub fn any_child_exist(&self) -> (r: bool)
        ensures
            r == any_exist(self.children@),
    {
        let mut i: usize = 0;
        while i < self.children.len()
            invariant
                i <= self.children.len(),
                forall|j: int|
                    0 <= j < i ==> (#[trigger] self.children@[j]).status != NodeStatus::Exist,
            decreases self.children.len() - i,
        {
            if self.children[i].status.exist() {
                return true;
            }
            i += 1;
        }
        false
    }

    /// Takes out the child called `name` for a sync, or synthesizes a tombstone for
    /// it that inherits this node's sync clock. The flag says whether it was a child.
    pub fn take_child(&mut self, name: &String) -> (r: (Node, bool))
        ensures
            r.1 <==> child_pos(old(self).children@, name@) >= 0,
            r.1 ==> exists|i: int|
                0 <= i < old(self).children@.len() && old(self).children@[i] == r.0
                    && name_of(r.0) == name@ && final(self).children@ == old(
                    self,
                ).children@.remove(i),
            r.1 ==> {
                let j = child_pos(old(self).children@, name@);
                &&& 0 <= j < old(self).children@.len()
                &&& r.0 == old(self).children@[j]
                &&& final(self).children@ == old(self).children@.remove(j)
            },
            !r.1 ==> {
                &&& r.0.children@.len() == 0
                &&& !r.0.is_dir
                &&& stamp(r.0.create_time) == (0i32, 0i32)
                &&& final(self).children == old(self).children
                &&& r.0.status == NodeStatus::Deleted
                &&& r.0.wd is None
                &&& r.0.sync_time@ == old(self).sync_time@
                &&& r.0.mod_time@ == Map::<i32, int>::empty()
                &&& r.0.path@.names == old(self).path@.names.push(name@)
                &&& tree_watch_ok(r.0)
                &&& forall|i: int|
                    0 <= i < old(self).children@.len() ==> name_of(
                        #[trigger] old(self).children@[i],
                    ) != name@
            },
            final(self).mod_time == old(self).mod_time,
            final(self).sync_time == old(self).sync_time,
            final(self).status == old(self).status,
            final(self).wd == old(self).wd,
            final(self).path == old(self).path,
            final(self).is_dir == old(self).is_dir,
            final(self).create_time == old(self).create_time,
    {
        match self.find_child(name) {
            Some(i) => {
                let c = self.children.remove(i);
                (c, true)
            },
            None => {
                let p = self.path.join_name(name.as_str());
                (Node::new_tmp(p, &self.sync_time), false)
            },
        }
    }

    /// Puts back a child after its sync: a former child always, a synthesized one
    /// only when it became live. Returns whether it was kept.
    pub fn put_child(&mut self, child: Node, was_child: bool) -> (r: bool)
        ensures
            r == (was_child || child.status == NodeStatus::Exist),
            r ==> final(self).children@ == old(self).children@.push(child),
            !r ==> final(self).children == old(self).children,
            final(self).mod_time == old(self).mod_time,
            final(self).sync_time == old(self).sync_time,
            final(self).status == old(self).status,
            final(self).wd == old(self).wd,
            final(self).path == old(self).path,
            final(self).is_dir == old(self).is_dir,
            final(self).create_time == old(self).create_time,
    {
        if was_child || child.status.exist() {
            self.children.push(child);
            true
        } else {
            false
        }
    }

    /// Ends one step of the walk towards a sync target: the child is put back, a
    /// tombstone with a live child becomes live (its directory already exists on
    /// disk), and the modification clock is rolled up. Returns whether this node
    /// was brought back to life, so that it needs a watch.
    pub fn finish_walk_step(&mut self, child: Node, was_child: bool) -> (r: bool)
        ensures
            r == (old(self).status == NodeStatus::Deleted && child.status == NodeStatus::Exist),
            final(self).status == (if r {
                NodeStatus::Exist
            } else {
                old(self).status
            }),
            (was_child || child.status == NodeStatus::Exist) ==> final(self).children@ == old(
                self,
            ).children@.push(child),
            !(was_child || child.status == NodeStatus::Exist) ==> final(self).children == old(
                self,
            ).children,
            final(self).mod_time@ == mod_join(final(self).children@),
            final(self).sync_time == old(self).sync_time,
            final(self).wd == old(self).wd,
            final(self).path == old(self).path,
            final(self).is_dir == old(self).is_dir,
            final(self).create_time == old(self).create_time,
    {
        let child_live = child.status.exist();
        self.put_child(child, was_child);
        let revived = self.status.deleted() && child_live;
        if revived {
            self.status = NodeStatus::Exist;
        }
        self.pushup_mod();
        revived
    }

    /// Installs the watch of a directory that became live.
    pub fn set_watch(&mut self, wd: Option<i32>)
        ensures
            final(self).wd == wd,
            final(self).status == old(self).status,
            final(self).children == old(self).children,
            final(self).mod_time == old(self).mod_time,
            final(self).sync_time == old(self).sync_time,
            final(self).path == old(self).path,
            final(self).is_dir == old(self).is_dir,
            final(self).create_time == old(self).create_time,
    {
        self.wd = wd;
    }
}

} // verus!

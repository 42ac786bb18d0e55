//! The recursive sync of a subtree from a peer replica: a walk down to the
//! target, then the decision table at every node below it. The tree is updated
//! as the sync goes; the work on disk is returned as a list of steps, in order.
use vstd::prelude::*;

use crate::modification::texts;
use crate::node::{lemma_tree_watch_ok, tree_watch_ok, watch_ok, Node, NodeStatus, SyncType};
use crate::path_local::{split_names, PathLocal};
use crate::replica::Replica;
use crate::node::{bumped, child_pos, mod_join, name_of};
use crate::query::{query_end, QueryEnd};
use crate::sync::{any_exist, stamp, table, DirOutcome, SyncAction};
use crate::timestamp::vt_leq;
use crate::text::copy_strings;

verus! {

/// How deep below its target a sync descends at most.
pub const MAX_LEVELS: usize = 2048;

/// What a sync step does, on disk or for the operator.
#[derive(Copy, Clone, PartialEq, Eq, Debug, Structural)]
pub enum StepKind {
    /// A decision of the table for one node; for `Overwrite`,
    /// `CreateToIndependentEmpty` and `Delete` the file is to be written or removed.
    File(SyncAction),
    /// An emptied directory is to be removed (and the watch given dropped).
    DeleteDir(Option<i32>),
    /// A directory is to exist, and to be watched.
    CreateDir,
    /// A directory on the way to the target is to exist, and to be watched.
    CreateForParent,
}

/// One step of a sync: what to do, where, and which watch to freeze meanwhile.
#[derive(Debug)]
pub struct SyncStep {
    pub kind: StepKind,
    pub path: PathLocal,
    pub freeze: Option<i32>,
}

/// What `remote` answers about the node at `names`: liveness, kind, creation
/// stamp, modification clock and sync clock.
pub open spec fn remote_answer(remote: Replica, names: Seq<Seq<char>>) -> (
    bool,
    bool,
    (i32, i32),
    Map<i32, int>,
    Map<i32, int>,
) {
    match query_end(remote.base_node, names, 0) {
        QueryEnd::Found(n) => (
            n.status == NodeStatus::Exist,
            n.is_dir,
            stamp(n.create_time),
            n.mod_time@,
            n.sync_time@.insert(remote.id, remote.counter as int),
        ),
        QueryEnd::Missing(p) => (
            false,
            false,
            (0, 0),
            Map::empty(),
            p.sync_time@.insert(remote.id, remote.counter as int),
        ),
    }
}

/// The decision of the table for the local node `l` and the node of `remote` at
/// the same names.
pub open spec fn decision_for(l: Node, remote: Replica) -> SyncAction {
    let a = remote_answer(remote, l.path@.names);
    table(
        l.status == NodeStatus::Exist,
        l.is_dir,
        stamp(l.create_time),
        l.mod_time@,
        l.sync_time@,
        a.0,
        a.1,
        a.2,
        a.3,
        a.4,
    )
}

/// Some node of the list is called `name`.
pub open spec fn has_name(s: Seq<Node>, name: Seq<char>) -> bool {
    exists|j: int| 0 <= j < s.len() && name_of(#[trigger] s[j]) == name
}

/// Whether an action writes or removes a file.
pub open spec fn writes_file(a: SyncAction) -> bool {
    a == SyncAction::Overwrite || a == SyncAction::CreateToIndependentEmpty || a
        == SyncAction::Delete
}

fn add_name(names: &mut Vec<String>, name: &String)
    ensures
        texts(final(names)@).to_set() == texts(old(names)@).to_set().insert(name@),
{
    let mut i: usize = 0;
    while i < names.len()
        invariant
            i <= names.len(),
            names@ == old(names)@,
            forall|j: int| 0 <= j < i ==> (#[trigger] names@[j])@ != name@,
        decreases names.len() - i,
    {
        if names[i] == *name {
            proof {
                assert(texts(names@)[i as int] == name@);
                assert(texts(names@).to_set().contains(name@));
                assert(texts(names@).to_set().insert(name@) =~= texts(names@).to_set());
            }
            return;
        }
        i += 1;
    }
    let ghost before = names@;
    names.push(name.clone());
    proof {
        assert(texts(names@) =~= texts(before).push(name@));
        texts(before).lemma_push_to_set_commute(name@);
    }
}

/// The names of `a` and of `b`, each once.
pub fn union_names(a: &Vec<String>, b: &Vec<String>) -> (r: Vec<String>)
    ensures
        texts(r@).to_set() == texts(a@).to_set() + texts(b@).to_set(),
{
    let mut r: Vec<String> = Vec::new();
    let mut i: usize = 0;
    proof {
        assert(texts(r@).to_set() =~= Set::<Seq<char>>::empty());
    }
    while i < a.len()
        invariant
            i <= a.len(),
            texts(r@).to_set() == texts(a@.subrange(0, i as int)).to_set(),
        decreases a.len() - i,
    {
        add_name(&mut r, &a[i]);
        proof {
            assert(texts(a@.subrange(0, i + 1)) =~= texts(a@.subrange(0, i as int)).push(a@[i as int]@));
            texts(a@.subrange(0, i as int)).lemma_push_to_set_commute(a@[i as int]@);
        }
        i += 1;
    }
    let mut k: usize = 0;
    proof {
        assert(a@.subrange(0, a.len() as int) =~= a@);
        assert(texts(r@).to_set() =~= texts(a@).to_set() + texts(b@.subrange(0, 0)).to_set());
    }
    while k < b.len()
        invariant
            k <= b.len(),
            texts(r@).to_set() == texts(a@).to_set() + texts(b@.subrange(0, k as int)).to_set(),
        decreases b.len() - k,
    {
        add_name(&mut r, &b[k]);
        proof {
            assert(texts(b@.subrange(0, k + 1)) =~= texts(b@.subrange(0, k as int)).push(b@[k as int]@));
            texts(b@.subrange(0, k as int)).lemma_push_to_set_commute(b@[k as int]@);
            assert(texts(r@).to_set() =~= texts(a@).to_set() + texts(b@.subrange(0, k + 1)).to_set());
        }
        k += 1;
    }
    proof {
        assert(b@.subrange(0, b.len() as int) =~= b@);
    }
    r
}

/// What a sync of the node `o` from `remote` leaves: `n` is the node after it,
/// `s0` and `s1` the steps before and after, `ok` whether it succeeded. A
/// file-level decision of the table is carried out on the node and recorded as
/// one step; a directory ends as `finish_dir_sync` says, with its step.
pub open spec fn synced(
    o: Node,
    n: Node,
    remote: Replica,
    id: i32,
    time: i32,
    p_wd: Option<i32>,
    s0: Seq<SyncStep>,
    s1: Seq<SyncStep>,
    ok: bool,
) -> bool {
    &&& s1.len() >= s0.len()
    &&& n.path@ == o.path@
    &&& tree_watch_ok(o) ==> tree_watch_ok(n)
    &&& ({
        let a = decision_for(o, remote);
        let ans = remote_answer(remote, o.path@.names);
        a != SyncAction::SyncDir ==> {
            &&& ok
            &&& s1.len() == s0.len() + 1
            &&& s1.last().kind == StepKind::File(a)
            &&& s1.last().path@ == o.path@
            &&& s1.last().freeze == (if o.wd is Some {
                o.wd
            } else {
                p_wd
            })
            &&& n.children == o.children
            &&& n.wd == (if a == SyncAction::Delete {
                None
            } else {
                o.wd
            })
            &&& if writes_file(a) {
                &&& n.mod_time@ == ans.3
                &&& n.sync_time@ == bumped(ans.4, id, time)
                &&& n.status == (if a == SyncAction::Delete {
                    NodeStatus::Deleted
                } else {
                    NodeStatus::Exist
                })
                &&& (a != SyncAction::Delete ==> stamp(n.create_time) == ans.2)
            } else {
                &&& n.mod_time == o.mod_time
                &&& n.sync_time == o.sync_time
                &&& n.status == o.status
                &&& n.create_time == o.create_time
            }
        }
    })
    &&& ({
        let a = decision_for(o, remote);
        let ans = remote_answer(remote, o.path@.names);
        let kids = n.children@;
        let gone = !ans.0 && vt_leq(mod_join(kids), ans.4) && !any_exist(kids);
        a == SyncAction::SyncDir && ok ==> {
            &&& n.sync_time@ == bumped(ans.4, id, time)
            &&& n.mod_time@ == mod_join(kids)
            &&& n.create_time == o.create_time
            &&& n.status == (if gone {
                NodeStatus::Deleted
            } else if o.status == NodeStatus::Deleted {
                NodeStatus::Exist
            } else {
                o.status
            })
            &&& (gone ==> n.wd is None)
            &&& (gone ==> s1.last().kind == StepKind::DeleteDir(o.wd))
            &&& (gone ==> s1.last().path@ == o.path@)
            &&& (!gone && o.status == NodeStatus::Deleted ==> n.is_dir)
            &&& (!gone && o.status == NodeStatus::Deleted ==> s1.last().kind
                == StepKind::CreateDir)
            &&& (!gone && o.status == NodeStatus::Deleted ==> s1.last().path@
                == o.path@)
            &&& (!gone ==> n.wd == o.wd)
        }
    })
}

/// What a sync along `walk` from `depth` on leaves, node `o` before and `n`
/// after, steps `s0` before and `s1` after, `ok` whether it succeeded. At the
/// target the node is `synced`. Above it, the child of the next name (or a
/// synthesized tombstone when there is none) is synced along the rest of the
/// walk and put back at the end of the children when it was a child or became
/// live; a tombstone above a live child is brought back as a directory, with a
/// `CreateForParent` step, and the modification clock is rolled up.
pub open spec fn walk_synced(
    o: Node,
    n: Node,
    remote: Replica,
    walk: Seq<Seq<char>>,
    depth: int,
    id: i32,
    time: i32,
    p_wd: Option<i32>,
    s0: Seq<SyncStep>,
    s1: Seq<SyncStep>,
    ok: bool,
) -> bool
    decreases walk.len() - depth,
{
    if depth < 0 || depth >= walk.len() {
        synced(o, n, remote, id, time, p_wd, s0, s1, ok)
    } else {
        let j = child_pos(o.children@, walk[depth]);
        exists|c0: Node, c1: Node, mid: Seq<SyncStep>|
            #![trigger taken_child(o, walk[depth], c0), walk_step(o, n, j, c1, mid, s1, ok)]
            {
                &&& taken_child(o, walk[depth], c0)
                &&& walk_synced(c0, c1, remote, walk, depth + 1, id, time, inherited(o, p_wd), s0, mid, ok)
                &&& walk_step(o, n, j, c1, mid, s1, ok)
            }
    }
}

/// `c0` is the child of `o` called `name`, or, when there is none, the tombstone
/// synthesized for it, which inherits `o`'s sync clock.
pub open spec fn taken_child(o: Node, name: Seq<char>, c0: Node) -> bool {
    let j = child_pos(o.children@, name);
    if j >= 0 {
        c0 == o.children@[j]
    } else {
        &&& c0.status == NodeStatus::Deleted
        &&& c0.wd is None
        &&& c0.children@.len() == 0
        &&& !c0.is_dir
        &&& stamp(c0.create_time) == (0i32, 0i32)
        &&& c0.mod_time@ == Map::<i32, int>::empty()
        &&& c0.sync_time@ == o.sync_time@
        &&& c0.path@.names == o.path@.names.push(name)
    }
}

proof fn lemma_walk_synced_intro(
    o: Node,
    n: Node,
    remote: Replica,
    walk: Seq<Seq<char>>,
    depth: int,
    id: i32,
    time: i32,
    p_wd: Option<i32>,
    s0: Seq<SyncStep>,
    s1: Seq<SyncStep>,
    ok: bool,
    c0: Node,
    c1: Node,
    mid: Seq<SyncStep>,
)
    requires
        0 <= depth < walk.len(),
        taken_child(o, walk[depth], c0),
        walk_synced(c0, c1, remote, walk, depth + 1, id, time, inherited(o, p_wd), s0, mid, ok),
        walk_step(o, n, child_pos(o.children@, walk[depth]), c1, mid, s1, ok),
    ensures
        walk_synced(o, n, remote, walk, depth, id, time, p_wd, s0, s1, ok),
{
}

/// The nearest watch for the children of `o`: its own, else the one above it.
pub open spec fn inherited(o: Node, p_wd: Option<i32>) -> Option<i32> {
    if o.wd is Some {
        o.wd
    } else {
        p_wd
    }
}

/// One step of the walk back up: `c1` is the synced child, `mid` the steps after
/// its sync.
pub open spec fn walk_step(
    o: Node,
    n: Node,
    j: int,
    c1: Node,
    mid: Seq<SyncStep>,
    s1: Seq<SyncStep>,
    ok: bool,
) -> bool {
    let rest = if j >= 0 { o.children@.remove(j) } else { o.children@ };
    let kept = j >= 0 || c1.status == NodeStatus::Exist;
    let revived = ok && o.status == NodeStatus::Deleted && c1.status == NodeStatus::Exist;
    &&& n.children@ == (if kept { rest.push(c1) } else { rest })
    &&& n.sync_time == o.sync_time
    &&& n.create_time == o.create_time
    &&& n.wd == o.wd
    &&& n.path@ == o.path@
    &&& n.status == (if revived { NodeStatus::Exist } else { o.status })
    &&& (ok ==> n.mod_time@ == mod_join(n.children@))
    &&& (revived ==> n.is_dir && s1.len() == mid.len() + 1 && s1.drop_last() == mid
        && s1.last().kind == StepKind::CreateForParent && s1.last().path@ == o.path@)
    &&& (!revived ==> s1 == mid)
}

impl Node {
    /// Syncs this node, the target or a node below it, from the same node of
    /// `remote`, following the decision table; a directory syncs each name that
    /// either side has, then ends as `finish_dir_sync` says. `p_wd` is the
    /// nearest watch above. Steps for the disk are appended to `steps`. Returns
    /// the node's status after the sync.
    pub fn sync_node(
        &mut self,
        remote: &Replica,
        id: i32,
        time: i32,
        p_wd: Option<i32>,
        levels: usize,
        steps: &mut Vec<SyncStep>,
    ) -> (r: Result<NodeStatus, String>)
        requires
            remote.counter > 0,
        ensures
            r is Ok ==> r->Ok_0 == final(self).status,
            r is Err ==> r->Err_0@ == "Sync Node : the tree is too deep"@,
            synced(*old(self), *final(self), *remote, id, time, p_wd, old(steps)@, final(steps)@, r is Ok),
            r is Ok && decision_for(*old(self), *remote) == SyncAction::SyncDir ==> forall|i: int|
                0 <= i < old(self).children@.len() ==> #[trigger] has_name(
                    final(self).children@,
                    name_of(old(self).children@[i]),
                ),
        decreases levels,
    {
        let names_here = self.path.names();
        proof {
            assert(texts(names_here@) == self.path@.names);
            lemma_tree_watch_ok(*old(self));
        }
        let rq = remote.query_names(names_here);
        let (rd, rdir) = rq.to_data();
        let np_wd = match self.wd {
            Some(w) => Some(w),
            None => p_wd,
        };
        let action = self.decide(self.is_dir, &rd, rdir);
        match action {
            SyncAction::Overwrite => {
                self.sync_work(SyncType::Override, &rd, id, time);
            },
            SyncAction::Delete => {
                self.sync_work(SyncType::Delete, &rd, id, time);
            },
            SyncAction::CreateToIndependentEmpty => {
                self.sync_work(SyncType::Create, &rd, id, time);
            },
            _ => {},
        }
        if action != SyncAction::SyncDir {
            steps.push(SyncStep { kind: StepKind::File(action), path: self.path.duplicate(), freeze: np_wd });
            return Ok(self.status);
        }
        if levels == 0 {
            return Err(String::from_str("Sync Node : the tree is too deep"));
        }
        let names = union_names(&self.child_names(), &rd.children);
        let mut i: usize = 0;
        while i < names.len()
            invariant
                i <= names.len(),
                remote.counter > 0,
                levels > 0,
                steps@.len() >= old(steps)@.len(),
                self.path@ == old(self).path@,
                decision_for(*old(self), *remote) == SyncAction::SyncDir,
                self.status == old(self).status,
                self.wd == old(self).wd,
                self.create_time == old(self).create_time,
                forall|q: int|
                    0 <= q < old(self).children@.len() ==> #[trigger] has_name(
                        self.children@,
                        name_of(old(self).children@[q]),
                    ),
                rd.sync_time@ == remote_answer(*remote, old(self).path@.names).4,
                rd.status == (if remote_answer(*remote, old(self).path@.names).0 {
                    NodeStatus::Exist
                } else {
                    NodeStatus::Deleted
                }),
                tree_watch_ok(*old(self)) ==> watch_ok(*self),
                tree_watch_ok(*old(self)) ==> forall|j: int|
                    0 <= j < self.children@.len() ==> #[trigger] tree_watch_ok(self.children@[j]),
            decreases names.len() - i,
        {
            let ghost kids = self.children@;
            let (mut child, was_child) = self.take_child(&names[i]);
            let ghost c0 = child;
            let ghost rest = self.children@;
            proof {
                if tree_watch_ok(*old(self)) {
                    if was_child {
                        let q = choose|q: int|
                            0 <= q < kids.len() && kids[q] == child && self.children@ == kids.remove(q);
                        assert(tree_watch_ok(kids[q]));
                        assert forall|j: int| 0 <= j < self.children@.len() implies #[trigger] tree_watch_ok(
                            self.children@[j],
                        ) by {
                            let j2 = if j < q { j } else { j + 1 };
                            assert(self.children@[j] == kids[j2]);
                        }
                    }
                }
            }
            let res = child.sync_node(remote, id, time, np_wd, levels - 1, steps);
            let ghost before_put = self.children@;
            let kept = self.put_child(child, was_child);
            proof {
                assert forall|q: int| 0 <= q < old(self).children@.len() implies #[trigger] has_name(
                    self.children@,
                    name_of(old(self).children@[q]),
                ) by {
                    let x = name_of(old(self).children@[q]);
                    assert(has_name(kids, x));
                    let jj = choose|jj: int| 0 <= jj < kids.len() && name_of(#[trigger] kids[jj]) == x;
                    if was_child {
                        let p = child_pos(kids, names@[i as int]@);
                        assert(rest == kids.remove(p));
                        assert(self.children@ == rest.push(child));
                        if jj == p {
                            assert(name_of(child) == name_of(c0));
                            assert(self.children@[rest.len() as int] == child);
                        } else {
                            let j2 = if jj < p { jj } else { jj - 1 };
                            assert(rest[j2] == kids[jj]);
                            assert(self.children@[j2] == kids[jj]);
                        }
                    } else {
                        assert(rest == kids);
                        assert(self.children@[jj] == kids[jj]);
                    }
                }
                if tree_watch_ok(*old(self)) && kept {
                    assert forall|j: int| 0 <= j < self.children@.len() implies #[trigger] tree_watch_ok(
                        self.children@[j],
                    ) by {
                        if j < before_put.len() {
                            assert(self.children@[j] == before_put[j]);
                        }
                    }
                }
                lemma_tree_watch_ok(*self);
            }
            match res {
                Err(e) => {
                    return Err(e);
                },
                Ok(_) => {},
            }
            i += 1;
        }
        proof {
            lemma_tree_watch_ok(*self);
        }
        let outcome = self.finish_dir_sync(&rd, id, time);
        proof {
            lemma_tree_watch_ok(*self);
        }
        match outcome {
            DirOutcome::Delete(dropped) => {
                steps.push(SyncStep { kind: StepKind::DeleteDir(dropped), path: self.path.duplicate(), freeze: p_wd });
            },
            DirOutcome::Materialize => {
                self.is_dir = true;
                proof {
                    lemma_tree_watch_ok(*self);
                }
                steps.push(SyncStep { kind: StepKind::CreateDir, path: self.path.duplicate(), freeze: p_wd });
            },
            DirOutcome::Keep => {},
        }
        Ok(self.status)
    }

    /// Walks down `walk` from `depth` to the sync target, synthesizing tombstones
    /// for names this replica lacks, syncs the target, and on the way back puts
    /// live children in place and brings tombstoned directories above them back.
    pub fn handle_sync(
        &mut self,
        walk: &Vec<String>,
        depth: usize,
        remote: &Replica,
        id: i32,
        time: i32,
        p_wd: Option<i32>,
        steps: &mut Vec<SyncStep>,
    ) -> (r: Result<NodeStatus, String>)
        requires
            remote.counter > 0,
            depth <= walk.len(),
        ensures
            r is Ok ==> r->Ok_0 == final(self).status,
            final(steps)@.len() >= old(steps)@.len(),
            final(self).path@ == old(self).path@,
            tree_watch_ok(*old(self)) ==> tree_watch_ok(*final(self)),
            r is Err ==> r->Err_0@ == "Sync Node : the tree is too deep"@,
            walk_synced(
                *old(self),
                *final(self),
                *remote,
                texts(walk@),
                depth as int,
                id,
                time,
                p_wd,
                old(steps)@,
                final(steps)@,
                r is Ok,
            ),
        decreases walk.len() - depth,
    {
        if depth >= walk.len() {
            return self.sync_node(remote, id, time, p_wd, MAX_LEVELS, steps);
        }
        let np_wd = match self.wd {
            Some(w) => Some(w),
            None => p_wd,
        };
        proof {
            lemma_tree_watch_ok(*old(self));
        }
        let ghost w = texts(walk@);
        proof {
            assert(w[depth as int] == walk@[depth as int]@);
        }
        let (mut child, was_child) = self.take_child(&walk[depth]);
        let ghost c0 = child;
        proof {
            if tree_watch_ok(*old(self)) && was_child {
                let q = choose|q: int|
                    0 <= q < old(self).children@.len() && old(self).children@[q] == child
                        && self.children@ == old(self).children@.remove(q);
                assert(tree_watch_ok(old(self).children@[q]));
                assert forall|j: int| 0 <= j < self.children@.len() implies #[trigger] tree_watch_ok(
                    self.children@[j],
                ) by {
                    let j2 = if j < q { j } else { j + 1 };
                    assert(self.children@[j] == old(self).children@[j2]);
                }
            }
        }
        let ghost taken = self.children@;
        let res = child.handle_sync(walk, depth + 1, remote, id, time, np_wd, steps);
        let ghost c1 = child;
        let ghost mid = steps@;
        let ghost j = child_pos(old(self).children@, w[depth as int]);
        proof {
            if tree_watch_ok(*old(self)) {
                assert forall|j: int| 0 <= j < taken.push(child).len() implies #[trigger] tree_watch_ok(
                    taken.push(child)[j],
                ) by {
                    if j < taken.len() {
                        assert(taken.push(child)[j] == taken[j]);
                    }
                }
            }
        }
        match res {
            Err(e) => {
                self.put_child(child, was_child);
                proof {
                    lemma_tree_watch_ok(*self);
                    assert(was_child == (j >= 0));
                    assert(walk_step(*old(self), *self, j, c1, mid, steps@, false));
                    assert(np_wd == inherited(*old(self), p_wd));
                    assert(walk_synced(c0, c1, *remote, w, depth + 1, id, time, inherited(*old(self), p_wd), old(steps)@, mid, false));
                    lemma_walk_synced_intro(*old(self), *self, *remote, w, depth as int, id, time, p_wd, old(steps)@, steps@, false, c0, c1, mid);
                }
                Err(e)
            },
            Ok(_) => {
                let revived = self.finish_walk_step(child, was_child);
                proof {
                    lemma_tree_watch_ok(*self);
                }
                if revived {
                    self.is_dir = true;
                    proof {
                        lemma_tree_watch_ok(*self);
                    }
                    steps.push(SyncStep { kind: StepKind::CreateForParent, path: self.path.duplicate(), freeze: p_wd });
                    proof {
                        assert(steps@.drop_last() =~= mid);
                    }
                }
                proof {
                    assert(walk_step(*old(self), *self, j, c1, mid, steps@, true));
                    assert(np_wd == inherited(*old(self), p_wd));
                    assert(walk_synced(c0, c1, *remote, w, depth + 1, id, time, inherited(*old(self), p_wd), old(steps)@, mid, true));
                    lemma_walk_synced_intro(*old(self), *self, *remote, w, depth as int, id, time, p_wd, old(steps)@, steps@, true, c0, c1, mid);
                }
                Ok(self.status)
            },
        }
    }
}

impl Replica {
    /// Syncs the subtree at `path_rel` from `remote`, at a new time of this
    /// replica. Returns the steps for the disk, in order.
    pub fn handle_sync(&mut self, path_rel: &str, remote: &Replica) -> (r: Result<Vec<SyncStep>, String>)
        requires
            old(self).counter < i32::MAX,
            remote.counter > 0,
            !(path_rel@.len() > 0 && path_rel@[0] == '/'),
        ensures
            final(self).counter == old(self).counter + 1,
            final(self).id == old(self).id,
            tree_watch_ok(old(self).base_node) ==> tree_watch_ok(final(self).base_node),
            r is Ok ==> walk_synced(
                    old(self).base_node,
                    final(self).base_node,
                    *remote,
                    split_names(path_rel@),
                    0,
                    old(self).id,
                    (old(self).counter + 1) as i32,
                    None,
                    Seq::empty(),
                    r->Ok_0@,
                    true,
                ),
            r is Err ==> r->Err_0@ == "Sync Node : the tree is too deep"@,
            r is Err ==> exists|s: Seq<SyncStep>|
                #[trigger] walk_synced(
                    old(self).base_node,
                    final(self).base_node,
                    *remote,
                    split_names(path_rel@),
                    0,
                    old(self).id,
                    (old(self).counter + 1) as i32,
                    None,
                    Seq::empty(),
                    s,
                    false,
                ),
    {
        let time = self.add_counter();
        let path = PathLocal::new_from_rel(self.base_node.path.prefix().as_str(), path_rel);
        let walk = copy_strings(path.names());
        proof {
            assert(texts(walk@) == split_names(path_rel@));
        }
        let mut steps: Vec<SyncStep> = Vec::new();
        let id = self.id;
        let res = self.base_node.handle_sync(&walk, 0, remote, id, time, None, &mut steps);
        proof {
            assert(walk_synced(
                old(self).base_node,
                self.base_node,
                *remote,
                split_names(path_rel@),
                0,
                old(self).id,
                (old(self).counter + 1) as i32,
                None,
                Seq::empty(),
                steps@,
                res is Ok,
            ));
        }
        match res {
            Ok(_) => Ok(steps),
            Err(e) => Err(e),
        }
    }
}

} // verus!

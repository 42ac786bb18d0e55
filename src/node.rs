//! The replicated tree: one node per file or directory, live or tombstoned.
use vstd::prelude::*;

use crate::path_local::PathLocal;
use crate::timestamp::{
    lemma_join_least_upper_bound, lemma_join_valid, lemma_leq_transitive, lemma_single_valid,
    vt_get, vt_join, vt_leq, vt_single, vt_valid, SingletonTime, VectorTime,
};

verus! {

/// Whether a node stands for a live entry or a tombstone.
#[derive(Debug, Clone, Copy, PartialEq, Eq, Structural)]
pub enum NodeStatus {
    Exist,
    Deleted,
}

impl NodeStatus {
    pub fn deleted(&self) -> (r: bool)
        ensures
            r == (*self == NodeStatus::Deleted),
    {
        *self == NodeStatus::Deleted
    }

    pub fn exist(&self) -> (r: bool)
        ensures
            r == (*self == NodeStatus::Exist),
    {
        *self == NodeStatus::Exist
    }

    pub fn set_deleted(&mut self)
        ensures
            *final(self) == NodeStatus::Deleted,
    {
        *self = NodeStatus::Deleted;
    }

    pub fn set_exist(&mut self)
        ensures
            *final(self) == NodeStatus::Exist,
    {
        *self = NodeStatus::Exist;
    }

    /// `self |= rhs`: any `Exist` makes `Exist`.
    pub fn bitor_assign(&mut self, rhs: Self)
        ensures
            *final(self) == if rhs == NodeStatus::Exist {
                NodeStatus::Exist
            } else {
                *old(self)
            },
    {
        if rhs == NodeStatus::Exist {
            *self = NodeStatus::Exist;
        }
    }
}

/// The kind of a local file-system event.
#[derive(Copy, Clone, PartialEq, Eq, Debug, Structural)]
pub enum ModType {
    Create,
    Delete,
    Modify,
    MovedTo,
    MovedFrom,
}

/// A local event on the entry `name` of a watched directory, stamped with `time`.
#[derive(Clone, Debug)]
pub struct ModOption {
    pub ty: ModType,
    pub time: i32,
    pub name: String,
    pub is_dir: bool,
}

/// The file-level work that a sync decided on.
#[derive(Copy, Clone, PartialEq, Eq, Debug, Structural)]
pub enum SyncType {
    Create,
    Override,
    Delete,
}

/// One file or directory of a replica, live or tombstoned.
#[derive(Debug)]
pub struct Node {
    pub path: PathLocal,
    pub is_dir: bool,
    pub children: Vec<Node>,
    pub mod_time: VectorTime,
    pub sync_time: VectorTime,
    pub create_time: SingletonTime,
    pub status: NodeStatus,
    pub wd: Option<i32>,
}

/// The name of a node: the last name of its path.
pub open spec fn name_of(n: Node) -> Seq<char> {
    if n.path@.names.len() > 0 {
        n.path@.names.last()
    } else {
        Seq::empty()
    }
}

/// The position of the last node of a list called `name`, or -1.
pub open spec fn child_pos(s: Seq<Node>, name: Seq<char>) -> int
    decreases s.len(),
{
    if s.len() == 0 {
        -1
    } else if name_of(s.last()) == name {
        s.len() - 1
    } else {
        child_pos(s.drop_last(), name)
    }
}

pub proof fn lemma_child_pos(s: Seq<Node>, name: Seq<char>)
    ensures
        -1 <= child_pos(s, name) < s.len(),
        child_pos(s, name) >= 0 ==> name_of(s[child_pos(s, name)]) == name,
        child_pos(s, name) == -1 <==> forall|i: int|
            0 <= i < s.len() ==> name_of(#[trigger] s[i]) != name,
    decreases s.len(),
{
    if s.len() > 0 {
        lemma_child_pos(s.drop_last(), name);
        if name_of(s.last()) != name {
            assert forall|i: int| 0 <= i < s.len() - 1 implies s[i] == #[trigger] s.drop_last()[i] by {}
            if child_pos(s, name) == -1 {
                assert forall|i: int| 0 <= i < s.len() implies name_of(#[trigger] s[i]) != name by {
                    if i < s.len() - 1 {
                        assert(s[i] == s.drop_last()[i]);
                    }
                }
            }
        }
    }
}

/// A tombstone holds no watch.
pub open spec fn watch_ok(n: Node) -> bool {
    n.status == NodeStatus::Deleted ==> n.wd is None
}

/// The modification clock of a node is below its sync clock.
pub open spec fn dominated(n: Node) -> bool {
    vt_leq(n.mod_time@, n.sync_time@)
}

/// At every node of a subtree the modification clock is below the sync clock.
pub open spec fn tree_dominated(n: Node) -> bool
    decreases n, 1int, 0int,
{
    dominated(n) && children_dominated(n, n.children@.len() as int)
}

/// The subtrees of the first `k` children of `parent` are dominated.
pub open spec fn children_dominated(parent: Node, k: int) -> bool
    decreases parent, 0int, k,
{
    if k <= 0 || k > parent.children@.len() {
        true
    } else {
        children_dominated(parent, k - 1) && tree_dominated(parent.children@[k - 1])
    }
}

/// No tombstone of a subtree holds a watch.
pub open spec fn tree_watch_ok(n: Node) -> bool
    decreases n, 1int, 0int,
{
    watch_ok(n) && children_watch_ok(n, n.children@.len() as int)
}

/// No tombstone below the first `k` children of `parent` holds a watch.
pub open spec fn children_watch_ok(parent: Node, k: int) -> bool
    decreases parent, 0int, k,
{
    if k <= 0 || k > parent.children@.len() {
        true
    } else {
        children_watch_ok(parent, k - 1) && tree_watch_ok(parent.children@[k - 1])
    }
}

pub proof fn lemma_children_watch_ok(parent: Node, k: int)
    requires
        0 <= k <= parent.children@.len(),
    ensures
        children_watch_ok(parent, k) <==> forall|i: int|
            0 <= i < k ==> #[trigger] tree_watch_ok(parent.children@[i]),
    decreases k,
{
    if k > 0 {
        lemma_children_watch_ok(parent, k - 1);
        assert(children_watch_ok(parent, k) == (children_watch_ok(parent, k - 1) && tree_watch_ok(
            parent.children@[k - 1],
        )));
        if children_watch_ok(parent, k) {
            assert forall|i: int| 0 <= i < k implies #[trigger] tree_watch_ok(parent.children@[i]) by {
                if i < k - 1 {
                    assert(tree_watch_ok(parent.children@[i]));
                }
            }
        }
    }
}

/// No tombstone of a subtree holds a watch when none of its root and its
/// children's subtrees does.
pub proof fn lemma_tree_watch_ok(n: Node)
    ensures
        tree_watch_ok(n) <==> watch_ok(n) && forall|i: int|
            0 <= i < n.children@.len() ==> #[trigger] tree_watch_ok(n.children@[i]),
{
    lemma_children_watch_ok(n, n.children@.len() as int);
}

/// Every node of a subtree is a tombstone without a watch.
pub open spec fn tree_tombstoned(n: Node) -> bool
    decreases n, 1int, 0int,
{
    n.status == NodeStatus::Deleted && n.wd is None && children_tombstoned(n, n.children@.len() as int)
}

/// The subtrees of the first `k` children of `parent` are tombstoned.
pub open spec fn children_tombstoned(parent: Node, k: int) -> bool
    decreases parent, 0int, k,
{
    if k <= 0 || k > parent.children@.len() {
        true
    } else {
        children_tombstoned(parent, k - 1) && tree_tombstoned(parent.children@[k - 1])
    }
}

proof fn lemma_children_tombstoned(parent: Node, k: int)
    requires
        0 <= k <= parent.children@.len(),
    ensures
        children_tombstoned(parent, k) <==> forall|i: int|
            0 <= i < k ==> #[trigger] tree_tombstoned(parent.children@[i]),
    decreases k,
{
    if k > 0 {
        lemma_children_tombstoned(parent, k - 1);
        assert(children_tombstoned(parent, k) == (children_tombstoned(parent, k - 1)
            && tree_tombstoned(parent.children@[k - 1])));
        if children_tombstoned(parent, k) {
            assert forall|i: int| 0 <= i < k implies #[trigger] tree_tombstoned(parent.children@[i]) by {
                if i < k - 1 {
                    assert(tree_tombstoned(parent.children@[i]));
                }
            }
        }
    }
}

/// A subtree is tombstoned when its root is a tombstone without a watch and
/// every child's subtree is tombstoned.
pub proof fn lemma_tree_tombstoned(n: Node)
    ensures
        tree_tombstoned(n) <==> n.status == NodeStatus::Deleted && n.wd is None && forall|i: int|
            0 <= i < n.children@.len() ==> #[trigger] tree_tombstoned(n.children@[i]),
{
    lemma_children_tombstoned(n, n.children@.len() as int);
}

/// A tombstoned subtree holds no watch on a tombstone.
pub proof fn lemma_tombstoned_watch_ok(n: Node)
    requires
        tree_tombstoned(n),
    ensures
        tree_watch_ok(n),
    decreases n,
{
    lemma_tree_tombstoned(n);
    lemma_tree_watch_ok(n);
    assert forall|i: int| 0 <= i < n.children@.len() implies #[trigger] tree_watch_ok(
        n.children@[i],
    ) by {
        assert(decreases_to!(n => n.children@[i]));
        lemma_tombstoned_watch_ok(n.children@[i]);
    }
}

/// The watch `w` is held by a node of the subtree.
pub open spec fn watch_in(n: Node, w: i32) -> bool
    decreases n, 1int, 0int,
{
    n.wd == Some(w) || watch_in_children(n, n.children@.len() as int, w)
}

/// The watch `w` is held in the subtree of one of the first `k` children.
pub open spec fn watch_in_children(parent: Node, k: int, w: i32) -> bool
    decreases parent, 0int, k,
{
    if k <= 0 || k > parent.children@.len() {
        false
    } else {
        watch_in_children(parent, k - 1, w) || watch_in(parent.children@[k - 1], w)
    }
}

proof fn lemma_watch_in_children(parent: Node, k: int, w: i32)
    requires
        0 <= k <= parent.children@.len(),
    ensures
        watch_in_children(parent, k, w) <==> exists|i: int|
            0 <= i < k && #[trigger] watch_in(parent.children@[i], w),
    decreases k,
{
    if k > 0 {
        lemma_watch_in_children(parent, k - 1, w);
        assert(watch_in_children(parent, k, w) == (watch_in_children(parent, k - 1, w) || watch_in(
            parent.children@[k - 1],
            w,
        )));
        if watch_in(parent.children@[k - 1], w) {
            assert(exists|i: int| 0 <= i < k && #[trigger] watch_in(parent.children@[i], w));
        }
        if exists|i: int| 0 <= i < k && #[trigger] watch_in(parent.children@[i], w) {
            let i = choose|i: int| 0 <= i < k && #[trigger] watch_in(parent.children@[i], w);
            if i < k - 1 {
                assert(exists|i2: int| 0 <= i2 < k - 1 && #[trigger] watch_in(parent.children@[i2], w));
            }
        }
    }
}

/// A watch is held in a subtree when its root holds it or a child's subtree does.
pub proof fn lemma_watch_in(n: Node)
    ensures
        forall|w: i32| #[trigger] watch_in(n, w) <==> (n.wd == Some(w) || exists|i: int|
            0 <= i < n.children@.len() && #[trigger] watch_in(n.children@[i], w)),
{
    assert forall|w: i32| #[trigger] watch_in(n, w) <==> (n.wd == Some(w) || exists|i: int|
        0 <= i < n.children@.len() && #[trigger] watch_in(n.children@[i], w)) by {
        lemma_watch_in_children(n, n.children@.len() as int, w);
    }
}

/// Two subtrees hold the same data at every node.
pub open spec fn same_tree(a: Node, b: Node) -> bool
    decreases a, 1int, 0int,
{
    &&& a.path@ == b.path@
    &&& a.is_dir == b.is_dir
    &&& a.mod_time@ == b.mod_time@
    &&& a.sync_time@ == b.sync_time@
    &&& a.create_time == b.create_time
    &&& a.status == b.status
    &&& a.wd == b.wd
    &&& a.children@.len() == b.children@.len()
    &&& same_children(a, b, a.children@.len() as int)
}

/// The first `k` children of `a` and `b` hold the same subtrees.
pub open spec fn same_children(a: Node, b: Node, k: int) -> bool
    decreases a, 0int, k,
{
    if k <= 0 || k > a.children@.len() || k > b.children@.len() {
        true
    } else {
        same_children(a, b, k - 1) && same_tree(a.children@[k - 1], b.children@[k - 1])
    }
}

proof fn lemma_same_children(a: Node, b: Node, k: int)
    requires
        0 <= k <= a.children@.len(),
        k <= b.children@.len(),
    ensures
        same_children(a, b, k) <==> forall|i: int|
            0 <= i < k ==> #[trigger] same_tree(a.children@[i], b.children@[i]),
    decreases k,
{
    if k > 0 {
        lemma_same_children(a, b, k - 1);
        assert(same_children(a, b, k) == (same_children(a, b, k - 1) && same_tree(
            a.children@[k - 1],
            b.children@[k - 1],
        )));
        if same_children(a, b, k) {
            assert forall|i: int| 0 <= i < k implies #[trigger] same_tree(a.children@[i], b.children@[i]) by {
                if i < k - 1 {
                    assert(same_tree(a.children@[i], b.children@[i]));
                }
            }
        }
    }
}

/// `children_dominated` holds exactly when each of those children's subtrees is dominated.
pub proof fn lemma_children_dominated(parent: Node, k: int)
    requires
        0 <= k <= parent.children@.len(),
    ensures
        children_dominated(parent, k) <==> forall|i: int|
            0 <= i < k ==> #[trigger] tree_dominated(parent.children@[i]),
    decreases k,
{
    if k > 0 {
        lemma_children_dominated(parent, k - 1);
        assert(children_dominated(parent, k) == (children_dominated(parent, k - 1) && tree_dominated(
            parent.children@[k - 1],
        )));
        if children_dominated(parent, k) {
            assert forall|i: int| 0 <= i < k implies #[trigger] tree_dominated(parent.children@[i]) by {
                if i < k - 1 {
                    assert(tree_dominated(parent.children@[i]));
                }
            }
        }
    }
}

/// A subtree is dominated when its root is and every child's subtree is.
pub proof fn lemma_tree_dominated(n: Node)
    ensures
        tree_dominated(n) <==> dominated(n) && forall|i: int|
            0 <= i < n.children@.len() ==> #[trigger] tree_dominated(n.children@[i]),
{
    lemma_children_dominated(n, n.children@.len() as int);
}

/// The join of the modification clocks of a list of nodes.
pub open spec fn mod_join(s: Seq<Node>) -> Map<i32, int>
    decreases s.len(),
{
    if s.len() == 0 {
        Map::empty()
    } else {
        vt_join(mod_join(s.drop_last()), s.last().mod_time@)
    }
}

/// The join of a clock with one stamp, as the local clock of a node moves on.
pub open spec fn bumped(m: Map<i32, int>, id: i32, time: i32) -> Map<i32, int> {
    vt_join(m, vt_single(id, time))
}

/// What a bump does to one clock: nothing goes down, `id` reaches `time`,
/// the other ids stay.
pub proof fn lemma_bumped(m: Map<i32, int>, id: i32, time: i32)
    requires
        vt_valid(m),
    ensures
        vt_valid(bumped(m, id, time)),
        vt_get(bumped(m, id, time), id) >= vt_get(m, id),
        time > 0 ==> vt_get(bumped(m, id, time), id) >= time,
        time > vt_get(m, id) ==> bumped(m, id, time) == m.insert(id, time as int),
        vt_leq(m, bumped(m, id, time)),
        forall|k: i32| k != id ==> #[trigger] vt_get(bumped(m, id, time), k) == vt_get(m, k),
{
    lemma_single_valid(id, time);
    lemma_join_valid(m, vt_single(id, time));
    lemma_join_least_upper_bound(m, vt_single(id, time), m);
    if m.contains_key(id) {
        assert(m[id] > 0);
    }
    if time > vt_get(m, id) {
        assert(bumped(m, id, time) =~= m.insert(id, time as int));
    }
}

/// Bumping both clocks by one stamp keeps the modification clock below the sync clock.
pub proof fn lemma_bump_keeps_dominance(m: Map<i32, int>, s: Map<i32, int>, id: i32, time: i32)
    requires
        vt_valid(m),
        vt_valid(s),
        vt_leq(m, s),
    ensures
        vt_leq(bumped(m, id, time), bumped(s, id, time)),
{
    lemma_single_valid(id, time);
    lemma_join_least_upper_bound(m, vt_single(id, time), bumped(s, id, time));
    lemma_join_least_upper_bound(s, vt_single(id, time), s);
    lemma_leq_transitive(m, s, bumped(s, id, time));
}

impl Node {
    /// The base node of a replica: live, with empty clocks and the zero creation stamp.
    pub fn new_base_node(path: PathLocal, wd: Option<i32>) -> (r: Self)
        ensures
            watch_ok(r),
            dominated(r),
            r.path@ == path@,
            r.is_dir,
            r.children@.len() == 0,
            r.mod_time@ == Map::<i32, int>::empty(),
            r.sync_time@ == Map::<i32, int>::empty(),
            r.create_time.spec_id() == 0 && r.create_time.spec_time() == 0,
            r.status == NodeStatus::Exist,
            r.wd == wd,
            tree_dominated(r),
            tree_watch_ok(r),
    {
        let r = Node {
            path,
            is_dir: true,
            children: Vec::new(),
            mod_time: VectorTime::new_empty(),
            sync_time: VectorTime::new_empty(),
            create_time: SingletonTime::new(0, 0),
            status: NodeStatus::Exist,
            wd,
        };
        proof {
            lemma_tree_dominated(r);
            lemma_tree_watch_ok(r);
        }
        r
    }

    /// A node for an entry created locally by replica `id` at `time`.
    pub fn new_from_create(path: PathLocal, time: i32, id: i32, is_dir: bool, wd: Option<i32>) -> (r:
        Self)
        ensures
            watch_ok(r),
            dominated(r),
            r.path@ == path@,
            r.is_dir == is_dir,
            r.children@.len() == 0,
            r.create_time.spec_id() == id && r.create_time.spec_time() == time,
            r.mod_time@ == vt_single(id, time),
            r.sync_time@ == vt_single(id, time),
            r.status == NodeStatus::Exist,
            r.wd == wd,
            tree_dominated(r),
            tree_watch_ok(r),
    {
        let create_time = SingletonTime::new(id, time);
        let r = Node {
            path,
            is_dir,
            children: Vec::new(),
            mod_time: VectorTime::from_singleton_time(&create_time),
            sync_time: VectorTime::from_singleton_time(&create_time),
            create_time,
            status: NodeStatus::Exist,
            wd,
        };
        proof {
            lemma_tree_dominated(r);
            lemma_tree_watch_ok(r);
        }
        r
    }

    /// A tombstone synthesized for a name that has no node yet; it inherits the
    /// parent's sync clock.
    pub fn new_tmp(tmp_path: PathLocal, parent_sync_time: &VectorTime) -> (r: Self)
        ensures
            watch_ok(r),
            dominated(r),
            r.path@ == tmp_path@,
            !r.is_dir,
            r.children@.len() == 0,
            r.create_time.spec_id() == 0 && r.create_time.spec_time() == 0,
            r.mod_time@ == Map::<i32, int>::empty(),
            r.sync_time@ == parent_sync_time@,
            r.status == NodeStatus::Deleted,
            r.wd is None,
            tree_dominated(r),
            tree_watch_ok(r),
    {
        let r = Node {
            path: tmp_path,
            is_dir: false,
            children: Vec::new(),
            mod_time: VectorTime::new_empty(),
            sync_time: parent_sync_time.duplicate(),
            create_time: SingletonTime::new(0, 0),
            status: NodeStatus::Deleted,
            wd: None,
        };
        r.sync_time.note_valid();
        proof {
            assert forall|k: i32| #[trigger] vt_get(r.mod_time@, k) <= vt_get(r.sync_time@, k) by {
                if r.sync_time@.contains_key(k) {
                    assert(r.sync_time@[k] > 0);
                }
            }
            lemma_tree_dominated(r);
            lemma_tree_watch_ok(r);
        }
        r
    }

    /// Adds the entry `name` found on disk by a scan at `time` of replica `id`:
    /// one live child, created then, with the watch `wd` given for a directory.
    /// Returns its position.
    pub fn add_scanned(&mut self, name: &str, time: i32, id: i32, is_dir: bool, wd: Option<i32>) -> (r:
        usize)
        ensures
            r == old(self).children@.len(),
            final(self).children@.len() == old(self).children@.len() + 1,
            final(self).children@.drop_last() == old(self).children@,
            ({
                let c = final(self).children@.last();
                &&& c.path@.prefix == old(self).path@.prefix
                &&& c.path@.names == old(self).path@.names.push(name@)
                &&& c.status == NodeStatus::Exist
                &&& c.is_dir == is_dir
                &&& c.wd == wd
                &&& c.children@.len() == 0
                &&& c.create_time.spec_id() == id && c.create_time.spec_time() == time
                &&& c.mod_time@ == vt_single(id, time)
                &&& c.sync_time@ == vt_single(id, time)
                &&& tree_dominated(c)
                &&& tree_watch_ok(c)
            }),
            final(self).mod_time == old(self).mod_time,
            final(self).sync_time == old(self).sync_time,
            final(self).status == old(self).status,
            final(self).wd == old(self).wd,
            final(self).path == old(self).path,
            final(self).is_dir == old(self).is_dir,
            final(self).create_time == old(self).create_time,
    {
        let child = Node::new_from_create(self.path.join_name(name), time, id, is_dir, wd);
        let r = self.children.len();
        self.children.push(child);
        proof {
            assert(self.children@.drop_last() =~= old(self).children@);
        }
        r
    }

    /// A copy of the subtree, node by node.
    pub fn snapshot(&self) -> (r: Self)
        ensures
            same_tree(r, *self),
        decreases *self,
    {
        let mut children: Vec<Node> = Vec::new();
        let mut i: usize = 0;
        while i < self.children.len()
            invariant
                i <= self.children.len(),
                children@.len() == i,
                forall|j: int| 0 <= j < i ==> #[trigger] same_tree(children@[j], self.children@[j]),
            decreases self.children.len() - i,
        {
            proof {
                assert(decreases_to!(*self => self.children@[i as int]));
            }
            let c = self.children[i].snapshot();
            children.push(c);
            proof {
                assert(children@[i as int] == c);
            }
            i += 1;
        }
        let r = Node {
            path: self.path.duplicate(),
            is_dir: self.is_dir,
            children,
            mod_time: self.mod_time.duplicate(),
            sync_time: self.sync_time.duplicate(),
            create_time: self.create_time,
            status: self.status,
            wd: self.wd,
        };
        proof {
            lemma_same_children(r, *self, r.children@.len() as int);
        }
        r
    }

    /// The file name of this node (its last path name).
    pub fn file_name(&self) -> (r: Option<String>)
        ensures
            self.path@.names.len() == 0 ==> r is None,
            self.path@.names.len() > 0 ==> r is Some && r->0@ == name_of(*self),
    {
        self.path.file_name()
    }

    /// The position of the child called `name`, if any (the last one of that name).
    pub fn find_child(&self, name: &String) -> (r: Option<usize>)
        ensures
            r is Some ==> r->0 < self.children.len() && r->0 as int == child_pos(
                self.children@,
                name@,
            ),
            r is None ==> child_pos(self.children@, name@) == -1,
            r is Some ==> name_of(self.children@[r->0 as int]) == name@,
            r is None ==> forall|i: int|
                0 <= i < self.children.len() ==> name_of(#[trigger] self.children@[i]) != name@,
    {
        let mut i: usize = self.children.len();
        proof {
            assert(self.children@.subrange(0, i as int) =~= self.children@);
        }
        while i > 0
            invariant
                i <= self.children.len(),
                child_pos(self.children@, name@) == child_pos(
                    self.children@.subrange(0, i as int),
                    name@,
                ),
                forall|j: int|
                    i <= j < self.children.len() ==> name_of(#[trigger] self.children@[j])
                        != name@,
            decreases i,
        {
            let names = self.children[i - 1].path.names();
            let n = names.len();
            let found = if n > 0 {
                names[n - 1] == *name
            } else {
                name.as_str().unicode_len() == 0
            };
            proof {
                let s = self.children@.subrange(0, i as int);
                assert(s.drop_last() =~= self.children@.subrange(0, i - 1));
                if n == 0 && found {
                    assert(name@ =~= Seq::<char>::empty());
                }
            }
            if found {
                return Some(i - 1);
            }
            i -= 1;
        }
        proof {
            lemma_child_pos(self.children@, name@);
        }
        None
    }

    /// A local modification at `time`: both clocks join the stamp `(id, time)`.
    pub fn modify_node(&mut self, id: i32, time: i32)
        ensures
            final(self).mod_time@ == bumped(old(self).mod_time@, id, time),
            final(self).sync_time@ == bumped(old(self).sync_time@, id, time),
            vt_get(final(self).mod_time@, id) >= vt_get(old(self).mod_time@, id),
            vt_get(final(self).sync_time@, id) >= vt_get(old(self).sync_time@, id),
            final(self).status == old(self).status,
            final(self).wd == old(self).wd,
            final(self).children == old(self).children,
            final(self).create_time == old(self).create_time,
            final(self).path == old(self).path,
            final(self).is_dir == old(self).is_dir,
            dominated(*old(self)) ==> dominated(*final(self)),
            tree_dominated(*old(self)) ==> tree_dominated(*final(self)),
            tree_watch_ok(*old(self)) ==> tree_watch_ok(*final(self)),
    {
        self.mod_time.note_valid();
        self.sync_time.note_valid();
        proof {
            lemma_bumped(old(self).mod_time@, id, time);
            lemma_bumped(old(self).sync_time@, id, time);
            if dominated(*old(self)) {
                lemma_bump_keeps_dominance(old(self).mod_time@, old(self).sync_time@, id, time);
            }
        }
        self.mod_time.join_one(id, time);
        self.sync_time.join_one(id, time);
        proof {
            lemma_tree_dominated(*old(self));
            lemma_tree_dominated(*self);
            lemma_tree_watch_ok(*old(self));
            lemma_tree_watch_ok(*self);
        }
    }

    /// Recomputes the modification clock as the join of the children's.
    pub fn pushup_mod(&mut self)
        ensures
            final(self).mod_time@ == mod_join(old(self).children@),
            final(self).sync_time == old(self).sync_time,
            final(self).status == old(self).status,
            final(self).wd == old(self).wd,
            final(self).children == old(self).children,
            final(self).create_time == old(self).create_time,
            final(self).path == old(self).path,
            final(self).is_dir == old(self).is_dir,
    {
        let mut m = VectorTime::new_empty();
        let mut i: usize = 0;
        while i < self.children.len()
            invariant
                i <= self.children.len(),
                self.children == old(self).children,
                m@ == mod_join(self.children@.subrange(0, i as int)),
            decreases self.children.len() - i,
        {
            m.check_max(&self.children[i].mod_time);
            proof {
                let s = self.children@.subrange(0, i + 1);
                assert(s.drop_last() =~= self.children@.subrange(0, i as int));
            }
            i += 1;
        }
        proof {
            assert(self.children@.subrange(0, self.children.len() as int) =~= self.children@);
        }
        self.mod_time = m;
    }

    /// A local deletion at `time`: the node and every node below it become
    /// tombstones without watches; a node that was live joins both clocks with
    /// `(id, time)`, one that was already a tombstone keeps its clocks. Returns
    /// every watch held in the subtree, for the watcher to drop.
    pub fn delete_node(&mut self, id: i32, time: i32) -> (r: Vec<i32>)
        ensures
            tree_tombstoned(*final(self)),
            forall|w: i32| #[trigger] watch_in(*old(self), w) ==> r@.contains(w),
            old(self).status == NodeStatus::Deleted ==> final(self).mod_time == old(self).mod_time
                && final(self).sync_time == old(self).sync_time,
            old(self).status == NodeStatus::Exist ==> {
                &&& final(self).mod_time@ == bumped(old(self).mod_time@, id, time)
                &&& final(self).sync_time@ == bumped(old(self).sync_time@, id, time)
            },
            final(self).children@.len() == old(self).children@.len(),
            forall|i: int|
                0 <= i < final(self).children@.len() ==> #[trigger] name_of(
                    final(self).children@[i],
                ) == name_of(old(self).children@[i]),
            final(self).path == old(self).path,
            final(self).is_dir == old(self).is_dir,
            final(self).create_time == old(self).create_time,
            final(self).status == NodeStatus::Deleted,
            final(self).wd is None,
            watch_ok(*final(self)),
            dominated(*old(self)) ==> dominated(*final(self)),
            tree_dominated(*old(self)) ==> tree_dominated(*final(self)),
            tree_watch_ok(*final(self)),
        decreases *old(self),
    {
        let mut dropped: Vec<i32> = Vec::new();
        proof {
            lemma_tree_dominated(*old(self));
            lemma_watch_in(*old(self));
        }
        if let Some(wd) = self.wd {
            dropped.push(wd);
            proof {
                assert(dropped@[0] == wd);
            }
        }
        let was_live = self.status == NodeStatus::Exist;
        let mut i: usize = 0;
        while i < self.children.len()
            invariant
                i <= self.children.len(),
                self.children@.len() == old(self).children@.len(),
                self.status == old(self).status,
                self.wd == old(self).wd,
                self.path == old(self).path,
                self.is_dir == old(self).is_dir,
                self.create_time == old(self).create_time,
                self.mod_time == old(self).mod_time,
                self.sync_time == old(self).sync_time,
                old(self).wd is Some ==> dropped@.contains(old(self).wd->0),
                forall|w: i32, j: int|
                    0 <= j < i && #[trigger] watch_in(old(self).children@[j], w)
                        ==> #[trigger] dropped@.contains(w),
                forall|j: int| 0 <= j < i ==> #[trigger] tree_tombstoned(self.children@[j]),
                tree_dominated(*old(self)) ==> forall|j: int|
                    0 <= j < i ==> #[trigger] tree_dominated(self.children@[j]),
                tree_dominated(*old(self)) ==> forall|j: int|
                    0 <= j < old(self).children@.len() ==> #[trigger] tree_dominated(
                        old(self).children@[j],
                    ),
                forall|j: int|
                    i <= j < self.children@.len() ==> #[trigger] self.children@[j]
                        == old(self).children@[j],
                forall|j: int|
                    0 <= j < self.children@.len() ==> #[trigger] name_of(self.children@[j])
                        == name_of(old(self).children@[j]),
            decreases self.children.len() - i,
        {
            let mut child = self.children.remove(i);
            proof {
                assert(child == old(self).children@[i as int]);
                assert(decreases_to!(*old(self) => old(self).children@[i as int]));
            }
            let more = child.delete_node(id, time);
            self.children.insert(i, child);
            let ghost before = dropped@;
            append_all(&mut dropped, &more);
            proof {
                assert forall|w: i32| before.contains(w) implies #[trigger] dropped@.contains(w) by {
                    let k = choose|k: int| 0 <= k < before.len() && before[k] == w;
                    assert(dropped@[k] == w);
                }
                assert forall|w: i32| more@.contains(w) implies #[trigger] dropped@.contains(w) by {
                    let k = choose|k: int| 0 <= k < more@.len() && more@[k] == w;
                    assert(dropped@[before.len() + k] == w);
                }
            }
            i += 1;
        }
        self.wd = None;
        self.status = NodeStatus::Deleted;
        proof {
            lemma_tree_dominated(*self);
            lemma_tree_tombstoned(*self);
            lemma_tree_watch_ok(*self);
        }
        if was_live {
            self.modify_node(id, time);
            proof {
                lemma_tree_tombstoned(*self);
            }
        }
        proof {
            lemma_tombstoned_watch_ok(*self);
        }
        proof {
            assert forall|w: i32| #[trigger] watch_in(*old(self), w) implies dropped@.contains(w) by {
                if old(self).wd != Some(w) {
                    let j = choose|j: int|
                        0 <= j < old(self).children@.len() && #[trigger] watch_in(
                            old(self).children@[j],
                            w,
                        );
                    assert(watch_in(old(self).children@[j], w));
                }
            }
        }
        dropped
    }
}

fn append_all(dst: &mut Vec<i32>, src: &Vec<i32>)
    ensures
        final(dst)@ == old(dst)@ + src@,
{
    let mut i: usize = 0;
    while i < src.len()
        invariant
            i <= src.len(),
            dst@ == old(dst)@ + src@.subrange(0, i as int),
        decreases src.len() - i,
    {
        dst.push(src[i]);
        i += 1;
        proof {
            assert(dst@ =~= old(dst)@ + src@.subrange(0, i as int));
        }
    }
    proof {
        assert(src@.subrange(0, src.len() as int) =~= src@);
    }
}

} // verus!

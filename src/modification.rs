//! Local file-system events applied to the tree.
use vstd::prelude::*;

use crate::node::{
    tree_tombstoned, NodeStatus,
    bumped, child_pos, dominated, lemma_child_pos, lemma_tree_dominated, lemma_tree_watch_ok, name_of,
    tree_dominated, tree_watch_ok, watch_ok, ModOption, ModType, Node,
};

verus! {

/// Whether each name of `walk` from `depth` on names a child of the node reached so far.
pub open spec fn resolves(n: Node, walk: Seq<Seq<char>>, depth: int) -> bool
    decreases walk.len() - depth,
{
    if depth < 0 || depth >= walk.len() {
        true
    } else {
        let j = child_pos(n.children@, walk[depth]);
        j >= 0 && resolves(n.children@[j], walk, depth + 1)
    }
}

/// The node that `walk` leads to from `depth` on.
pub open spec fn at_walk(n: Node, walk: Seq<Seq<char>>, depth: int) -> Node
    decreases walk.len() - depth,
{
    if depth < 0 || depth >= walk.len() {
        n
    } else {
        let j = child_pos(n.children@, walk[depth]);
        if j >= 0 {
            at_walk(n.children@[j], walk, depth + 1)
        } else {
            n
        }
    }
}

/// Whether an event can be applied: its directory is reached by the walk, a
/// creation comes with the node that stands for the new entry, and any other
/// event names an existing child.
pub open spec fn event_applies(
    n: Node,
    walk: Seq<Seq<char>>,
    depth: int,
    op: ModOption,
    has_created: bool,
) -> bool {
    &&& resolves(n, walk, depth)
    &&& match op.ty {
        ModType::Create | ModType::MovedTo => has_created,
        _ => child_pos(at_walk(n, walk, depth).children@, op.name@) >= 0,
    }
}

/// Putting back in place `j` a child whose subtree stays dominated keeps the
/// subtrees of all children dominated.
proof fn lemma_children_replaced(old_n: Node, new_n: Node, j: int, hyp: bool)
    requires
        0 <= j < old_n.children@.len(),
        new_n.children@.len() == old_n.children@.len(),
        forall|i: int| 0 <= i < old_n.children@.len() && i != j ==> new_n.children@[i] == old_n.children@[i],
        tree_dominated(old_n) && hyp ==> tree_dominated(new_n.children@[j]),
        dominated(new_n) == dominated(old_n),
    ensures
        tree_dominated(old_n) && hyp ==> tree_dominated(new_n),
{
    lemma_tree_dominated(old_n);
    lemma_tree_dominated(new_n);
    if tree_dominated(old_n) && hyp {
        assert forall|i: int| 0 <= i < new_n.children@.len() implies #[trigger] tree_dominated(
            new_n.children@[i],
        ) by {
            if i != j {
                assert(new_n.children@[i] == old_n.children@[i]);
            }
        }
    }
}

/// Putting back in place `j` a child whose subtree keeps no watch on a tombstone
/// keeps that true of all children.
proof fn lemma_children_replaced_watch(old_n: Node, new_n: Node, j: int, hyp: bool)
    requires
        0 <= j < old_n.children@.len(),
        new_n.children@.len() == old_n.children@.len(),
        forall|i: int| 0 <= i < old_n.children@.len() && i != j ==> new_n.children@[i] == old_n.children@[i],
        tree_watch_ok(old_n) && hyp ==> tree_watch_ok(new_n.children@[j]),
        watch_ok(new_n) == watch_ok(old_n),
    ensures
        tree_watch_ok(old_n) && hyp ==> tree_watch_ok(new_n),
{
    lemma_tree_watch_ok(old_n);
    lemma_tree_watch_ok(new_n);
    if tree_watch_ok(old_n) && hyp {
        assert forall|i: int| 0 <= i < new_n.children@.len() implies #[trigger] tree_watch_ok(
            new_n.children@[i],
        ) by {
            if i != j {
                assert(new_n.children@[i] == old_n.children@[i]);
            }
        }
    }
}

/// What a local event does to the child it names, `o` before and `n` after: a
/// modification joins both clocks with `(id, time)`; a deletion or a move out
/// tombstones the whole subtree, joining the clocks of a live child.
pub open spec fn child_event(o: Node, n: Node, ty: ModType, id: i32, time: i32) -> bool {
    if ty == ModType::Modify {
        &&& n.mod_time@ == bumped(o.mod_time@, id, time)
        &&& n.sync_time@ == bumped(o.sync_time@, id, time)
        &&& n.status == o.status
        &&& n.wd == o.wd
        &&& n.children == o.children
        &&& n.create_time == o.create_time
        &&& n.path == o.path
    } else {
        &&& tree_tombstoned(n)
        &&& (o.status == NodeStatus::Exist ==> n.mod_time@ == bumped(o.mod_time@, id, time)
            && n.sync_time@ == bumped(o.sync_time@, id, time))
        &&& (o.status == NodeStatus::Deleted ==> n.mod_time == o.mod_time && n.sync_time
            == o.sync_time)
        &&& n.create_time == o.create_time
        &&& n.path == o.path
    }
}

/// What a local event does to the directory it happens in: a creation or a move
/// in puts `created` in place of the child of its name (or adds it); any other
/// event changes the child `op.name` as `child_event` says, and no other child.
pub open spec fn target_done(o: Node, n: Node, op: ModOption, id: i32, created: Option<Node>) -> bool {
    if op.ty == ModType::Create || op.ty == ModType::MovedTo {
        &&& created is Some
        &&& n.children@ == (if child_pos(o.children@, name_of(created->0)) >= 0 {
            o.children@.update(child_pos(o.children@, name_of(created->0)), created->0)
        } else {
            o.children@.push(created->0)
        })
    } else {
        let j = child_pos(o.children@, op.name@);
        &&& 0 <= j < o.children@.len()
        &&& n.children@.len() == o.children@.len()
        &&& forall|i: int|
            0 <= i < o.children@.len() && i != j ==> #[trigger] n.children@[i] == o.children@[i]
        &&& child_event(o.children@[j], n.children@[j], op.ty, id, op.time)
    }
}

/// What a local event does along its walk from `depth` on: each node on the way
/// joins its clocks with `(id, op.time)` and changes only the child the walk
/// goes through; the directory of the event changes as `target_done` says.
pub open spec fn event_done(
    o: Node,
    n: Node,
    walk: Seq<Seq<char>>,
    depth: int,
    op: ModOption,
    id: i32,
    created: Option<Node>,
) -> bool
    decreases walk.len() - depth,
{
    &&& n.mod_time@ == bumped(o.mod_time@, id, op.time)
    &&& n.sync_time@ == bumped(o.sync_time@, id, op.time)
    &&& n.status == o.status
    &&& n.wd == o.wd
    &&& n.path == o.path
    &&& n.create_time == o.create_time
    &&& if depth < 0 || depth >= walk.len() {
        target_done(o, n, op, id, created)
    } else {
        let j = child_pos(o.children@, walk[depth]);
        &&& 0 <= j < o.children@.len()
        &&& n.children@.len() == o.children@.len()
        &&& forall|i: int|
            0 <= i < o.children@.len() && i != j ==> #[trigger] n.children@[i] == o.children@[i]
        &&& event_done(o.children@[j], n.children@[j], walk, depth + 1, op, id, created)
    }
}

/// The strings of a list, as character sequences.
pub open spec fn texts(v: Seq<String>) -> Seq<Seq<char>> {
    v.map_values(|s: String| s@)
}

impl Node {
    /// Adds a child created at `time`, replacing a child of the same name, and
    /// joins this node's clocks with `(id, time)`.
    pub fn create_child(&mut self, child: Node, id: i32, time: i32)
        ensures
            child_pos(final(self).children@, name_of(child)) >= 0,
            final(self).children@.contains(child),
            final(self).children@ == (if child_pos(old(self).children@, name_of(child)) >= 0 {
                old(self).children@.update(child_pos(old(self).children@, name_of(child)), child)
            } else {
                old(self).children@.push(child)
            }),
            final(self).mod_time@ == bumped(old(self).mod_time@, id, time),
            final(self).sync_time@ == bumped(old(self).sync_time@, id, time),
            final(self).status == old(self).status,
            final(self).wd == old(self).wd,
            final(self).path == old(self).path,
            final(self).is_dir == old(self).is_dir,
            final(self).create_time == old(self).create_time,
            dominated(*old(self)) ==> dominated(*final(self)),
            tree_dominated(*old(self)) && tree_dominated(child) ==> tree_dominated(*final(self)),
            tree_watch_ok(*old(self)) && tree_watch_ok(child) ==> tree_watch_ok(*final(self)),
    {
        proof {
            lemma_tree_dominated(*old(self));
            lemma_tree_watch_ok(*old(self));
        }
        let name = match child.file_name() {
            Some(n) => n,
            None => String::new(),
        };
        proof {
            assert(name@ == name_of(child));
        }
        let ghost c = child;
        let ghost mut at: int = 0;
        match self.find_child(&name) {
            Some(i) => {
                self.children.set(i, child);
                proof {
                    at = i as int;
                }
            },
            None => {
                self.children.push(child);
                proof {
                    at = self.children@.len() - 1;
                }
            },
        }
        proof {
            assert(self.children@[at] == c);
            assert(self.children@.contains(c));
            lemma_child_pos(self.children@, name_of(c));
            if tree_dominated(*old(self)) && tree_dominated(c) {
                assert forall|i: int| 0 <= i < self.children@.len() implies #[trigger] tree_dominated(
                    self.children@[i],
                ) by {
                    if i != at {
                        assert(self.children@[i] == old(self).children@[i]);
                    }
                }
            }
            lemma_tree_dominated(*self);
            if tree_watch_ok(*old(self)) && tree_watch_ok(c) {
                assert forall|i: int| 0 <= i < self.children@.len() implies #[trigger] tree_watch_ok(
                    self.children@[i],
                ) by {
                    if i != at {
                        assert(self.children@[i] == old(self).children@[i]);
                    }
                }
            }
            lemma_tree_watch_ok(*self);
        }
        self.modify_node(id, time);
    }

    /// The child called `name`, if any.
    pub fn child(&self, name: &String) -> (r: Option<&Node>)
        ensures
            r is Some ==> child_pos(self.children@, name@) >= 0 && *r->0 == self.children@[child_pos(
                self.children@,
                name@,
            )],
            r is None ==> child_pos(self.children@, name@) == -1,
    {
        match self.find_child(name) {
            Some(i) => Some(&self.children[i]),
            None => None,
        }
    }

    /// Installs the watch `wd` on the node that `walk` names from `depth` on,
    /// unless that node is a tombstone (which holds no watch); returns whether
    /// it was installed.
    pub fn set_watch_at(&mut self, walk: &Vec<String>, depth: usize, wd: Option<i32>) -> (r: bool)
        requires
            depth <= walk.len(),
        ensures
            r ==> resolves(*old(self), texts(walk@), depth as int),
            depth == walk.len() ==> (r <==> (old(self).status == crate::node::NodeStatus::Exist
                || wd is None)),
            depth == walk.len() && r ==> final(self).wd == wd,
            final(self).status == old(self).status,
            final(self).path == old(self).path,
            final(self).mod_time == old(self).mod_time,
            final(self).sync_time == old(self).sync_time,
            tree_watch_ok(*old(self)) ==> tree_watch_ok(*final(self)),
        decreases walk.len() - depth,
    {
        proof {
            lemma_tree_watch_ok(*old(self));
        }
        if depth == walk.len() {
            if self.status.exist() || wd.is_none() {
                self.set_watch(wd);
                proof {
                    lemma_tree_watch_ok(*self);
                }
                return true;
            }
            return false;
        }
        let ghost w = texts(walk@);
        proof {
            assert(w[depth as int] == walk@[depth as int]@);
        }
        match self.find_child(&walk[depth]) {
            None => false,
            Some(j) => {
                let mut child = self.children.remove(j);
                let found = child.set_watch_at(walk, depth + 1, wd);
                self.children.insert(j, child);
                proof {
                    lemma_children_replaced_watch(*old(self), *self, j as int, true);
                }
                found
            },
        }
    }

    /// Checks that a local event can be applied (see `event_applies`), with the
    /// reason when it cannot.
    pub fn check_event(&self, walk: &Vec<String>, depth: usize, op: &ModOption, has_created: bool) -> (r:
        Result<(), String>)
        requires
            depth <= walk.len(),
        ensures
            r is Ok <==> event_applies(*self, texts(walk@), depth as int, *op, has_created),
        decreases walk.len() - depth,
    {
        if depth < walk.len() {
            let ghost w = texts(walk@);
            proof {
                assert(w[depth as int] == walk@[depth as int]@);
            }
            match self.find_child(&walk[depth]) {
                None => Err(String::from_str("Event Handling Error : Node not found along the path")),
                Some(j) => self.children[j].check_event(walk, depth + 1, op, has_created),
            }
        } else {
            match op.ty {
                ModType::Create | ModType::MovedTo => {
                    if has_created {
                        Ok(())
                    } else {
                        Err(String::from_str("Creation Error : no node for the created entry"))
                    }
                },
                ModType::Delete | ModType::MovedFrom => {
                    match self.find_child(&op.name) {
                        None => Err(
                            String::from_str("Delete Error : Node not found when handling Delete Event"),
                        ),
                        Some(_) => Ok(()),
                    }
                },
                ModType::Modify => {
                    match self.find_child(&op.name) {
                        None => Err(
                            String::from_str("Modify Error : Node not found when handling Modify event"),
                        ),
                        Some(_) => Ok(()),
                    }
                },
            }
        }
    }

    /// Applies a local event that `check_event` accepted.
    fn apply_event(
        &mut self,
        walk: &Vec<String>,
        depth: usize,
        op: &ModOption,
        id: i32,
        created: Option<Node>,
    ) -> (r: Vec<i32>)
        requires
            depth <= walk.len(),
            event_applies(*old(self), texts(walk@), depth as int, *op, created is Some),
        ensures
            final(self).mod_time@ == bumped(old(self).mod_time@, id, op.time),
            final(self).sync_time@ == bumped(old(self).sync_time@, id, op.time),
            final(self).status == old(self).status,
            final(self).wd == old(self).wd,
            final(self).path == old(self).path,
            final(self).create_time == old(self).create_time,
            dominated(*old(self)) ==> dominated(*final(self)),
            tree_dominated(*old(self)) && (created is Some ==> tree_dominated(created->0))
                ==> tree_dominated(*final(self)),
            tree_watch_ok(*old(self)) && (created is Some ==> tree_watch_ok(created->0))
                ==> tree_watch_ok(*final(self)),
            event_done(*old(self), *final(self), texts(walk@), depth as int, *op, id, created),
        decreases walk.len() - depth,
    {
        let ghost cr = created;
        proof {
            lemma_tree_dominated(*old(self));
            lemma_tree_watch_ok(*old(self));
        }
        if depth < walk.len() {
            let ghost w = texts(walk@);
            proof {
                assert(w[depth as int] == walk@[depth as int]@);
            }
            let j = self.find_child(&walk[depth]).unwrap();
            let mut child = self.children.remove(j);
            let dropped = child.apply_event(walk, depth + 1, op, id, created);
            self.children.insert(j, child);
            proof {
                lemma_children_replaced(
                    *old(self),
                    *self,
                    j as int,
                    cr is Some ==> tree_dominated(cr->0),
                );
                lemma_children_replaced_watch(
                    *old(self),
                    *self,
                    j as int,
                    cr is Some ==> tree_watch_ok(cr->0),
                );
            }
            self.modify_node(id, op.time);
            return dropped;
        }
        match op.ty {
            ModType::Create | ModType::MovedTo => {
                self.create_child(created.unwrap(), id, op.time);
                Vec::new()
            },
            ModType::Delete | ModType::MovedFrom => {
                let j = self.find_child(&op.name).unwrap();
                let mut child = self.children.remove(j);
                let dropped = child.delete_node(id, op.time);
                self.children.insert(j, child);
                proof {
                    lemma_children_replaced(*old(self), *self, j as int, true);
                    lemma_children_replaced_watch(*old(self), *self, j as int, true);
                }
                self.modify_node(id, op.time);
                dropped
            },
            ModType::Modify => {
                let j = self.find_child(&op.name).unwrap();
                let mut child = self.children.remove(j);
                child.modify_node(id, op.time);
                self.children.insert(j, child);
                proof {
                    lemma_children_replaced(*old(self), *self, j as int, true);
                    lemma_children_replaced_watch(*old(self), *self, j as int, true);
                }
                self.modify_node(id, op.time);
                Vec::new()
            },
        }
    }

    /// Applies a local event to the tree: `walk` holds the names from this node
    /// down to the directory of the event, from `depth` on. Every node on the way
    /// joins its clocks with `(id, op.time)`. A creation adds `created`, the node
    /// built for the new entry; a deletion tombstones the child (and its subtree
    /// when it had a watch); a modification bumps the child. Returns the watches
    /// dropped. Fails, changing nothing, when the walk or the child is missing.
    pub fn handle_modify(
        &mut self,
        walk: &Vec<String>,
        depth: usize,
        op: &ModOption,
        id: i32,
        created: Option<Node>,
    ) -> (r: Result<Vec<i32>, String>)
        requires
            depth <= walk.len(),
        ensures
            r is Ok <==> event_applies(*old(self), texts(walk@), depth as int, *op, created is Some),
            r is Err ==> *final(self) == *old(self),
            r is Ok ==> {
                &&& final(self).mod_time@ == bumped(old(self).mod_time@, id, op.time)
                &&& final(self).sync_time@ == bumped(old(self).sync_time@, id, op.time)
                &&& final(self).status == old(self).status
                &&& final(self).wd == old(self).wd
                &&& final(self).path == old(self).path
                &&& final(self).create_time == old(self).create_time
                &&& (dominated(*old(self)) ==> dominated(*final(self)))
                &&& (tree_dominated(*old(self)) && (created is Some ==> tree_dominated(created->0))
                    ==> tree_dominated(*final(self)))
                &&& (tree_watch_ok(*old(self)) && (created is Some ==> tree_watch_ok(created->0))
                    ==> tree_watch_ok(*final(self)))
                &&& event_done(*old(self), *final(self), texts(walk@), depth as int, *op, id, created)
            },
    {
        match self.check_event(walk, depth, op, created.is_some()) {
            Err(e) => Err(e),
            Ok(()) => Ok(self.apply_event(walk, depth, op, id, created)),
        }
    }
}

} // verus!

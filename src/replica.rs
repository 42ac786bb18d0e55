//! A replica: its id, its logical counter and its tree.
use vstd::prelude::*;

use crate::modification::{event_applies, event_done, texts};
use crate::node::{bumped, tree_dominated, tree_watch_ok, ModOption, Node};
use crate::path_local::{split_names, PathLocal};
use crate::query::{query_end, QueryEnd, QueryRes};
use crate::timestamp::{vt_of_pairs, VectorTime};

verus! {

/// One participant of the synchronization.
#[derive(Debug)]
pub struct Replica {
    pub id: i32,
    pub counter: i32,
    pub base_node: Node,
}

impl Replica {
    /// A replica whose tree is the base node at `path`, its counter at 0.
    pub fn new(id: i32, path: PathLocal, wd: Option<i32>) -> (r: Self)
        ensures
            r.id == id,
            r.counter == 0,
            r.base_node.path@ == path@,
            r.base_node.children@.len() == 0,
            r.base_node.wd == wd,
            r.base_node.status == crate::node::NodeStatus::Exist,
            tree_dominated(r.base_node),
            tree_watch_ok(r.base_node),
    {
        Replica { id, counter: 0, base_node: Node::new_base_node(path, wd) }
    }

    pub fn read_counter(&self) -> (r: i32)
        ensures
            r == self.counter,
    {
        self.counter
    }

    /// Moves the logical counter on by one and returns the new time.
    pub fn add_counter(&mut self) -> (r: i32)
        requires
            old(self).counter < i32::MAX,
        ensures
            r == old(self).counter + 1,
            final(self).counter == r,
            final(self).id == old(self).id,
            final(self).base_node == old(self).base_node,
    {
        self.counter = self.counter + 1;
        self.counter
    }

    /// Starts the initial scan: takes the next time, at which every scanned entry
    /// is created, and joins the base node's clocks with it.
    pub fn init_all(&mut self) -> (r: i32)
        requires
            old(self).counter < i32::MAX,
        ensures
            r == old(self).counter + 1,
            final(self).counter == r,
            final(self).id == old(self).id,
            final(self).base_node.mod_time@ == bumped(old(self).base_node.mod_time@, old(self).id, r),
            final(self).base_node.sync_time@ == bumped(
                old(self).base_node.sync_time@,
                old(self).id,
                r,
            ),
            final(self).base_node.children == old(self).base_node.children,
            final(self).base_node.status == old(self).base_node.status,
            tree_dominated(old(self).base_node) ==> tree_dominated(final(self).base_node),
            tree_watch_ok(old(self).base_node) ==> tree_watch_ok(final(self).base_node),
    {
        let t = self.add_counter();
        self.base_node.modify_node(self.id, t);
        t
    }

    /// Applies a local event whose directory is at `walk` below the base node.
    pub fn handle_event(&mut self, walk: &Vec<String>, op: &ModOption, created: Option<Node>) -> (r:
        Result<Vec<i32>, String>)
        ensures
            r is Ok <==> event_applies(old(self).base_node, texts(walk@), 0, *op, created is Some),
            r is Err ==> final(self).base_node == old(self).base_node,
            final(self).counter == old(self).counter,
            final(self).id == old(self).id,
            tree_dominated(old(self).base_node) && (created is Some ==> tree_dominated(created->0))
                ==> tree_dominated(final(self).base_node),
            tree_watch_ok(old(self).base_node) && (created is Some ==> tree_watch_ok(created->0))
                ==> tree_watch_ok(final(self).base_node),
            r is Ok ==> event_done(
                old(self).base_node,
                final(self).base_node,
                texts(walk@),
                0,
                *op,
                old(self).id,
                created,
            ),
    {
        let id = self.id;
        self.base_node.handle_modify(walk, 0, op, id, created)
    }

    /// Answers a peer's query for the node that `walk` names below the base node;
    /// the answer's sync clock carries this replica's counter as its own component.
    pub fn query_names(&self, walk: &Vec<String>) -> (r: QueryRes)
        requires
            self.counter > 0,
        ensures
            match query_end(self.base_node, texts(walk@), 0) {
                QueryEnd::Found(n) => {
                    &&& r.deleted == (n.status == crate::node::NodeStatus::Deleted)
                    &&& r.is_dir == n.is_dir
                    &&& r.create_id == n.create_time.spec_id()
                    &&& r.create_time == n.create_time.spec_time()
                    &&& vt_of_pairs(r.mod_time@) == n.mod_time@
                    &&& vt_of_pairs(r.sync_time@) == n.sync_time@.insert(self.id, self.counter as int)
                },
                QueryEnd::Missing(p) => {
                    &&& r.deleted
                    &&& !r.is_dir
                    &&& r.create_id == 0
                    &&& r.create_time == 0
                    &&& vt_of_pairs(r.mod_time@) == Map::<i32, int>::empty()
                    &&& vt_of_pairs(r.sync_time@) == p.sync_time@.insert(self.id, self.counter as int)
                },
            },
    {
        let mut r = self.base_node.handle_query(walk, 0);
        let mut sync = VectorTime::from_pairs(&r.sync_time);
        sync.set_one(self.id, self.counter);
        r.sync_time = sync.to_pairs();
        r
    }

    /// Answers a peer's query for `path_rel`; the answer's sync clock carries this
    /// replica's counter as its own component.
    pub fn handle_query(&self, path_rel: &str) -> (r: QueryRes)
        requires
            !(path_rel@.len() > 0 && path_rel@[0] == '/'),
            self.counter > 0,
        ensures
            ({
                let walk = split_names(path_rel@);
                match query_end(self.base_node, walk, 0) {
                    QueryEnd::Found(n) => {
                        &&& r.deleted == (n.status == crate::node::NodeStatus::Deleted)
                        &&& r.create_id == n.create_time.spec_id()
                        &&& r.create_time == n.create_time.spec_time()
                        &&& vt_of_pairs(r.mod_time@) == n.mod_time@
                        &&& vt_of_pairs(r.sync_time@) == n.sync_time@.insert(
                            self.id,
                            self.counter as int,
                        )
                    },
                    QueryEnd::Missing(p) => {
                        &&& r.deleted
                        &&& vt_of_pairs(r.mod_time@) == Map::<i32, int>::empty()
                        &&& vt_of_pairs(r.sync_time@) == p.sync_time@.insert(
                            self.id,
                            self.counter as int,
                        )
                    },
                }
            }),
    {
        let path = PathLocal::new_from_rel(self.base_node.path.prefix().as_str(), path_rel);
        let walk = path.names();
        proof {
            assert(texts(walk@) == split_names(path_rel@));
        }
        self.query_names(walk)
    }
}

} // verus!

//! What a replica tells a peer about one of its nodes.
use vstd::prelude::*;

use crate::node::{child_pos, name_of, Node, NodeStatus};
use crate::modification::texts;
use crate::text::copy_strings;
use crate::timestamp::{vt_of_pairs, SingletonTime, VectorTime};

verus! {

/// A peer's node as the reconciliation reads it.
#[derive(Debug)]
pub struct RemoteData {
    pub children: Vec<String>,
    pub mod_time: VectorTime,
    pub sync_time: VectorTime,
    pub create_time: SingletonTime,
    pub status: NodeStatus,
}

/// The answer to a query, in the form it travels between replicas.
#[derive(Clone, Debug, PartialEq, Eq)]
pub struct QueryRes {
    pub deleted: bool,
    pub is_dir: bool,
    pub create_id: i32,
    pub create_time: i32,
    pub mod_time: Vec<(i32, i32)>,
    pub sync_time: Vec<(i32, i32)>,
    pub children: Vec<String>,
}

/// The names of a list of nodes.
pub open spec fn names_of(s: Seq<Node>) -> Seq<Seq<char>> {
    s.map_values(|n: Node| name_of(n))
}

impl Node {
    /// The names of the children, tombstones included.
    pub fn child_names(&self) -> (r: Vec<String>)
        ensures
            r@.map_values(|s: String| s@) == names_of(self.children@),
    {
        let mut r: Vec<String> = Vec::new();
        let mut i: usize = 0;
        while i < self.children.len()
            invariant
                i <= self.children.len(),
                r@.map_values(|s: String| s@) == names_of(self.children@.subrange(0, i as int)),
            decreases self.children.len() - i,
        {
            let name = match self.children[i].file_name() {
                Some(n) => n,
                None => String::new(),
            };
            let ghost before = r@;
            r.push(name);
            proof {
                assert(r@.map_values(|s: String| s@) =~= before.map_values(|s: String| s@).push(
                    name@,
                ));
                assert(names_of(self.children@.subrange(0, i + 1)) =~= names_of(
                    self.children@.subrange(0, i as int),
                ).push(name_of(self.children@[i as int])));
            }
            i += 1;
        }
        proof {
            assert(self.children@.subrange(0, self.children.len() as int) =~= self.children@);
        }
        r
    }
}

/// Where a query walk ends: at a node (the target, or a tombstone on the way),
/// or at a live node that has no child of the next name.
pub enum QueryEnd {
    Found(Node),
    Missing(Node),
}

/// Follows `walk` from `depth` on, stopping at tombstones.
pub open spec fn query_end(n: Node, walk: Seq<Seq<char>>, depth: int) -> QueryEnd
    decreases walk.len() - depth,
{
    if n.status == NodeStatus::Deleted || depth < 0 || depth >= walk.len() {
        QueryEnd::Found(n)
    } else {
        let j = child_pos(n.children@, walk[depth]);
        if j < 0 {
            QueryEnd::Missing(n)
        } else {
            query_end(n.children@[j], walk, depth + 1)
        }
    }
}

/// `r` describes the node `n` (a directory when `is_dir`).
pub open spec fn describes(r: QueryRes, n: Node, is_dir: bool) -> bool {
    &&& r.deleted == (n.status == NodeStatus::Deleted)
    &&& r.is_dir == is_dir
    &&& r.create_id == n.create_time.spec_id()
    &&& r.create_time == n.create_time.spec_time()
    &&& vt_of_pairs(r.mod_time@) == n.mod_time@
    &&& vt_of_pairs(r.sync_time@) == n.sync_time@
    &&& r.children@.map_values(|s: String| s@) == names_of(n.children@)
}

/// `r` describes a tombstone synthesized below the live node `p`: no history of
/// its own, and `p`'s sync clock.
pub open spec fn describes_missing(r: QueryRes, p: Node) -> bool {
    &&& r.deleted
    &&& !r.is_dir
    &&& r.create_id == 0
    &&& r.create_time == 0
    &&& vt_of_pairs(r.mod_time@) == Map::<i32, int>::empty()
    &&& vt_of_pairs(r.sync_time@) == p.sync_time@
    &&& r.children@.len() == 0
}

impl Node {
    /// Answers a query for the node that `walk` names from `depth` on. A walk that
    /// meets a tombstone is answered by it; one that meets a missing name is
    /// answered by a tombstone that inherits the last live node's sync clock.
    pub fn handle_query(&self, walk: &Vec<String>, depth: usize) -> (r: QueryRes)
        requires
            depth <= walk.len(),
        ensures
            match query_end(*self, texts(walk@), depth as int) {
                QueryEnd::Found(n) => describes(r, n, n.is_dir),
                QueryEnd::Missing(p) => describes_missing(r, p),
            },
        decreases walk.len() - depth,
    {
        if self.status.deleted() || depth >= walk.len() {
            return QueryRes::from_data(self, self.is_dir);
        }
        let ghost w = texts(walk@);
        proof {
            assert(w[depth as int] == walk@[depth as int]@);
        }
        match self.find_child(&walk[depth]) {
            Some(j) => self.children[j].handle_query(walk, depth + 1),
            None => {
                let tmp = Node::new_tmp(self.path.join_name(walk[depth].as_str()), &self.sync_time);
                let r = QueryRes::from_data(&tmp, false);
                proof {
                    assert(r.children@.map_values(|s: String| s@) =~= Seq::<Seq<char>>::empty());
                    assert(vt_of_pairs(r.mod_time@) == Map::<i32, int>::empty());
                }
                r
            },
        }
    }
}

impl QueryRes {
    /// The answer that describes `node`.
    pub fn from_data(node: &Node, is_dir: bool) -> (r: Self)
        ensures
            r.deleted == (node.status == NodeStatus::Deleted),
            r.is_dir == is_dir,
            r.create_id == node.create_time.spec_id(),
            r.create_time == node.create_time.spec_time(),
            vt_of_pairs(r.mod_time@) == node.mod_time@,
            vt_of_pairs(r.sync_time@) == node.sync_time@,
            r.children@.map_values(|s: String| s@) == names_of(node.children@),
    {
        QueryRes {
            deleted: node.status == NodeStatus::Deleted,
            is_dir,
            create_id: node.create_time.create_id(),
            create_time: node.create_time.time(),
            mod_time: node.mod_time.to_pairs(),
            sync_time: node.sync_time.to_pairs(),
            children: node.child_names(),
        }
    }

    /// The node data carried by the answer, and whether it is a directory.
    pub fn to_data(&self) -> (r: (RemoteData, bool))
        ensures
            r.0.status == (if self.deleted {
                NodeStatus::Deleted
            } else {
                NodeStatus::Exist
            }),
            r.0.create_time.spec_id() == self.create_id,
            r.0.create_time.spec_time() == self.create_time,
            r.0.mod_time@ == vt_of_pairs(self.mod_time@),
            r.0.sync_time@ == vt_of_pairs(self.sync_time@),
            r.0.children@ == self.children@,
            r.1 == self.is_dir,
    {
        let data = RemoteData {
            children: copy_strings(&self.children),
            mod_time: VectorTime::from_pairs(&self.mod_time),
            sync_time: VectorTime::from_pairs(&self.sync_time),
            create_time: SingletonTime::new(self.create_id, self.create_time),
            status: if self.deleted {
                NodeStatus::Deleted
            } else {
                NodeStatus::Exist
            },
        };
        (data, self.is_dir)
    }
}

} // verus!

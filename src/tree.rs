//! The tree as the operator sees it: one line per live node, children ordered
//! with files before directories and by name.
use vstd::prelude::*;

use crate::node::{name_of, Node, NodeStatus};
use crate::text::{decimal, int_text};
use crate::timestamp::entries_text;

verus! {

/// Code-point order of texts (the order of `String`'s `<`).
pub open spec fn text_less(x: Seq<char>, y: Seq<char>) -> bool
    decreases x.len(),
{
    if x.len() == 0 {
        y.len() > 0
    } else if y.len() == 0 {
        false
    } else if x[0] != y[0] {
        (x[0] as u32) < (y[0] as u32)
    } else {
        text_less(x.drop_first(), y.drop_first())
    }
}

/// The order of the tree view: files before directories, then by name.
pub open spec fn node_less(a: Node, b: Node) -> bool {
    (!a.is_dir && b.is_dir) || (a.is_dir == b.is_dir && text_less(name_of(a), name_of(b)))
}

proof fn lemma_text_less_asym(x: Seq<char>, y: Seq<char>)
    ensures
        !(text_less(x, y) && text_less(y, x)),
    decreases x.len(),
{
    if x.len() > 0 && y.len() > 0 && x[0] == y[0] {
        lemma_text_less_asym(x.drop_first(), y.drop_first());
    }
}

proof fn lemma_text_less_trans(x: Seq<char>, y: Seq<char>, z: Seq<char>)
    requires
        text_less(x, y),
        text_less(y, z),
    ensures
        text_less(x, z),
    decreases x.len(),
{
    if x.len() > 0 && y.len() > 0 && z.len() > 0 && x[0] == y[0] && y[0] == z[0] {
        lemma_text_less_trans(x.drop_first(), y.drop_first(), z.drop_first());
    }
}

/// Whether `x` comes before `y` in code-point order.
pub fn name_less(x: &str, y: &str) -> (r: bool)
    ensures
        r == text_less(x@, y@),
{
    let n = x.unicode_len();
    let m = y.unicode_len();
    let mut i: usize = 0;
    proof {
        assert(x@.subrange(0, n as int) =~= x@);
        assert(y@.subrange(0, m as int) =~= y@);
    }
    while i < n && i < m
        invariant
            n == x@.len(),
            m == y@.len(),
            i <= n,
            i <= m,
            forall|j: int| 0 <= j < i ==> x@[j] == y@[j],
            text_less(x@, y@) == text_less(x@.subrange(i as int, n as int), y@.subrange(i as int, m as int)),
        decreases n - i,
    {
        let a = x.get_char(i);
        let b = y.get_char(i);
        let ghost xs = x@.subrange(i as int, n as int);
        let ghost ys = y@.subrange(i as int, m as int);
        proof {
            assert(xs[0] == a && ys[0] == b);
            assert(xs.drop_first() =~= x@.subrange(i + 1, n as int));
            assert(ys.drop_first() =~= y@.subrange(i + 1, m as int));
        }
        if a != b {
            return (a as u32) < (b as u32);
        }
        i += 1;
    }
    i == n && i < m
}

/// Whether child `a` comes before child `b` in the tree view.
fn child_less(a: &Node, b: &Node) -> (r: bool)
    ensures
        r == node_less(*a, *b),
{
    let na = match a.file_name() {
        Some(s) => s,
        None => String::new(),
    };
    let nb = match b.file_name() {
        Some(s) => s,
        None => String::new(),
    };
    (!a.is_dir && b.is_dir) || (a.is_dir == b.is_dir && name_less(na.as_str(), nb.as_str()))
}

/// `order` lists positions of live children of `c`, each once, in tree-view order.
pub open spec fn ordered_live(c: Seq<Node>, order: Seq<usize>) -> bool {
    &&& forall|k: int| 0 <= k < order.len() ==> #[trigger] order[k] < c.len()
    &&& forall|k: int| 0 <= k < order.len() ==> c[#[trigger] order[k] as int].status == NodeStatus::Exist
    &&& order.no_duplicates()
    &&& forall|i: int, j: int|
        0 <= i < j < order.len() ==> !node_less(c[#[trigger] order[j] as int], c[#[trigger] order[i] as int])
}

impl Node {
    /// The positions of the live children, files first, then by name.
    pub fn live_children_order(&self) -> (r: Vec<usize>)
        ensures
            ordered_live(self.children@, r@),
            forall|i: int|
                0 <= i < self.children@.len() && self.children@[i].status == NodeStatus::Exist
                    ==> r@.contains(i as usize),
    {
        let c = &self.children;
        let mut order: Vec<usize> = Vec::new();
        let mut k: usize = 0;
        while k < c.len()
            invariant
                k <= c.len(),
                c == &self.children,
                ordered_live(c@, order@),
                forall|j: int| 0 <= j < order@.len() ==> #[trigger] order@[j] < k,
                forall|i: int| 0 <= i < k && c@[i].status == NodeStatus::Exist ==> order@.contains(i as usize),
            decreases c.len() - k,
        {
            if c[k].status.exist() {
                let mut p: usize = 0;
                while p < order.len() && !child_less(&c[k], &c[order[p]])
                    invariant
                        p <= order.len(),
                        k < c.len(),
                        ordered_live(c@, order@),
                        forall|j: int| 0 <= j < p ==> !node_less(c@[k as int], c@[#[trigger] order@[j] as int]),
                    decreases order.len() - p,
                {
                    p += 1;
                }
                let ghost before = order@;
                order.insert(p, k);
                proof {
                    assert(order@ == before.insert(p as int, k));
                    assert forall|a: int, b: int|
                        0 <= a < b < order@.len() implies !node_less(c@[#[trigger] order@[b] as int], c@[#[trigger] order@[a] as int]) by {
                        let x = c@[k as int];
                        if a < p && b == p {
                        } else if a == p && b > p {
                            let y = c@[before[b - 1] as int];
                            let q = c@[before[p as int] as int];
                            assert(node_less(x, q));
                            if node_less(y, x) {
                                lemma_node_less_trans(y, x, q);
                                if b - 1 > p {
                                    assert(!node_less(c@[before[b - 1] as int], c@[before[p as int] as int]));
                                } else {
                                    lemma_node_less_asym(y, x);
                                }
                            }
                        } else if a < p && b > p {
                            assert(order@[a] == before[a] && order@[b] == before[b - 1]);
                        } else if a > p {
                            assert(order@[a] == before[a - 1] && order@[b] == before[b - 1]);
                        } else {
                            assert(order@[a] == before[a] && order@[b] == before[b]);
                        }
                    }
                    assert forall|j: int| 0 <= j < order@.len() implies #[trigger] order@[j] < k + 1 by {
                        if j < p {
                            assert(order@[j] == before[j]);
                        } else if j > p {
                            assert(order@[j] == before[j - 1]);
                        }
                    }
                    assert(order@.no_duplicates()) by {
                        assert forall|a: int, b: int| 0 <= a < b < order@.len() implies order@[a] != order@[b] by {
                            if a != p && b != p {
                                let a2 = if a < p { a } else { a - 1 };
                                let b2 = if b < p { b } else { b - 1 };
                                assert(order@[a] == before[a2] && order@[b] == before[b2]);
                            } else if a == p {
                                assert(order@[b] == before[b - 1]);
                            } else {
                                assert(order@[a] == before[a]);
                            }
                        }
                    }
                    assert forall|q: int| 0 <= q < order@.len() implies #[trigger] order@[q] < c@.len() && c@[order@[q] as int].status == NodeStatus::Exist by {
                        if q < p {
                            assert(order@[q] == before[q]);
                        } else if q > p {
                            assert(order@[q] == before[q - 1]);
                        }
                    }
                    assert forall|i: int| 0 <= i < k + 1 && c@[i].status == NodeStatus::Exist implies order@.contains(i as usize) by {
                        if i == k {
                            assert(order@[p as int] == k);
                        } else {
                            let j = choose|j: int| 0 <= j < before.len() && before[j] == i as usize;
                            let j2 = if j < p { j } else { j + 1 };
                            assert(order@[j2] == before[j]);
                        }
                    }
                }
            }
            k += 1;
        }
        order
    }
}

proof fn lemma_node_less_asym(a: Node, b: Node)
    ensures
        !(node_less(a, b) && node_less(b, a)),
{
    lemma_text_less_asym(name_of(a), name_of(b));
}

proof fn lemma_node_less_trans(a: Node, b: Node, c: Node)
    requires
        node_less(a, b),
        node_less(b, c),
    ensures
        node_less(a, c),
{
    if a.is_dir == b.is_dir && b.is_dir == c.is_dir {
        lemma_text_less_trans(name_of(a), name_of(b), name_of(c));
    }
}

/// The branch marks before a line, one per level above it.
pub open spec fn branches(is_last: Seq<bool>) -> Seq<char>
    decreases is_last.len(),
{
    if is_last.len() == 0 {
        Seq::empty()
    } else {
        let last = is_last.len() - 1;
        branches_above(is_last.drop_last()) + if is_last[last] {
            "└── "@
        } else {
            "├── "@
        }
    }
}

/// The marks of the levels above the last one.
pub open spec fn branches_above(s: Seq<bool>) -> Seq<char>
    decreases s.len(),
{
    if s.len() == 0 {
        Seq::empty()
    } else {
        branches_above(s.drop_last()) + if s.last() {
            "    "@
        } else {
            "│   "@
        }
    }
}

/// The name shown for a node: its file name, or `replica-<id>` for the base node.
pub open spec fn shown_name(n: Node, id: i32) -> Seq<char> {
    if n.path@.names.len() > 0 {
        name_of(n)
    } else {
        "replica-"@ + decimal(id as int)
    }
}

/// The line of a node in the tree view.
pub open spec fn tree_line_text(n: Node, id: i32, show_detail: bool, is_last: Seq<bool>) -> Seq<char> {
    branches(is_last) + (if n.is_dir {
        "\x1b[1;34m"@ + shown_name(n, id) + "\x1b[0m"@
    } else {
        shown_name(n, id)
    }) + if show_detail {
        "  \x1b[33m"@ + entries_text(n.mod_time.entries()) + "\x1b[0m"@ + "  \x1b[32m"@
            + entries_text(n.sync_time.entries()) + "\x1b[0m"@
    } else {
        Seq::empty()
    }
}

impl Node {
    /// The line of this node in the tree view of replica `id`; `is_last` says, for
    /// each level from the top, whether the node there is the last of its siblings.
    #[verifier::rlimit(50)]
    pub fn tree_line(&self, id: i32, show_detail: bool, is_last: &Vec<bool>) -> (r: String)
        ensures
            r@ == tree_line_text(*self, id, show_detail, is_last@),
    {
        let mut r = String::new();
        let n = is_last.len();
        let mut i: usize = 0;
        proof {
            assert(is_last@.subrange(0, 0) =~= Seq::<bool>::empty());
        }
        while n > 0 && i < n - 1
            invariant
                n == is_last@.len(),
                n > 0 ==> i <= n - 1,
                n == 0 ==> i == 0,
                r@ == branches_above(is_last@.subrange(0, i as int)),
            decreases n - i,
        {
            if is_last[i] {
                r.append("    ");
            } else {
                r.append("│   ");
            }
            proof {
                assert(is_last@.subrange(0, i + 1).drop_last() =~= is_last@.subrange(0, i as int));
            }
            i += 1;
        }
        if n > 0 {
            if is_last[n - 1] {
                r.append("└── ");
            } else {
                r.append("├── ");
            }
            proof {
                assert(is_last@.drop_last() =~= is_last@.subrange(0, (n - 1) as int));
            }
        } else {
            proof {
                assert(r@ =~= branches(is_last@));
            }
        }
        let name = match self.file_name() {
            Some(s) => s,
            None => {
                let mut s = String::from_str("replica-");
                s.append(int_text(id).as_str());
                s
            },
        };
        if self.is_dir {
            r.append("\x1b[1;34m");
            r.append(name.as_str());
            r.append("\x1b[0m");
        } else {
            r.append(name.as_str());
        }
        if show_detail {
            r.append("  \x1b[33m");
            r.append(self.mod_time.display().as_str());
            r.append("\x1b[0m");
            r.append("  \x1b[32m");
            r.append(self.sync_time.display().as_str());
            r.append("\x1b[0m");
        }
        r
    }
}

} // verus!

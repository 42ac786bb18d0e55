use tra::node::{Node, NodeStatus};
use tra::path_local::PathLocal;
use tra::timestamp::VectorTime;
use tra::tree::name_less;

fn entry(name: &str, is_dir: bool, live: bool) -> Node {
    let mut n = Node::new_from_create(PathLocal::new_from_rel("/r", &format!("top/{}", name)), 2, 1, is_dir, None);
    if !live {
        n.status = NodeStatus::Deleted;
    }
    n
}

#[test]
fn names_compare_by_code_point() {
    assert!(name_less("a", "b"));
    assert!(name_less("a", "ab"));
    assert!(!name_less("ab", "a"));
    assert!(!name_less("a", "a"));
    assert!(name_less("", "a"));
    assert!(name_less("B", "a"));
}

#[test]
fn live_children_files_first_by_name() {
    let mut top = Node::new_from_create(PathLocal::new_from_rel("/r", "top"), 1, 1, true, None);
    top.children.push(entry("zdir", true, true));
    top.children.push(entry("b.txt", false, true));
    top.children.push(entry("gone", false, false));
    top.children.push(entry("a.txt", false, true));
    top.children.push(entry("adir", true, true));
    assert_eq!(top.live_children_order(), vec![3, 1, 4, 0]);
}

#[test]
fn tree_lines_show_branches_and_clocks() {
    let base = Node::new_base_node(PathLocal::new_from_rel("/r", ""), None);
    assert_eq!(base.tree_line(2, false, &Vec::new()), "\x1b[1;34mreplica-2\x1b[0m");
    let f = entry("a.txt", false, true);
    assert_eq!(f.tree_line(1, false, &vec![false, true]), "│   └── a.txt");
    assert_eq!(f.tree_line(1, false, &vec![true, false]), "    ├── a.txt");
    assert_eq!(
        f.tree_line(1, true, &vec![true]),
        "└── a.txt  \x1b[33m(1, 2) \x1b[0m  \x1b[32m(1, 2) \x1b[0m"
    );
    let t = Node::new_tmp(PathLocal::new_from_rel("/r", "x"), &VectorTime::new_empty());
    assert_eq!(t.tree_line(1, true, &Vec::new()), "x  \x1b[33m\x1b[0m  \x1b[32m\x1b[0m");
}

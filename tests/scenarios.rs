use tra::node::{ModOption, ModType, Node, NodeStatus};
use tra::path_local::PathLocal;
use tra::replica::Replica;
use tra::sync::SyncAction;
use tra::synchronization::{StepKind, SyncStep};

fn replica(id: i32, wd: i32) -> Replica {
    let base = PathLocal::new_from_rel(&format!("/tmp/replica-{}", id), "");
    let mut r = Replica::new(id, base, Some(wd));
    assert_eq!(r.init_all(), 1);
    r
}

fn walk(names: &[&str]) -> Vec<String> {
    names.iter().map(|s| s.to_string()).collect()
}

fn node_at<'a>(r: &'a Replica, names: &[&str]) -> &'a Node {
    let mut n = &r.base_node;
    for name in names {
        n = n.child(&name.to_string()).expect("node on the path");
    }
    n
}

fn create(r: &mut Replica, dir: &[&str], name: &str, is_dir: bool, wd: Option<i32>) -> i32 {
    let time = r.add_counter();
    let parent = node_at(r, dir).path.duplicate();
    let child = Node::new_from_create(parent.join_name(name), time, r.id, is_dir, wd);
    let op = ModOption { ty: ModType::Create, time, name: name.to_string(), is_dir };
    assert!(r.handle_event(&walk(dir), &op, Some(child)).is_ok());
    time
}

fn event(r: &mut Replica, dir: &[&str], name: &str, ty: ModType) -> Vec<i32> {
    let time = r.add_counter();
    let op = ModOption { ty, time, name: name.to_string(), is_dir: false };
    r.handle_event(&walk(dir), &op, None).expect("event applies")
}

fn kinds(steps: &[SyncStep]) -> Vec<StepKind> {
    steps.iter().map(|s| s.kind).collect()
}

#[test]
fn propagation_creates_file_with_origin_stamp() {
    let mut r1 = replica(1, 10);
    let mut r2 = replica(2, 20);
    let c1 = create(&mut r1, &[], "a.txt", false, None);
    let steps = r2.handle_sync("a.txt", &r1).unwrap();
    assert_eq!(kinds(&steps), vec![StepKind::File(SyncAction::CreateToIndependentEmpty)]);
    assert_eq!(steps[0].path.display(), "/tmp/replica-2/a.txt");
    assert_eq!(steps[0].freeze, Some(20));
    let n = node_at(&r2, &["a.txt"]);
    assert_eq!(n.status, NodeStatus::Exist);
    assert_eq!(n.create_time.create_id(), 1);
    assert_eq!(n.create_time.time(), c1);
}

#[test]
fn overwrite_after_local_append() {
    let mut r1 = replica(1, 10);
    let mut r2 = replica(2, 20);
    create(&mut r1, &[], "a.txt", false, None);
    r2.handle_sync("a.txt", &r1).unwrap();
    event(&mut r1, &[], "a.txt", ModType::Modify);
    let steps = r2.handle_sync("a.txt", &r1).unwrap();
    assert_eq!(kinds(&steps), vec![StepKind::File(SyncAction::Overwrite)]);
    let n2 = node_at(&r2, &["a.txt"]);
    let n1 = node_at(&r1, &["a.txt"]);
    assert!(n2.mod_time.leq(&n1.sync_time));
}

#[test]
fn delete_propagates() {
    let mut r1 = replica(1, 10);
    let mut r2 = replica(2, 20);
    create(&mut r1, &[], "a.txt", false, None);
    r2.handle_sync("a.txt", &r1).unwrap();
    event(&mut r1, &[], "a.txt", ModType::Modify);
    r2.handle_sync("a.txt", &r1).unwrap();
    event(&mut r1, &[], "a.txt", ModType::Delete);
    let steps = r2.handle_sync("a.txt", &r1).unwrap();
    assert_eq!(kinds(&steps), vec![StepKind::File(SyncAction::Delete)]);
    let n = node_at(&r2, &["a.txt"]);
    assert_eq!(n.status, NodeStatus::Deleted);
    assert_eq!(n.wd, None);
}

#[test]
fn independent_files_conflict() {
    let mut r1 = replica(1, 10);
    let mut r3 = replica(3, 30);
    create(&mut r1, &[], "x.txt", false, None);
    create(&mut r3, &[], "x.txt", false, None);
    let steps = r3.handle_sync("x.txt", &r1).unwrap();
    assert_eq!(kinds(&steps), vec![StepKind::File(SyncAction::Conflict)]);
    assert_eq!(node_at(&r3, &["x.txt"]).create_time.create_id(), 3);
}

fn make_dir_with_files(r1: &mut Replica) {
    let time = r1.add_counter();
    let d_path = r1.base_node.path.join_name("d");
    let mut d = Node::new_from_create(d_path, time, 1, true, Some(11));
    for name in ["a.txt", "b.txt", "c.txt"] {
        let f = Node::new_from_create(d.path.join_name(name), time, 1, false, None);
        d.children.push(f);
    }
    let op = ModOption { ty: ModType::Create, time, name: "d".to_string(), is_dir: true };
    r1.handle_event(&Vec::new(), &op, Some(d)).unwrap();
}

#[test]
fn directory_sync_creates_all_files() {
    let mut r1 = replica(1, 10);
    let mut r2 = replica(2, 20);
    make_dir_with_files(&mut r1);
    let steps = r2.handle_sync("d", &r1).unwrap();
    let k = kinds(&steps);
    assert_eq!(k.len(), 4);
    assert_eq!(k.iter().filter(|s| **s == StepKind::File(SyncAction::CreateToIndependentEmpty)).count(), 3);
    assert_eq!(k[3], StepKind::CreateDir);
    assert!(r2.base_node.set_watch_at(&walk(&["d"]), 0, Some(21)));
    let d = node_at(&r2, &["d"]);
    assert_eq!(d.status, NodeStatus::Exist);
    assert_eq!(d.wd, Some(21));
    for name in ["a.txt", "b.txt", "c.txt"] {
        assert_eq!(node_at(&r2, &["d", name]).status, NodeStatus::Exist);
    }
}

#[test]
fn emptied_directory_stays() {
    let mut r1 = replica(1, 10);
    let mut r2 = replica(2, 20);
    make_dir_with_files(&mut r1);
    r2.handle_sync("d", &r1).unwrap();
    r2.base_node.set_watch_at(&walk(&["d"]), 0, Some(21));
    for name in ["a.txt", "b.txt", "c.txt"] {
        event(&mut r1, &["d"], name, ModType::Delete);
    }
    let steps = r2.handle_sync("d", &r1).unwrap();
    let k = kinds(&steps);
    assert_eq!(k.iter().filter(|s| **s == StepKind::File(SyncAction::Delete)).count(), 3);
    assert!(!k.iter().any(|s| matches!(s, StepKind::DeleteDir(_))));
    let d = node_at(&r2, &["d"]);
    assert_eq!(d.status, NodeStatus::Exist);
    for name in ["a.txt", "b.txt", "c.txt"] {
        assert_eq!(node_at(&r2, &["d", name]).status, NodeStatus::Deleted);
    }
}

#[test]
fn second_sync_is_all_skips() {
    let mut r1 = replica(1, 10);
    let mut r2 = replica(2, 20);
    make_dir_with_files(&mut r1);
    create(&mut r1, &[], "top.txt", false, None);
    r2.handle_sync("", &r1).unwrap();
    let steps = r2.handle_sync("", &r1).unwrap();
    assert!(!steps.is_empty());
    for s in &steps {
        assert_eq!(s.kind, StepKind::File(SyncAction::SkipNewer));
    }
}

#[test]
fn sync_back_is_skip() {
    let mut r1 = replica(1, 10);
    let mut r2 = replica(2, 20);
    create(&mut r1, &[], "a.txt", false, None);
    r2.handle_sync("a.txt", &r1).unwrap();
    let steps = r1.handle_sync("a.txt", &r2).unwrap();
    assert_eq!(kinds(&steps), vec![StepKind::File(SyncAction::SkipNewer)]);
    let a1 = node_at(&r1, &["a.txt"]);
    let a2 = node_at(&r2, &["a.txt"]);
    assert!(a1.mod_time.leq(&a2.mod_time) && a2.mod_time.leq(&a1.mod_time));
}

#[test]
fn empty_remote_directory_is_created() {
    let mut r1 = replica(1, 10);
    let mut r2 = replica(2, 20);
    create(&mut r1, &[], "e", true, Some(12));
    let steps = r2.handle_sync("e", &r1).unwrap();
    assert_eq!(kinds(&steps), vec![StepKind::CreateDir]);
    let e = node_at(&r2, &["e"]);
    assert_eq!(e.status, NodeStatus::Exist);
    assert!(e.is_dir);
    assert!(e.children.is_empty());
}

#[test]
fn moved_entry_is_new_file() {
    let mut r1 = replica(1, 10);
    let c = create(&mut r1, &[], "old.txt", false, None);
    let time = r1.add_counter();
    let op = ModOption { ty: ModType::MovedFrom, time, name: "old.txt".to_string(), is_dir: false };
    r1.handle_event(&Vec::new(), &op, None).unwrap();
    let time2 = r1.add_counter();
    let moved = Node::new_from_create(r1.base_node.path.join_name("new.txt"), time2, 1, false, None);
    let op2 = ModOption { ty: ModType::MovedTo, time: time2, name: "new.txt".to_string(), is_dir: false };
    r1.handle_event(&Vec::new(), &op2, Some(moved)).unwrap();
    assert_eq!(node_at(&r1, &["old.txt"]).status, NodeStatus::Deleted);
    let n = node_at(&r1, &["new.txt"]);
    assert_eq!(n.status, NodeStatus::Exist);
    assert!(n.create_time.time() > c);
}

#[test]
fn missing_parent_fails_event() {
    let mut r1 = replica(1, 10);
    let time = r1.add_counter();
    let op = ModOption { ty: ModType::Modify, time, name: "f".to_string(), is_dir: false };
    let err = r1.handle_event(&walk(&["nope"]), &op, None).unwrap_err();
    assert_eq!(err, "Event Handling Error : Node not found along the path");
    let err = r1.handle_event(&Vec::new(), &op, None).unwrap_err();
    assert_eq!(err, "Modify Error : Node not found when handling Modify event");
    let del = ModOption { ty: ModType::Delete, time, name: "f".to_string(), is_dir: false };
    let err = r1.handle_event(&Vec::new(), &del, None).unwrap_err();
    assert_eq!(err, "Delete Error : Node not found when handling Delete Event");
    let cr = ModOption { ty: ModType::Create, time, name: "f".to_string(), is_dir: false };
    let err = r1.handle_event(&Vec::new(), &cr, None).unwrap_err();
    assert_eq!(err, "Creation Error : no node for the created entry");
}

#[test]
fn local_events_keep_dominance_and_roll_clocks() {
    let mut r1 = replica(1, 10);
    make_dir_with_files(&mut r1);
    let before = r1.base_node.mod_time.get(1);
    event(&mut r1, &["d"], "a.txt", ModType::Modify);
    let after = r1.base_node.mod_time.get(1);
    assert!(after > before);
    let d = node_at(&r1, &["d"]);
    assert!(d.mod_time.leq(&d.sync_time));
    assert!(r1.base_node.mod_time.leq(&r1.base_node.sync_time));
    let mut d2 = Node::new_from_create(PathLocal::new_from_rel("/x", "d"), 1, 1, true, None);
    d2.children.push(Node::new_from_create(PathLocal::new_from_rel("/x", "d/a"), 2, 1, false, None));
    d2.children.push(Node::new_from_create(PathLocal::new_from_rel("/x", "d/b"), 3, 2, false, None));
    d2.pushup_mod();
    assert_eq!(d2.mod_time.get(1), 2);
    assert_eq!(d2.mod_time.get(2), 3);
}

#[test]
fn deleted_directory_drops_watches() {
    let mut r1 = replica(1, 10);
    make_dir_with_files(&mut r1);
    let dropped = event(&mut r1, &[], "d", ModType::MovedFrom);
    assert_eq!(dropped, vec![11]);
    let d = node_at(&r1, &["d"]);
    assert_eq!(d.status, NodeStatus::Deleted);
    assert_eq!(d.wd, None);
    for name in ["a.txt", "b.txt", "c.txt"] {
        assert_eq!(node_at(&r1, &["d", name]).status, NodeStatus::Deleted);
    }
}

#[test]
fn query_of_missing_path_inherits_sync_clock() {
    let r1 = replica(1, 10);
    let q = r1.handle_query("no/such");
    assert!(q.deleted);
    assert!(!q.is_dir);
    assert_eq!(q.create_id, 0);
    assert!(q.mod_time.is_empty());
    assert_eq!(q.sync_time, vec![(1, 1)]);
    let (data, is_dir) = q.to_data();
    assert_eq!(data.status, NodeStatus::Deleted);
    assert!(!is_dir);
}

#[test]
fn sync_into_missing_directory_creates_parent() {
    let mut r1 = replica(1, 10);
    let mut r2 = replica(2, 20);
    create(&mut r1, &[], "d", true, Some(11));
    let c = create(&mut r1, &["d"], "f.txt", false, None);
    let steps = r2.handle_sync("d/f.txt", &r1).unwrap();
    assert_eq!(
        kinds(&steps),
        vec![StepKind::File(SyncAction::CreateToIndependentEmpty), StepKind::CreateForParent]
    );
    assert_eq!(steps[1].path.display(), "/tmp/replica-2/d");
    let d = node_at(&r2, &["d"]);
    assert_eq!(d.status, NodeStatus::Exist);
    assert!(d.is_dir);
    let f = node_at(&r2, &["d", "f.txt"]);
    assert_eq!(f.create_time.time(), c);
}

#[test]
fn query_of_existing_file_reports_clocks() {
    let mut r1 = replica(1, 10);
    let c = create(&mut r1, &[], "a.txt", false, None);
    let q = r1.handle_query("a.txt");
    assert!(!q.deleted);
    assert_eq!(q.create_id, 1);
    assert_eq!(q.create_time, c);
    assert_eq!(q.mod_time, vec![(1, c)]);
    assert_eq!(q.sync_time, vec![(1, r1.read_counter())]);
}

#[test]
fn skip_of_unchanged_peer_leaves_node() {
    let mut r1 = replica(1, 10);
    let mut r2 = replica(2, 20);
    create(&mut r2, &[], "mine.txt", false, None);
    let steps = r2.handle_sync("mine.txt", &r1).unwrap();
    assert_eq!(kinds(&steps), vec![StepKind::File(SyncAction::SkipFromIndependentEmpty)]);
    assert_eq!(node_at(&r2, &["mine.txt"]).status, NodeStatus::Exist);
    let both = r1.handle_sync("nothing", &r2).unwrap();
    assert_eq!(kinds(&both), vec![StepKind::File(SyncAction::SkipBothDeleted)]);
}

#[test]
fn tombstone_refuses_watch() {
    let mut r1 = replica(1, 10);
    create(&mut r1, &[], "gone", true, Some(13));
    let dropped = event(&mut r1, &[], "gone", ModType::Delete);
    assert_eq!(dropped, vec![13]);
    assert!(!r1.base_node.set_watch_at(&walk(&["gone"]), 0, Some(14)));
    assert_eq!(node_at(&r1, &["gone"]).wd, None);
    assert!(r1.base_node.set_watch_at(&walk(&["gone"]), 0, None));
    assert!(!r1.base_node.set_watch_at(&walk(&["missing"]), 0, None));
}

#[test]
fn directory_sync_can_leave_mod_above_sync() {
    let mut r1 = replica(1, 10);
    let mut r2 = replica(2, 20);
    let mut r3 = replica(3, 30);
    create(&mut r3, &[], "d", true, Some(31));
    create(&mut r3, &["d"], "f", false, None);
    r2.handle_sync("d", &r3).unwrap();
    r2.base_node.set_watch_at(&walk(&["d"]), 0, Some(21));
    create(&mut r1, &[], "d", true, Some(11));
    create(&mut r1, &["d"], "g", false, None);
    r2.handle_sync("d", &r1).unwrap();
    let d = node_at(&r2, &["d"]);
    assert_eq!(node_at(&r2, &["d", "f"]).status, NodeStatus::Exist);
    assert_eq!(node_at(&r2, &["d", "g"]).status, NodeStatus::Exist);
    assert!(d.mod_time.get(3) > d.sync_time.get(3));
    assert!(!d.mod_time.leq(&d.sync_time));
}

#[test]
fn moved_out_directory_tombstones_subtree() {
    let mut r1 = replica(1, 10);
    create(&mut r1, &[], "d", true, Some(11));
    create(&mut r1, &["d"], "e", true, Some(12));
    create(&mut r1, &["d", "e"], "f", false, None);
    let mut dropped = event(&mut r1, &[], "d", ModType::MovedFrom);
    dropped.sort();
    assert_eq!(dropped, vec![11, 12]);
    for names in [&["d"][..], &["d", "e"][..], &["d", "e", "f"][..]] {
        let n = node_at(&r1, names);
        assert_eq!(n.status, NodeStatus::Deleted);
        assert_eq!(n.wd, None);
    }
}

#[test]
fn scanned_entries_and_snapshot() {
    let mut base = Node::new_base_node(PathLocal::new_from_rel("/r", ""), Some(1));
    let k = base.add_scanned("a", 1, 7, false, None);
    assert_eq!(k, 0);
    let j = base.add_scanned("sub", 1, 7, true, Some(2));
    base.children[j].add_scanned("b", 1, 7, false, None);
    assert_eq!(base.children.len(), 2);
    let sub = &base.children[1];
    assert_eq!(sub.status, NodeStatus::Exist);
    assert_eq!(sub.wd, Some(2));
    assert_eq!(sub.create_time.create_id(), 7);
    assert_eq!(sub.children[0].path.display(), "/r/sub/b");
    let copy = base.snapshot();
    assert_eq!(copy.children.len(), 2);
    assert_eq!(copy.children[1].children[0].path.display(), "/r/sub/b");
    assert_eq!(copy.children[1].mod_time.get(7), 1);
    assert_eq!(copy.wd, Some(1));
}

#[test]
fn round_trip_leaves_peer_clock_as_it_was() {
    let mut r1 = replica(1, 10);
    let mut r2 = replica(2, 20);
    create(&mut r1, &[], "a.txt", false, None);
    r2.handle_sync("a.txt", &r1).unwrap();
    let steps = r1.handle_sync("a.txt", &r2).unwrap();
    assert_eq!(kinds(&steps), vec![StepKind::File(SyncAction::SkipNewer)]);
    let a1 = node_at(&r1, &["a.txt"]);
    let a2 = node_at(&r2, &["a.txt"]);
    assert!(a1.sync_time.leq(&a2.sync_time));
    assert_eq!(a1.sync_time.get(2), 0);
    assert!(a2.sync_time.get(2) > 0);
}

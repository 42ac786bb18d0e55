use tra::node::{Node, NodeStatus};
use tra::path_local::PathLocal;
use tra::query::{QueryRes, RemoteData};
use tra::sync::{DirOutcome, SyncAction};
use tra::timestamp::{SingletonTime, VectorTime};

fn local(exist: bool, is_dir: bool, create: (i32, i32), m: &[(i32, i32)], s: &[(i32, i32)]) -> Node {
    let mut n = Node::new_tmp(PathLocal::new_from_rel("/r", "f"), &VectorTime::from_pairs(&s.to_vec()));
    n.status = if exist { NodeStatus::Exist } else { NodeStatus::Deleted };
    n.is_dir = is_dir;
    n.create_time = SingletonTime::new(create.0, create.1);
    n.mod_time = VectorTime::from_pairs(&m.to_vec());
    n
}

fn remote(exist: bool, create: (i32, i32), m: &[(i32, i32)], s: &[(i32, i32)]) -> RemoteData {
    RemoteData {
        children: Vec::new(),
        mod_time: VectorTime::from_pairs(&m.to_vec()),
        sync_time: VectorTime::from_pairs(&s.to_vec()),
        create_time: SingletonTime::new(create.0, create.1),
        status: if exist { NodeStatus::Exist } else { NodeStatus::Deleted },
    }
}

#[test]
fn table_both_deleted() {
    let l = local(false, false, (0, 0), &[], &[(2, 1)]);
    assert_eq!(l.decide(false, &remote(false, (0, 0), &[], &[(1, 1)]), false), SyncAction::SkipBothDeleted);
}

#[test]
fn table_remote_known() {
    let l = local(true, false, (2, 1), &[(2, 1)], &[(1, 3), (2, 1)]);
    assert_eq!(l.decide(false, &remote(true, (1, 2), &[(1, 3)], &[(1, 3)]), false), SyncAction::SkipNewer);
}

#[test]
fn table_type_mismatch() {
    let l = local(true, true, (2, 1), &[(2, 1)], &[(2, 1)]);
    assert_eq!(l.decide(true, &remote(true, (1, 2), &[(1, 2)], &[(1, 2)]), false), SyncAction::SkipDifferentType);
}

#[test]
fn table_overwrite_and_conflict() {
    let l = local(true, false, (1, 2), &[(1, 2)], &[(1, 2), (2, 3)]);
    assert_eq!(l.decide(false, &remote(true, (1, 2), &[(1, 4)], &[(1, 4)]), false), SyncAction::Overwrite);
    let l2 = local(true, false, (1, 2), &[(1, 2), (2, 5)], &[(1, 2), (2, 5)]);
    assert_eq!(l2.decide(false, &remote(true, (1, 2), &[(1, 4)], &[(1, 4)]), false), SyncAction::Conflict);
}

#[test]
fn table_remote_deleted() {
    let l = local(true, false, (1, 2), &[(1, 2)], &[(1, 2)]);
    assert_eq!(l.decide(false, &remote(false, (1, 2), &[(1, 5)], &[(1, 5)]), false), SyncAction::Delete);
    let l2 = local(true, false, (1, 2), &[(1, 2), (2, 4)], &[(1, 2), (2, 4)]);
    assert_eq!(l2.decide(false, &remote(false, (1, 2), &[(1, 5)], &[(1, 5)]), false), SyncAction::Conflict);
    let l3 = local(true, false, (2, 2), &[(2, 2)], &[(2, 2)]);
    assert_eq!(
        l3.decide(false, &remote(false, (0, 0), &[], &[(1, 5)]), false),
        SyncAction::SkipFromIndependentEmpty
    );
}

#[test]
fn table_local_deleted() {
    let l = local(false, false, (0, 0), &[], &[(2, 1)]);
    assert_eq!(
        l.decide(false, &remote(true, (1, 2), &[(1, 2)], &[(1, 2)]), false),
        SyncAction::CreateToIndependentEmpty
    );
    let l2 = local(false, false, (1, 2), &[(1, 3)], &[(1, 3), (2, 4)]);
    assert_eq!(l2.decide(false, &remote(true, (1, 2), &[(1, 5)], &[(1, 5)]), false), SyncAction::Conflict);
    assert_eq!(l.decide(false, &remote(true, (1, 2), &[(1, 2)], &[(1, 2)]), true), SyncAction::SyncDir);
}

#[test]
fn sync_work_takes_remote_clocks() {
    let mut l = local(true, false, (1, 2), &[(1, 2)], &[(1, 2)]);
    let r = remote(true, (1, 2), &[(1, 4)], &[(1, 4), (3, 1)]);
    l.sync_work(tra::node::SyncType::Override, &r, 2, 9);
    assert_eq!(l.mod_time.get(1), 4);
    assert_eq!(l.sync_time.get(1), 4);
    assert_eq!(l.sync_time.get(3), 1);
    assert_eq!(l.sync_time.get(2), 9);
    assert_eq!(l.status, NodeStatus::Exist);
}

#[test]
fn finish_dir_sync_deletes_empty_known_dir() {
    let mut l = local(true, true, (1, 2), &[], &[(1, 2)]);
    l.wd = Some(5);
    let r = remote(false, (1, 2), &[(1, 4)], &[(1, 4)]);
    assert_eq!(l.finish_dir_sync(&r, 2, 9), DirOutcome::Delete(Some(5)));
    assert_eq!(l.status, NodeStatus::Deleted);
    assert_eq!(l.wd, None);
    let mut t = local(false, false, (0, 0), &[], &[(2, 1)]);
    let r2 = remote(true, (1, 2), &[(1, 4)], &[(1, 4)]);
    assert_eq!(t.finish_dir_sync(&r2, 2, 9), DirOutcome::Materialize);
    assert_eq!(t.status, NodeStatus::Exist);
}

#[test]
fn query_res_round_trip() {
    let mut n = local(true, false, (1, 2), &[(1, 2)], &[(1, 3)]);
    n.children.push(Node::new_tmp(PathLocal::new_from_rel("/r", "f/x"), &VectorTime::new_empty()));
    let q = QueryRes::from_data(&n, false);
    assert!(!q.deleted);
    assert_eq!(q.create_id, 1);
    assert_eq!(q.create_time, 2);
    assert_eq!(q.mod_time, vec![(1, 2)]);
    assert_eq!(q.sync_time, vec![(1, 3)]);
    assert_eq!(q.children, vec!["x".to_string()]);
    let (d, is_dir) = q.to_data();
    assert!(!is_dir);
    assert_eq!(d.status, NodeStatus::Exist);
    assert_eq!(d.mod_time.get(1), 2);
    assert_eq!(d.children, vec!["x".to_string()]);
}

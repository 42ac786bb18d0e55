use tra::banner::{LocalBanner, SyncBanner};
use tra::conflicts::{conflict_text, format_diff, DiffResult};
use tra::delta::{patched_bytes, request_signature};
use tra::file_watcher::WatchIfc;
use tra::node::NodeStatus;
use tra::path_local::PathLocal;

fn path() -> PathLocal {
    PathLocal::new_from_rel("/tmp/replica-1", "d/a.txt")
}

#[test]
fn local_banners() {
    let p = path();
    assert_eq!(LocalBanner::new_watch(&p), "Local Watch: \"/tmp/replica-1/d/a.txt\" added");
    assert_eq!(LocalBanner::remove_watch(&p), "Local Watch: \"/tmp/replica-1/d/a.txt\" removed");
    assert_eq!(
        LocalBanner::create(&PathLocal::new_from_rel("/tmp/replica-1", "d"), "a.txt"),
        "Local Creation: \"a.txt\" in \"/tmp/replica-1/d\""
    );
    assert_eq!(LocalBanner::modify(&p), "Local Modification: \"/tmp/replica-1/d/a.txt\"");
    assert_eq!(LocalBanner::delete(&p), "Local Deletion: \"/tmp/replica-1/d/a.txt\"");
}

#[test]
fn sync_banners() {
    let p = path();
    let shown = "\"/tmp/replica-1/d/a.txt\"";
    assert_eq!(SyncBanner::skip_both_deleted(&p), format!("Sync Skip : {} (both deleted)", shown));
    assert_eq!(SyncBanner::skip_newer(&p), format!("Sync Skip : {} (newer)", shown));
    assert_eq!(
        SyncBanner::skip_from_independent_empty(&p),
        format!("Sync Skip : {} (from independent empty)", shown)
    );
    assert_eq!(SyncBanner::skip_different_type(&p), format!("Sync Skip : {} (different type)", shown));
    assert_eq!(SyncBanner::delete(&p), format!("Sync Deletion : {}", shown));
    assert_eq!(
        SyncBanner::create_to_independent_empty(&p),
        format!("Sync Creation : {} (to independent empty)", shown)
    );
    assert_eq!(SyncBanner::create_for_parent(&p), format!("Sync Creation : {} (for parent)", shown));
    assert_eq!(SyncBanner::overwrite(&p), format!("Sync Overwrite : {}", shown));
    assert_eq!(SyncBanner::conflict(&p), format!("Sync Conflict : {}", shown));
    assert_eq!(
        SyncBanner::sync_request(1, 50000, 2, 50001, "a.txt"),
        "Sync Request : replica-1(50000) -> replica-2(50001), path = \"a.txt\""
    );
}

#[test]
fn diff_markup_brackets_changes() {
    let d = vec![
        DiffResult::Both("same".to_string(), "same".to_string()),
        DiffResult::Left("mine".to_string()),
        DiffResult::Right("theirs".to_string()),
        DiffResult::Both("end".to_string(), "end".to_string()),
    ];
    assert_eq!(
        format_diff(d),
        "same\n<<<<<<< LOCAL BEGIN\nmine\n<<<<<<< LOCAL END\n>>>>>>> REMOTE BEGIN\ntheirs\n>>>>>>> REMOTE END\nend\n"
    );
}

#[test]
fn diff_markup_closes_open_side() {
    assert_eq!(format_diff(vec![DiffResult::Left("x".to_string())]), "<<<<<<< LOCAL BEGIN\nx\n<<<<<<< LOCAL END\n");
    assert_eq!(format_diff(vec![DiffResult::Right("y".to_string())]), ">>>>>>> REMOTE BEGIN\ny\n>>>>>>> REMOTE END\n");
    assert_eq!(
        format_diff(vec![DiffResult::Right("y".to_string()), DiffResult::Left("x".to_string())]),
        ">>>>>>> REMOTE BEGIN\ny\n>>>>>>> REMOTE END\n<<<<<<< LOCAL BEGIN\nx\n<<<<<<< LOCAL END\n"
    );
    assert_eq!(format_diff(Vec::new()), "");
}

#[test]
fn conflict_text_marks_both_versions() {
    let t = conflict_text("a\nb\n", "a\nc\n");
    assert!(t.starts_with("a\n"));
    assert!(t.contains("<<<<<<< LOCAL BEGIN\nb\n"));
    assert!(t.contains("c\n"));
    assert_ne!(t, "a\nb\n");
    assert_eq!(conflict_text("same\n", "same\n"), "same\n\n");
}

#[test]
fn delta_round_trip_rebuilds_remote() {
    let local = b"hello".to_vec();
    let remote = b"hello world".to_vec();
    let sig = request_signature(&local);
    assert!(!sig.is_empty());
    assert_ne!(sig, local);
    let parsed = fast_rsync::Signature::deserialize(sig).unwrap();
    let mut delta = Vec::new();
    fast_rsync::diff(&parsed.index(), &remote, &mut delta).unwrap();
    assert_eq!(patched_bytes(&local, &delta).unwrap(), remote);
}

#[test]
fn bad_delta_is_refused() {
    let err = patched_bytes(&b"abc".to_vec(), &vec![1, 2, 3]).unwrap_err();
    assert_eq!(err, "Sync Bytes : apply failed");
}

#[test]
fn watch_registry_maps_and_freezes() {
    let mut w = WatchIfc::new();
    assert!(w.query_path(1).is_none());
    w.add_watch(1, path());
    w.add_watch(2, PathLocal::new_from_rel("/tmp/replica-1", ""));
    assert_eq!(w.query_path(1).unwrap().to_rel(), "d/a.txt");
    assert!(!w.is_freezed(1));
    w.freeze_watch(1);
    w.freeze_watch(1);
    assert!(w.is_freezed(1));
    assert!(!w.is_freezed(2));
    w.unfreeze_watch(1);
    assert!(w.is_freezed(1));
    w.unfreeze_watch(1);
    assert!(!w.is_freezed(1));
    assert!(w.remove_watch(1));
    assert!(!w.remove_watch(1));
    assert!(w.query_path(1).is_none());
    assert_eq!(w.query_path(2).unwrap().to_rel(), "");
}

#[test]
fn status_helpers() {
    let mut s = NodeStatus::Deleted;
    assert!(s.deleted() && !s.exist());
    s.bitor_assign(NodeStatus::Deleted);
    assert_eq!(s, NodeStatus::Deleted);
    s.bitor_assign(NodeStatus::Exist);
    assert!(s.exist());
    s.set_deleted();
    assert!(s.deleted());
    s.set_exist();
    assert!(s.exist());
}

use tra::config::sync_folder_prefix;
use tra::machine::ServeAddr;
use tra::path_local::PathLocal;

#[test]
fn rel_path_splits_names() {
    let p = PathLocal::new_from_rel("/tmp/replica-1", "d/a.txt");
    assert_eq!(p.names(), &vec!["d".to_string(), "a.txt".to_string()]);
    assert_eq!(p.to_rel(), "d/a.txt");
    assert_eq!(p.display(), "/tmp/replica-1/d/a.txt");
    assert_eq!(p.prefix(), "/tmp/replica-1");
}

#[test]
fn rel_path_drops_empty_and_dot() {
    let p = PathLocal::new_from_rel("/r", "./a//b/.");
    assert_eq!(p.names(), &vec!["a".to_string(), "b".to_string()]);
    let e = PathLocal::new_from_rel("/r", "");
    assert!(e.names().is_empty());
    assert_eq!(e.file_name(), None);
    assert_eq!(e.display(), "/r");
    assert_eq!(e.to_rel(), "");
}

#[test]
fn local_path_strips_prefix() {
    let p = PathLocal::new_from_local("/tmp/replica-2", "/tmp/replica-2/x/y");
    assert_eq!(p.to_rel(), "x/y");
    assert_eq!(p.file_name(), Some("y".to_string()));
}

#[test]
fn walk_is_bottom_up() {
    let p = PathLocal::new_from_rel("/r", "a/b/c");
    assert_eq!(p.get_walk(), vec!["c".to_string(), "b".to_string(), "a".to_string()]);
}

#[test]
fn pop_and_join() {
    let mut p = PathLocal::new_from_rel("/r/", "a/b");
    assert_eq!(p.display(), "/r/a/b");
    assert_eq!(p.pop(), Some("b".to_string()));
    assert_eq!(p.to_rel(), "a");
    let q = p.join_name("z");
    assert_eq!(q.to_rel(), "a/z");
    assert_eq!(p.pop(), Some("a".to_string()));
    assert_eq!(p.pop(), None);
}

#[test]
fn folder_prefix_names_replica() {
    assert_eq!(sync_folder_prefix("/tmp/", 3), "/tmp/replica-3");
}

#[test]
fn serve_addr_texts() {
    let a = ServeAddr::new(49152);
    assert_eq!(a.port(), 49152);
    assert_eq!(a.addr(), "[::]:49152");
    assert_eq!(a.http_addr(), "http://[::]:49152");
}

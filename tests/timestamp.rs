use tra::timestamp::{SingletonTime, VectorTime};

fn clock(pairs: &[(i32, i32)]) -> VectorTime {
    VectorTime::from_pairs(&pairs.to_vec())
}

#[test]
fn empty_clock_reads_zero() {
    let v = VectorTime::new_empty();
    assert_eq!(v.get(1), 0);
    assert_eq!(v.get(-7), 0);
    assert_eq!(v.display(), "");
}

#[test]
fn singleton_clock_holds_one_stamp() {
    let s = SingletonTime::new(2, 5);
    assert_eq!(s.create_id(), 2);
    assert_eq!(s.time(), 5);
    let v = VectorTime::from_singleton_time(&s);
    assert_eq!(v.get(2), 5);
    assert_eq!(v.get(1), 0);
    assert_eq!(v.to_pairs(), vec![(2, 5)]);
}

#[test]
fn zero_stamp_gives_empty_clock() {
    let v = VectorTime::from_singleton_time(&SingletonTime::new(0, 0));
    assert!(v.to_pairs().is_empty());
}

#[test]
fn leq_is_pointwise() {
    let a = clock(&[(1, 2), (2, 3)]);
    let b = clock(&[(1, 2), (2, 4), (3, 1)]);
    assert!(a.leq(&b));
    assert!(!b.leq(&a));
    assert!(a.leq(&a));
    assert!(VectorTime::new_empty().leq(&a));
    let c = clock(&[(1, 3)]);
    assert!(!c.leq(&a));
    assert!(!a.leq(&c));
}

#[test]
fn join_is_pointwise_max() {
    let mut a = clock(&[(1, 2), (2, 7)]);
    let b = clock(&[(1, 5), (3, 1)]);
    a.check_max(&b);
    assert_eq!(a.get(1), 5);
    assert_eq!(a.get(2), 7);
    assert_eq!(a.get(3), 1);
    assert!(b.leq(&a));
}

#[test]
fn update_one_sets_component() {
    let mut a = clock(&[(1, 2)]);
    a.update_one(1, 4);
    a.update_one(2, 1);
    assert_eq!(a.get(1), 4);
    assert_eq!(a.get(2), 1);
}

#[test]
fn join_one_never_lowers() {
    let mut a = clock(&[(1, 6)]);
    a.join_one(1, 3);
    assert_eq!(a.get(1), 6);
    a.join_one(1, 9);
    assert_eq!(a.get(1), 9);
}

#[test]
fn pairs_keep_largest_and_drop_zero() {
    let a = clock(&[(1, 2), (1, 5), (2, 0), (3, 1), (1, 3)]);
    assert_eq!(a.get(1), 5);
    assert_eq!(a.get(2), 0);
    assert_eq!(a.get(3), 1);
    assert_eq!(a.to_pairs().len(), 2);
}

#[test]
fn leq_vec_reads_component() {
    let v = clock(&[(1, 4)]);
    assert!(SingletonTime::new(1, 4).leq_vec(&v));
    assert!(SingletonTime::new(1, 3).leq_vec(&v));
    assert!(!SingletonTime::new(1, 5).leq_vec(&v));
    assert!(!SingletonTime::new(2, 1).leq_vec(&v));
}

#[test]
fn display_lists_entries() {
    let a = clock(&[(1, 2), (3, 10)]);
    assert_eq!(a.display(), "(1, 2) (3, 10) ");
    let b = clock(&[(-4, 7)]);
    assert_eq!(b.display(), "(-4, 7) ");
}

#[test]
fn set_one_overrides() {
    let mut a = clock(&[(1, 9)]);
    a.set_one(1, 3);
    assert_eq!(a.get(1), 3);
}

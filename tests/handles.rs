use noctfs_fused::handles::HandleTable;

#[test]
fn ids_start_at_zero_and_increase() {
    let mut t = HandleTable::new();
    let a = t.next_fh();
    t.allocate_fh(a, 10);
    let b = t.next_fh();
    t.allocate_fh(b, 11);
    let c = t.next_fh();
    assert_eq!((a, b, c), (0, 1, 2));
    assert_eq!(t.get_ino(a), Some(10));
    assert_eq!(t.get_ino(b), Some(11));
    assert_eq!(t.get_ino(c), None);
}

#[test]
fn release_twice_is_a_no_op() {
    let mut t = HandleTable::new();
    let a = t.next_fh();
    t.allocate_fh(a, 10);
    let b = t.next_fh();
    t.allocate_fh(b, 11);
    t.free_fh(a);
    assert!(!t.is_fh_allocated(a));
    assert!(t.is_fh_allocated(b));
    t.free_fh(a);
    assert!(!t.is_fh_allocated(a));
    assert_eq!(t.get_ino(b), Some(11));
    t.free_fh(99);
    assert_eq!(t.get_ino(b), Some(11));
}

#[test]
fn freed_ids_are_not_reused() {
    let mut t = HandleTable::new();
    let a = t.next_fh();
    t.allocate_fh(a, 10);
    t.free_fh(a);
    let b = t.next_fh();
    assert_eq!(b, 1);
}

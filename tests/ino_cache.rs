use noctfs_fused::ino_cache::{INOCache, CACHE_CAPACITY};

#[test]
fn find_parent_after_add() {
    let mut c = INOCache::new();
    c.add(1, 10);
    c.add(10, 20);
    assert_eq!(c.find_parent(10), Some(1));
    assert_eq!(c.find_parent(20), Some(10));
    assert_eq!(c.find_parent(30), None);
}

#[test]
fn find_parent_returns_first_recorded() {
    let mut c = INOCache::default();
    c.add(5, 42);
    c.add(6, 42);
    assert_eq!(c.find_parent(42), Some(5));
}

#[test]
fn empty_cache_resolves_nothing() {
    let mut c = INOCache::new();
    assert_eq!(c.find_parent(1), None);
}

#[test]
fn entry_257_evicts_the_first() {
    let mut c = INOCache::new();
    for i in 0..CACHE_CAPACITY as u64 {
        c.add(1000 + i, i);
    }
    assert_eq!(c.find_parent(0), Some(1000));
    assert_eq!(c.find_parent(255), Some(1255));
    c.add(7, 256);
    assert_eq!(c.find_parent(0), None);
    assert_eq!(c.find_parent(1), Some(1001));
    assert_eq!(c.find_parent(255), Some(1255));
    assert_eq!(c.find_parent(256), Some(7));
}

#[test]
fn eviction_is_fifo_not_lru() {
    let mut c = INOCache::new();
    for i in 0..CACHE_CAPACITY as u64 {
        c.add(2000 + i, i);
    }
    // Looking an entry up does not make it younger.
    assert_eq!(c.find_parent(0), Some(2000));
    c.add(9, 300);
    c.add(9, 301);
    assert_eq!(c.find_parent(0), None);
    assert_eq!(c.find_parent(1), None);
    assert_eq!(c.find_parent(2), Some(2002));
}

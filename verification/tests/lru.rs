use qnetsim::caches::lru_cache::LruCache;

/// Capacity-5 LRU, update sequence [5, 4, 5, 3, 2, 1, 0], derived
/// mechanically from the LRU rule: after 5,4 the order is [4,5]; touching 5
/// refreshes it to [5,4]; 3,2,1 fill the cache to [1,2,3,5,4]; updating 0
/// evicts the least recently used key, which is 4. The contained set is
/// exactly {0,1,2,3,5}.
#[test]
fn lru_capacity_five_scenario() {
    let mut c = LruCache::new(5);
    for k in [5u64, 4, 5, 3, 2, 1, 0] {
        c.update(k);
    }
    assert_eq!(c.len(), 5);
    assert!(c.contains_key(&0));
    assert!(c.contains_key(&1));
    assert!(c.contains_key(&2));
    assert!(c.contains_key(&3));
    assert!(c.contains_key(&5));
    assert!(!c.contains_key(&4));
    assert_eq!(c.keys(), vec![0, 1, 2, 3, 5]);
}

/// After every update the most recently touched key is reported first, and
/// the contained set is the most recent distinct keys, duplicates counted
/// once.
#[test]
fn lru_recency_order() {
    let mut c = LruCache::new(3);
    c.update(10);
    assert_eq!(c.keys(), vec![10]);
    c.update(20);
    assert_eq!(c.keys(), vec![20, 10]);
    c.update(10);
    assert_eq!(c.keys(), vec![10, 20]);
    c.update(30);
    assert_eq!(c.keys(), vec![30, 10, 20]);
    c.update(40);
    assert_eq!(c.keys(), vec![40, 30, 10]);
    // A duplicate refreshes recency without growing the set.
    assert_eq!(c.len(), 3);
}

/// `contains_key` never alters the order.
#[test]
fn lru_contains_does_not_touch() {
    let mut c = LruCache::new(2);
    c.update(1);
    c.update(2);
    assert!(c.contains_key(&1));
    c.update(3);
    // If contains_key had refreshed key 1, key 2 would have been evicted.
    assert!(!c.contains_key(&1));
    assert!(c.contains_key(&2));
    assert!(c.contains_key(&3));
}

/// Shrinking to k retains exactly the k most recently used keys; growing
/// never evicts.
#[test]
fn lru_resize() {
    let mut c = LruCache::new(4);
    for k in [1u64, 2, 3, 4] {
        c.update(k);
    }
    assert_eq!(c.keys(), vec![4, 3, 2, 1]);
    c.resize(2);
    assert_eq!(c.keys(), vec![4, 3]);
    c.resize(10);
    assert_eq!(c.keys(), vec![4, 3]);
    c.update(7);
    c.update(8);
    assert_eq!(c.keys(), vec![8, 7, 4, 3]);
    c.resize(0);
    assert_eq!(c.len(), 0);
}

/// A capacity-zero cache accepts updates and stays empty.
#[test]
fn lru_zero_capacity() {
    let mut c = LruCache::new(0);
    c.update(9);
    assert_eq!(c.len(), 0);
    assert!(!c.contains_key(&9));
}

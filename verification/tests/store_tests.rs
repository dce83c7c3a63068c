use lumascript::store::Cache;

#[test]
fn ttl_end_to_end() {
    // TTL of 2 seconds: a read right away hits, a read after 3 seconds
    // misses and removes the entry for good.
    let mut cache: Cache<String> = Cache::new(10, 2);
    cache.insert("a".to_string(), "v1".to_string(), 0);
    assert_eq!(cache.get("a", 0), Some("v1".to_string()));
    assert_eq!(cache.get("a", 3000), None);
    assert_eq!(cache.get("a", 3000), None);

    let stats = cache.stats();
    assert_eq!(stats.size, 0);
    assert_eq!(stats.hit_count, 1);
    assert_eq!(stats.miss_count, 2);
}

#[test]
fn read_at_exact_ttl_still_hits() {
    // Expiry needs strictly more than `ttl` elapsed.
    let mut cache: Cache<u64> = Cache::new(4, 2);
    cache.insert("k".to_string(), 7, 1000);
    assert_eq!(cache.get("k", 3000), Some(7));
    assert_eq!(cache.get("k", 3001), None);
}

#[test]
fn insert_overwrites_and_resets_entry() {
    let mut cache: Cache<&'static str> = Cache::new(4, 10);
    cache.insert("k".to_string(), "old", 0);
    cache.insert("k".to_string(), "new", 5000);
    assert_eq!(cache.get("k", 12000), Some("new"));
    assert_eq!(cache.stats().size, 1);
}

#[test]
fn full_store_evicts_least_recently_used() {
    let mut cache: Cache<u32> = Cache::new(2, 1000);
    cache.insert("a".to_string(), 1, 0);
    cache.insert("b".to_string(), 2, 1);
    // Touch "a" so "b" is the least recently used entry.
    assert_eq!(cache.get("a", 2), Some(1));
    cache.insert("c".to_string(), 3, 3);
    assert_eq!(cache.stats().size, 2);
    assert_eq!(cache.get("b", 4), None);
    assert_eq!(cache.get("a", 4), Some(1));
    assert_eq!(cache.get("c", 4), Some(3));
}

use lumascript::enhanced::EnhancedCache;
use lumascript::history::{CacheHistoryEntry, CacheOperation};

#[test]
fn ttl_expiry_in_the_enhanced_cache() {
    let mut cache: EnhancedCache<String> = EnhancedCache::new(10, 2, 0);
    cache.insert("a".to_string(), "v1".to_string(), 0);
    assert_eq!(cache.get("a", 0), Some("v1".to_string()));
    assert_eq!(cache.get("a", 3000), None);

    let stats = cache.get_stats();
    assert_eq!(stats.size, 0);
    assert_eq!(stats.hit_count, 1);
    assert_eq!(stats.miss_count, 1);
}

#[test]
fn insert_evicts_keys_without_a_pattern() {
    // max_size 1: "a" was never read, so it has no access pattern and is
    // an eviction candidate when "b" arrives; the store then holds "b"
    // alone.
    let mut cache: EnhancedCache<u32> = EnhancedCache::new(1, 60, 0);
    cache.insert("a".to_string(), 1, 0);
    assert_eq!(cache.get_stats().size, 1);
    cache.insert("b".to_string(), 2, 1);
    assert_eq!(cache.get_stats().size, 1);
    assert_eq!(cache.get("b", 2), Some(2));
    assert_eq!(cache.get("a", 2), None);
}

#[test]
fn a_fresh_prediction_protects_a_key_from_eviction() {
    let mut cache: EnhancedCache<u32> = EnhancedCache::new(1, 3600, 0);
    cache.insert("a".to_string(), 1, 0);
    // Three reads give "a" a predicted next access of 30 + 15 = 45.
    assert_eq!(cache.get("a", 0), Some(1));
    assert_eq!(cache.get("a", 10), Some(1));
    assert_eq!(cache.get("a", 30), Some(1));
    // At time 40 the prediction still lies ahead, so "a" survives the
    // eviction pass and the store exceeds its soft bound.
    cache.insert("b".to_string(), 2, 40);
    // These reads also refresh "a"'s window to [0, 10, 30, 41]: its
    // prediction moves to 41 + 41/3 = 54.
    assert_eq!(cache.get("a", 41), Some(1));
    assert_eq!(cache.get("b", 41), Some(2));
    assert_eq!(cache.get_stats().size, 2);
    // At time 60 every prediction lies in the past: "a" and "b" both go.
    cache.insert("c".to_string(), 3, 60);
    assert_eq!(cache.get_stats().size, 1);
    assert_eq!(cache.get("a", 61), None);
    assert_eq!(cache.get("b", 61), None);
    assert_eq!(cache.get("c", 61), Some(3));
}

#[test]
fn history_counts_every_operation() {
    let mut cache: EnhancedCache<u32> = EnhancedCache::new(4, 60, 0);
    cache.insert("a".to_string(), 1, 0);
    assert_eq!(cache.get("a", 1), Some(1));
    assert_eq!(cache.get("nope", 2), None);

    let stats = cache.get_stats();
    assert_eq!(stats.history_stats.inserts, 1);
    assert_eq!(stats.history_stats.gets, 1);
    assert_eq!(stats.history_stats.invalidations, 1);
    assert_eq!(stats.history_stats.successful_operations, 2);
    assert_eq!(stats.history_stats.failed_operations, 1);
    assert_eq!(cache.history_len(), 3);
}

#[test]
fn predictive_hits_counts_keys_with_predictions() {
    let mut cache: EnhancedCache<u32> = EnhancedCache::new(4, 60, 0);
    cache.insert("a".to_string(), 1, 0);
    assert_eq!(cache.get_stats().predictive_hits, 0);
    cache.get("a", 1);
    cache.get("a", 2);
    cache.get("a", 3);
    assert_eq!(cache.get_stats().predictive_hits, 1);
}

#[test]
fn a_snapshot_falls_due_after_the_backup_interval() {
    let mut cache: EnhancedCache<u32> = EnhancedCache::new(4, 60, 0);
    cache.insert("a".to_string(), 1, 10);
    assert!(!cache.take_backup_request());
    cache.insert("b".to_string(), 2, 300_000);
    assert!(cache.take_backup_request());
    // Asking clears the flag.
    assert!(!cache.take_backup_request());
}

#[test]
fn recover_installs_a_snapshot_into_the_history() {
    let mut cache: EnhancedCache<u32> = EnhancedCache::new(4, 60, 0);
    cache.recover(Some(vec![CacheHistoryEntry {
        timestamp: 9,
        operation: CacheOperation::Recovery,
        key: "restored".to_string(),
        value_size: 0,
        success: true,
    }]));
    assert_eq!(cache.history_len(), 1);
    assert_eq!(cache.history_entry_at(0).key, "restored");
    assert_eq!(cache.get_stats().history_stats.recoveries, 1);
}

#[test]
fn invalidate_removes_the_key_and_logs_it() {
    let mut cache: EnhancedCache<u32> = EnhancedCache::new(4, 60, 0);
    cache.insert("a".to_string(), 1, 0);
    cache.invalidate("a", 5);
    assert_eq!(cache.get_stats().size, 0);
    assert_eq!(cache.get("a", 6), None);
    assert_eq!(cache.get_stats().history_stats.removes, 1);
    // Invalidating an absent key is harmless and still logged.
    cache.invalidate("ghost", 7);
    assert_eq!(cache.get_stats().history_stats.removes, 2);
}

use lumascript::history::{CacheHistory, CacheHistoryEntry, CacheOperation};

fn entry(timestamp: u64, key: &str) -> CacheHistoryEntry {
    CacheHistoryEntry {
        timestamp,
        operation: CacheOperation::Insert,
        key: key.to_string(),
        value_size: 0,
        success: true,
    }
}

#[test]
fn history_bound_keeps_newest_in_order() {
    // Five records into a log bounded at three: exactly the last three
    // remain, oldest first.
    let mut history = CacheHistory::new(3, "test_history.json", 0);
    for t in 1..=5u64 {
        history.record(CacheOperation::Insert, format!("k{}", t), 1, true, t);
    }
    assert_eq!(history.len(), 3);
    assert_eq!(history.entry_at(0).timestamp, 3);
    assert_eq!(history.entry_at(1).timestamp, 4);
    assert_eq!(history.entry_at(2).timestamp, 5);
    assert_eq!(history.entry_at(2).key, "k5");
}

#[test]
fn stats_count_operations_by_kind_and_success() {
    let mut history = CacheHistory::new(10, "test_history.json", 0);
    history.record(CacheOperation::Insert, "a".to_string(), 8, true, 1);
    history.record(CacheOperation::Get, "a".to_string(), 0, true, 2);
    history.record(CacheOperation::Invalidate, "b".to_string(), 0, false, 3);
    history.record(CacheOperation::Remove, "a".to_string(), 0, true, 4);
    history.record(CacheOperation::Recovery, "".to_string(), 0, false, 5);

    let stats = history.get_stats();
    assert_eq!(stats.inserts, 1);
    assert_eq!(stats.gets, 1);
    assert_eq!(stats.invalidations, 1);
    assert_eq!(stats.removes, 1);
    assert_eq!(stats.recoveries, 1);
    assert_eq!(stats.successful_operations, 3);
    assert_eq!(stats.failed_operations, 2);
}

#[test]
fn snapshot_falls_due_after_the_backup_interval() {
    let mut history = CacheHistory::new(10, "test_history.json", 0);
    assert!(!history.record(CacheOperation::Insert, "a".to_string(), 0, true, 299_999));
    assert!(history.record(CacheOperation::Insert, "b".to_string(), 0, true, 300_000));
    // The snapshot clock reset at 300_000.
    assert!(!history.record(CacheOperation::Insert, "c".to_string(), 0, true, 400_000));
    assert!(history.record(CacheOperation::Insert, "d".to_string(), 0, true, 600_000));
}

#[test]
fn recover_replaces_the_buffer_wholesale() {
    let mut history = CacheHistory::new(3, "test_history.json", 0);
    history.record(CacheOperation::Get, "old".to_string(), 0, true, 1);

    history.recover(Some(vec![entry(10, "x"), entry(11, "y")]));
    assert_eq!(history.len(), 2);
    assert_eq!(history.entry_at(0).key, "x");
    assert_eq!(history.entry_at(1).key, "y");

    // No snapshot on disk is not an error and changes nothing.
    history.recover(None);
    assert_eq!(history.len(), 2);

    // An oversized snapshot keeps only the newest entries.
    history.recover(Some(vec![
        entry(1, "a"),
        entry(2, "b"),
        entry(3, "c"),
        entry(4, "d"),
    ]));
    assert_eq!(history.len(), 3);
    assert_eq!(history.entry_at(0).key, "b");
    assert_eq!(history.entry_at(2).key, "d");
}

#[test]
fn log_path_is_kept() {
    let history = CacheHistory::new(3, "somewhere/cache.json", 0);
    assert_eq!(history.log_path(), "somewhere/cache.json");
}

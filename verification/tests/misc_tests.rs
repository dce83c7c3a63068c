use lumascript::auto_recovery::AutoRecovery;
use lumascript::metrics::PerformanceMetrics;
use lumascript::timestamp::TimeStamp;
use lumascript::versioning::{ComponentStatus, VersionInfo};

#[test]
fn recovery_needs_a_remembered_good_state() {
    let mut recovery = AutoRecovery::new();
    let result = recovery.attempt_recovery("boom", 10);
    assert_eq!(result, Err("No recovery state available".to_string()));
    assert_eq!(recovery.attempts(), 0);
    assert_eq!(recovery.log_len(), 0);

    recovery.record_good_state(vec![1, 2, 3]);
    assert!(recovery.attempt_recovery("boom again", 20).is_ok());
    assert_eq!(recovery.attempts(), 1);
    assert_eq!(recovery.log_len(), 1);
}

#[test]
fn metrics_count_hits_and_misses() {
    let mut metrics = PerformanceMetrics::new();
    metrics.record_cache_hit();
    metrics.record_cache_hit();
    metrics.record_cache_miss();
    assert_eq!(metrics.cache_hit_counts(), (2, 3));
}

#[test]
fn metrics_start_empty() {
    let metrics = PerformanceMetrics::new();
    assert_eq!(metrics.cache_hit_counts(), (0, 0));
}

#[test]
fn timestamps_track_updates() {
    let mut stamp = TimeStamp::new("compile", 100);
    assert_eq!(stamp.created(), 100);
    assert_eq!(stamp.modified(), 100);
    stamp.update("done", 250);
    assert_eq!(stamp.created(), 100);
    assert_eq!(stamp.modified(), 250);
}

#[test]
fn version_info_logs_changes() {
    let mut info = VersionInfo::new("abc123".to_string(), 50);
    assert_eq!(info.status(), ComponentStatus::Stable);
    info.log_change("parser", "tightened error messages", 60);
    info.log_change("cache", "bounded the history log", 70);
    assert_eq!(info.changes_len(), 2);
    assert_eq!(info.status(), ComponentStatus::Modified);
}

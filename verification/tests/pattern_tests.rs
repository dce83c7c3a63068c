use lumascript::pattern::AccessTracker;

#[test]
fn prediction_converges_after_three_accesses() {
    // Accesses at 0, 10 and 30: the mean interval is 15, so the predicted
    // next access is 30 + 15 = 45.
    let mut tracker = AccessTracker::new();
    tracker.record("k", 0);
    assert_eq!(tracker.predict("k"), None);
    tracker.record("k", 10);
    assert_eq!(tracker.predict("k"), None);
    tracker.record("k", 30);
    assert_eq!(tracker.predict("k"), Some(45));
}

#[test]
fn prediction_uses_the_mean_with_integer_division() {
    // Intervals 3 and 4 average to 3 (rounded down): 7 + 3 = 10.
    let mut tracker = AccessTracker::new();
    tracker.record("k", 0);
    tracker.record("k", 3);
    tracker.record("k", 7);
    assert_eq!(tracker.predict("k"), Some(10));
}

#[test]
fn unknown_key_has_no_prediction() {
    let tracker = AccessTracker::new();
    assert_eq!(tracker.predict("missing"), None);
}

#[test]
fn removed_key_loses_its_pattern() {
    let mut tracker = AccessTracker::new();
    tracker.record("k", 1);
    tracker.record("k", 2);
    tracker.record("k", 3);
    assert!(tracker.predict("k").is_some());
    tracker.remove("k");
    assert_eq!(tracker.predict("k"), None);
}

#[test]
fn predicted_count_counts_keys_with_predictions() {
    let mut tracker = AccessTracker::new();
    tracker.record("one", 1);
    tracker.record("two", 1);
    tracker.record("two", 2);
    tracker.record("two", 3);
    assert_eq!(tracker.predicted_count(), 1);
}

use lumascript::recovery::{
    backoff_millis, FailureKind, RecoveryManager, RecoveryStatus, RecoveryStep, RecoveryStrategy,
    strategy_for,
};

#[test]
fn backoff_schedule_is_two_units_times_three_halves() {
    // 2 * 1.5^i time-units, in milliseconds, exact within the retry bound.
    assert_eq!(backoff_millis(0), 2000);
    assert_eq!(backoff_millis(1), 3000);
    assert_eq!(backoff_millis(2), 4500);
    assert_eq!(backoff_millis(3), 6750);
}

#[test]
fn failed_attempts_back_off_then_exhaust() {
    let mut manager = RecoveryManager::new();
    manager.handle_node_failure("n1".to_string(), 5);
    assert_eq!(manager.history_len(), 1);
    assert_eq!(manager.attempt_at(0).status, RecoveryStatus::InProgress);

    // Delay before attempt i+1 is 2 * 1.5^i time-units.
    assert_eq!(manager.note_attempt_result(false), RecoveryStep::RetryAfter(3000));
    assert_eq!(manager.note_attempt_result(false), RecoveryStep::RetryAfter(4500));
    assert_eq!(manager.note_attempt_result(false), RecoveryStep::Exhausted);

    let attempt = manager.attempt_at(0);
    assert_eq!(attempt.status, RecoveryStatus::Failed);
    assert_eq!(attempt.retry_count, 3);
    assert_eq!(attempt.node_id, "n1");
    assert_eq!(attempt.timestamp, 5);
}

#[test]
fn a_successful_attempt_closes_the_episode() {
    let mut manager = RecoveryManager::new();
    manager.handle_node_failure("n2".to_string(), 8);
    assert_eq!(manager.note_attempt_result(false), RecoveryStep::RetryAfter(3000));
    assert_eq!(manager.note_attempt_result(true), RecoveryStep::Completed);

    let attempt = manager.attempt_at(0);
    assert_eq!(attempt.status, RecoveryStatus::Success);
    assert_eq!(attempt.retry_count, 1);
}

#[test]
fn every_failure_kind_maps_to_its_strategy() {
    assert_eq!(strategy_for(FailureKind::NodeFailure), RecoveryStrategy::NodeFailure);
    assert_eq!(strategy_for(FailureKind::DataCorruption), RecoveryStrategy::DataCorruption);
    assert_eq!(
        strategy_for(FailureKind::NetworkPartition),
        RecoveryStrategy::NetworkPartition
    );
}

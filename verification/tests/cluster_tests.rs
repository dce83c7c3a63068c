use lumascript::cluster::{
    CacheNode, DistributedCache, NodeStatus, SyncMessage, SyncOutcome,
};
use lumascript::recovery::RecoveryStatus;

fn peer(id: &str, port: u16, last_heartbeat: u64) -> CacheNode {
    CacheNode {
        id: id.to_string(),
        address: "127.0.0.1".to_string(),
        port,
        status: NodeStatus::Active,
        last_heartbeat,
    }
}

#[test]
fn a_silent_node_fails_after_the_next_monitor_tick() {
    // No heartbeat for more than 30 time-units (30_000 ms): the node turns
    // Failed and exactly one recovery attempt is opened for it.
    let mut cluster: DistributedCache<String> =
        DistributedCache::new("127.0.0.1".to_string(), 9000, 0);
    cluster.register_node(peer("quiet", 9001, 0));
    cluster.register_node(peer("alive", 9002, 25_000));

    let failed = cluster.monitor_tick(31_000);
    assert_eq!(failed, vec!["quiet".to_string()]);
    assert_eq!(cluster.peer_at(0).status, NodeStatus::Failed);
    assert_eq!(cluster.peer_at(1).status, NodeStatus::Active);

    assert_eq!(cluster.recovery_len(), 1);
    let attempt = cluster.recovery_attempt_at(0);
    assert_eq!(attempt.node_id, "quiet");
    assert_eq!(attempt.status, RecoveryStatus::InProgress);

    // The transition is debounced: a second tick opens no second episode.
    let failed_again = cluster.monitor_tick(32_000);
    assert!(failed_again.is_empty());
    assert_eq!(cluster.recovery_len(), 1);
}

#[test]
fn a_heartbeat_keeps_a_node_alive() {
    let mut cluster: DistributedCache<String> =
        DistributedCache::new("127.0.0.1".to_string(), 9000, 0);
    cluster.register_node(peer("n1", 9001, 0));
    cluster.record_heartbeat("n1", 20_000);
    let failed = cluster.monitor_tick(45_000);
    assert!(failed.is_empty());
    assert_eq!(cluster.peer_at(0).status, NodeStatus::Active);
    assert_eq!(cluster.peer_at(0).last_heartbeat, 20_000);
}

#[test]
fn heartbeats_go_to_every_peer() {
    let mut cluster: DistributedCache<String> =
        DistributedCache::new("10.0.0.1".to_string(), 9000, 0);
    cluster.register_node(peer("n1", 9001, 0));
    cluster.register_node(peer("n2", 9002, 0));

    let (message, targets) = cluster.broadcast_heartbeat(5000);
    assert_eq!(message.timestamp, 5000);
    assert_eq!(message.node_id.len(), 36);
    assert_eq!(
        targets,
        vec![("127.0.0.1".to_string(), 9001), ("127.0.0.1".to_string(), 9002)]
    );
}

#[test]
fn sync_messages_are_consumed_in_arrival_order() {
    let mut cluster: DistributedCache<String> =
        DistributedCache::new("127.0.0.1".to_string(), 9000, 0);
    assert!(cluster.enqueue_sync(SyncMessage::Replicate {
        key: "k".to_string(),
        value: "v".to_string(),
    }));
    assert!(cluster.enqueue_sync(SyncMessage::Invalidate { key: "dead".to_string() }));
    assert!(cluster.enqueue_sync(SyncMessage::RecoveryRequest { node_id: "n9".to_string() }));

    match cluster.process_next_sync(100) {
        Some(SyncOutcome::ReplicateToPeers { key, value }) => {
            assert_eq!(key, "k");
            assert_eq!(value, "v");
        },
        other => panic!("unexpected outcome: {:?}", other),
    }
    match cluster.process_next_sync(101) {
        Some(SyncOutcome::InvalidateLocal { key }) => assert_eq!(key, "dead"),
        other => panic!("unexpected outcome: {:?}", other),
    }
    match cluster.process_next_sync(102) {
        Some(SyncOutcome::RecoveryEngaged { node_id }) => {
            assert_eq!(node_id, "n9");
            assert_eq!(cluster.recovery_len(), 1);
            assert_eq!(cluster.recovery_attempt_at(0).node_id, "n9");
        },
        other => panic!("unexpected outcome: {:?}", other),
    }
    assert!(cluster.process_next_sync(103).is_none());
}

#[test]
fn the_sync_queue_is_bounded_at_one_hundred() {
    let mut cluster: DistributedCache<u32> =
        DistributedCache::new("127.0.0.1".to_string(), 9000, 0);
    for i in 0..100u32 {
        assert!(cluster.enqueue_sync(SyncMessage::Replicate {
            key: format!("k{}", i),
            value: i,
        }));
    }
    assert!(!cluster.enqueue_sync(SyncMessage::Invalidate { key: "overflow".to_string() }));
    assert_eq!(cluster.queue_len(), 100);
}

#[test]
fn a_fresh_node_has_a_hyphenated_identifier() {
    let cluster: DistributedCache<u32> =
        DistributedCache::new("127.0.0.1".to_string(), 9000, 77);
    let local = cluster.local_node();
    assert_eq!(local.id.len(), 36);
    assert_eq!(local.status, NodeStatus::Active);
    assert_eq!(local.last_heartbeat, 77);
    assert_eq!(cluster.peer_count(), 0);
}

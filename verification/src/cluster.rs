//! Cluster membership and replication: the registry of known peer nodes
//! with their health, the bounded FIFO queue of sync messages, and the
//! liveness monitor. The cache decides here what to send and to whom; the
//! runtime around it moves the bytes, delivers received messages into the
//! queue, and applies the returned outcomes.

use std::collections::VecDeque;
use vstd::prelude::*;
use crate::clock::{elapsed, spec_elapsed};
use crate::recovery::{
    spec_backoff_millis, RecoveryAttempt, RecoveryManager, RecoveryStatus, RecoveryStep,
    RecoveryStrategy, MAX_RETRIES,
};
use crate::table::Table;

verus! {

/// Milliseconds between two heartbeat rounds.
pub const HEARTBEAT_INTERVAL_MILLIS: u64 = 5000;

/// Milliseconds between two monitor scans.
pub const MONITOR_INTERVAL_MILLIS: u64 = 10000;

/// A node whose last heartbeat is older than this has failed.
pub const HEARTBEAT_TIMEOUT_MILLIS: u64 = 30000;

/// Most sync messages waiting at once.
pub const SYNC_QUEUE_CAPACITY: usize = 100;

#[derive(Debug, Clone, Copy, PartialEq, Eq, Structural)]
pub enum NodeStatus {
    Active,
    Syncing,
    Recovering,
    Failed,
}

#[derive(Debug, Clone)]
pub struct CacheNode {
    pub id: String,
    pub address: String,
    pub port: u16,
    pub status: NodeStatus,
    pub last_heartbeat: u64,
}

/// The liveness signal a node sends to each peer.
#[derive(Debug, Clone)]
pub struct HeartbeatMessage {
    pub node_id: String,
    pub timestamp: u64,
}

/// One event of the replication queue.
#[derive(Debug, Clone)]
pub enum SyncMessage<T> {
    Replicate { key: String, value: T },
    Invalidate { key: String },
    RecoveryRequest { node_id: String },
}

/// What the runtime must do after a sync message was consumed.
#[derive(Debug)]
pub enum SyncOutcome<T> {
    /// Send the pair to every known peer.
    ReplicateToPeers { key: String, value: T },
    /// Remove the key from the local entry store.
    InvalidateLocal { key: String },
    /// A recovery episode was opened for this node.
    RecoveryEngaged { node_id: String },
}

/// A node that is due to fail at `now`: silent past the timeout and not
/// already marked failed.
pub open spec fn spec_stale(n: CacheNode, now: u64) -> bool {
    &&& spec_elapsed(n.last_heartbeat, now) > HEARTBEAT_TIMEOUT_MILLIS
    &&& n.status != NodeStatus::Failed
}

/// The ids of the nodes in `s` that are due to fail at `now`, in order.
pub open spec fn spec_newly_failed(s: Seq<(String, CacheNode)>, now: u64) -> Seq<Seq<char>>
    decreases s.len(),
{
    if s.len() == 0 {
        Seq::empty()
    } else {
        let rest = spec_newly_failed(s.drop_last(), now);
        if spec_stale(s.last().1, now) {
            rest.push(s.last().1.id@)
        } else {
            rest
        }
    }
}

/// Relies on `uuid::Uuid::new_v4` and its `Display` impl: a fresh random
/// identifier, rendered in the hyphenated form of 36 ASCII characters.
/// The value is random, so nothing but its length is promised.
#[verifier::external_body]
fn fresh_node_id() -> (r: String)
    ensures
        r@.len() == 36,
{
    uuid::Uuid::new_v4().to_string()
}

pub struct DistributedCache<T> {
    local_node: CacheNode,
    nodes: Table<CacheNode>,
    sync_queue: VecDeque<SyncMessage<T>>,
    recovery_manager: RecoveryManager,
}

impl<T: Clone> DistributedCache<T> {
    /// Peers are keyed by their own id, the queue honors its bound, and
    /// the recovery manager is sound.
    pub open spec fn wf(self) -> bool {
        &&& self.spec_peers().wf()
        &&& forall|i: int|
            0 <= i < self.spec_peers().seq().len() ==> (#[trigger] self.spec_peers().seq()[i]).1.id@
                == self.spec_peers().seq()[i].0@
        &&& self.spec_recovery().wf()
        &&& self.spec_queue().len() <= SYNC_QUEUE_CAPACITY
    }

    pub closed spec fn spec_peers(self) -> Table<CacheNode> {
        self.nodes
    }

    pub closed spec fn spec_local(self) -> CacheNode {
        self.local_node
    }

    pub closed spec fn spec_queue(self) -> Seq<SyncMessage<T>> {
        self.sync_queue@
    }

    pub closed spec fn spec_recovery(self) -> RecoveryManager {
        self.recovery_manager
    }

    /// A fresh member of the cluster: a random node id, no known peers, an
    /// empty queue, no recovery history.
    pub fn new(local_address: String, port: u16, now: u64) -> (r: DistributedCache<T>)
        ensures
            r.wf(),
            r.spec_local().id@.len() == 36,
            r.spec_local().address == local_address,
            r.spec_local().port == port,
            r.spec_local().status == NodeStatus::Active,
            r.spec_local().last_heartbeat == now,
            r.spec_peers().len() == 0,
            r.spec_queue() == Seq::<SyncMessage<T>>::empty(),
            r.spec_recovery().spec_history() == Seq::<RecoveryAttempt>::empty(),
    {
        let id = fresh_node_id();
        let local_node = CacheNode {
            id,
            address: local_address,
            port,
            status: NodeStatus::Active,
            last_heartbeat: now,
        };
        let r = DistributedCache {
            local_node,
            nodes: Table::new(),
            sync_queue: VecDeque::new(),
            recovery_manager: RecoveryManager::new(),
        };
        proof {
            assert(r.spec_queue() =~= Seq::<SyncMessage<T>>::empty());
        }
        r
    }

    /// Make a peer known (or refresh what is known of it), keyed by its id.
    pub fn register_node(&mut self, node: CacheNode)
        requires
            old(self).wf(),
        ensures
            final(self).wf(),
            final(self).spec_peers().spec_get(node.id@) == Some(node),
            forall|k2: Seq<char>|
                k2 != node.id@ ==> final(self).spec_peers().spec_get(k2) == old(
                    self,
                ).spec_peers().spec_get(k2),
            final(self).spec_peers().len() == old(self).spec_peers().len() + (if old(
                self,
            ).spec_peers().contains(node.id@) {
                0int
            } else {
                1int
            }),
            final(self).spec_local() == old(self).spec_local(),
            final(self).spec_queue() == old(self).spec_queue(),
            final(self).spec_recovery() == old(self).spec_recovery(),
    {
        let key = node.id.clone();
        let ghost keyv = key@;
        let ghost keyval = key;
        self.nodes.set(key, node);
        proof {
            assert forall|j: int| 0 <= j < self.nodes.seq().len() implies (
            #[trigger] self.nodes.seq()[j]).1.id@ == self.nodes.seq()[j].0@ by {
                if old(self).nodes.contains(keyv) {
                    let i = choose|i: int|
                        0 <= i < old(self).nodes.seq().len() && old(self).nodes.seq()[i].0@ == keyv
                            && self.nodes.seq() == #[trigger] old(self).nodes.seq().update(
                            i,
                            (keyval, node),
                        );
                    if j != i {
                        assert(self.nodes.seq()[j] == old(self).nodes.seq()[j]);
                    }
                } else {
                    if j < old(self).nodes.seq().len() {
                        assert(self.nodes.seq()[j] == old(self).nodes.seq()[j]);
                    }
                }
            }
        }
    }

    /// The heartbeat to send at `now`, and every peer's address and port
    /// to send it to, in registry order.
    pub fn broadcast_heartbeat(&self, now: u64) -> (r: (HeartbeatMessage, Vec<(String, u16)>))
        requires
            self.wf(),
        ensures
            r.0.node_id == self.spec_local().id,
            r.0.timestamp == now,
            r.1@.len() == self.spec_peers().len(),
            forall|i: int|
                0 <= i < r.1@.len() ==> #[trigger] r.1@[i].0 == self.spec_peers().seq()[i].1.address
                    && r.1@[i].1 == self.spec_peers().seq()[i].1.port,
    {
        let message = HeartbeatMessage { node_id: self.local_node.id.clone(), timestamp: now };
        let n = self.nodes.length();
        let mut targets: Vec<(String, u16)> = Vec::new();
        let mut i: usize = 0;
        while i < n
            invariant
                n == self.spec_peers().len(),
                i <= n,
                targets@.len() == i,
                forall|j: int|
                    0 <= j < i ==> #[trigger] targets@[j].0 == self.spec_peers().seq()[j].1.address
                        && targets@[j].1 == self.spec_peers().seq()[j].1.port,
            decreases n - i,
        {
            let p = self.nodes.pair_at(i);
            targets.push((p.1.address.clone(), p.1.port));
            i = i + 1;
        }
        (message, targets)
    }

    /// Note a heartbeat received from `node_id` at `timestamp`.
    pub fn record_heartbeat(&mut self, node_id: &str, timestamp: u64)
        requires
            old(self).wf(),
        ensures
            final(self).wf(),
            match old(self).spec_peers().spec_get(node_id@) {
                Some(n) => final(self).spec_peers().spec_get(node_id@) == Some(
                    CacheNode { last_heartbeat: timestamp, ..n },
                ),
                None => final(self).spec_peers().spec_get(node_id@) is None,
            },
            forall|k2: Seq<char>|
                k2 != node_id@ ==> final(self).spec_peers().spec_get(k2) == old(
                    self,
                ).spec_peers().spec_get(k2),
            final(self).spec_peers().len() == old(self).spec_peers().len(),
            final(self).spec_local() == old(self).spec_local(),
            final(self).spec_queue() == old(self).spec_queue(),
            final(self).spec_recovery() == old(self).spec_recovery(),
    {
        match self.nodes.index_of(node_id) {
            Some(i) => {
                let ghost k = self.nodes.seq()[i as int].0@;
                proof {
                    self.nodes.lemma_get_at(k, i as int);
                }
                let p = self.nodes.pair_at(i);
                let updated = CacheNode {
                    id: p.1.id.clone(),
                    address: p.1.address.clone(),
                    port: p.1.port,
                    status: p.1.status,
                    last_heartbeat: timestamp,
                };
                self.nodes.set_value_at(i, updated);
                proof {
                    assert forall|j: int| 0 <= j < self.nodes.seq().len() implies (
                    #[trigger] self.nodes.seq()[j]).1.id@ == self.nodes.seq()[j].0@ by {
                        if j != i as int {
                            assert(self.nodes.seq()[j] == old(self).nodes.seq()[j]);
                        }
                    }
                }
            },
            None => {},
        }
    }

    /// Hand a sync message to the queue; a full queue turns it away.
    pub fn enqueue_sync(&mut self, message: SyncMessage<T>) -> (accepted: bool)
        requires
            old(self).wf(),
        ensures
            final(self).wf(),
            accepted == (old(self).spec_queue().len() < SYNC_QUEUE_CAPACITY),
            final(self).spec_queue() == (if accepted {
                old(self).spec_queue().push(message)
            } else {
                old(self).spec_queue()
            }),
            final(self).spec_peers() == old(self).spec_peers(),
            final(self).spec_local() == old(self).spec_local(),
            final(self).spec_recovery() == old(self).spec_recovery(),
    {
        if self.sync_queue.len() < SYNC_QUEUE_CAPACITY {
            self.sync_queue.push_back(message);
            true
        } else {
            false
        }
    }

    /// Consume the oldest queued sync message, in arrival order: a
    /// replicate event asks for fan-out, an invalidate event asks for a
    /// local removal, and a recovery request opens a recovery episode on
    /// the spot.
    pub fn process_next_sync(&mut self, now: u64) -> (r: Option<SyncOutcome<T>>)
        requires
            old(self).wf(),
        ensures
            final(self).wf(),
            final(self).spec_peers() == old(self).spec_peers(),
            final(self).spec_local() == old(self).spec_local(),
            old(self).spec_queue().len() == 0 ==> r is None && final(self).spec_queue() == old(
                self,
            ).spec_queue() && final(self).spec_recovery() == old(self).spec_recovery(),
            old(self).spec_queue().len() > 0 ==> {
                &&& final(self).spec_queue() == old(self).spec_queue().drop_first()
                &&& match old(self).spec_queue()[0] {
                    SyncMessage::Replicate { key, value } => {
                        &&& r == Some(SyncOutcome::ReplicateToPeers { key, value })
                        &&& final(self).spec_recovery() == old(self).spec_recovery()
                    },
                    SyncMessage::Invalidate { key } => {
                        &&& r == Some(SyncOutcome::<T>::InvalidateLocal { key })
                        &&& final(self).spec_recovery() == old(self).spec_recovery()
                    },
                    SyncMessage::RecoveryRequest { node_id } => {
                        &&& r == Some(SyncOutcome::<T>::RecoveryEngaged { node_id })
                        &&& final(self).spec_recovery().spec_history() == old(
                            self,
                        ).spec_recovery().spec_history().push(
                            RecoveryAttempt {
                                timestamp: now,
                                strategy: RecoveryStrategy::NodeFailure,
                                node_id,
                                status: RecoveryStatus::InProgress,
                                retry_count: 0u32,
                            },
                        )
                    },
                }
            },
    {
        let message = match self.sync_queue.pop_front() {
            None => {
                return None;
            },
            Some(m) => m,
        };
        match message {
            SyncMessage::Replicate { key, value } => {
                Some(SyncOutcome::ReplicateToPeers { key, value })
            },
            SyncMessage::Invalidate { key } => Some(SyncOutcome::InvalidateLocal { key }),
            SyncMessage::RecoveryRequest { node_id } => {
                self.recovery_manager.handle_node_failure(node_id.clone(), now);
                Some(SyncOutcome::RecoveryEngaged { node_id })
            },
        }
    }

    pub fn peer_count(&self) -> (r: usize)
        ensures
            r == self.spec_peers().len(),
    {
        self.nodes.length()
    }

    /// The peer at position `i` of the registry.
    pub fn peer_at(&self, i: usize) -> (r: &CacheNode)
        requires
            i < self.spec_peers().len(),
        ensures
            *r == self.spec_peers().seq()[i as int].1,
    {
        &self.nodes.pair_at(i).1
    }

    /// This node's own identity and health.
    pub fn local_node(&self) -> (r: &CacheNode)
        ensures
            *r == self.spec_local(),
    {
        &self.local_node
    }

    pub fn queue_len(&self) -> (r: usize)
        ensures
            r == self.spec_queue().len(),
    {
        self.sync_queue.len()
    }

    pub fn recovery_len(&self) -> (r: usize)
        ensures
            r == self.spec_recovery().spec_history().len(),
    {
        self.recovery_manager.history_len()
    }

    /// The recovery attempt at position `i`, oldest first.
    pub fn recovery_attempt_at(&self, i: usize) -> (r: &RecoveryAttempt)
        requires
            i < self.spec_recovery().spec_history().len(),
        ensures
            *r == self.spec_recovery().spec_history()[i as int],
    {
        self.recovery_manager.attempt_at(i)
    }

    /// Report how the latest recovery attempt went, as
    /// [`RecoveryManager::note_attempt_result`] says; with no episode in
    /// progress there is nothing to note.
    pub fn note_recovery_result(&mut self, success: bool) -> (r: Option<RecoveryStep>)
        requires
            old(self).wf(),
        ensures
            final(self).wf(),
            final(self).spec_peers() == old(self).spec_peers(),
            final(self).spec_local() == old(self).spec_local(),
            final(self).spec_queue() == old(self).spec_queue(),
            !old(self).spec_recovery().spec_in_progress() ==> r is None
                && final(self).spec_recovery() == old(self).spec_recovery(),
            old(self).spec_recovery().spec_in_progress() ==> {
                let pre_h = old(self).spec_recovery().spec_history();
                let post_h = final(self).spec_recovery().spec_history();
                let pre = pre_h.last();
                let post = post_h.last();
                &&& post_h.len() == pre_h.len()
                &&& post_h.drop_last() == pre_h.drop_last()
                &&& post.node_id == pre.node_id
                &&& if success {
                    &&& r == Some(RecoveryStep::Completed)
                    &&& post.status == RecoveryStatus::Success
                    &&& post.retry_count == pre.retry_count
                } else if pre.retry_count + 1 < MAX_RETRIES {
                    &&& r == Some(
                        RecoveryStep::RetryAfter(
                            spec_backoff_millis((pre.retry_count + 1) as nat) as u64,
                        ),
                    )
                    &&& post.status == RecoveryStatus::InProgress
                    &&& post.retry_count == pre.retry_count + 1
                } else {
                    &&& r == Some(RecoveryStep::Exhausted)
                    &&& post.status == RecoveryStatus::Failed
                    &&& post.retry_count == MAX_RETRIES
                }
            },
    {
        let n = self.recovery_manager.history_len();
        if n == 0 {
            return None;
        }
        let in_progress = matches!(
            self.recovery_manager.attempt_at(n - 1).status,
            RecoveryStatus::InProgress,
        );
        if !in_progress {
            return None;
        }
        Some(self.recovery_manager.note_attempt_result(success))
    }

    /// Scan every known peer at `now`: each one silent past the timeout
    /// and not already failed turns `Failed`, and exactly one recovery
    /// episode is opened per newly failed node. Returns their ids, in
    /// registry order.
    pub fn monitor_tick(&mut self, now: u64) -> (r: Vec<String>)
        requires
            old(self).wf(),
        ensures
            final(self).wf(),
            final(self).spec_local() == old(self).spec_local(),
            final(self).spec_queue() == old(self).spec_queue(),
            final(self).spec_peers().len() == old(self).spec_peers().len(),
            // Node transitions, position by position.
            forall|i: int|
                0 <= i < old(self).spec_peers().len() ==> {
                    let pre_n = #[trigger] old(self).spec_peers().seq()[i].1;
                    let post_n = final(self).spec_peers().seq()[i].1;
                    &&& final(self).spec_peers().seq()[i].0 == old(self).spec_peers().seq()[i].0
                    &&& if spec_stale(pre_n, now) {
                        post_n == CacheNode { status: NodeStatus::Failed, ..pre_n }
                    } else {
                        post_n == pre_n
                    }
                },
            // The returned ids are exactly the newly failed, in order.
            ({
                let failed = spec_newly_failed(old(self).spec_peers().seq(), now);
                &&& r@.len() == failed.len()
                &&& forall|j: int| 0 <= j < failed.len() ==> #[trigger] r@[j]@ == failed[j]
                // One recovery episode per newly failed node, in order.
                &&& final(self).spec_recovery().spec_history().len() == old(
                    self,
                ).spec_recovery().spec_history().len() + failed.len()
                &&& final(self).spec_recovery().spec_history().subrange(
                    0,
                    old(self).spec_recovery().spec_history().len() as int,
                ) == old(self).spec_recovery().spec_history()
                &&& forall|j: int|
                    0 <= j < failed.len() ==> {
                        let a = #[trigger] final(self).spec_recovery().spec_history()[old(
                            self,
                        ).spec_recovery().spec_history().len() + j];
                        &&& a.node_id@ == failed[j]
                        &&& a.timestamp == now
                        &&& a.strategy == RecoveryStrategy::NodeFailure
                        &&& a.status == RecoveryStatus::InProgress
                        &&& a.retry_count == 0
                    }
            }),
    {
        let ghost pre = *self;
        let n = self.nodes.length();
        let mut r: Vec<String> = Vec::new();
        let mut i: usize = 0;
        while i < n
            invariant
                pre.wf(),
                self.wf(),
                n == pre.nodes.len(),
                i <= n,
                self.local_node == pre.local_node,
                self.sync_queue@ == pre.sync_queue@,
                self.nodes.len() == pre.nodes.len(),
                // Scanned prefix transitioned, unscanned suffix untouched.
                forall|j: int|
                    0 <= j < n ==> {
                        let pre_n = #[trigger] pre.nodes.seq()[j].1;
                        let post_n = self.nodes.seq()[j].1;
                        &&& self.nodes.seq()[j].0 == pre.nodes.seq()[j].0
                        &&& if j < i {
                            if spec_stale(pre_n, now) {
                                post_n == CacheNode { status: NodeStatus::Failed, ..pre_n }
                            } else {
                                post_n == pre_n
                            }
                        } else {
                            post_n == pre_n
                        }
                    },
                ({
                    let failed = spec_newly_failed(pre.nodes.seq().subrange(0, i as int), now);
                    &&& r@.len() == failed.len()
                    &&& forall|j: int| 0 <= j < failed.len() ==> #[trigger] r@[j]@ == failed[j]
                    &&& self.recovery_manager.spec_history().len() == pre
                        .recovery_manager.spec_history().len() + failed.len()
                    &&& self.recovery_manager.spec_history().subrange(
                        0,
                        pre.recovery_manager.spec_history().len() as int,
                    ) == pre.recovery_manager.spec_history()
                    &&& forall|j: int|
                        0 <= j < failed.len() ==> {
                            let a = #[trigger] self.recovery_manager.spec_history()[pre
                                .recovery_manager.spec_history().len() + j];
                            &&& a.node_id@ == failed[j]
                            &&& a.timestamp == now
                            &&& a.strategy == RecoveryStrategy::NodeFailure
                            &&& a.status == RecoveryStatus::InProgress
                            &&& a.retry_count == 0
                        }
                }),
            decreases n - i,
        {
            proof {
                let prefix = pre.nodes.seq().subrange(0, i as int);
                let prefix1 = pre.nodes.seq().subrange(0, i as int + 1);
                assert(prefix1.drop_last() =~= prefix);
                assert(prefix1.last() == pre.nodes.seq()[i as int]);
            }
            let p = self.nodes.pair_at(i);
            let is_stale = elapsed(p.1.last_heartbeat, now) > HEARTBEAT_TIMEOUT_MILLIS && !matches!(
                p.1.status,
                NodeStatus::Failed,
            );
            if is_stale {
                let updated = CacheNode {
                    id: p.1.id.clone(),
                    address: p.1.address.clone(),
                    port: p.1.port,
                    status: NodeStatus::Failed,
                    last_heartbeat: p.1.last_heartbeat,
                };
                let failed_id = updated.id.clone();
                let ghost k = self.nodes.seq()[i as int].0@;
                proof {
                    self.nodes.lemma_get_at(k, i as int);
                    assert(spec_stale(pre.nodes.seq()[i as int].1, now));
                }
                let ghost head = self.nodes;
                self.nodes.set_value_at(i, updated);
                self.recovery_manager.handle_node_failure(failed_id.clone(), now);
                r.push(failed_id);
                proof {
                    assert forall|j: int| 0 <= j < self.nodes.seq().len() implies (
                    #[trigger] self.nodes.seq()[j]).1.id@ == self.nodes.seq()[j].0@ by {
                        if j != i as int {
                            assert(self.nodes.seq()[j] == head.seq()[j]);
                        } else {
                            assert(updated.id@ == head.seq()[j].1.id@);
                        }
                    }
                }
            } else {
                proof {
                    assert(!spec_stale(pre.nodes.seq()[i as int].1, now));
                }
            }
            i = i + 1;
        }
        proof {
            assert(pre.nodes.seq().subrange(0, n as int) =~= pre.nodes.seq());
        }
        r
    }
}

} // verus!

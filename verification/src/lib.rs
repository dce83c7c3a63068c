//! Core of a replicated, self-healing in-memory cache: a bounded key-value
//! store with TTL expiry, usage-pattern-driven eviction, a bounded operation
//! history with snapshot support, heartbeat-based failure detection, and a
//! retrying recovery controller with exponential backoff.
//!
//! Time is modeled as `u64` milliseconds handed in by the caller, so every
//! operation is a total function of its inputs; the surrounding runtime
//! supplies the wall clock, the network and the snapshot file.

pub mod auto_recovery;
pub mod clock;
pub mod cluster;
pub mod enhanced;
pub mod hex_text;
pub mod history;
pub mod metrics;
pub mod pattern;
pub mod recovery;
pub mod store;
pub mod table;
pub mod timestamp;
pub mod versioning;

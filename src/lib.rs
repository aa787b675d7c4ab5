//! The leader side of a Raft-style replicated key-value store: the per-follower
//! replication state machine, the leader's handling of client requests, the
//! replicated log with the store it builds, and the frames of the client protocol.

pub mod backoff;
pub mod command;
pub mod frame;
pub mod leader;
pub mod replicator;
pub mod tracker;
pub mod wire;

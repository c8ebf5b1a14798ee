//! Core engine of a fault-tolerant task orchestrator: binary framing,
//! Raft consensus state, SWIM membership, task state and log records.

pub mod codec;
pub mod config;
pub mod log;
pub mod membership;
pub mod metrics;
pub mod net;
pub mod protocol;
pub mod task;
pub mod text;
pub mod raft;
pub mod rng;
pub mod storage;

//! Reachability probing: expands configured endpoints into per-port probe
//! targets, derives the connection each probe makes, turns what a probe
//! observed into a result, and schedules probes under a concurrency bound.

pub mod model;
pub mod resolve;
pub mod probe;
pub mod scheduler;

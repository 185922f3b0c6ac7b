//! Verified core of a small replicated-server cluster that elects the
//! lowest-numbered server as leader, lets a leader step down and rejoin
//! under a fresh id, keeps every replica's id table in step through
//! broadcasts, and spreads client traffic round-robin over the servers.

pub mod decimal;
pub mod directory;
pub mod headers;
pub mod protocol;
pub mod server;
pub mod balancer;
pub mod stats;

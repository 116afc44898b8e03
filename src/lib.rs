//! Epoch-versioned state persistence for streaming operators: a monotonic
//! epoch clock, collision-free keyspace prefixes, managed aggregation and
//! materialized-view state, and the pinned-snapshot registry.

pub mod bytes;
pub mod epoch;
pub mod store;
pub mod keyspace;
pub mod encoding;
pub mod aggregation;
pub mod value_state;
pub mod mview;
pub mod pinned;
pub mod executor;
pub mod polling;

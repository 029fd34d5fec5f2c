//! Cache admission/eviction policies replayed against a trace of accesses,
//! and the request marshaling used to run a policy behind an isolation
//! boundary.

pub mod record;
pub mod algorithm;
pub mod fifo;
pub mod queue;
pub mod lfu;
pub mod lru;
pub mod wire;
pub mod backend;

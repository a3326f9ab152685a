//! Routing and measurement engine of a load-balancing reverse proxy.
//!
//! Every request is sent to one backend of a fixed pool. An agent that stays
//! within its fair share of the pool's recent traffic is routed to the backend
//! with the lowest moving-average latency; an agent above its share is pinned to
//! one backend by a hash of its identifier. Latencies and per-agent request
//! times are kept in rolling windows.
//!
//! Instants and durations are plain `u64` counts of nanoseconds: an instant is
//! the time since an epoch that the caller fixes once (a monotonic clock read at
//! start-up), a duration the length of a span.

pub mod agents;
pub mod clock;
pub mod forward;
pub mod hashing;
pub mod hosts;
pub mod picker;
pub mod probe;
pub mod state;
pub mod strategy;
pub mod target;
pub mod window;

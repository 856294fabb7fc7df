//! Follower event aggregation engine for a live "new follower" notification
//! widget: tracks which followers have already been announced, keeps two
//! time-bounded FIFO queues of pending notification events (real and
//! operator-injected test events), and serves a deduplicated, order-preserving
//! snapshot to a polling consumer.

pub mod combine;
pub mod dedup;
pub mod engine;
pub mod identity;
pub mod known;
pub mod queue;
pub mod token;

pub use engine::FollowerEngine;
pub use identity::Identity;

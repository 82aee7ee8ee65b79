//! A bounded-capacity in-memory key/value cache with TinyLFU admission.
//!
//! On every write the cache decides whether a new item earns a slot and, when
//! full, which resident item to sacrifice: a frequency estimator approximates
//! recent per-key access counts, a sampling-based eviction mechanism compares
//! a few random residents against the estimate, and time-to-live bookkeeping
//! runs before every insertion so expired entries never cost a live item its
//! slot.

pub mod cache;
pub mod metrics;
mod rng;
pub mod store;
pub mod table;
pub mod tiny_lfu;
mod time;
pub mod ttl;

pub use cache::Cache;
pub use cache::OnEvict;
pub use metrics::Metrics;

//! A debouncer for filesystem change notifications.
//!
//! A watcher delivers a high-frequency stream of raw events, each carrying a
//! kind and a set of paths. This library coalesces that stream into a
//! per-path pending store under a severity-ranked merge policy, and drains
//! matured entries into batches on a periodic flush tick, so that consumers
//! react once per quiescent burst of changes instead of once per raw event.

pub mod engine;
pub mod kind;
pub mod laws;
pub mod store;

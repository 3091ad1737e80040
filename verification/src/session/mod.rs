//! Sessions: one multiplexed SSH connection per host, and the forwards on it.

pub mod machine;
pub mod reconcile;
pub mod ssh;
pub mod store;
pub mod types;
pub mod watcher;

//! Data-layer core of a chain node: immutable snapshot segments built from a
//! transaction table, and the resumable execute/unwind stage contract with its
//! log-history indexing stage.

pub mod history;
pub mod index_log_history;
pub mod logs;
pub mod snapshot;
pub mod stage;
pub mod transactions;

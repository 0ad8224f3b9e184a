//! Durable-execution kernel: an event-sourced run log, a deterministic
//! reducer, snapshots, a policy engine, the kernel driver, and the
//! attempt/lease repository that turns the log into dispatchable work.

pub mod clock;
pub mod identity;
pub mod order;
pub mod event;
pub mod execution_log;
pub mod reducer;
pub mod models;
pub mod names;
pub mod repository;
pub mod lease;
pub mod scheduler;
pub mod policy;
pub mod snapshot;
pub mod kernel;

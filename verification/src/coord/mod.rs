//! Parallel execution of workflows that grow while they run.

pub mod registry;
pub mod types;
pub mod action;
pub mod hooks;
pub mod coordinator;
pub mod legacy_bridge;

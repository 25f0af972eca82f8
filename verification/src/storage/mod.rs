//! What is kept in a database: runs of workflows and of their nodes, artifacts and state.

pub mod records;
pub mod sqlite_storage;

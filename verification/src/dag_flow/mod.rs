//! Workflows as directed acyclic graphs of nodes.

pub mod config;
pub mod node;
pub mod cache;
pub mod dag;
pub mod schedule;
pub mod events;
pub mod branch;
pub mod planning;
pub mod executor;
pub mod operations;
pub mod attempts;
pub mod run;
pub mod tree;
pub mod dot;
pub mod dag_builder;
pub mod function_action;
pub mod enhanced_dag_flow;
pub mod sqlite_cache;
pub mod legacy_compat;

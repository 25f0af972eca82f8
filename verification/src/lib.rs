//! Building blocks for directed-acyclic workflows and publish/subscribe agents.

pub mod text;
pub mod string_map;
pub mod dash_table;
pub mod sums;
pub mod clock;
pub mod duration;
pub mod ids;
pub mod errors;
pub mod graph;
pub mod double;
pub mod value;
pub mod schema;
pub mod limits;
pub mod memory;
pub mod concurrency;
pub mod performance;
pub mod monitoring;
pub mod builders;
pub mod compression;
pub mod coord;
pub mod dag_flow;
pub mod pubsub;
pub mod pubsubagent;
pub mod storage;

//! Publishing messages on channels and subscribing to them.

pub mod pubsub_builder;
pub mod enhanced_pubsub;
pub mod pubsub;

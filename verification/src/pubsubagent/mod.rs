//! Agents that exchange messages over channels, with a durable record of what they did.

pub mod message;
pub mod executor;
pub mod delivery;
pub mod global;
pub mod dot;

//! The agent runtime: the agent abstraction and its cooperative scheduler.

pub mod agent;
pub mod executor;
pub mod laws;

//! The primary agent: talks with the user, and acts on what the model answers.

pub mod agent;
pub mod laws;
pub mod planner;
pub mod speech;
pub mod tag_laws;
pub mod tool_laws;
pub mod tools;
pub mod turn_laws;

//! Glass Box: real-time state visibility.
//!
//! Every agent, module and service publishes its state as key-value entries to one
//! store that is always visible.

pub mod agent;
pub mod display;
pub mod laws;
pub mod render_laws;
pub mod state;

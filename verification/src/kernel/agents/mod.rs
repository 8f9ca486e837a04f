//! Agents that run inside the kernel.

pub mod echo;
pub mod heartbeat;
pub mod keyboard_bridge;
pub mod settings_handler;

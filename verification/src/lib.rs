//! Squirrel: the verified core of an operating system whose components talk
//! through semantic intents.
//!
//! The library holds the parts of the system that compute and decide: the Intent
//! Bus with its audit log, the cooperative agent scheduler, the Glass Box state
//! store and its renderer, the memory managers, the framing and parsing layers of
//! the network stack, the inference engine's model-file and token logic, the
//! primary agent and the capability modules. Hardware access, locks, sockets and
//! floating-point tensor arithmetic live outside, in the kernel binary.

pub mod glass_box;
pub mod inference;
pub mod intent_bus;
pub mod kernel;
pub mod modules;
pub mod network;
pub mod primary_agent;
pub mod sart;
pub mod system;
pub mod text;
pub mod text_laws;
pub mod text_map;
pub mod views;

//! The kernel's own services.

pub mod agents;
pub mod boot;
pub mod display;
pub mod drivers;
pub mod interrupts;
pub mod laws;
pub mod memory;
pub mod timer;

//! Device drivers of the kernel.

pub mod keyboard;
pub mod network;

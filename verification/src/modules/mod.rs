//! Capability modules: sandboxed components that see the system only through a few
//! calls of their host.

pub mod display;
pub mod hello;
pub mod host;
pub mod input;
pub mod laws;
pub mod module_laws;
pub mod settings;
pub mod storage;

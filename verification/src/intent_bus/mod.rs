//! The Intent Bus: the universal message format, the router and its audit log.

pub mod audit;
pub mod bus;
pub mod intent;
pub mod laws;
pub mod payloads;
pub mod sequences;

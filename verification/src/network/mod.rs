//! The network stack's framing and parsing, and the decisions of its drivers.

pub mod agent;
pub mod device_laws;
pub mod e1000;
pub mod exchange_laws;
pub mod http;
pub mod http_laws;
pub mod https;
pub mod laws;
pub mod pci;
pub mod registers;
pub mod rng;
pub mod rtl8139;
pub mod startup;
pub mod tls;
pub mod virtio_net;

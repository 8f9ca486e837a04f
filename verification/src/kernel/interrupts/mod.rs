//! Interrupt controllers: what is written to their registers.

pub mod apic;
pub mod ioapic;

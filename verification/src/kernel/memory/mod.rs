//! Memory management: physical frames, the DMA pool and the heap's layout.

pub mod dma;
pub mod heap;
pub mod pmm;

//! Layout of the kernel heap.

use vstd::prelude::*;

use crate::kernel::memory::pmm::{next_free, PhysicalMemoryManager, PmmView};

verus! {

/// Virtual address of the heap.
pub const HEAP_START: u64 = 0xFFFF_FFFF_9000_0000;

/// Bytes of the heap (8 MB).
pub const HEAP_SIZE: usize = 0x80_0000;

/// Pages of the heap.
pub const HEAP_PAGES: usize = 2048;

/// The mapping of one heap page: its virtual address and a fresh frame for it; none
/// where memory is exhausted.
pub fn heap_page(pmm: &mut PhysicalMemoryManager, page: usize) -> (r: Option<(u64, u64)>)
    requires
        page < HEAP_PAGES,
        old(pmm).wf(),
    ensures
        final(pmm).wf(),
        match next_free(old(pmm)@.used, old(pmm)@.hint as int, 0) {
            Some(idx) => {
                &&& r == Some(((HEAP_START + page * 4096) as u64, (idx * 4096) as u64))
                &&& old(pmm)@.free >= 1
                &&& 0 <= idx < old(pmm)@.used.len()
                &&& final(pmm)@ == PmmView {
                    used: old(pmm)@.used.update(idx, true),
                    free: (old(pmm)@.free - 1) as nat,
                    hint: ((idx + 1) % (old(pmm)@.used.len() as int)) as nat,
                    ..old(pmm)@
                }
            },
            None => r is None && final(pmm)@ == old(pmm)@,
        },
        old(pmm)@.exact() ==> final(pmm)@.exact(),
{
    let virt = HEAP_START + page as u64 * 4096;
    match pmm.allocate_frame() {
        Some(frame) => Some((virt, frame)),
        None => None,
    }
}

/// The heap's pages follow each other without gap and end before the DMA pool.
pub proof fn law_heap_below_dma(page: int)
    requires
        0 <= page < HEAP_PAGES,
    ensures
        HEAP_PAGES * 4096 == HEAP_SIZE,
        HEAP_START + (page + 1) * 4096 <= HEAP_START + HEAP_SIZE,
        HEAP_START + HEAP_SIZE <= crate::kernel::memory::dma::DMA_VIRT_BASE,
{
}

} // verus!

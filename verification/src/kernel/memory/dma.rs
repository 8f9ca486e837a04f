//! The DMA pool: physically contiguous memory for devices, handed out by a bump
//! allocator.

use vstd::arithmetic::power2::{lemma2_to64, lemma_pow2_adds, lemma_pow2_pos, pow2};
use vstd::prelude::*;

verus! {

/// Pages of the pool.
pub const DMA_POOL_PAGES: usize = 512;

/// Bytes of the pool.
pub const DMA_POOL_SIZE: usize = 0x20_0000;

/// Virtual address of the pool.
pub const DMA_VIRT_BASE: u64 = 0xFFFF_FFFF_9800_0000;

/// The least alignment of an allocation.
pub const MIN_ALIGN: usize = 16;

/// A bump allocator over the pool.
pub struct DmaAllocator {
    /// Next free offset within the pool.
    offset: usize,
    /// Pool size in bytes.
    size: usize,
    /// Physical address of the pool.
    phys_base: u64,
}

/// What the allocator holds.
pub struct DmaView {
    pub offset: usize,
    pub size: usize,
    pub phys_base: u64,
}

impl View for DmaAllocator {
    type V = DmaView;

    closed spec fn view(&self) -> DmaView {
        DmaView { offset: self.offset, size: self.size, phys_base: self.phys_base }
    }
}

impl DmaView {
    pub open spec fn wf(self) -> bool {
        &&& self.offset <= self.size <= DMA_POOL_SIZE
        &&& self.phys_base + self.size <= u64::MAX
    }

    /// What a request gets: the virtual and the physical address of its bytes, or
    /// nothing where the pool has no room for it.
    pub open spec fn grant(self, size: usize, align: usize) -> Option<(u64, u64)> {
        let at = aligned_offset(self.offset, align);
        if at + size > self.size {
            None
        } else {
            Some(((DMA_VIRT_BASE + at) as u64, (self.phys_base + at) as u64))
        }
    }

    /// The allocator after a request: what was granted is no longer free.
    pub open spec fn after(self, size: usize, align: usize) -> DmaView {
        let at = aligned_offset(self.offset, align);
        if at + size > self.size {
            self
        } else {
            DmaView { offset: (at + size) as usize, ..self }
        }
    }
}

/// The alignment that is used: at least the minimum.
pub open spec fn effective_align(align: usize) -> u64 {
    if align > MIN_ALIGN {
        align as u64
    } else {
        MIN_ALIGN as u64
    }
}

/// The offset, rounded up to the alignment by masking its low bits.
pub open spec fn aligned_offset(offset: usize, align: usize) -> u64 {
    ((offset + effective_align(align) - 1) as u64) & !((effective_align(align) - 1) as u64)
}

proof fn lemma_mask_below(x: u64, m: u64)
    ensures
        x & m <= x,
{
    assert(x & m <= x) by (bit_vector);
}

impl DmaAllocator {
    /// An empty pool at the given physical address.
    pub fn new(size: usize, phys_base: u64) -> (r: Self)
        requires
            size <= DMA_POOL_SIZE,
            phys_base + size <= u64::MAX,
        ensures
            r@ == (DmaView { offset: 0, size, phys_base }),
            r@.wf(),
    {
        DmaAllocator { offset: 0, size, phys_base }
    }

    /// Allocate `size` bytes, aligned to `align` bytes (at least 16). Returns the
    /// virtual and the physical address, or none if the pool has no room.
    pub fn allocate(&mut self, size: usize, align: usize) -> (r: Option<(u64, u64)>)
        requires
            old(self)@.wf(),
            old(self)@.offset + effective_align(align) - 1 <= usize::MAX,
            aligned_offset(old(self)@.offset, align) + size <= usize::MAX,
        ensures
            r == old(self)@.grant(size, align),
            final(self)@ == old(self)@.after(size, align),
            final(self)@.wf(),
    {
        let a = if align > MIN_ALIGN {
            align as u64
        } else {
            MIN_ALIGN as u64
        };
        proof {
            lemma_mask_below((self.offset + a - 1) as u64, !((a - 1) as u64));
        }
        let at = ((self.offset as u64 + (a - 1)) & !(a - 1)) as usize;
        if at + size > self.size {
            return None;
        }
        let virt = DMA_VIRT_BASE + at as u64;
        let phys = self.phys_base + at as u64;
        self.offset = at + size;
        Some((virt, phys))
    }

    /// How many bytes remain in the pool.
    pub fn remaining(&self) -> (r: usize)
        requires
            self@.wf(),
        ensures
            r == self@.size - self@.offset,
    {
        self.size - self.offset
    }
}

/// Allocate DMA memory, where there is a pool.
pub fn dma_alloc(pool: &mut Option<DmaAllocator>, size: usize, align: usize) -> (r: Option<(u64, u64)>)
    requires
        *old(pool) matches Some(p) ==> {
            &&& p@.wf()
            &&& p@.offset + effective_align(align) - 1 <= usize::MAX
            &&& aligned_offset(p@.offset, align) + size <= usize::MAX
        },
    ensures
        match *old(pool) {
            Some(p) => {
                &&& *final(pool) is Some
                &&& (*final(pool))->0@.wf()
                &&& r == p@.grant(size, align)
                &&& (*final(pool))->0@ == p@.after(size, align)
            },
            None => r is None && *final(pool) is None,
        },
{
    match pool {
        Some(p) => p.allocate(size, align),
        None => None,
    }
}

/// The physical address of a virtual one in the pool; 0 for any other address.
pub open spec fn phys_of(phys_base: u64, virt: u64) -> int {
    if DMA_VIRT_BASE <= virt < DMA_VIRT_BASE + DMA_POOL_SIZE {
        phys_base + (virt - DMA_VIRT_BASE)
    } else {
        0
    }
}

/// Convert a virtual address of the pool to its physical address.
pub fn dma_virt_to_phys(phys_base: u64, virt: u64) -> (r: u64)
    requires
        phys_base + DMA_POOL_SIZE <= u64::MAX,
    ensures
        r == phys_of(phys_base, virt),
{
    if virt >= DMA_VIRT_BASE && virt < DMA_VIRT_BASE + DMA_POOL_SIZE as u64 {
        phys_base + (virt - DMA_VIRT_BASE)
    } else {
        0
    }
}

/// The virtual and the physical address of a page of the pool.
pub fn dma_page(phys_base: u64, page: usize) -> (r: (u64, u64))
    requires
        page < DMA_POOL_PAGES,
        phys_base + DMA_POOL_SIZE <= u64::MAX,
    ensures
        r.0 == DMA_VIRT_BASE + page * 4096,
        r.1 == phys_of(phys_base, r.0),
{
    let at = (page * 4096) as u64;
    (DMA_VIRT_BASE + at, phys_base + at)
}

// ---------------------------------------------------------------------------
// What holds of allocations
// ---------------------------------------------------------------------------

/// The alignment in use is a power of two that the pool's own address is a multiple of.
pub open spec fn sound_align(align: usize) -> bool {
    exists|k: nat| k <= 27 && effective_align(align) == #[trigger] pow2(k)
}

/// The least multiple of `a` that is not below `offset`.
pub open spec fn least_multiple(offset: int, a: int) -> int {
    (offset + a - 1) / a * a
}

/// Masking rounds up to the least multiple of the alignment.
pub proof fn law_aligned_offset(offset: usize, align: usize)
    requires
        offset <= DMA_POOL_SIZE,
        sound_align(align),
    ensures
        aligned_offset(offset, align) == least_multiple(offset as int, effective_align(align) as int),
        aligned_offset(offset, align) % effective_align(align) == 0,
        offset <= aligned_offset(offset, align) < offset + effective_align(align),
{
    let k = choose|k: nat| k <= 27 && effective_align(align) == #[trigger] pow2(k);
    let a = effective_align(align);
    lemma2_to64();
    lemma_pow2_pos(k);
    if k < 27 {
        vstd::arithmetic::power2::lemma_pow2_strictly_increases(k, 27);
    }
    let sum = (offset + a - 1) as u64;
    let low = (a - 1) as u64;
    vstd::bits::lemma_u64_low_bits_mask_is_mod(sum, k);
    assert(low == vstd::bits::low_bits_mask(k));
    assert(sum & !low == sum - (sum & low)) by (bit_vector);
    assert(sum & low == sum % a);
    let q = sum as int / a as int;
    vstd::arithmetic::div_mod::lemma_fundamental_div_mod(sum as int, a as int);
    assert(q * a == a * q) by (nonlinear_arith);
    assert(sum - sum % a == q * a);
    vstd::arithmetic::div_mod::lemma_mod_multiples_basic(q, a as int);
}

/// The pool's address is a multiple of every alignment in use.
proof fn lemma_base_aligned(align: usize)
    requires
        sound_align(align),
    ensures
        DMA_VIRT_BASE % effective_align(align) == 0,
{
    let k = choose|k: nat| k <= 27 && effective_align(align) == #[trigger] pow2(k);
    lemma2_to64();
    lemma_pow2_pos(k);
    lemma_pow2_adds(k, (27 - k) as nat);
    let a = effective_align(align) as int;
    let rest = pow2((27 - k) as nat) as int;
    assert(DMA_VIRT_BASE == 0x1F_FFFF_FFF3 * 0x800_0000);
    assert(0x1F_FFFF_FFF3 * (a * rest) == (0x1F_FFFF_FFF3 * rest) * a) by (nonlinear_arith);
    vstd::arithmetic::div_mod::lemma_mod_multiples_basic(0x1F_FFFF_FFF3 * rest, a);
}

/// A request is granted exactly where the least multiple of its alignment behind all
/// that was handed out leaves room for it in the pool. Its address is a multiple of the
/// alignment, its bytes lie in the pool, and its physical address is what its virtual
/// one converts to. A refused request changes nothing.
pub proof fn law_allocation(p: DmaView, size: usize, align: usize)
    requires
        p.wf(),
        sound_align(align),
    ensures
        p.grant(size, align) is None <==> least_multiple(p.offset as int, effective_align(align) as int) + size
            > p.size,
        p.grant(size, align) is None ==> p.after(size, align) == p,
        p.after(size, align).wf(),
        p.grant(size, align) matches Some((v, phys)) ==> {
            &&& v % effective_align(align) == 0
            &&& DMA_VIRT_BASE + p.offset <= v
            &&& v + size <= DMA_VIRT_BASE + p.size
            &&& phys - v == p.phys_base - DMA_VIRT_BASE
            &&& p.after(size, align).offset == v - DMA_VIRT_BASE + size
        },
{
    law_aligned_offset(p.offset, align);
    lemma_base_aligned(align);
    let a = effective_align(align) as int;
    let at = aligned_offset(p.offset, align) as int;
    assert(a > 0);
    vstd::arithmetic::div_mod::lemma_add_mod_noop(DMA_VIRT_BASE as int, at, a);
}

/// A request to the allocator.
pub struct DmaRequest {
    pub size: usize,
    pub align: usize,
}

/// The allocator after several requests.
pub open spec fn after_all(p: DmaView, requests: Seq<DmaRequest>) -> DmaView
    decreases requests.len(),
{
    if requests.len() == 0 {
        p
    } else {
        after_all(p, requests.drop_last()).after(requests.last().size, requests.last().align)
    }
}

/// What the request at `i` gets, behind those before it.
pub open spec fn grant_at(p: DmaView, requests: Seq<DmaRequest>, i: int) -> Option<(u64, u64)> {
    after_all(p, requests.take(i)).grant(requests[i].size, requests[i].align)
}

/// Requests never give back what was handed out, and the pool stays where it is.
proof fn lemma_after_all(p: DmaView, requests: Seq<DmaRequest>, i: int)
    requires
        p.wf(),
        forall|j: int| 0 <= j < requests.len() ==> sound_align((#[trigger] requests[j]).align),
        0 <= i <= requests.len(),
    ensures
        after_all(p, requests).wf(),
        after_all(p, requests.take(i)).wf(),
        after_all(p, requests.take(i)).offset <= after_all(p, requests).offset,
        after_all(p, requests).size == p.size,
        after_all(p, requests).phys_base == p.phys_base,
    decreases requests.len(),
{
    if requests.len() > 0 {
        let rest = requests.drop_last();
        assert forall|j: int| 0 <= j < rest.len() implies sound_align((#[trigger] rest[j]).align) by {
            assert(rest[j] == requests[j]);
        }
        let last = requests.last();
        assert(last == requests[requests.len() - 1]);
        if i == requests.len() {
            assert(requests.take(i) =~= requests);
            lemma_after_all(p, rest, 0);
        } else {
            lemma_after_all(p, rest, i);
            assert(rest.take(i) =~= requests.take(i));
        }
        law_allocation(after_all(p, rest), last.size, last.align);
    } else {
        assert(requests.take(i) =~= requests);
    }
}

/// Of any sequence of requests, no two grants overlap: the later one begins where the
/// earlier ends or behind it. Every grant lies in the pool at a multiple of its
/// alignment, and virtual and physical addresses have one distance for all of them.
pub proof fn law_allocations_apart(p: DmaView, requests: Seq<DmaRequest>, i: int, j: int)
    requires
        p.wf(),
        forall|k: int| 0 <= k < requests.len() ==> sound_align((#[trigger] requests[k]).align),
        0 <= i < j < requests.len(),
    ensures
        grant_at(p, requests, i) matches Some((v1, p1)) ==> (grant_at(p, requests, j) matches Some((v2, p2)) ==> {
            &&& v1 + requests[i].size <= v2
            &&& v2 + requests[j].size <= DMA_VIRT_BASE + p.size
            &&& v2 % effective_align(requests[j].align) == 0
            &&& p2 - v2 == p1 - v1
        }),
{
    let upto = requests.take(j);
    assert forall|k: int| 0 <= k < upto.len() implies sound_align((#[trigger] upto[k]).align) by {
        assert(upto[k] == requests[k]);
    }
    let first = requests.take(i);
    assert forall|k: int| 0 <= k < first.len() implies sound_align((#[trigger] first[k]).align) by {
        assert(first[k] == requests[k]);
    }
    lemma_after_all(p, first, 0);
    lemma_after_all(p, upto, i + 1);
    assert(upto.take(i + 1) =~= requests.take(i + 1));
    assert(requests.take(i + 1).drop_last() =~= first);
    assert(requests.take(i + 1).last() == requests[i]);
    let a = after_all(p, first);
    let b = after_all(p, upto);
    law_allocation(a, requests[i].size, requests[i].align);
    law_allocation(b, requests[j].size, requests[j].align);
}

} // verus!

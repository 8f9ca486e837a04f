//! Writes to device registers, in the order in which they are to be made.

use vstd::prelude::*;

verus! {

/// A write to a register: its offset, and the value with its width.
#[derive(Debug, Clone, Copy, PartialEq, Eq, Structural)]
pub enum RegWrite {
    Byte(u16, u8),
    Word(u16, u16),
    Long(u16, u32),
}

/// The low 32 bits of an address.
pub open spec fn low_half(addr: u64) -> u32 {
    (addr % 0x1_0000_0000) as u32
}

/// The high 32 bits of an address.
pub open spec fn high_half(addr: u64) -> u32 {
    (addr / 0x1_0000_0000) as u32
}

/// The low 32 bits of an address.
pub fn low_bits(addr: u64) -> (r: u32)
    ensures
        r == low_half(addr),
{
    (addr % 0x1_0000_0000) as u32
}

/// The high 32 bits of an address.
pub fn high_bits(addr: u64) -> (r: u32)
    ensures
        r == high_half(addr),
{
    (addr / 0x1_0000_0000) as u32
}

/// The physical address of a directly mapped virtual one.
pub fn virt_to_phys(virt: u64, hhdm_offset: u64) -> (r: u64)
    requires
        virt >= hhdm_offset,
    ensures
        r == virt - hhdm_offset,
{
    virt - hhdm_offset
}

/// `n` zero bytes.
pub fn zeros(n: usize) -> (r: Vec<u8>)
    ensures
        r@ == Seq::new(n as nat, |i: int| 0u8),
{
    let mut v: Vec<u8> = Vec::new();
    let mut i: usize = 0;
    while i < n
        invariant
            i <= n,
            v@ == Seq::new(i as nat, |i: int| 0u8),
        decreases n - i,
    {
        v.push(0);
        i += 1;
        assert(v@ =~= Seq::new(i as nat, |i: int| 0u8));
    }
    v
}

/// A buffer with other bytes at its front.
pub open spec fn overwritten(old: Seq<u8>, front: Seq<u8>) -> Seq<u8> {
    front + old.skip(front.len() as int)
}

/// Put bytes at the front of a buffer.
pub fn overwrite(buffer: &mut Vec<u8>, front: &[u8], len: usize)
    requires
        len <= front@.len(),
        len <= old(buffer)@.len(),
    ensures
        final(buffer)@ == overwritten(old(buffer)@, front@.take(len as int)),
{
    let ghost before = buffer@;
    let mut i: usize = 0;
    assert(buffer@ =~= front@.take(0) + before.skip(0));
    while i < len
        invariant
            i <= len,
            len <= front@.len(),
            len <= before.len(),
            buffer@.len() == before.len(),
            buffer@ =~= front@.take(i as int) + before.skip(i as int),
        decreases len - i,
    {
        buffer[i] = front[i];
        i += 1;
    }
}

} // verus!

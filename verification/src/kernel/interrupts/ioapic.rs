//! I/O APIC: routing of interrupt lines.

use vstd::prelude::*;

use crate::network::registers::{high_bits, high_half, low_bits, low_half};

verus! {

/// Physical address of the registers.
pub const IOAPIC_PHYS_BASE: u64 = 0xFEC0_0000;

/// Offsets of the select register and the window.
pub const IOREGSEL: u64 = 0x00;

pub const IOWIN: u64 = 0x10;

pub const REG_VER: u32 = 0x01;

/// First register of the redirection table, two per entry.
pub const REG_REDTBL_BASE: u32 = 0x10;

/// The entry of a masked line.
pub const MASKED: u64 = 0x1_0000;

/// The writes for one entry of the table: its low half, then its high half.
pub open spec fn entry_writes(irq: u8, entry: u64) -> Seq<(u32, u32)> {
    seq![
        ((REG_REDTBL_BASE + irq * 2) as u32, low_half(entry)),
        ((REG_REDTBL_BASE + irq * 2 + 1) as u32, high_half(entry)),
    ]
}

/// The entry that routes a line to a vector of the boot processor: fixed delivery, edge
/// triggered, active high, unmasked.
pub fn redirection_entry(vector: u8) -> (r: u64)
    ensures
        r == vector,
{
    vector as u64
}

/// Append the writes for one entry of the table.
pub fn write_redirection(program: &mut Vec<(u32, u32)>, irq: u8, entry: u64)
    ensures
        final(program)@ == old(program)@ + entry_writes(irq, entry),
{
    let reg = REG_REDTBL_BASE + irq as u32 * 2;
    program.push((reg, low_bits(entry)));
    program.push((reg + 1, high_bits(entry)));
    assert(program@ =~= old(program)@ + entry_writes(irq, entry));
}

/// How many lines there are: the version register gives the number of the last entry.
pub open spec fn masked_lines(version: u32) -> int {
    version as int / 0x1_0000 % 0x100 + 1
}

/// The writes that mask the first `n` lines.
pub open spec fn mask_writes(n: int) -> Seq<(u32, u32)>
    decreases n,
{
    if n <= 0 {
        Seq::empty()
    } else {
        mask_writes(n - 1) + entry_writes((n - 1) as u8, MASKED)
    }
}

/// The writes that set the controller up: every line masked, then line 1 (keyboard) to
/// vector 0x21 and line 11 (network) to vector 0x22.
pub fn routing_program(version: u32) -> (r: Vec<(u32, u32)>)
    ensures
        r@ == mask_writes(masked_lines(version)) + entry_writes(1, 0x21) + entry_writes(11, 0x22),
{
    let count: u32 = version / 0x1_0000 % 0x100 + 1;
    let mut program: Vec<(u32, u32)> = Vec::new();
    let mut i: u32 = 0;
    while i < count
        invariant
            i <= count <= 0x100,
            program@ == mask_writes(i as int),
        decreases count - i,
    {
        write_redirection(&mut program, i as u8, MASKED);
        i += 1;
    }
    write_redirection(&mut program, 1, redirection_entry(0x21));
    write_redirection(&mut program, 11, redirection_entry(0x22));
    program
}

} // verus!

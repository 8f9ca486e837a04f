//! Local APIC: its registers, and the count of its timer.

use vstd::prelude::*;

verus! {

/// Physical address of the registers.
pub const APIC_PHYS_BASE: u64 = 0xFEE0_0000;

/// Register numbers, in units of four bytes.
pub const REG_EOI: u64 = 0x2C;

pub const REG_SPURIOUS: u64 = 0x3C;

pub const REG_TIMER_LVT: u64 = 0xC8;

pub const REG_TIMER_INITIAL: u64 = 0xE0;

pub const REG_TIMER_CURRENT: u64 = 0xE4;

pub const REG_TIMER_DIVIDE: u64 = 0xF8;

/// Software enable, spurious vector 0xFF.
pub const SPURIOUS_VALUE: u32 = 0x1FF;

/// Periodic mode, vector 0x20.
pub const TIMER_LVT_VALUE: u32 = 0x0002_0020;

/// Divide by 16.
pub const TIMER_DIVIDE_VALUE: u32 = 0x3;

/// The controller's registers in virtual memory.
pub struct LocalApic {
    pub base: u64,
}

impl LocalApic {
    /// The registers in the direct map of physical memory.
    pub fn new(hhdm_offset: u64) -> (r: Self)
        requires
            hhdm_offset + APIC_PHYS_BASE <= u64::MAX,
        ensures
            r.base == hhdm_offset + APIC_PHYS_BASE,
    {
        LocalApic { base: hhdm_offset + APIC_PHYS_BASE }
    }

    /// The address of a register.
    pub fn address(&self, reg: u64) -> (r: u64)
        requires
            self.base + reg * 4 <= u64::MAX,
        ensures
            r == self.base + reg * 4,
    {
        self.base + reg * 4
    }
}

/// Ticks that passed while the timer counted down from its largest value.
pub fn elapsed_ticks(current: u32) -> (r: u32)
    ensures
        r == u32::MAX - current,
{
    u32::MAX - current
}

/// The initial count for a periodic timer of `hz`, from the ticks that passed in ten
/// milliseconds.
pub fn timer_count(elapsed: u32, hz: u32) -> (r: u32)
    requires
        hz > 0,
    ensures
        r == elapsed * 100 / (hz as int) % 0x1_0000_0000,
{
    (elapsed as u64 * 100 / hz as u64 % 0x1_0000_0000) as u32
}

/// At 100 Hz the count is what passed in ten milliseconds.
pub proof fn law_hundred_hertz(elapsed: u32)
    ensures
        elapsed * 100 / 100 % 0x1_0000_0000 == elapsed,
{
}

} // verus!

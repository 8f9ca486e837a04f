//! PCI: configuration addresses and the search for a network card.

use vstd::prelude::*;

verus! {

/// A device on the bus.
#[derive(Debug, Clone, Copy, PartialEq, Eq, Structural)]
pub struct PciDevice {
    pub bus: u8,
    pub slot: u8,
    pub func: u8,
    pub vendor_id: u16,
    pub device_id: u16,
    pub bar0: u32,
}

/// Supported card families.
#[derive(Debug, Clone, Copy, PartialEq, Eq, Structural)]
pub enum NicKind {
    VirtioNet,
    IntelE1000,
    RealtekRtl8139,
}

/// What the configuration space of a slot says of its device.
#[derive(Debug, Clone, Copy, PartialEq, Eq, Structural)]
pub struct SlotConfig {
    /// 0xFFFF where the slot is empty.
    pub vendor_id: u16,
    pub device_id: u16,
    pub bar0: u32,
}

/// Slots of a bus.
pub const SLOTS: usize = 32;

/// The bit of the command register that lets a device use DMA.
pub const BUS_MASTER: u16 = 0x04;

/// The address of a configuration register: the enable bit, bus, device and function,
/// and the offset without its two low bits.
pub open spec fn config_address(bus: u8, dev: u8, func: u8, off: u8) -> u32 {
    0x8000_0000u32 | ((bus as u32) << 16) | ((dev as u32) << 11) | ((func as u32) << 8) | ((off as u32) & 0xFC)
}

/// The parts of an address do not overlap for devices and functions that exist.
pub proof fn law_config_address(bus: u8, dev: u8, func: u8, off: u8)
    requires
        dev < 32,
        func < 8,
    ensures
        config_address(bus, dev, func, off) == 0x8000_0000 + bus * 0x1_0000 + dev * 0x800 + func * 0x100 + (off - off % 4),
{
    let b = bus as u32;
    let d = dev as u32;
    let f = func as u32;
    let o = off as u32;
    assert(0x8000_0000u32 | (b << 16) | (d << 11) | (f << 8) | (o & 0xFC) == 0x8000_0000 + b * 0x1_0000 + d * 0x800 + f
        * 0x100 + (o - o % 4)) by (bit_vector)
        requires
            b < 256,
            d < 32,
            f < 8,
            o < 256,
    ;
}

/// The address of a configuration register.
pub fn pci_address(bus: u8, dev: u8, func: u8, off: u8) -> (r: u32)
    ensures
        r == config_address(bus, dev, func, off),
{
    0x8000_0000u32 | ((bus as u32) << 16) | ((dev as u32) << 11) | ((func as u32) << 8) | ((off as u32) & 0xFC)
}

/// The offset names the high half of its register.
pub open spec fn is_high_half(off: u8) -> bool {
    off / 2 % 2 == 1
}

/// The 16-bit value at an offset, out of the 32-bit register that holds it.
pub fn pci_read_u16(data: u32, off: u8) -> (r: u16)
    ensures
        r == if is_high_half(off) {
            data / 0x1_0000
        } else {
            data % 0x1_0000
        },
{
    if off / 2 % 2 == 0 {
        (data % 0x1_0000) as u16
    } else {
        (data / 0x1_0000) as u16
    }
}

/// The 32-bit register with another 16-bit value at an offset.
pub fn pci_write_u16(cur: u32, off: u8, val: u16) -> (r: u32)
    ensures
        r == if is_high_half(off) {
            val * 0x1_0000 + cur % 0x1_0000
        } else {
            cur - cur % 0x1_0000 + val
        },
{
    if off / 2 % 2 == 0 {
        cur - cur % 0x1_0000 + val as u32
    } else {
        val as u32 * 0x1_0000 + cur % 0x1_0000
    }
}

/// What is written at an offset is read there, and the other half is as it was.
pub proof fn law_write_then_read(cur: u32, off: u8, val: u16, written: u32)
    requires
        written == if is_high_half(off) {
            val * 0x1_0000 + cur % 0x1_0000
        } else {
            cur - cur % 0x1_0000 + val
        },
    ensures
        is_high_half(off) ==> written / 0x1_0000 == val && written % 0x1_0000 == cur % 0x1_0000,
        !is_high_half(off) ==> written % 0x1_0000 == val && written / 0x1_0000 == cur / 0x1_0000,
{
}

/// Device ids of the Intel family.
pub open spec fn is_e1000(device: u16) -> bool {
    ||| device == 0x100E
    ||| device == 0x100F
    ||| device == 0x10D3
    ||| device == 0x153A
    ||| device == 0x153B
    ||| device == 0x1559
    ||| device == 0x155A
    ||| 0x15A0 <= device <= 0x15A3
    ||| 0x15B7 <= device <= 0x15B9
    ||| device == 0x15BD
    ||| device == 0x15BE
    ||| 0x15D6 <= device <= 0x15D8
    ||| device == 0x15E3
    ||| 0x15FA <= device <= 0x15FD
    ||| 0x0D4C <= device <= 0x0D4F
    ||| device == 0x0D53
    ||| device == 0x0D55
    ||| 0x1A1C <= device <= 0x1A1F
    ||| device == 0x550A
    ||| device == 0x550B
}

/// The family of a card.
pub open spec fn kind_of(vendor: u16, device: u16) -> Option<NicKind> {
    if vendor == 0x1AF4 && (device == 0x1000 || device == 0x1041) {
        Some(NicKind::VirtioNet)
    } else if vendor == 0x8086 && is_e1000(device) {
        Some(NicKind::IntelE1000)
    } else if vendor == 0x10EC && device == 0x8139 {
        Some(NicKind::RealtekRtl8139)
    } else {
        None
    }
}

/// The family of a card.
pub fn classify(vendor: u16, device: u16) -> (r: Option<NicKind>)
    ensures
        r == kind_of(vendor, device),
{
    if vendor == 0x1AF4 && (device == 0x1000 || device == 0x1041) {
        return Some(NicKind::VirtioNet);
    }
    let intel = device == 0x100E || device == 0x100F || device == 0x10D3 || device == 0x153A || device == 0x153B
        || device == 0x1559 || device == 0x155A || (device >= 0x15A0 && device <= 0x15A3) || (device >= 0x15B7 && device
        <= 0x15B9) || device == 0x15BD || device == 0x15BE || (device >= 0x15D6 && device <= 0x15D8) || device == 0x15E3
        || (device >= 0x15FA && device <= 0x15FD) || (device >= 0x0D4C && device <= 0x0D4F) || device == 0x0D53 || device
        == 0x0D55 || (device >= 0x1A1C && device <= 0x1A1F) || device == 0x550A || device == 0x550B;
    if vendor == 0x8086 && intel {
        return Some(NicKind::IntelE1000);
    }
    if vendor == 0x10EC && device == 0x8139 {
        return Some(NicKind::RealtekRtl8139);
    }
    None
}

/// A slot holds a supported card.
pub open spec fn holds_nic(s: SlotConfig) -> bool {
    s.vendor_id != 0xFFFF && kind_of(s.vendor_id, s.device_id) is Some
}

/// Find the first supported card on a bus, from what its slots say.
pub fn find_nic(slots: &[SlotConfig]) -> (r: Option<(PciDevice, NicKind)>)
    requires
        slots@.len() <= SLOTS,
    ensures
        match r {
            Some((dev, kind)) => {
                &&& dev.slot < slots@.len()
                &&& ({
                    let s = slots@[dev.slot as int];
                    &&& holds_nic(s)
                    &&& kind_of(s.vendor_id, s.device_id) == Some(kind)
                    &&& dev == PciDevice {
                        bus: 0,
                        slot: dev.slot,
                        func: 0,
                        vendor_id: s.vendor_id,
                        device_id: s.device_id,
                        bar0: s.bar0,
                    }
                })
                &&& forall|i: int| 0 <= i < dev.slot ==> !holds_nic(#[trigger] slots@[i])
            },
            None => forall|i: int| 0 <= i < slots@.len() ==> !holds_nic(#[trigger] slots@[i]),
        },
{
    let mut i: usize = 0;
    while i < slots.len()
        invariant
            i <= slots@.len() <= SLOTS,
            forall|j: int| 0 <= j < i ==> !holds_nic(#[trigger] slots@[j]),
        decreases slots@.len() - i,
    {
        let s = slots[i];
        if s.vendor_id != 0xFFFF {
            match classify(s.vendor_id, s.device_id) {
                Some(kind) => {
                    let dev = PciDevice {
                        bus: 0,
                        slot: i as u8,
                        func: 0,
                        vendor_id: s.vendor_id,
                        device_id: s.device_id,
                        bar0: s.bar0,
                    };
                    return Some((dev, kind));
                },
                None => {},
            }
        }
        i += 1;
    }
    None
}

/// The command register with bus mastering switched on.
pub fn enable_bus_mastering(cmd: u16) -> (r: u16)
    ensures
        r == cmd | BUS_MASTER,
        r & BUS_MASTER != 0,
{
    assert((cmd | 0x04) & 0x04 != 0) by (bit_vector);
    cmd | BUS_MASTER
}

} // verus!

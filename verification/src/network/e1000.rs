//! Intel e1000: descriptor rings, the address and register programs.

use vstd::prelude::*;

use crate::network::pci::PciDevice;
use crate::network::registers::{high_bits, high_half, low_bits, low_half, overwrite, overwritten, zeros, RegWrite};
use crate::views::{group_views, views};

verus! {

pub const NUM_RX_DESC: usize = 32;

pub const NUM_TX_DESC: usize = 32;

pub const BUF_SIZE: usize = 2048;

/// The longest frame without its checksum.
pub const MAX_FRAME: usize = 1514;

pub const REG_CTRL: u16 = 0x0000;

pub const REG_EERD: u16 = 0x0014;

pub const REG_ICR: u16 = 0x00C0;

pub const REG_IMC: u16 = 0x00D8;

pub const REG_RCTL: u16 = 0x0100;

pub const REG_TCTL: u16 = 0x0400;

pub const REG_RDBAL: u16 = 0x2800;

pub const REG_RDBAH: u16 = 0x2804;

pub const REG_RDLEN: u16 = 0x2808;

pub const REG_RDH: u16 = 0x2810;

pub const REG_RDT: u16 = 0x2818;

pub const REG_TDBAL: u16 = 0x3800;

pub const REG_TDBAH: u16 = 0x3804;

pub const REG_TDLEN: u16 = 0x3808;

pub const REG_TDH: u16 = 0x3810;

pub const REG_TDT: u16 = 0x3818;

pub const REG_RAL: u16 = 0x5400;

pub const REG_RAH: u16 = 0x5404;

/// Control bits: link up, reset.
pub const CTRL_SLU: u32 = 0x40;

pub const CTRL_RST: u32 = 0x400_0000;

/// Receiver on, broadcasts accepted, checksum stripped.
pub const RCTL_VALUE: u32 = 0x400_8002;

/// Transmitter on, short packets padded, collision threshold 15, distance 64.
pub const TCTL_VALUE: u32 = 0x4_00FA;

/// The descriptor is done.
pub const DESC_DD: u8 = 0x01;

/// End of packet, insert checksum, report status.
pub const TX_CMD: u8 = 0x0B;

/// A receive descriptor, as far as the driver uses it.
#[derive(Debug, Clone, Copy, PartialEq, Eq, Structural)]
pub struct RxDesc {
    pub addr: u64,
    pub length: u16,
    pub status: u8,
}

/// A transmit descriptor, as far as the driver uses it.
#[derive(Debug, Clone, Copy, PartialEq, Eq, Structural)]
pub struct TxDesc {
    pub addr: u64,
    pub length: u16,
    pub cmd: u8,
    pub status: u8,
}

/// The driver's state. Descriptors and buffers are shared with the device.
pub struct E1000 {
    /// Virtual address of the registers.
    pub mmio_base: u64,
    pub mac: [u8; 6],
    pub rx_descs: Vec<RxDesc>,
    pub rx_buffers: Vec<Vec<u8>>,
    pub rx_cur: usize,
    pub tx_descs: Vec<TxDesc>,
    pub tx_buffers: Vec<Vec<u8>>,
    pub tx_cur: usize,
}

/// All buffers of a ring have their size.
pub open spec fn buffers_ok(b: Seq<Vec<u8>>) -> bool {
    forall|i: int| 0 <= i < b.len() ==> (#[trigger] b[i])@.len() == BUF_SIZE
}

/// All buffers of a ring hold zeros.
pub open spec fn buffers_empty(b: Seq<Vec<u8>>) -> bool {
    forall|i: int| 0 <= i < b.len() ==> (#[trigger] b[i])@ == Seq::new(BUF_SIZE as nat, |k: int| 0u8)
}

/// `n` empty buffers.
fn make_buffers(n: usize) -> (r: Vec<Vec<u8>>)
    ensures
        r@.len() == n,
        buffers_ok(r@),
        buffers_empty(r@),
{
    let mut v: Vec<Vec<u8>> = Vec::new();
    let mut i: usize = 0;
    while i < n
        invariant
            i <= n,
            v@.len() == i,
            buffers_ok(v@),
            buffers_empty(v@),
        decreases n - i,
    {
        v.push(zeros(BUF_SIZE));
        i += 1;
    }
    v
}

/// The address that two registers hold: none where they hold none. The low one must not
/// be empty, and neither must the high one.
pub open spec fn mac_in_registers(ral: u32, rah: u32) -> Option<Seq<u8>> {
    if ral != 0 && rah != 0 {
        Some(
            seq![
                (ral % 0x100) as u8,
                (ral / 0x100 % 0x100) as u8,
                (ral / 0x1_0000 % 0x100) as u8,
                (ral / 0x100_0000) as u8,
                (rah % 0x100) as u8,
                (rah / 0x100 % 0x100) as u8,
            ],
        )
    } else {
        None
    }
}

/// The registers that hold an address: the high one marks it as valid.
pub open spec fn registers_of(mac: Seq<u8>) -> (int, int) {
    (
        mac[0] + mac[1] * 0x100 + mac[2] * 0x1_0000 + mac[3] * 0x100_0000,
        mac[4] + mac[5] * 0x100 + 0x8000_0000,
    )
}

/// The address in the registers, or none where it has to be read from the EEPROM.
pub fn mac_from_registers(ral: u32, rah: u32) -> (r: Option<[u8; 6]>)
    ensures
        match r {
            Some(mac) => mac_in_registers(ral, rah) == Some(mac@),
            None => mac_in_registers(ral, rah) is None,
        },
{
    if ral != 0 && rah != 0 {
        let mac: [u8; 6] = [
            (ral % 0x100) as u8,
            (ral / 0x100 % 0x100) as u8,
            (ral / 0x1_0000 % 0x100) as u8,
            (ral / 0x100_0000) as u8,
            (rah % 0x100) as u8,
            (rah / 0x100 % 0x100) as u8,
        ];
        assert(mac@ =~= mac_in_registers(ral, rah)->0);
        Some(mac)
    } else {
        None
    }
}

/// The address out of three words of the EEPROM, low bytes first.
pub fn mac_from_eeprom(w0: u16, w1: u16, w2: u16) -> (r: [u8; 6])
    ensures
        r@ == seq![
            (w0 % 0x100) as u8,
            (w0 / 0x100) as u8,
            (w1 % 0x100) as u8,
            (w1 / 0x100) as u8,
            (w2 % 0x100) as u8,
            (w2 / 0x100) as u8,
        ],
{
    let mac: [u8; 6] = [
        (w0 % 0x100) as u8,
        (w0 / 0x100) as u8,
        (w1 % 0x100) as u8,
        (w1 / 0x100) as u8,
        (w2 % 0x100) as u8,
        (w2 / 0x100) as u8,
    ];
    assert(mac@ =~= seq![
        (w0 % 0x100) as u8,
        (w0 / 0x100) as u8,
        (w1 % 0x100) as u8,
        (w1 / 0x100) as u8,
        (w2 % 0x100) as u8,
        (w2 / 0x100) as u8,
    ]);
    mac
}

/// The register values for an address.
pub fn mac_registers(mac: &[u8; 6]) -> (r: (u32, u32))
    ensures
        (r.0 as int, r.1 as int) == registers_of(mac@),
{
    (
        mac[0] as u32 + mac[1] as u32 * 0x100 + mac[2] as u32 * 0x1_0000 + mac[3] as u32 * 0x100_0000,
        mac[4] as u32 + mac[5] as u32 * 0x100 + 0x8000_0000,
    )
}

/// What is read from registers that an address was written to is that address, where
/// its first four bytes are not all zero.
pub proof fn law_mac_round_trip(mac: Seq<u8>)
    requires
        mac.len() == 6,
        mac[0] != 0 || mac[1] != 0 || mac[2] != 0 || mac[3] != 0,
    ensures
        mac_in_registers(registers_of(mac).0 as u32, registers_of(mac).1 as u32) == Some(mac),
{
    let (l, h) = registers_of(mac);
    lemma_four_bytes(mac[0] as int, mac[1] as int, mac[2] as int, mac[3] as int);
    lemma_four_bytes(mac[4] as int, mac[5] as int, 0, 0x80);
    let found = mac_in_registers(l as u32, h as u32);
    assert(l != 0 && h != 0);
    assert(found is Some);
    assert(found->0.len() == 6);
    assert(found->0 =~= mac);
}

proof fn lemma_four_bytes(a: int, b: int, c: int, d: int)
    requires
        0 <= a < 0x100,
        0 <= b < 0x100,
        0 <= c < 0x100,
        0 <= d < 0x100,
    ensures
        ({
            let n = a + b * 0x100 + c * 0x1_0000 + d * 0x100_0000;
            &&& 0 <= n <= u32::MAX
            &&& n % 0x100 == a
            &&& n / 0x100 % 0x100 == b
            &&& n / 0x1_0000 % 0x100 == c
            &&& n / 0x100_0000 == d
        }),
{
    let n = a + b * 0x100 + c * 0x1_0000 + d * 0x100_0000;
    assert(n / 0x100 == b + c * 0x100 + d * 0x1_0000);
    assert(n / 0x1_0000 == c + d * 0x100);
}

/// The command that makes the EEPROM read a word.
pub fn eeprom_command(addr: u8) -> (r: u32)
    ensures
        r == addr * 0x100 + 1,
{
    addr as u32 * 0x100 + 1
}

/// The word that the EEPROM has read, where it is done.
pub fn eeprom_word(val: u32) -> (r: Option<u16>)
    ensures
        r == if val / 16 % 2 == 1 {
            Some((val / 0x1_0000) as u16)
        } else {
            None
        },
{
    if val / 16 % 2 == 1 {
        Some((val / 0x1_0000) as u16)
    } else {
        None
    }
}

impl E1000 {
    /// The rings have their sizes, and the positions lie in them.
    pub open spec fn wf(&self) -> bool {
        &&& self.rx_descs@.len() == NUM_RX_DESC
        &&& self.rx_buffers@.len() == NUM_RX_DESC
        &&& buffers_ok(self.rx_buffers@)
        &&& self.rx_cur < NUM_RX_DESC
        &&& self.tx_descs@.len() == NUM_TX_DESC
        &&& self.tx_buffers@.len() == NUM_TX_DESC
        &&& buffers_ok(self.tx_buffers@)
        &&& self.tx_cur < NUM_TX_DESC
    }

    /// A driver for a device: its registers are where the first base address register
    /// says, without its four low bits, in the direct map.
    pub fn new(pci: &PciDevice, hhdm_offset: u64) -> (r: Self)
        requires
            pci.bar0 - pci.bar0 % 16 + hhdm_offset <= u64::MAX,
        ensures
            r.wf(),
            r.mmio_base == pci.bar0 - pci.bar0 % 16 + hhdm_offset,
            r.mac@ == seq![0u8, 0u8, 0u8, 0u8, 0u8, 0u8],
            r.rx_cur == 0,
            r.tx_cur == 0,
            forall|i: int|
                0 <= i < NUM_RX_DESC ==> #[trigger] r.rx_descs@[i] == (RxDesc { addr: 0, length: 0, status: 0 }),
            forall|i: int|
                0 <= i < NUM_TX_DESC ==> #[trigger] r.tx_descs@[i] == (TxDesc {
                    addr: 0,
                    length: 0,
                    cmd: 0,
                    status: DESC_DD,
                }),
            buffers_empty(r.rx_buffers@),
            buffers_empty(r.tx_buffers@),
    {
        let mut rx: Vec<RxDesc> = Vec::new();
        let mut tx: Vec<TxDesc> = Vec::new();
        let mut i: usize = 0;
        while i < NUM_RX_DESC
            invariant
                i <= NUM_RX_DESC,
                rx@.len() == i,
                tx@.len() == i,
                forall|k: int| 0 <= k < i ==> #[trigger] rx@[k] == (RxDesc { addr: 0, length: 0, status: 0 }),
                forall|k: int|
                    0 <= k < i ==> #[trigger] tx@[k] == (TxDesc { addr: 0, length: 0, cmd: 0, status: DESC_DD }),
            decreases NUM_RX_DESC - i,
        {
            rx.push(RxDesc { addr: 0, length: 0, status: 0 });
            tx.push(TxDesc { addr: 0, length: 0, cmd: 0, status: DESC_DD });
            i += 1;
        }
        let mac: [u8; 6] = [0u8, 0u8, 0u8, 0u8, 0u8, 0u8];
        assert(mac@ =~= seq![0u8, 0u8, 0u8, 0u8, 0u8, 0u8]);
        E1000 {
            mmio_base: (pci.bar0 - pci.bar0 % 16) as u64 + hhdm_offset,
            mac,
            rx_descs: rx,
            rx_buffers: make_buffers(NUM_RX_DESC),
            rx_cur: 0,
            tx_descs: tx,
            tx_buffers: make_buffers(NUM_TX_DESC),
            tx_cur: 0,
        }
    }

    /// The writes that give the device its receive ring, all descriptors but one its
    /// own, and switch the receiver on.
    pub fn rx_program(descs_phys: u64) -> (r: Vec<RegWrite>)
        ensures
            r@ == seq![
                RegWrite::Long(REG_RDBAL, low_half(descs_phys)),
                RegWrite::Long(REG_RDBAH, high_half(descs_phys)),
                RegWrite::Long(REG_RDLEN, 512),
                RegWrite::Long(REG_RDH, 0),
                RegWrite::Long(REG_RDT, 31),
                RegWrite::Long(REG_RCTL, RCTL_VALUE),
            ],
    {
        let mut p: Vec<RegWrite> = Vec::new();
        p.push(RegWrite::Long(REG_RDBAL, low_bits(descs_phys)));
        p.push(RegWrite::Long(REG_RDBAH, high_bits(descs_phys)));
        p.push(RegWrite::Long(REG_RDLEN, (NUM_RX_DESC * 16) as u32));
        p.push(RegWrite::Long(REG_RDH, 0));
        p.push(RegWrite::Long(REG_RDT, (NUM_RX_DESC - 1) as u32));
        p.push(RegWrite::Long(REG_RCTL, RCTL_VALUE));
        assert(p@ =~= seq![
            RegWrite::Long(REG_RDBAL, low_half(descs_phys)),
            RegWrite::Long(REG_RDBAH, high_half(descs_phys)),
            RegWrite::Long(REG_RDLEN, 512),
            RegWrite::Long(REG_RDH, 0),
            RegWrite::Long(REG_RDT, 31),
            RegWrite::Long(REG_RCTL, RCTL_VALUE),
        ]);
        p
    }

    /// The writes that give the device its transmit ring, empty, and switch the
    /// transmitter on.
    pub fn tx_program(descs_phys: u64) -> (r: Vec<RegWrite>)
        ensures
            r@ == seq![
                RegWrite::Long(REG_TDBAL, low_half(descs_phys)),
                RegWrite::Long(REG_TDBAH, high_half(descs_phys)),
                RegWrite::Long(REG_TDLEN, 512),
                RegWrite::Long(REG_TDH, 0),
                RegWrite::Long(REG_TDT, 0),
                RegWrite::Long(REG_TCTL, TCTL_VALUE),
            ],
    {
        let mut p: Vec<RegWrite> = Vec::new();
        p.push(RegWrite::Long(REG_TDBAL, low_bits(descs_phys)));
        p.push(RegWrite::Long(REG_TDBAH, high_bits(descs_phys)));
        p.push(RegWrite::Long(REG_TDLEN, (NUM_TX_DESC * 16) as u32));
        p.push(RegWrite::Long(REG_TDH, 0));
        p.push(RegWrite::Long(REG_TDT, 0));
        p.push(RegWrite::Long(REG_TCTL, TCTL_VALUE));
        assert(p@ =~= seq![
            RegWrite::Long(REG_TDBAL, low_half(descs_phys)),
            RegWrite::Long(REG_TDBAH, high_half(descs_phys)),
            RegWrite::Long(REG_TDLEN, 512),
            RegWrite::Long(REG_TDH, 0),
            RegWrite::Long(REG_TDT, 0),
            RegWrite::Long(REG_TCTL, TCTL_VALUE),
        ]);
        p
    }

    /// Put a frame into the ring, cut to the longest possible one. Returns the new tail,
    /// or none where the ring is full and the frame is dropped.
    pub fn send_frame(&mut self, frame: &[u8]) -> (r: Option<u32>)
        requires
            old(self).wf(),
        ensures
            final(self).wf(),
            ({
                let i = old(self).tx_cur as int;
                let len = if frame@.len() < MAX_FRAME {
                    frame@.len() as int
                } else {
                    MAX_FRAME as int
                };
                if old(self).tx_descs@[i].status & DESC_DD == 0 {
                    r is None && *final(self) == *old(self)
                } else {
                    &&& r == Some(((i + 1) % (NUM_TX_DESC as int)) as u32)
                    &&& final(self).tx_cur == (i + 1) % (NUM_TX_DESC as int)
                    &&& final(self).tx_descs@ == old(self).tx_descs@.update(
                        i,
                        TxDesc {
                            addr: old(self).tx_descs@[i].addr,
                            length: len as u16,
                            cmd: TX_CMD,
                            status: 0,
                        },
                    )
                    &&& views(final(self).tx_buffers@) == views(old(self).tx_buffers@).update(
                        i,
                        overwritten(old(self).tx_buffers@[i]@, frame@.take(len)),
                    )
                }
            }),
            final(self).rx_descs == old(self).rx_descs,
            final(self).rx_buffers == old(self).rx_buffers,
            final(self).rx_cur == old(self).rx_cur,
            final(self).mac == old(self).mac,
            final(self).mmio_base == old(self).mmio_base,
    {
        broadcast use group_views;

        let i = self.tx_cur;
        if self.tx_descs[i].status & DESC_DD == 0 {
            return None;
        }
        let len = if frame.len() < MAX_FRAME {
            frame.len()
        } else {
            MAX_FRAME
        };
        let ghost before = self.tx_buffers@;
        overwrite(&mut self.tx_buffers[i], frame, len);
        assert(views(self.tx_buffers@) =~= views(before).update(
            i as int,
            overwritten(before[i as int]@, frame@.take(len as int)),
        ));
        let addr = self.tx_descs[i].addr;
        self.tx_descs[i] = TxDesc { addr, length: len as u16, cmd: TX_CMD, status: 0 };
        self.tx_cur = (i + 1) % NUM_TX_DESC;
        Some(self.tx_cur as u32)
    }

    /// Take the next frame out of the ring, cut to `room` bytes. Returns it and the new
    /// tail, or none where the device has filled nothing.
    pub fn recv_frame(&mut self, room: usize) -> (r: Option<(Vec<u8>, u32)>)
        requires
            old(self).wf(),
            old(self).rx_descs@[old(self).rx_cur as int].status & DESC_DD == 0 || old(self).rx_descs@[old(self).rx_cur as int].length
                <= BUF_SIZE || room <= BUF_SIZE,
        ensures
            final(self).wf(),
            ({
                let i = old(self).rx_cur as int;
                let d = old(self).rx_descs@[i];
                let n = if d.length < room {
                    d.length as int
                } else {
                    room as int
                };
                if d.status & DESC_DD == 0 {
                    r is None && *final(self) == *old(self)
                } else {
                    &&& r matches Some((data, tail))
                    &&& data@ == old(self).rx_buffers@[i]@.take(n)
                    &&& tail == i
                    &&& final(self).rx_cur == (i + 1) % (NUM_RX_DESC as int)
                    &&& final(self).rx_descs@ == old(self).rx_descs@.update(i, RxDesc { status: 0, ..d })
                }
            }),
            final(self).rx_buffers == old(self).rx_buffers,
            final(self).tx_descs == old(self).tx_descs,
            final(self).tx_buffers == old(self).tx_buffers,
            final(self).tx_cur == old(self).tx_cur,
            final(self).mac == old(self).mac,
            final(self).mmio_base == old(self).mmio_base,
    {
        let i = self.rx_cur;
        let d = self.rx_descs[i];
        if d.status & DESC_DD == 0 {
            return None;
        }
        let len = d.length as usize;
        let n = if len < room {
            len
        } else {
            room
        };
        assert(self.rx_buffers@[i as int]@.len() == BUF_SIZE);
        let data = vstd::slice::slice_to_vec(vstd::slice::slice_subrange(self.rx_buffers[i].as_slice(), 0, n));
        assert(data@ =~= self.rx_buffers@[i as int]@.take(n as int));
        self.rx_descs[i] = RxDesc { addr: d.addr, length: d.length, status: 0 };
        self.rx_cur = (i + 1) % NUM_RX_DESC;
        Some((data, i as u32))
    }

    pub fn mac_address(&self) -> (r: [u8; 6])
        ensures
            r == self.mac,
    {
        self.mac
    }
}

} // verus!

//! Realtek RTL8139: ring arithmetic and register programs.

use vstd::prelude::*;

use crate::network::pci::PciDevice;
use crate::network::registers::{overwrite, overwritten, zeros, RegWrite};
use crate::views::{group_views, views};

verus! {

/// Bytes of the receive ring.
pub const RX_BUF_SIZE: usize = 9708;

/// Bytes of a transmit buffer.
pub const TX_BUF_SIZE: usize = 1536;

/// The longest frame, with its checksum, behind a ring header.
pub const MAX_LENGTH: usize = 1522;

pub const REG_MAC: u16 = 0x00;

pub const REG_TSD0: u16 = 0x10;

pub const REG_TSAD0: u16 = 0x20;

pub const REG_RBSTART: u16 = 0x30;

pub const REG_CMD: u16 = 0x37;

pub const REG_CAPR: u16 = 0x38;

pub const REG_IMR: u16 = 0x3C;

pub const REG_ISR: u16 = 0x3E;

pub const REG_RCR: u16 = 0x44;

pub const REG_CONFIG1: u16 = 0x52;

/// Command bits: reset, receiver on, transmitter on, ring empty.
pub const CMD_RST: u8 = 0x10;

pub const CMD_RE: u8 = 0x08;

pub const CMD_TE: u8 = 0x04;

pub const CMD_BUFE: u8 = 0x01;

/// Receiver: physical match, multicast, broadcast, and wrapping.
pub const RCR_ACCEPT: u32 = 0x8E;

/// The driver's state. The ring and the buffers are shared with the device.
pub struct Rtl8139 {
    pub io_base: u16,
    pub mac: [u8; 6],
    pub rx_buffer: Vec<u8>,
    pub rx_offset: usize,
    pub tx_buffers: Vec<Vec<u8>>,
    pub tx_cur: usize,
    /// Offset of the direct map of physical memory.
    pub hhdm_offset: u64,
}

/// What is to be written for a frame that was queued.
#[derive(Debug, Clone, Copy, PartialEq, Eq, Structural)]
pub struct TxSlot {
    /// The buffer that holds the frame.
    pub index: usize,
    /// Bytes of the frame.
    pub len: usize,
    /// Register for the buffer's address.
    pub addr_reg: u16,
    /// Register that starts the transmission, with the length.
    pub status_reg: u16,
}

/// The byte of the ring at a position that may lie behind its end.
pub open spec fn ring_byte(ring: Seq<u8>, i: int) -> u8 {
    ring[i % (RX_BUF_SIZE as int)]
}

/// The 16-bit number in the ring at a position.
pub open spec fn ring_u16(ring: Seq<u8>, i: int) -> int {
    ring_byte(ring, i) + ring_byte(ring, i + 1) * 0x100
}

/// The packet at an offset is good: its status says so, and its length is possible.
pub open spec fn packet_ok(ring: Seq<u8>, offset: int) -> bool {
    ring_u16(ring, offset) % 2 == 1 && 4 <= ring_u16(ring, offset + 2) <= MAX_LENGTH
}

/// The offset behind a packet: header, frame and checksum, rounded up to four bytes.
pub open spec fn offset_behind(offset: int, length: int) -> int {
    (offset + length + 7) - (offset + length + 7) % 4
}

impl Rtl8139 {
    /// The state of ring and buffers.
    pub open spec fn wf(&self) -> bool {
        &&& self.rx_buffer@.len() == RX_BUF_SIZE
        &&& self.tx_buffers@.len() == 4
        &&& forall|i: int| 0 <= i < 4 ==> (#[trigger] self.tx_buffers@[i])@.len() == TX_BUF_SIZE
        &&& self.tx_cur < 4
        &&& self.rx_offset <= 0x1_0000
    }

    /// A driver for a device: its ports are where the first base address register says,
    /// without the two bits that tell the kind of the address.
    pub fn new(pci: &PciDevice, hhdm_offset: u64) -> (r: Self)
        ensures
            r.wf(),
            r.io_base == (pci.bar0 - pci.bar0 % 4) % 0x1_0000,
            r.mac@ == seq![0u8, 0u8, 0u8, 0u8, 0u8, 0u8],
            r.rx_offset == 0,
            r.tx_cur == 0,
            r.hhdm_offset == hhdm_offset,
            r.rx_buffer@ == Seq::new(RX_BUF_SIZE as nat, |i: int| 0u8),
            forall|i: int|
                0 <= i < 4 ==> (#[trigger] r.tx_buffers@[i])@ == Seq::new(TX_BUF_SIZE as nat, |k: int| 0u8),
    {
        let mut tx: Vec<Vec<u8>> = Vec::new();
        tx.push(zeros(TX_BUF_SIZE));
        tx.push(zeros(TX_BUF_SIZE));
        tx.push(zeros(TX_BUF_SIZE));
        tx.push(zeros(TX_BUF_SIZE));
        let mac: [u8; 6] = [0u8, 0u8, 0u8, 0u8, 0u8, 0u8];
        assert(mac@ =~= seq![0u8, 0u8, 0u8, 0u8, 0u8, 0u8]);
        Rtl8139 {
            io_base: ((pci.bar0 - pci.bar0 % 4) % 0x1_0000) as u16,
            mac,
            rx_buffer: zeros(RX_BUF_SIZE),
            rx_offset: 0,
            tx_buffers: tx,
            tx_cur: 0,
            hhdm_offset,
        }
    }

    /// The address that the device uses for memory at a virtual address: it knows 32
    /// bits.
    pub fn virt_to_phys(&self, virt: u64) -> (r: u32)
        requires
            virt >= self.hhdm_offset,
        ensures
            r == (virt - self.hhdm_offset) % 0x1_0000_0000,
    {
        ((virt - self.hhdm_offset) % 0x1_0000_0000) as u32
    }

    /// Whether a reset is over: the device clears the bit by itself.
    pub fn reset_done(cmd: u8) -> (r: bool)
        ensures
            r == (cmd & CMD_RST == 0),
    {
        cmd & CMD_RST == 0
    }

    /// The writes that power the device on and reset it.
    pub fn reset_program() -> (r: Vec<RegWrite>)
        ensures
            r@ == seq![RegWrite::Byte(REG_CONFIG1, 0), RegWrite::Byte(REG_CMD, CMD_RST)],
    {
        let mut p: Vec<RegWrite> = Vec::new();
        p.push(RegWrite::Byte(REG_CONFIG1, 0));
        p.push(RegWrite::Byte(REG_CMD, CMD_RST));
        assert(p@ =~= seq![RegWrite::Byte(REG_CONFIG1, 0), RegWrite::Byte(REG_CMD, CMD_RST)]);
        p
    }

    /// The writes that set the device up: the ring's address, no interrupts, what is
    /// accepted, receiver and transmitter on.
    pub fn init_program(rx_phys: u32) -> (r: Vec<RegWrite>)
        ensures
            r@ == seq![
                RegWrite::Long(REG_RBSTART, rx_phys),
                RegWrite::Word(REG_IMR, 0),
                RegWrite::Long(REG_RCR, RCR_ACCEPT),
                RegWrite::Byte(REG_CMD, 0x0C),
            ],
    {
        let mut p: Vec<RegWrite> = Vec::new();
        p.push(RegWrite::Long(REG_RBSTART, rx_phys));
        p.push(RegWrite::Word(REG_IMR, 0));
        p.push(RegWrite::Long(REG_RCR, RCR_ACCEPT));
        p.push(RegWrite::Byte(REG_CMD, 0x0C));
        assert(p@ =~= seq![
            RegWrite::Long(REG_RBSTART, rx_phys),
            RegWrite::Word(REG_IMR, 0),
            RegWrite::Long(REG_RCR, RCR_ACCEPT),
            RegWrite::Byte(REG_CMD, 0x0C),
        ]);
        p
    }

    /// Put a frame into the next transmit buffer, cut to its size.
    pub fn send_frame(&mut self, frame: &[u8]) -> (r: TxSlot)
        requires
            old(self).wf(),
        ensures
            final(self).wf(),
            ({
                let i = old(self).tx_cur as int;
                let len = if frame@.len() < TX_BUF_SIZE {
                    frame@.len() as int
                } else {
                    TX_BUF_SIZE as int
                };
                &&& r == TxSlot {
                    index: i as usize,
                    len: len as usize,
                    addr_reg: (REG_TSAD0 + i * 4) as u16,
                    status_reg: (REG_TSD0 + i * 4) as u16,
                }
                &&& views(final(self).tx_buffers@) == views(old(self).tx_buffers@).update(
                    i,
                    overwritten(old(self).tx_buffers@[i]@, frame@.take(len)),
                )
                &&& final(self).tx_cur == (i + 1) % 4
            }),
            final(self).rx_buffer == old(self).rx_buffer,
            final(self).rx_offset == old(self).rx_offset,
            final(self).io_base == old(self).io_base,
            final(self).mac == old(self).mac,
            final(self).hhdm_offset == old(self).hhdm_offset,
    {
        broadcast use group_views;

        let i = self.tx_cur;
        let len = if frame.len() < TX_BUF_SIZE {
            frame.len()
        } else {
            TX_BUF_SIZE
        };
        let ghost before = self.tx_buffers@;
        overwrite(&mut self.tx_buffers[i], frame, len);
        assert(views(self.tx_buffers@) =~= views(before).update(
            i as int,
            overwritten(before[i as int]@, frame@.take(len as int)),
        ));
        self.tx_cur = (i + 1) % 4;
        TxSlot { index: i, len, addr_reg: REG_TSAD0 + i as u16 * 4, status_reg: REG_TSD0 + i as u16 * 4 }
    }

    /// Take the next frame out of the ring, cut to `room` bytes: none where the command
    /// register says that the ring is empty, or where the packet is bad. Returns the
    /// frame and what is to be written to the read pointer, which lags 16 bytes behind.
    pub fn recv_frame(&mut self, cmd: u8, room: usize) -> (r: Option<(Vec<u8>, u16)>)
        requires
            old(self).wf(),
        ensures
            final(self).wf(),
            ({
                let ring = old(self).rx_buffer@;
                let offset = old(self).rx_offset as int % (RX_BUF_SIZE as int);
                let length = ring_u16(ring, offset + 2);
                if cmd & CMD_BUFE != 0 || !packet_ok(ring, offset) {
                    r is None && *final(self) == *old(self)
                } else {
                    let frame_len = length - 4;
                    let n = if frame_len < room {
                        frame_len
                    } else {
                        room as int
                    };
                    let behind = offset_behind(offset, length);
                    &&& r matches Some((data, capr))
                    &&& data@ == Seq::new(n as nat, |i: int| ring_byte(ring, offset + 4 + i))
                    &&& capr == if behind >= 16 {
                        behind - 16
                    } else {
                        behind - 16 + 0x1_0000
                    }
                    &&& *final(self) == Rtl8139 { rx_offset: behind as usize, ..*old(self) }
                }
            }),
    {
        if cmd & CMD_BUFE != 0 {
            return None;
        }
        let offset = self.rx_offset % RX_BUF_SIZE;
        let status = self.rx_buffer[offset] as u16 + self.rx_buffer[(offset + 1) % RX_BUF_SIZE] as u16 * 0x100;
        let length = self.rx_buffer[(offset + 2) % RX_BUF_SIZE] as usize + self.rx_buffer[(offset + 3) % RX_BUF_SIZE] as usize
            * 0x100;
        if status % 2 == 0 || length < 4 || length > MAX_LENGTH {
            return None;
        }
        let frame_len = length - 4;
        let n = if frame_len < room {
            frame_len
        } else {
            room
        };
        let mut data: Vec<u8> = Vec::new();
        let mut i: usize = 0;
        while i < n
            invariant
                i <= n <= MAX_LENGTH,
                offset < RX_BUF_SIZE,
                self.rx_buffer@.len() == RX_BUF_SIZE,
                data@ == Seq::new(i as nat, |k: int| ring_byte(self.rx_buffer@, offset + 4 + k)),
            decreases n - i,
        {
            data.push(self.rx_buffer[(offset + 4 + i) % RX_BUF_SIZE]);
            i += 1;
            assert(data@ =~= Seq::new(i as nat, |k: int| ring_byte(self.rx_buffer@, offset + 4 + k)));
        }
        let end = offset + length + 7;
        self.rx_offset = end - end % 4;
        let capr = (self.rx_offset as u16).wrapping_sub(16);
        Some((data, capr))
    }

    pub fn mac_address(&self) -> (r: [u8; 6])
        ensures
            r == self.mac,
    {
        self.mac
    }
}

} // verus!

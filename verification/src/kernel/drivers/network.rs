//! Network devices as the kernel sees them, and the search for a virtio one.

use vstd::prelude::*;

use crate::network::pci::SlotConfig;

verus! {

/// Errors of a network device.
#[derive(Debug, Clone, Copy, PartialEq, Eq, Structural)]
pub enum NetworkError {
    NoDevice,
    TxFull,
    RxEmpty,
    HardwareError,
}

/// A network device.
pub trait NetworkDevice {
    /// Send a frame.
    fn send_frame(&mut self, frame: &[u8]) -> Result<(), NetworkError>;

    /// Take a frame that has come into `buf`, and return its length.
    fn recv_frame(&mut self, buf: &mut [u8]) -> Result<usize, NetworkError>;

    /// The hardware address.
    fn mac_address(&self) -> [u8; 6];
}

/// A virtio network device that has been found, not yet driven.
pub struct VirtioNetDevice {
    mac: [u8; 6],
}

/// A slot holds a virtio network device.
pub open spec fn holds_virtio(s: SlotConfig) -> bool {
    s.vendor_id == 0x1AF4 && (s.device_id == 0x1000 || s.device_id == 0x1041)
}

/// The address that stands for one that has not been read yet.
pub open spec fn placeholder_mac() -> Seq<u8> {
    seq![0x52u8, 0x54u8, 0x00u8, 0x12u8, 0x34u8, 0x56u8]
}

impl View for VirtioNetDevice {
    type V = Seq<u8>;

    closed spec fn view(&self) -> Seq<u8> {
        self.mac@
    }
}

impl VirtioNetDevice {
    /// Look for the device in what the slots of the bus say.
    pub fn find(slots: &[SlotConfig]) -> (r: Option<Self>)
        ensures
            match r {
                Some(d) => d@ == placeholder_mac() && exists|i: int|
                    0 <= i < slots@.len() && holds_virtio(#[trigger] slots@[i]),
                None => forall|i: int| 0 <= i < slots@.len() ==> !holds_virtio(#[trigger] slots@[i]),
            },
    {
        let mut i: usize = 0;
        while i < slots.len()
            invariant
                i <= slots@.len(),
                forall|j: int| 0 <= j < i ==> !holds_virtio(#[trigger] slots@[j]),
            decreases slots@.len() - i,
        {
            let s = slots[i];
            if s.vendor_id == 0x1AF4 && (s.device_id == 0x1000 || s.device_id == 0x1041) {
                assert(holds_virtio(slots@[i as int]));
                let mac: [u8; 6] = [0x52u8, 0x54u8, 0x00u8, 0x12u8, 0x34u8, 0x56u8];
                assert(mac@ =~= placeholder_mac());
                return Some(VirtioNetDevice { mac });
            }
            i += 1;
        }
        None
    }
}

impl NetworkDevice for VirtioNetDevice {
    /// The device cannot send yet.
    fn send_frame(&mut self, frame: &[u8]) -> (r: Result<(), NetworkError>)
        ensures
            r == Err::<(), NetworkError>(NetworkError::HardwareError),
            *final(self) == *old(self),
    {
        Err(NetworkError::HardwareError)
    }

    /// The device has received nothing.
    fn recv_frame(&mut self, buf: &mut [u8]) -> (r: Result<usize, NetworkError>)
        ensures
            r == Err::<usize, NetworkError>(NetworkError::RxEmpty),
            *final(self) == *old(self),
            final(buf)@ == old(buf)@,
    {
        Err(NetworkError::RxEmpty)
    }

    fn mac_address(&self) -> (r: [u8; 6])
        ensures
            r@ == self@,
    {
        self.mac
    }
}

} // verus!

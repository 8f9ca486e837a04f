//! Bringing the network up: what is reported on the way, and whether it is ready.

use vstd::prelude::*;

use crate::text::{decimal, decimal_text, hex_digit, text};

verus! {

/// Whether the network came up.
pub struct NetworkState {
    pub ready: bool,
}

/// Check if the network is up.
pub fn is_ready(state: &NetworkState) -> (r: bool)
    ensures
        r == state.ready,
{
    state.ready
}

/// The last `width` hexadecimal digits of a number.
pub open spec fn hex(n: nat, width: nat) -> Seq<char>
    decreases width,
{
    if width == 0 {
        Seq::empty()
    } else {
        hex(n / 16, (width - 1) as nat).push(hex_digit(n % 16))
    }
}

/// The last `width` hexadecimal digits of a number.
fn hex_text(n: u16, width: usize) -> (r: String)
    ensures
        r@ == hex(n as nat, width as nat),
    decreases width,
{
    if width == 0 {
        String::new()
    } else {
        let mut s = hex_text(n / 16, width - 1);
        let d = (n % 16) as u8;
        s.push(if d < 10 { (48 + d) as char } else { (55 + d) as char });
        s
    }
}

/// A hardware address: its bytes in hexadecimal, with colons between them.
pub open spec fn mac_chars(mac: Seq<u8>) -> Seq<char>
    decreases mac.len(),
{
    if mac.len() == 0 {
        Seq::empty()
    } else if mac.len() == 1 {
        hex(mac[0] as nat, 2)
    } else {
        mac_chars(mac.drop_last()).push(':') + hex(mac.last() as nat, 2)
    }
}

/// Report the device that was found, or that there is none.
pub fn report_device(found: Option<(u16, u8)>) -> (r: Result<String, &'static str>)
    ensures
        match found {
            Some((io_base, slot)) => r is Ok && r->Ok_0@ == "[Network] virtio-net found at PCI 0:"@ + decimal(
                slot as nat,
            ) + ".0, I/O base 0x"@ + hex(io_base as nat, 4),
            None => r is Err && r->Err_0@ == "No virtio-net device found"@,
        },
{
    match found {
        Some((io_base, slot)) => {
            let mut s = text("[Network] virtio-net found at PCI 0:");
            s.push_str(decimal_text(slot as u64).as_str());
            s.push_str(".0, I/O base 0x");
            s.push_str(hex_text(io_base, 4).as_str());
            Ok(s)
        },
        None => Err("No virtio-net device found"),
    }
}

/// Report the hardware address.
pub fn report_mac(mac: &[u8; 6]) -> (r: String)
    ensures
        r@ == "[Network] MAC: "@ + mac_chars(mac@),
{
    let mut s = text("[Network] MAC: ");
    let ghost head = s@;
    let mut i: usize = 0;
    assert(mac@.take(0) =~= Seq::empty());
    assert(s@ =~= head + mac_chars(mac@.take(0)));
    while i < 6
        invariant
            i <= 6,
            mac@.len() == 6,
            s@ == head + mac_chars(mac@.take(i as int)),
        decreases 6 - i,
    {
        if i > 0 {
            s.push(':');
        }
        s.push_str(hex_text(mac[i] as u16, 2).as_str());
        proof {
            let next = mac@.take(i + 1);
            assert(next.drop_last() =~= mac@.take(i as int));
            assert(next.last() == mac@[i as int]);
            assert(s@ =~= head + mac_chars(next));
        }
        i += 1;
    }
    assert(mac@.take(6) =~= mac@);
    s
}

impl NetworkState {
    /// Nothing is up yet.
    pub fn new() -> (r: Self)
        ensures
            !r.ready,
    {
        NetworkState { ready: false }
    }

    /// Take in how the address was acquired: the texts of the address, the gateway and
    /// the name server, or an error. Only with an address is the network up.
    pub fn finish(&mut self, lease: Result<(&str, &str, &str), &'static str>) -> (r: Result<String, &'static str>)
        ensures
            match lease {
                Ok((ip, gateway, dns)) => final(self).ready && r is Ok && r->Ok_0@ == "[Network] DHCP complete: IP="@
                    + ip@ + ", GW="@ + gateway@ + ", DNS="@ + dns@,
                Err(e) => final(self).ready == old(self).ready && r is Err && r->Err_0@ == e@,
            },
    {
        match lease {
            Ok((ip, gateway, dns)) => {
                let mut s = text("[Network] DHCP complete: IP=");
                s.push_str(ip);
                s.push_str(", GW=");
                s.push_str(gateway);
                s.push_str(", DNS=");
                s.push_str(dns);
                self.ready = true;
                Ok(s)
            },
            Err(e) => Err(e),
        }
    }
}

} // verus!

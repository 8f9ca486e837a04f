//! What holds of the numbers that drivers and devices exchange.

use vstd::prelude::*;

use crate::network::pci::{is_e1000, is_high_half, kind_of, NicKind};
use crate::network::registers::{high_half, low_half, overwritten};
use crate::network::rng::byte_of;
use crate::network::rtl8139::{offset_behind, packet_ok, ring_byte, ring_u16, RX_BUF_SIZE};
use crate::network::startup::{hex, mac_chars};
use crate::text::digits_value;

verus! {

/// The two halves of an address make the address.
pub proof fn law_halves_make_the_address(addr: u64)
    ensures
        high_half(addr) * 0x1_0000_0000 + low_half(addr) == addr,
{
}

/// Bytes at the front of a buffer replace what stood there, and nothing behind.
pub proof fn law_front_is_overwritten(buffer: Seq<u8>, front: Seq<u8>, i: int)
    requires
        front.len() <= buffer.len(),
        0 <= i < buffer.len(),
    ensures
        overwritten(buffer, front).len() == buffer.len(),
        i < front.len() ==> overwritten(buffer, front)[i] == front[i],
        i >= front.len() ==> overwritten(buffer, front)[i] == buffer[i],
{
}

/// A number is its eight bytes, the lowest first.
pub proof fn law_word_is_its_bytes(val: u64)
    ensures
        val == byte_of(val, 0) + 0x100 * byte_of(val, 1) + 0x1_0000 * byte_of(val, 2) + 0x100_0000 * byte_of(val, 3)
            + 0x1_0000_0000 * byte_of(val, 4) + 0x100_0000_0000 * byte_of(val, 5) + 0x1_0000_0000_0000 * byte_of(val, 6)
            + 0x100_0000_0000_0000 * byte_of(val, 7),
{
    reveal_with_fuel(byte_of, 9);
}

/// A vendor's cards belong to one family, and only three vendors' cards are driven.
pub proof fn law_vendors(vendor: u16, device: u16)
    ensures
        kind_of(vendor, device) == Some(NicKind::VirtioNet) <==> vendor == 0x1AF4 && (device == 0x1000 || device
            == 0x1041),
        kind_of(vendor, device) == Some(NicKind::IntelE1000) <==> vendor == 0x8086 && is_e1000(device),
        kind_of(vendor, device) == Some(NicKind::RealtekRtl8139) <==> vendor == 0x10EC && device == 0x8139,
{
}

/// Of a register, the upper half is read at every other even offset.
pub proof fn law_register_halves(off: u8)
    ensures
        is_high_half(off) <==> off % 4 >= 2,
{
}

/// The ring has no end: a position behind it is one at its front.
pub proof fn law_ring_wraps(ring: Seq<u8>, i: int)
    requires
        0 <= i < 9708,
    ensures
        ring_byte(ring, i) == ring[i],
        ring_byte(ring, i + 9708) == ring[i],
{
}

/// A packet is good where the lowest bit of its status is set and its length is between
/// four bytes and the largest frame; both numbers stand with their low byte first.
pub proof fn law_packet_header(ring: Seq<u8>, offset: int, status: u16, length: u16)
    requires
        0 <= offset,
        ring_byte(ring, offset) as int == status as int % 256,
        ring_byte(ring, offset + 1) as int == status as int / 256,
        ring_byte(ring, offset + 2) as int == length as int % 256,
        ring_byte(ring, offset + 3) as int == length as int / 256,
    ensures
        ring_u16(ring, offset) == status,
        ring_u16(ring, offset + 2) == length,
        packet_ok(ring, offset) <==> status % 2 == 1 && 4 <= length <= 1522,
{
}

/// The next packet stands at the first multiple of four behind this one's header and frame.
pub proof fn law_next_packet(offset: int, length: int)
    requires
        0 <= offset,
        0 <= length,
    ensures
        offset_behind(offset, length) % 4 == 0,
        offset + 4 + length <= offset_behind(offset, length) < offset + 4 + length + 4,
{
}

proof fn lemma_hex_value(n: nat, width: nat)
    requires
        width <= 4,
        width == 0 ==> n < 1,
        width == 1 ==> n < 16,
        width == 2 ==> n < 0x100,
        width == 3 ==> n < 0x1000,
        width == 4 ==> n < 0x1_0000,
    ensures
        hex(n, width).len() == width,
        digits_value(hex(n, width), true) == Some(n),
    decreases width,
{
    if width > 0 {
        lemma_hex_value(n / 16, (width - 1) as nat);
        let s = hex(n, width);
        assert(s.drop_last() =~= hex(n / 16, (width - 1) as nat));
        assert(crate::text::digit_value(s.last(), true) == Some(n % 16));
    }
}

/// A number of 16 bits is shown in four hexadecimal digits, a byte in two.
pub proof fn law_hexadecimal(n: u16, b: u8)
    ensures
        hex(n as nat, 4).len() == 4,
        digits_value(hex(n as nat, 4), true) == Some(n as nat),
        hex(b as nat, 2).len() == 2,
        digits_value(hex(b as nat, 2), true) == Some(b as nat),
{
    lemma_hex_value(n as nat, 4);
    lemma_hex_value(b as nat, 2);
}

/// Two digits behind a text and a colon.
proof fn lemma_two_more(a: Seq<char>, h: Seq<char>, from: int)
    requires
        h.len() == 2,
        0 <= from,
        from + 2 <= a.len(),
    ensures
        (a.push(':') + h).len() == a.len() + 3,
        (a.push(':') + h).subrange(from, from + 2) == a.subrange(from, from + 2),
        (a.push(':') + h).subrange(a.len() as int + 1, a.len() as int + 3) == h,
        (a.push(':') + h)[a.len() as int] == ':',
        forall|k: int| 0 <= k < a.len() ==> #[trigger] (a.push(':') + h)[k] == a[k],
{
    assert((a.push(':') + h).subrange(from, from + 2) =~= a.subrange(from, from + 2));
    assert((a.push(':') + h).subrange(a.len() as int + 1, a.len() as int + 3) =~= h);
}

proof fn lemma_address_length(mac: Seq<u8>)
    requires
        mac.len() > 0,
    ensures
        mac_chars(mac).len() == 3 * mac.len() - 1,
    decreases mac.len(),
{
    lemma_hex_value(mac.last() as nat, 2);
    if mac.len() > 1 {
        lemma_address_length(mac.drop_last());
    }
}

/// A hardware address is shown byte by byte, in two hexadecimal digits each, with colons
/// between them.
pub proof fn law_address_is_shown(mac: Seq<u8>, i: int)
    requires
        0 <= i < mac.len(),
    ensures
        mac_chars(mac).len() == 3 * mac.len() - 1,
        mac_chars(mac).subrange(3 * i, 3 * i + 2) == hex(mac[i] as nat, 2),
        i + 1 < mac.len() ==> mac_chars(mac)[3 * i + 2] == ':',
    decreases mac.len(),
{
    let n = mac.len() as int;
    let h = hex(mac.last() as nat, 2);
    lemma_address_length(mac);
    lemma_hex_value(mac.last() as nat, 2);
    if n == 1 {
        assert(h.subrange(0, 2) =~= h);
    } else {
        let before = mac.drop_last();
        let a = mac_chars(before);
        lemma_address_length(before);
        if i < n - 1 {
            law_address_is_shown(before, i);
            lemma_two_more(a, h, 3 * i);
            assert(before[i] == mac[i]);
        } else {
            lemma_two_more(a, h, 0);
        }
    }
}

} // verus!

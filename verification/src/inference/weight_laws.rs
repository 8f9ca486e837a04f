//! What holds of weights that are read from a tensor's bytes.

use vstd::prelude::*;

use crate::inference::file_laws::{law_numbers_are_read, little, stands_at};
use crate::inference::gguf::{extent_product, u16_at, u32_at, GgmlType, TensorView};
use crate::inference::score::{top_bit, two_to};
use crate::inference::tensor::{half_at, half_exponent, half_fraction, single_at, single_of_half, weights_of, Weight};

verus! {

/// Single-precision weights are the numbers that were written, in order.
pub proof fn law_single_weights(d: Seq<u8>, bits: Seq<u32>)
    requires
        d.len() == 4 * bits.len(),
        forall|i: int| 0 <= i < bits.len() ==> stands_at(d, 4 * i, little(#[trigger] bits[i] as nat, 4)),
    ensures
        weights_of(d, GgmlType::F32, bits.len() as int) == bits.map_values(|b: u32| Weight::Exact(b)),
{
    let w = weights_of(d, GgmlType::F32, bits.len() as int);
    let want = bits.map_values(|b: u32| Weight::Exact(b));
    assert(w.len() == want.len());
    assert forall|i: int| 0 <= i < w.len() implies w[i] == want[i] by {
        assert(stands_at(d, 4 * i, little(bits[i] as nat, 4)));
        law_numbers_are_read(d, 4 * i, bits[i] as nat);
        assert(single_at(d, i * 4) == u32_at(d, 4 * i)->0);
    }
    assert(w =~= want);
}

/// Half-precision weights are the numbers that were written, in order.
pub proof fn law_half_weights(d: Seq<u8>, bits: Seq<u16>)
    requires
        d.len() == 2 * bits.len(),
        forall|i: int| 0 <= i < bits.len() ==> stands_at(d, 2 * i, little(#[trigger] bits[i] as nat, 2)),
    ensures
        weights_of(d, GgmlType::F16, bits.len() as int) == bits.map_values(
            |b: u16| Weight::Exact(single_of_half(b) as u32),
        ),
{
    let w = weights_of(d, GgmlType::F16, bits.len() as int);
    let want = bits.map_values(|b: u16| Weight::Exact(single_of_half(b) as u32));
    assert(w.len() == want.len());
    assert forall|i: int| 0 <= i < w.len() implies w[i] == want[i] by {
        assert(stands_at(d, 2 * i, little(bits[i] as nat, 2)));
        law_numbers_are_read(d, 2 * i, bits[i] as nat);
        assert(half_at(d, i * 2) == u16_at(d, 2 * i)->0);
    }
    assert(w =~= want);
}

/// A block of quantized weights: a scale for all of them, and their integers.
pub struct Block {
    /// Half-precision bits.
    pub scale: u16,
    pub quants: Seq<int>,
}

/// The bytes of a block of 8-bit weights: the scale, and a signed byte for each weight.
pub open spec fn byte_block(b: Block) -> Seq<u8> {
    little(b.scale as nat, 2) + Seq::new(
        32,
        |i: int|
            if b.quants[i] < 0 {
                (b.quants[i] + 256) as u8
            } else {
                b.quants[i] as u8
            },
    )
}

/// The bytes of a block of 4-bit weights: the scale, and two weights in each byte, the
/// first one in its low half, each raised by eight.
pub open spec fn nibble_block(b: Block) -> Seq<u8> {
    little(b.scale as nat, 2) + Seq::new(16, |i: int| ((b.quants[2 * i] + 8) + 16 * (b.quants[2 * i + 1] + 8)) as u8)
}

proof fn lemma_scale(d: Seq<u8>, p: int, scale: u16, rest: Seq<u8>)
    requires
        stands_at(d, p, little(scale as nat, 2) + rest),
    ensures
        half_at(d, p) == scale,
        stands_at(d, p + 2, rest),
{
    let s = little(scale as nat, 2);
    let all = s + rest;
    reveal_with_fuel(little, 3);
    assert(s.len() == 2);
    assert forall|i: int| 0 <= i < s.len() implies d[p + i] == #[trigger] s[i] by {
        assert(all[i] == s[i]);
    }
    assert forall|i: int| 0 <= i < rest.len() implies d[p + 2 + i] == #[trigger] rest[i] by {
        assert(all[2 + i] == rest[i]);
        assert(d[p + (2 + i)] == all[2 + i]);
    }
    law_numbers_are_read(d, p, scale as nat);
    assert(half_at(d, p) == u16_at(d, p)->0);
}

/// Of 8-bit blocks, each weight is its integer and the scale of its block.
pub proof fn law_byte_blocks(d: Seq<u8>, blocks: Seq<Block>, i: int)
    requires
        d.len() == 34 * blocks.len(),
        forall|k: int| 0 <= k < blocks.len() ==> stands_at(d, 34 * k, byte_block(#[trigger] blocks[k])),
        forall|k: int, j: int|
            0 <= k < blocks.len() && 0 <= j < 32 ==> -128 <= #[trigger] blocks[k].quants[j] < 128,
        0 <= i < 32 * blocks.len(),
    ensures
        weights_of(d, GgmlType::Q8_0, 32 * blocks.len() as int).len() == 32 * blocks.len(),
        weights_of(d, GgmlType::Q8_0, 32 * blocks.len() as int)[i] == (Weight::Scaled {
            quant: blocks[i / 32].quants[i % 32] as i8,
            scale: single_of_half(blocks[i / 32].scale) as u32,
        }),
{
    let k = i / 32;
    let j = i % 32;
    let b = blocks[k];
    assert(stands_at(d, 34 * k, byte_block(b)));
    let rest = Seq::new(
        32,
        |i: int|
            if b.quants[i] < 0 {
                (b.quants[i] + 256) as u8
            } else {
                b.quants[i] as u8
            },
    );
    lemma_scale(d, 34 * k, b.scale, rest);
    assert(d[34 * k + 2 + j] == rest[j]);
    let q = blocks[k].quants[j];
    assert(-128 <= q < 128);
    let raw = rest[j];
    assert(raw as i8 == if raw < 0x80 { raw as int } else { raw - 0x100 }) by (bit_vector);
    assert(i / 32 * 34 == 34 * k);
    assert(raw as i8 == q as i8);
}

/// Of 4-bit blocks, each weight is its integer and the scale of its block.
pub proof fn law_nibble_blocks(d: Seq<u8>, blocks: Seq<Block>, i: int)
    requires
        d.len() == 18 * blocks.len(),
        forall|k: int| 0 <= k < blocks.len() ==> stands_at(d, 18 * k, nibble_block(#[trigger] blocks[k])),
        forall|k: int, j: int| 0 <= k < blocks.len() && 0 <= j < 32 ==> -8 <= #[trigger] blocks[k].quants[j] < 8,
        0 <= i < 32 * blocks.len(),
    ensures
        weights_of(d, GgmlType::Q4_0, 32 * blocks.len() as int).len() == 32 * blocks.len(),
        weights_of(d, GgmlType::Q4_0, 32 * blocks.len() as int)[i] == (Weight::Scaled {
            quant: blocks[i / 32].quants[i % 32] as i8,
            scale: single_of_half(blocks[i / 32].scale) as u32,
        }),
{
    let k = i / 32;
    let j = i % 32;
    let h = j / 2;
    let b = blocks[k];
    assert(stands_at(d, 18 * k, nibble_block(b)));
    let rest = Seq::new(16, |i: int| ((b.quants[2 * i] + 8) + 16 * (b.quants[2 * i + 1] + 8)) as u8);
    lemma_scale(d, 18 * k, b.scale, rest);
    assert(d[18 * k + 2 + h] == rest[h]);
    let lo = blocks[k].quants[2 * h] + 8;
    let hi = blocks[k].quants[2 * h + 1] + 8;
    assert(0 <= lo < 16 && 0 <= hi < 16);
    assert(rest[h] == lo + 16 * hi);
    assert(i % 32 / 2 == h);
    assert(i / 32 * 18 == 18 * k);
    assert(i % 2 == j % 2);
    assert(rest[h] as int % 16 == lo);
    assert(rest[h] as int / 16 == hi);
}

/// The size of a tensor is the product of its extents, and its bytes are those of its
/// elements: four or two for a number, and 34 or 18 for each block of 32.
pub proof fn law_tensor_size(t: TensorView, a: u64, b: u64)
    requires
        t.n_dims == 2,
        t.dims.len() == 4,
        t.dims[0] == a,
        t.dims[1] == b,
    ensures
        t.elements() == a * b,
        t.dtype == GgmlType::F32 ==> t.bytes() == 4 * (a * b),
        t.dtype == GgmlType::F16 ==> t.bytes() == 2 * (a * b),
        t.dtype == GgmlType::Q8_0 && (a * b) % 32 == 0 ==> t.bytes() == (a * b) / 32 * 34,
        t.dtype == GgmlType::Q4_0 && (a * b) % 32 == 0 ==> t.bytes() == (a * b) / 32 * 18,
{
    reveal_with_fuel(extent_product, 3);
    assert(1 * a == a);
    let n = a * b;
    assert(t.elements() == n);
    if n % 32 == 0 {
        assert((n + 31) / 32 == n / 32);
    }
}

// ---------------------------------------------------------------------------
// Half-precision numbers
// ---------------------------------------------------------------------------

/// A half-precision number's magnitude in units of its smallest step, two to the power of
/// minus 24.
pub open spec fn half_steps(bits: u16) -> nat {
    if half_exponent(bits) == 0 {
        half_fraction(bits) as nat
    } else {
        ((0x400 + half_fraction(bits)) * two_to((half_exponent(bits) - 1) as nat)) as nat
    }
}

/// A single-precision number's magnitude in units of two to the power of minus 47, for
/// exponents that are large enough.
pub open spec fn single_steps(bits: int) -> int {
    let m = bits % 0x8000_0000;
    (0x80_0000 + m % 0x80_0000) * two_to((m / 0x80_0000 - 103) as nat)
}

proof fn lemma_power_sum(a: nat, b: nat)
    ensures
        two_to(a + b) == two_to(a) * two_to(b),
    decreases b,
{
    if b > 0 {
        lemma_power_sum(a, (b - 1) as nat);
        let x = two_to(a) as int;
        let y = two_to((b - 1) as nat) as int;
        assert(x * (2 * y) == 2 * (x * y)) by (nonlinear_arith);
        assert((a + b - 1) as nat == a + (b - 1) as nat);
    } else {
        assert(two_to(a) * 1 == two_to(a));
    }
}

proof fn lemma_top(i: nat)
    requires
        i >= 1,
    ensures
        two_to(top_bit(i)) <= i < 2 * two_to(top_bit(i)),
    decreases i,
{
    if i >= 2 {
        lemma_top(i / 2);
    }
}

proof fn lemma_power_positive(n: nat)
    ensures
        two_to(n) >= 1,
    decreases n,
{
    if n > 0 {
        lemma_power_positive((n - 1) as nat);
    }
}

/// Converting a half-precision number to single precision keeps its sign and its value:
/// zeros stay zeros, infinities stay infinities, and what is no number stays none.
pub proof fn law_half_keeps_its_value(bits: u16)
    ensures
        0 <= single_of_half(bits) <= u32::MAX,
        single_of_half(bits) >= 0x8000_0000 <==> bits >= 0x8000,
        bits % 0x8000 == 0 ==> single_of_half(bits) % 0x8000_0000 == 0,
        bits % 0x8000 == 0x7c00 ==> single_of_half(bits) % 0x8000_0000 == 0x7f80_0000,
        bits % 0x8000 > 0x7c00 ==> single_of_half(bits) % 0x8000_0000 > 0x7f80_0000,
        0 < bits % 0x8000 < 0x7c00 ==> {
            &&& 0 < single_of_half(bits) % 0x8000_0000 < 0x7f80_0000
            &&& single_steps(single_of_half(bits)) == half_steps(bits) * 0x80_0000
        },
{
    let f = half_fraction(bits);
    let e = half_exponent(bits);
    let m = bits as int % 0x8000;
    assert(m == e * 0x400 + f) by {
        assert(bits as int % 0x8000 == bits as int / 0x400 % 0x20 * 0x400 + bits as int % 0x400);
    }
    assert(two_to(23) == 0x80_0000) by {
        reveal_with_fuel(two_to, 24);
    }
    if e == 0 && f > 0 {
        let t = top_bit(f as nat);
        assert(t <= 9) by {
            reveal_with_fuel(top_bit, 11);
        }
        lemma_top(f as nat);
        lemma_power_sum(t, (23 - t) as nat);
        lemma_power_positive((23 - t) as nat);
        let p = two_to(t) as int;
        let q = two_to((23 - t) as nat) as int;
        let x = f * q;
        assert(p * q <= x < 2 * (p * q)) by (nonlinear_arith)
            requires
                p <= f < 2 * p,
                q >= 1,
                x == f * q,
        ;
        let r = (102 + t) * 0x80_0000 + x;
        assert(0x80_0000 <= x < 0x100_0000);
        assert(r == (103 + t) * 0x80_0000 + (x - 0x80_0000));
        assert(r / 0x80_0000 == 103 + t && r % 0x80_0000 == x - 0x80_0000);
        assert(single_of_half(bits) % 0x8000_0000 == r);
        assert(single_steps(single_of_half(bits)) == x * two_to(t));
        assert(x * p == f * (p * q)) by (nonlinear_arith)
            requires
                x == f * q,
        ;
    } else if 0 < e < 31 {
        let r = (e + 112) * 0x80_0000 + f * 0x2000;
        assert(r / 0x80_0000 == e + 112 && r % 0x80_0000 == f * 0x2000);
        assert(single_of_half(bits) % 0x8000_0000 == r);
        let n = (e - 1) as nat;
        lemma_power_sum(n, 10);
        assert(two_to(10) == 0x400) by {
            reveal_with_fuel(two_to, 11);
        }
        assert((e + 112 - 103) as nat == n + 10);
        let y = two_to(n) as int;
        assert((0x80_0000 + f * 0x2000) * (y * 0x400) == ((0x400 + f) * y) * 0x80_0000) by (nonlinear_arith);
    }
}

} // verus!

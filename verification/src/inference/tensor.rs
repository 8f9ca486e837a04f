//! Layout of tensor data: where the weights of each type stand and what their bits
//! mean. The arithmetic on floating-point numbers is done elsewhere.

use vstd::prelude::*;

use crate::inference::gguf::GgmlType;
use crate::inference::score::{two_power, two_to, top_bit};

verus! {

/// Bits of a half-precision number's fraction.
pub open spec fn half_fraction(bits: u16) -> int {
    bits as int % 0x400
}

/// Exponent field of a half-precision number.
pub open spec fn half_exponent(bits: u16) -> int {
    bits as int / 0x400 % 0x20
}

/// The sign of a half-precision number, as the sign bit of a single-precision one.
pub open spec fn half_sign(bits: u16) -> int {
    if bits >= 0x8000 {
        0x8000_0000
    } else {
        0
    }
}

/// Bits of the single-precision number with the value of a half-precision one. A
/// normal number keeps its fraction; a subnormal one, `fraction * 2^-24`, becomes
/// normal; infinities stay, and what is no number becomes the quiet one.
pub open spec fn single_of_half(bits: u16) -> int {
    let f = half_fraction(bits);
    let e = half_exponent(bits);
    half_sign(bits) + if e == 31 {
        0x7f80_0000 + if f != 0 {
            0x40_0000int
        } else {
            0
        }
    } else if e > 0 {
        (e + 112) * 0x80_0000 + f * 0x2000
    } else if f == 0 {
        0
    } else {
        (102 + top_bit(f as nat)) * 0x80_0000 + f * two_to((23 - top_bit(f as nat)) as nat)
    }
}

proof fn lemma_small_top_bit(f: nat)
    requires
        1 <= f < 0x400,
    ensures
        top_bit(f) <= 9,
{
    reveal_with_fuel(top_bit, 11);
}

/// Convert half-precision bits to single-precision bits.
pub fn f16_to_f32(bits: u16) -> (r: u32)
    ensures
        r == single_of_half(bits),
{
    let frac = (bits % 0x400) as u32;
    let exp = (bits / 0x400 % 0x20) as u32;
    let sign: u32 = if bits >= 0x8000 {
        0x8000_0000
    } else {
        0
    };
    if exp == 31 {
        sign + 0x7f80_0000 + if frac != 0 {
            0x40_0000
        } else {
            0
        }
    } else if exp > 0 {
        sign + (exp + 112) * 0x80_0000 + frac * 0x2000
    } else if frac == 0 {
        sign
    } else {
        let mut t: u32 = 0;
        let mut rest: u32 = frac;
        proof {
            lemma_small_top_bit(frac as nat);
        }
        while rest >= 2
            invariant
                1 <= rest < 0x400,
                t + top_bit(rest as nat) == top_bit(frac as nat),
                top_bit(frac as nat) <= 9,
            decreases rest,
        {
            rest = rest / 2;
            t += 1;
        }
        let shift = two_power((23 - t) as u64);
        proof {
            crate::inference::score::lemma_scaled_fraction(frac as nat, t as nat);
        }
        sign + (102 + t) * 0x80_0000 + (frac as u64 * shift) as u32
    }
}

/// A weight: the bits of a single-precision number, or an integer to be multiplied
/// with a scale that is given by its bits.
#[derive(Debug, Clone, Copy, PartialEq, Eq, Structural)]
pub enum Weight {
    Exact(u32),
    Scaled { quant: i8, scale: u32 },
}

/// The half-precision bits at `p`.
pub open spec fn half_at(d: Seq<u8>, p: int) -> u16 {
    (d[p] + d[p + 1] * 0x100) as u16
}

fn read_half(d: &[u8], p: usize) -> (r: u16)
    requires
        p + 2 <= d@.len(),
    ensures
        r == half_at(d@, p as int),
{
    d[p] as u16 + d[p + 1] as u16 * 0x100
}

/// The single-precision bits at `p`.
pub open spec fn single_at(d: Seq<u8>, p: int) -> u32 {
    (d[p] + d[p + 1] * 0x100 + d[p + 2] * 0x1_0000 + d[p + 3] * 0x100_0000) as u32
}

/// Of two integers, the smaller one.
pub open spec fn lesser(a: int, b: int) -> int {
    if a < b {
        a
    } else {
        b
    }
}

/// How many of `n` weights the data hold: whole elements or whole blocks only.
pub open spec fn weights_held(len: int, dtype: GgmlType, n: int) -> int {
    match dtype {
        GgmlType::F32 => lesser(n, len / 4),
        GgmlType::F16 => lesser(n, len / 2),
        GgmlType::Q8_0 => lesser(n, len / 34 * 32),
        GgmlType::Q4_0 => lesser(n, len / 18 * 32),
        _ => n,
    }
}

/// The `i`-th weight. An 8-bit block holds a half-precision scale and 32 signed bytes;
/// a 4-bit block a scale and 32 nibbles, the low one of a byte first, each lowered by
/// eight. Other quantized types count as zero.
pub open spec fn weight_at(d: Seq<u8>, dtype: GgmlType, i: int) -> Weight {
    match dtype {
        GgmlType::F32 => Weight::Exact(single_at(d, i * 4)),
        GgmlType::F16 => Weight::Exact(single_of_half(half_at(d, i * 2)) as u32),
        GgmlType::Q8_0 => Weight::Scaled {
            quant: d[i / 32 * 34 + 2 + i % 32] as i8,
            scale: single_of_half(half_at(d, i / 32 * 34)) as u32,
        },
        GgmlType::Q4_0 => Weight::Scaled {
            quant: (nibble(d[i / 32 * 18 + 2 + i % 32 / 2], i % 2) - 8) as i8,
            scale: single_of_half(half_at(d, i / 32 * 18)) as u32,
        },
        _ => Weight::Exact(0),
    }
}

/// The low or the high half of a byte.
pub open spec fn nibble(b: u8, high: int) -> int {
    if high == 0 {
        b as int % 16
    } else {
        b as int / 16
    }
}

/// The weights of a tensor of `n` elements, as far as the data hold them.
pub open spec fn weights_of(d: Seq<u8>, dtype: GgmlType, n: int) -> Seq<Weight> {
    Seq::new(weights_held(d.len() as int, dtype, n) as nat, |i: int| weight_at(d, dtype, i))
}

/// The elements of so many blocks, but no more than `n`.
fn whole_blocks(blocks: usize, n: usize) -> (r: usize)
    ensures
        r == lesser(n as int, blocks * 32),
{
    if blocks > n / 32 {
        n
    } else {
        blocks * 32
    }
}

/// The `i`-th of `n` weights.
#[verifier::spinoff_prover]
fn read_weight(data: &[u8], dtype: GgmlType, i: usize, n: usize) -> (r: Weight)
    requires
        i < weights_held(data@.len() as int, dtype, n as int),
    ensures
        r == weight_at(data@, dtype, i as int),
{
    let len = data.len();
    match dtype {
        GgmlType::F32 => {
            let p = i * 4;
            Weight::Exact(
                data[p] as u32 + data[p + 1] as u32 * 0x100 + data[p + 2] as u32 * 0x1_0000 + data[p + 3] as u32
                    * 0x100_0000,
            )
        },
        GgmlType::F16 => Weight::Exact(f16_to_f32(read_half(data, i * 2))),
        GgmlType::Q8_0 => {
            let p = i / 32 * 34;
            Weight::Scaled {
                quant: #[verifier::truncate] (data[p + 2 + i % 32] as i8),
                scale: f16_to_f32(read_half(data, p)),
            }
        },
        GgmlType::Q4_0 => {
            let p = i / 32 * 18;
            let b = data[p + 2 + i % 32 / 2];
            let half = if i % 2 == 0 {
                b % 16
            } else {
                b / 16
            };
            Weight::Scaled { quant: half as i8 - 8, scale: f16_to_f32(read_half(data, p)) }
        },
        _ => Weight::Exact(0),
    }
}

/// The weights of a tensor of `n_elements` elements.
pub fn load_f32_tensor(data: &[u8], dtype: GgmlType, n_elements: usize) -> (r: Vec<Weight>)
    ensures
        r@ == weights_of(data@, dtype, n_elements as int),
{
    let len = data.len();
    let whole = match dtype {
        GgmlType::F32 => len / 4,
        GgmlType::F16 => len / 2,
        GgmlType::Q8_0 => whole_blocks(len / 34, n_elements),
        GgmlType::Q4_0 => whole_blocks(len / 18, n_elements),
        _ => n_elements,
    };
    let count = if n_elements < whole {
        n_elements
    } else {
        whole
    };
    let mut out: Vec<Weight> = Vec::new();
    let mut i: usize = 0;
    while i < count
        invariant
            len == data@.len(),
            count == weights_held(len as int, dtype, n_elements as int),
            i <= count,
            out@ == Seq::new(i as nat, |k: int| weight_at(data@, dtype, k)),
        decreases count - i,
    {
        let w = read_weight(data, dtype, i, n_elements);
        out.push(w);
        i += 1;
        assert(out@ =~= Seq::new(i as nat, |k: int| weight_at(data@, dtype, k)));
    }
    out
}

} // verus!

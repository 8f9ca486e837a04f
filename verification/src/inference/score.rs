//! Merge scores: single-precision numbers by their bits.

use vstd::prelude::*;

verus! {

/// Bits of minus infinity.
pub const NEG_INFINITY_BITS: u32 = 0xff80_0000;

/// Bits without the sign.
pub open spec fn magnitude(bits: u32) -> int {
    bits as int % 0x8000_0000
}

/// The bits stand for no number.
pub open spec fn is_nan(bits: u32) -> bool {
    magnitude(bits) > 0x7f80_0000
}

/// An integer in the order of the numbers that bits stand for; both zeros are equal.
pub open spec fn order_key(bits: u32) -> int {
    if bits >= 0x8000_0000 {
        -magnitude(bits)
    } else {
        magnitude(bits)
    }
}

/// The number of `a` is greater than that of `b`. Nothing holds of what is no number.
pub open spec fn greater(a: u32, b: u32) -> bool {
    !is_nan(a) && !is_nan(b) && order_key(a) > order_key(b)
}

/// Whether the number of `a` is greater than that of `b`.
pub fn is_greater(a: u32, b: u32) -> (r: bool)
    ensures
        r == greater(a, b),
{
    let ma = a % 0x8000_0000;
    let mb = b % 0x8000_0000;
    if ma > 0x7f80_0000 || mb > 0x7f80_0000 {
        return false;
    }
    let ka = if a >= 0x8000_0000 {
        -(ma as i64)
    } else {
        ma as i64
    };
    let kb = if b >= 0x8000_0000 {
        -(mb as i64)
    } else {
        mb as i64
    };
    ka > kb
}

/// `n`-th power of two.
pub open spec fn two_to(n: nat) -> nat
    decreases n,
{
    if n == 0 {
        1
    } else {
        2 * two_to((n - 1) as nat)
    }
}

/// The exponent of the largest power of two that is not above `i`.
pub open spec fn top_bit(i: nat) -> nat
    decreases i,
{
    if i < 2 {
        0
    } else {
        1 + top_bit(i / 2)
    }
}

/// `i` divided by `unit`, rounded to the nearest integer, from the middle to the even
/// one.
pub open spec fn round_half_even(i: nat, unit: nat) -> nat {
    let q = i / unit;
    let r = i % unit;
    if 2 * r > unit || (2 * r == unit && q % 2 == 1) {
        q + 1
    } else {
        q
    }
}

/// Bits of the single-precision number nearest to `i`: the exponent, and a significand
/// of 24 bits whose top bit is left out. Rounding up to the next power of two carries
/// into the exponent.
pub open spec fn single_bits(i: nat) -> nat {
    if i == 0 {
        0
    } else {
        let e = top_bit(i);
        let m = if e <= 23 {
            i * two_to((23 - e) as nat)
        } else {
            round_half_even(i, two_to((e - 23) as nat))
        };
        (126 + e) * 0x80_0000 + m
    }
}

proof fn lemma_top_bit_unique(i: nat, e: nat)
    requires
        two_to(e) <= i < 2 * two_to(e),
    ensures
        top_bit(i) == e,
    decreases e,
{
    if e > 0 {
        assert(two_to(e) == 2 * two_to((e - 1) as nat));
        assert(two_to((e - 1) as nat) >= 1) by {
            lemma_two_positive((e - 1) as nat);
        }
        lemma_top_bit_unique(i / 2, (e - 1) as nat);
    }
}

proof fn lemma_two_positive(n: nat)
    ensures
        two_to(n) >= 1,
    decreases n,
{
    if n > 0 {
        lemma_two_positive((n - 1) as nat);
    }
}

proof fn lemma_two_sum(a: nat, b: nat)
    ensures
        two_to(a + b) == two_to(a) * two_to(b),
    decreases b,
{
    if b == 0 {
        assert(two_to(a) * 1 == two_to(a));
    } else {
        lemma_two_sum(a, (b - 1) as nat);
        let x = two_to(a) as int;
        let y = two_to((b - 1) as nat) as int;
        assert(x * (2 * y) == 2 * (x * y)) by (nonlinear_arith);
        assert(two_to(a + b) == 2 * two_to((a + b - 1) as nat));
        assert((a + b - 1) as nat == a + (b - 1) as nat);
    }
}

proof fn lemma_two_23()
    ensures
        two_to(23) == 0x80_0000,
{
    reveal_with_fuel(two_to, 24);
}

/// `k`-th power of two.
pub fn two_power(k: u64) -> (r: u64)
    requires
        k <= 40,
    ensures
        r == two_to(k as nat),
        1 <= r <= 0x100_0000_0000,
{
    let mut u: u64 = 1;
    let mut j: u64 = 0;
    while j < k
        invariant
            j <= k <= 40,
            u == two_to(j as nat),
            1 <= u <= 0x100_0000_0000,
        decreases k - j,
    {
        u = u * 2;
        j += 1;
        proof {
            lemma_forty(j as nat);
        }
    }
    u
}

/// The exponent of the largest power of two that is not above `i`.
fn find_top_bit(i: u64) -> (r: u64)
    requires
        i >= 1,
    ensures
        r == top_bit(i as nat),
        r < 64,
        two_to(r as nat) <= i < 2 * two_to(r as nat),
{
    let mut e: u64 = 0;
    let mut p: u64 = 1;
    while i / 2 >= p
        invariant
            1 <= p <= i,
            p == two_to(e as nat),
            e < 64,
        decreases i - p,
    {
        p = p * 2;
        e += 1;
        proof {
            lemma_e_bound(e as nat, i);
        }
    }
    proof {
        lemma_top_bit_unique(i as nat, e as nat);
    }
    e
}

/// The significand of a number with at most 24 bits.
fn exact_significand(i: u64, e: u64) -> (r: u64)
    requires
        e <= 23,
        two_to(e as nat) <= i < 2 * two_to(e as nat),
    ensures
        r == i * two_to((23 - e) as nat),
        r < 0x100_0000,
{
    let f = two_power(23 - e);
    proof {
        lemma_two_23();
        lemma_two_sum(e as nat, (23 - e) as nat);
        let pe = two_to(e as nat) as int;
        let pf = f as int;
        assert(i * f < 2 * (pe * pf)) by (nonlinear_arith)
            requires
                0 <= i < 2 * pe,
                f == pf,
                pf >= 1,
        ;
    }
    i * f
}

/// The significand of a number with more than 24 bits.
fn rounded_significand(i: u64, e: u64) -> (r: u64)
    requires
        23 < e < 64,
        two_to(e as nat) <= i < 2 * two_to(e as nat),
    ensures
        r == round_half_even(i as nat, two_to((e - 23) as nat)),
        r <= 0x100_0000,
{
    let u = two_power(e - 23);
    let q = i / u;
    let rem = i % u;
    proof {
        lemma_two_23();
        lemma_two_sum(23, (e - 23) as nat);
        assert((23 + (e - 23)) as nat == e as nat);
        assert(i < 2 * (0x80_0000 * u));
        assert(q < 0x100_0000) by (nonlinear_arith)
            requires
                i < 2 * (0x80_0000 * u),
                u >= 1,
                q == i as int / u as int,
        ;
    }
    if rem > u - rem || (rem == u - rem && q % 2 == 1) {
        q + 1
    } else {
        q
    }
}

/// Bits of the single-precision number nearest to `-i`.
pub fn minus_index_bits(i: u64) -> (r: u32)
    ensures
        r == 0x8000_0000 + single_bits(i as nat),
{
    if i == 0 {
        return 0x8000_0000;
    }
    let e = find_top_bit(i);
    let m = if e <= 23 {
        exact_significand(i, e)
    } else {
        rounded_significand(i, e)
    };
    (0x8000_0000u64 + (126 + e) * 0x80_0000 + m) as u32
}

proof fn lemma_two_powers()
    ensures
        two_to(40) == 0x100_0000_0000,
        two_to(64) == 0x1_0000_0000_0000_0000,
{
    assert(two_to(8) == 256) by {
        reveal_with_fuel(two_to, 9);
    }
    lemma_two_sum(8, 8);
    let a = two_to(8) as int;
    assert(a * a == 0x1_0000) by (nonlinear_arith)
        requires
            a == 256,
    ;
    lemma_two_sum(16, 16);
    let b = two_to(16) as int;
    assert(b * b == 0x1_0000_0000) by (nonlinear_arith)
        requires
            b == 0x1_0000,
    ;
    lemma_two_sum(32, 8);
    lemma_two_sum(32, 32);
    let c = two_to(32) as int;
    assert(c * a == 0x100_0000_0000 && c * c == 0x1_0000_0000_0000_0000) by (nonlinear_arith)
        requires
            a == 256,
            c == 0x1_0000_0000,
    ;
}

proof fn lemma_two_grows(a: nat, b: nat)
    requires
        a <= b,
    ensures
        two_to(a) <= two_to(b),
    decreases b - a,
{
    if a < b {
        lemma_two_grows(a, (b - 1) as nat);
    }
}

proof fn lemma_e_bound(e: nat, i: u64)
    requires
        two_to(e) <= i,
    ensures
        e < 64,
{
    lemma_two_powers();
    if e >= 64 {
        lemma_two_grows(64, e);
    }
}

proof fn lemma_forty(k: nat)
    requires
        k <= 40,
    ensures
        two_to(k) <= 0x100_0000_0000,
{
    lemma_two_powers();
    lemma_two_grows(k, 40);
}

/// A fraction of up to ten bits, moved to the top of a significand, has 24 bits.
pub proof fn lemma_scaled_fraction(f: nat, t: nat)
    requires
        1 <= f < 0x400,
        t == top_bit(f),
        t <= 9,
    ensures
        f * two_to((23 - t) as nat) < 0x100_0000,
{
    lemma_top_bit(f);
    lemma_two_23();
    lemma_two_sum(t, (23 - t) as nat);
    lemma_two_positive((23 - t) as nat);
    let a = two_to(t) as int;
    let b = two_to((23 - t) as nat) as int;
    assert(f * b < 2 * (a * b)) by (nonlinear_arith)
        requires
            0 <= f < 2 * a,
            b >= 1,
    ;
}

proof fn lemma_top_bit(i: nat)
    requires
        i >= 1,
    ensures
        two_to(top_bit(i)) <= i < 2 * two_to(top_bit(i)),
    decreases i,
{
    if i >= 2 {
        lemma_top_bit(i / 2);
    }
}

} // verus!

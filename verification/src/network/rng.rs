//! Filling buffers from a source of random words.

use vstd::prelude::*;

verus! {

/// How often the hardware source is asked before it counts as broken.
pub const RETRIES: usize = 10;

/// The `k`-th byte of a word, lowest first.
pub open spec fn byte_of(val: u64, k: int) -> u8
    decreases k,
{
    if k <= 0 {
        (val % 0x100) as u8
    } else {
        byte_of((val / 0x100) as u64, k - 1)
    }
}

/// The first bytes of a word, as many as are wanted, at most eight.
pub fn word_bytes(val: u64, wanted: usize) -> (r: Vec<u8>)
    ensures
        r@ == Seq::new(
            if wanted < 8 {
                wanted as nat
            } else {
                8
            },
            |k: int| byte_of(val, k),
        ),
{
    let n: usize = if wanted < 8 {
        wanted
    } else {
        8
    };
    let mut out: Vec<u8> = Vec::new();
    let mut rest: u64 = val;
    let mut i: usize = 0;
    while i < n
        invariant
            i <= n,
            out@ == Seq::new(i as nat, |k: int| byte_of(val, k)),
            forall|k: int| 0 <= k ==> byte_of(rest, k) == #[trigger] byte_of(val, k + i),
        decreases n - i,
    {
        assert(byte_of(rest, 0) == byte_of(val, 0 + i));
        out.push((rest % 0x100) as u8);
        let ghost before = rest;
        rest = rest / 0x100;
        i += 1;
        assert forall|k: int| 0 <= k implies byte_of(rest, k) == #[trigger] byte_of(val, k + i) by {
            assert(byte_of(before, k + 1) == byte_of(val, (k + 1) + (i - 1)));
        }
        assert(out@ =~= Seq::new(i as nat, |k: int| byte_of(val, k)));
    }
    out
}

/// What an attempt to get a word gave.
#[derive(Debug, Clone, Copy, PartialEq, Eq, Structural)]
pub enum Attempt {
    Word(u64),
    /// Ask again.
    Again,
    /// The source is broken.
    Broken,
}

/// Judge an attempt, after so many that failed.
pub fn attempted(failures: usize, success: bool, val: u64) -> (r: Attempt)
    requires
        failures < RETRIES,
    ensures
        r == if success {
            Attempt::Word(val)
        } else if failures + 1 < RETRIES {
            Attempt::Again
        } else {
            Attempt::Broken
        },
{
    if success {
        Attempt::Word(val)
    } else if failures + 1 < RETRIES {
        Attempt::Again
    } else {
        Attempt::Broken
    }
}

/// Words that so many bytes take.
pub fn words_for(len: usize) -> (r: usize)
    ensures
        r == (len + 7) / 8,
{
    if len % 8 == 0 {
        len / 8
    } else {
        len / 8 + 1
    }
}

/// Bytes out of words, eight of each, lowest first; of the last word as many as are
/// wanted.
pub fn fill_bytes(words: &[u64], len: usize) -> (r: Vec<u8>)
    requires
        words@.len() == (len + 7) / 8,
    ensures
        r@ == Seq::new(len as nat, |i: int| byte_of(words@[i / 8], i % 8)),
{
    let ghost all = Seq::new(len as nat, |i: int| byte_of(words@[i / 8], i % 8));
    let mut out: Vec<u8> = Vec::new();
    let mut k: usize = 0;
    assert(all.take(0) =~= Seq::empty());
    while out.len() < len
        invariant
            words@.len() == (len + 7) / 8,
            all == Seq::new(len as nat, |i: int| byte_of(words@[i / 8], i % 8)),
            out@.len() <= len,
            out@ == all.take(out@.len() as int),
            out@.len() < len ==> out@.len() == 8 * k,
        decreases len - out@.len(),
    {
        let done = out.len();
        let ghost before = out@;
        let mut more = word_bytes(words[k], len - done);
        let ghost added = more@;
        out.append(&mut more);
        proof {
            assert forall|i: int| 0 <= i < out@.len() implies out@[i] == #[trigger] all[i] by {
                if i < done {
                    assert(before[i] == all.take(done as int)[i]);
                } else {
                    assert(i / 8 == k && i % 8 == i - done);
                    assert(out@[i] == added[i - done]);
                }
            }
            assert(out@ =~= all.take(out@.len() as int));
        }
        k += 1;
    }
    assert(all.take(len as int) =~= all);
    out
}

} // verus!

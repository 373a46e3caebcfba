//! The 128-bit SpookyHash V2 primitive (Bob Jenkins' "short" variant, which
//! the reference algorithm selects for all messages under 192 bytes).
//!
//! The filter only ever hashes one small byte chunk per item, so the short
//! variant covers every message this crate produces. Each executable function
//! is proved equal to a spec-level mirror, so a digest is a deterministic
//! function of the message and the two seed words.

use vstd::prelude::*;
use vstd::wrapping::u64_specs;

verus! {

/// The SpookyHash mixing constant.
pub const SC_CONST: u64 = 0xdeadbeefdeadbeef;

/// Wrapping 64-bit addition, as a spec-level shorthand.
pub open spec fn wa(x: u64, y: u64) -> u64 {
    u64_specs::wrapping_add(x, y)
}

/// Left rotation of a 64-bit word by `k` places, `0 < k < 64`.
pub open spec fn rot64_spec(x: u64, k: u64) -> u64
    recommends
        0 < k < 64,
{
    (x << k) | (x >> ((64 - k) as u64))
}

fn rot64(x: u64, k: u64) -> (r: u64)
    requires
        0 < k < 64,
    ensures
        r == rot64_spec(x, k),
{
    (x << k) | (x >> (64 - k))
}

/// One application of SpookyHash's ShortMix round to the four lanes.
pub open spec fn short_mix_spec(t: (u64, u64, u64, u64)) -> (u64, u64, u64, u64) {
    let (h0, h1, h2, h3) = t;
    let h2 = wa(rot64_spec(h2, 50), h3);
    let h0 = h0 ^ h2;
    let h3 = wa(rot64_spec(h3, 52), h0);
    let h1 = h1 ^ h3;
    let h0 = wa(rot64_spec(h0, 30), h1);
    let h2 = h2 ^ h0;
    let h1 = wa(rot64_spec(h1, 41), h2);
    let h3 = h3 ^ h1;
    let h2 = wa(rot64_spec(h2, 54), h3);
    let h0 = h0 ^ h2;
    let h3 = wa(rot64_spec(h3, 48), h0);
    let h1 = h1 ^ h3;
    let h0 = wa(rot64_spec(h0, 38), h1);
    let h2 = h2 ^ h0;
    let h1 = wa(rot64_spec(h1, 37), h2);
    let h3 = h3 ^ h1;
    let h2 = wa(rot64_spec(h2, 62), h3);
    let h0 = h0 ^ h2;
    let h3 = wa(rot64_spec(h3, 34), h0);
    let h1 = h1 ^ h3;
    let h0 = wa(rot64_spec(h0, 5), h1);
    let h2 = h2 ^ h0;
    let h1 = wa(rot64_spec(h1, 36), h2);
    let h3 = h3 ^ h1;
    (h0, h1, h2, h3)
}

#[verifier::rlimit(30)]
fn short_mix(t: (u64, u64, u64, u64)) -> (r: (u64, u64, u64, u64))
    ensures
        r == short_mix_spec(t),
{
    let (mut h0, mut h1, mut h2, mut h3) = t;
    h2 = rot64(h2, 50);
    h2 = h2.wrapping_add(h3);
    h0 = h0 ^ h2;
    h3 = rot64(h3, 52);
    h3 = h3.wrapping_add(h0);
    h1 = h1 ^ h3;
    h0 = rot64(h0, 30);
    h0 = h0.wrapping_add(h1);
    h2 = h2 ^ h0;
    h1 = rot64(h1, 41);
    h1 = h1.wrapping_add(h2);
    h3 = h3 ^ h1;
    h2 = rot64(h2, 54);
    h2 = h2.wrapping_add(h3);
    h0 = h0 ^ h2;
    h3 = rot64(h3, 48);
    h3 = h3.wrapping_add(h0);
    h1 = h1 ^ h3;
    h0 = rot64(h0, 38);
    h0 = h0.wrapping_add(h1);
    h2 = h2 ^ h0;
    h1 = rot64(h1, 37);
    h1 = h1.wrapping_add(h2);
    h3 = h3 ^ h1;
    h2 = rot64(h2, 62);
    h2 = h2.wrapping_add(h3);
    h0 = h0 ^ h2;
    h3 = rot64(h3, 34);
    h3 = h3.wrapping_add(h0);
    h1 = h1 ^ h3;
    h0 = rot64(h0, 5);
    h0 = h0.wrapping_add(h1);
    h2 = h2 ^ h0;
    h1 = rot64(h1, 36);
    h1 = h1.wrapping_add(h2);
    h3 = h3 ^ h1;
    (h0, h1, h2, h3)
}

/// SpookyHash's ShortEnd finalization round.
pub open spec fn short_end_spec(t: (u64, u64, u64, u64)) -> (u64, u64, u64, u64) {
    let (h0, h1, h2, h3) = t;
    let h3 = h3 ^ h2;
    let h2 = rot64_spec(h2, 15);
    let h3 = wa(h3, h2);
    let h0 = h0 ^ h3;
    let h3 = rot64_spec(h3, 52);
    let h0 = wa(h0, h3);
    let h1 = h1 ^ h0;
    let h0 = rot64_spec(h0, 26);
    let h1 = wa(h1, h0);
    let h2 = h2 ^ h1;
    let h1 = rot64_spec(h1, 51);
    let h2 = wa(h2, h1);
    let h3 = h3 ^ h2;
    let h2 = rot64_spec(h2, 28);
    let h3 = wa(h3, h2);
    let h0 = h0 ^ h3;
    let h3 = rot64_spec(h3, 9);
    let h0 = wa(h0, h3);
    let h1 = h1 ^ h0;
    let h0 = rot64_spec(h0, 47);
    let h1 = wa(h1, h0);
    let h2 = h2 ^ h1;
    let h1 = rot64_spec(h1, 54);
    let h2 = wa(h2, h1);
    let h3 = h3 ^ h2;
    let h2 = rot64_spec(h2, 32);
    let h3 = wa(h3, h2);
    let h0 = h0 ^ h3;
    let h3 = rot64_spec(h3, 25);
    let h0 = wa(h0, h3);
    let h1 = h1 ^ h0;
    let h0 = rot64_spec(h0, 63);
    let h1 = wa(h1, h0);
    (h0, h1, h2, h3)
}

#[verifier::rlimit(30)]
fn short_end(t: (u64, u64, u64, u64)) -> (r: (u64, u64, u64, u64))
    ensures
        r == short_end_spec(t),
{
    let (mut h0, mut h1, mut h2, mut h3) = t;
    h3 = h3 ^ h2;
    h2 = rot64(h2, 15);
    h3 = h3.wrapping_add(h2);
    h0 = h0 ^ h3;
    h3 = rot64(h3, 52);
    h0 = h0.wrapping_add(h3);
    h1 = h1 ^ h0;
    h0 = rot64(h0, 26);
    h1 = h1.wrapping_add(h0);
    h2 = h2 ^ h1;
    h1 = rot64(h1, 51);
    h2 = h2.wrapping_add(h1);
    h3 = h3 ^ h2;
    h2 = rot64(h2, 28);
    h3 = h3.wrapping_add(h2);
    h0 = h0 ^ h3;
    h3 = rot64(h3, 9);
    h0 = h0.wrapping_add(h3);
    h1 = h1 ^ h0;
    h0 = rot64(h0, 47);
    h1 = h1.wrapping_add(h0);
    h2 = h2 ^ h1;
    h1 = rot64(h1, 54);
    h2 = h2.wrapping_add(h1);
    h3 = h3 ^ h2;
    h2 = rot64(h2, 32);
    h3 = h3.wrapping_add(h2);
    h0 = h0 ^ h3;
    h3 = rot64(h3, 25);
    h0 = h0.wrapping_add(h3);
    h1 = h1 ^ h0;
    h0 = rot64(h0, 63);
    h1 = h1.wrapping_add(h0);
    (h0, h1, h2, h3)
}

/// The little-endian word held by up to eight bytes.
pub open spec fn le_word(s: Seq<u8>) -> u64
    recommends
        s.len() <= 8,
    decreases s.len(),
{
    if s.len() == 0 {
        0
    } else {
        le_word(s.drop_last()) | ((s.last() as u64) << ((8 * (s.len() - 1)) as u64))
    }
}

/// Reads `count` bytes (at most eight) starting at `start` as a
/// little-endian word.
fn load_le(bytes: &Vec<u8>, start: usize, count: usize) -> (r: u64)
    requires
        start + count <= bytes@.len(),
        count <= 8,
    ensures
        r == le_word(bytes@.subrange(start as int, (start + count) as int)),
{
    let blen = bytes.len();
    let mut r: u64 = 0;
    let mut j: usize = 0;
    while j < count
        invariant
            j <= count,
            count <= 8,
            blen == bytes@.len(),
            start + count <= blen,
            r == le_word(bytes@.subrange(start as int, (start + j) as int)),
        decreases count - j,
    {
        r = r | ((bytes[start + j] as u64) << ((8 * j) as u64));
        proof {
            let s = bytes@.subrange(start as int, (start + j + 1) as int);
            assert(s.drop_last() =~= bytes@.subrange(start as int, (start + j) as int));
            assert(s.last() == bytes@[(start + j) as int]);
        }
        j = j + 1;
    }
    r
}

/// The state of the four lanes after folding in `j` full 32-byte blocks.
pub open spec fn short_blocks(st0: (u64, u64, u64, u64), msg: Seq<u8>, j: nat) -> (u64, u64, u64, u64)
    decreases j,
{
    if j == 0 {
        st0
    } else {
        short_block_step(short_blocks(st0, msg, (j - 1) as nat), msg, 32 * (j - 1))
    }
}

/// Folds the 32-byte block at `pos` into the four lanes.
pub open spec fn short_block_step(st: (u64, u64, u64, u64), msg: Seq<u8>, pos: int) -> (u64, u64, u64, u64)
    recommends
        0 <= pos,
        pos + 32 <= msg.len(),
{
    let (a, b, c, d) = st;
    let c = wa(c, le_word(msg.subrange(pos, pos + 8)));
    let d = wa(d, le_word(msg.subrange(pos + 8, pos + 16)));
    let m = short_mix_spec((a, b, c, d));
    let a = wa(m.0, le_word(msg.subrange(pos + 16, pos + 24)));
    let b = wa(m.1, le_word(msg.subrange(pos + 24, pos + 32)));
    (a, b, m.2, m.3)
}

/// The two output words of the SpookyHash short variant for a message of
/// fewer than 192 bytes and the two seed words.
pub open spec fn spooky_short_spec(msg: Seq<u8>, seed1: u64, seed2: u64) -> (u64, u64)
    recommends
        msg.len() < 192,
{
    let len = msg.len() as int;
    let st0 = (seed1, seed2, SC_CONST, SC_CONST);
    let nb: nat = if len > 15 { (len / 32) as nat } else { 0 };
    let st1 = short_blocks(st0, msg, nb);
    let half = len > 15 && len % 32 >= 16;
    let st2 = if half {
        let (a, b, c, d) = st1;
        let c = wa(c, le_word(msg.subrange(32 * (nb as int), 32 * (nb as int) + 8)));
        let d = wa(d, le_word(msg.subrange(32 * (nb as int) + 8, 32 * (nb as int) + 16)));
        short_mix_spec((a, b, c, d))
    } else {
        st1
    };
    let pos = 32 * (nb as int) + if half { 16int } else { 0int };
    let rem = len - pos;
    let (a, b, c, d) = st2;
    let d = wa(d, (len as u64) << 56u64);
    let cd = if rem == 0 {
        (wa(c, SC_CONST), wa(d, SC_CONST))
    } else if rem <= 8 {
        (wa(c, le_word(msg.subrange(pos, len))), d)
    } else {
        (wa(c, le_word(msg.subrange(pos, pos + 8))), wa(d, le_word(msg.subrange(pos + 8, len))))
    };
    let e = short_end_spec((a, b, cd.0, cd.1));
    (e.0, e.1)
}

/// The 128-bit hash of a short message: the seed words go in through
/// `hash1` and `hash2` and come back out replaced by the two hash words.
pub fn spooky_hash128(message: &Vec<u8>, hash1: &mut u64, hash2: &mut u64)
    requires
        message@.len() < 192,
    ensures
        *final(hash1) == spooky_short_spec(message@, *old(hash1), *old(hash2)).0,
        *final(hash2) == spooky_short_spec(message@, *old(hash1), *old(hash2)).1,
{
    let r = spooky_short(message, *hash1, *hash2);
    *hash1 = r.0;
    *hash2 = r.1;
}

fn spooky_short(message: &Vec<u8>, seed1: u64, seed2: u64) -> (r: (u64, u64))
    requires
        message@.len() < 192,
    ensures
        r == spooky_short_spec(message@, seed1, seed2),
{
    let len = message.len();
    let ghost st0 = (seed1, seed2, SC_CONST, SC_CONST);
    let mut a = seed1;
    let mut b = seed2;
    let mut c = SC_CONST;
    let mut d = SC_CONST;
    let mut pos: usize = 0;
    let ghost nb: nat = if len > 15 { (len as int / 32) as nat } else { 0 };
    if len > 15 {
        let nblocks = len / 32;
        let mut j: usize = 0;
        while j < nblocks
            invariant
                j <= nblocks,
                pos == 32 * j,
                nblocks == len as int / 32,
                len == message@.len(),
                len < 192,
                (a, b, c, d) == short_blocks((seed1, seed2, SC_CONST, SC_CONST), message@, j as nat),
            decreases nblocks - j,
        {
            assert(pos + 32 <= len);
            c = c.wrapping_add(load_le(message, pos, 8));
            d = d.wrapping_add(load_le(message, pos + 8, 8));
            let m = short_mix((a, b, c, d));
            a = m.0.wrapping_add(load_le(message, pos + 16, 8));
            b = m.1.wrapping_add(load_le(message, pos + 24, 8));
            c = m.2;
            d = m.3;
            proof {
                assert(short_blocks(st0, message@, (j + 1) as nat) == short_block_step(
                    short_blocks(st0, message@, j as nat),
                    message@,
                    32 * (j as int),
                ));
            }
            j = j + 1;
            pos = pos + 32;
        }
        assert((a, b, c, d) == short_blocks(st0, message@, nb));
        if len % 32 >= 16 {
            c = c.wrapping_add(load_le(message, pos, 8));
            d = d.wrapping_add(load_le(message, pos + 8, 8));
            let m = short_mix((a, b, c, d));
            a = m.0;
            b = m.1;
            c = m.2;
            d = m.3;
            pos = pos + 16;
        }
    }
    d = d.wrapping_add((len as u64) << 56u64);
    let rem = len - pos;
    if rem == 0 {
        c = c.wrapping_add(SC_CONST);
        d = d.wrapping_add(SC_CONST);
    } else if rem <= 8 {
        c = c.wrapping_add(load_le(message, pos, rem));
    } else {
        c = c.wrapping_add(load_le(message, pos, 8));
        d = d.wrapping_add(load_le(message, pos + 8, rem - 8));
    }
    let e = short_end((a, b, c, d));
    (e.0, e.1)
}

} // verus!

//! The incremental hashing adapter over the 128-bit primitive.
//!
//! A `Spooky` is created fresh for each filter operation. Only the first byte
//! chunk fed to it is actually hashed; later chunks merely advance a counter,
//! and `finish` mixes that counter into the stored hash words. Feeding the
//! same chunk repeatedly therefore yields a cheap sequence of distinct
//! 64-bit digests from one real hash computation.

use vstd::prelude::*;
use vstd::wrapping::u64_specs;
use crate::spooky::spooky_hash128;
use crate::spooky::spooky_short_spec;
use crate::spooky::wa;

verus! {

/// The abstract state of a `Spooky` adapter: the two stored hash words and
/// the number of chunks fed so far.
pub struct SpookyState {
    pub hash1: u64,
    pub hash2: u64,
    pub count: u64,
}

/// Incremental hasher that wraps the 128-bit SpookyHash primitive.
pub struct Spooky {
    hash1: u64,
    hash2: u64,
    count: u64,
}

impl View for Spooky {
    type V = SpookyState;

    closed spec fn view(&self) -> SpookyState {
        SpookyState { hash1: self.hash1, hash2: self.hash2, count: self.count }
    }
}

/// The digest `finish` derives from the stored words and the chunk counter.
pub open spec fn finish_spec(hash1: u64, hash2: u64, count: u64) -> u64 {
    if count == 0 {
        hash1
    } else if count == 1 {
        wa(hash1, hash2)
    } else {
        wa(hash1, u64_specs::wrapping_mul(hash2, count))
    }
}

impl Spooky {
    /// A fresh adapter: zero seed words, no chunks fed yet.
    pub fn new() -> (s: Spooky)
        ensures
            s@.hash1 == 0,
            s@.hash2 == 0,
            s@.count == 0,
    {
        Spooky { hash1: 0, hash2: 0, count: 0 }
    }

    /// Feeds one byte chunk. The first chunk is hashed with the current
    /// words as seeds; every later chunk only advances the counter.
    pub fn write(&mut self, bytes: &Vec<u8>)
        requires
            old(self)@.count < u64::MAX,
            bytes@.len() < 192,
        ensures
            final(self)@.count == old(self)@.count + 1,
            old(self)@.count == 0 ==> (final(self)@.hash1, final(self)@.hash2)
                == spooky_short_spec(bytes@, old(self)@.hash1, old(self)@.hash2),
            old(self)@.count != 0 ==> final(self)@.hash1 == old(self)@.hash1
                && final(self)@.hash2 == old(self)@.hash2,
    {
        if self.count == 0 {
            let mut h1 = self.hash1;
            let mut h2 = self.hash2;
            spooky_hash128(bytes, &mut h1, &mut h2);
            self.hash1 = h1;
            self.hash2 = h2;
        }
        self.count = self.count + 1;
    }

    /// Derives a 64-bit digest from the current state without consuming it.
    pub fn finish(&self) -> (r: u64)
        ensures
            r == finish_spec(self@.hash1, self@.hash2, self@.count),
    {
        if self.count == 0 {
            self.hash1
        } else if self.count == 1 {
            self.hash1.wrapping_add(self.hash2)
        } else {
            self.hash1.wrapping_add(self.hash2.wrapping_mul(self.count))
        }
    }
}

} // verus!

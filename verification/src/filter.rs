//! The bloom filter itself: a packed bit array of length `m`, sized for `n`
//! items, probed `k` times per operation.
//!
//! Every public operation carries an exact contract over the filter's
//! abstract state (`BloomState`), and the core guarantee — an item that was
//! ever `set` is always reported by `check` — is proved below as the
//! membership lemmas.

use vstd::prelude::*;
use vstd::arithmetic::div_mod::{
    lemma_div_is_ordered, lemma_fundamental_div_mod, lemma_mod_bound, lemma_div_multiples_vanish,
};
use vstd::arithmetic::mul::{lemma_mul_inequality, lemma_mul_upper_bound};
use crate::bitmap::{bits_of, bv_from_elem, bv_get, bv_set};
use crate::hasher::{finish_spec, Spooky};
use crate::sizing::{
    compute_m_spec, optimal_k_spec, rate_log2_q48, FpRate, HALF_Q48, INV_LN2_Q60, LN2_DENOM,
    LN2_NUMER, Q48, Q60,
};
use crate::spooky::spooky_short_spec;

verus! {

/// An item the filter can hold: anything with a byte representation of
/// fewer than 192 bytes (every probe hashes exactly this one chunk).
pub trait ByteRepr {
    /// The item's byte representation.
    spec fn repr(&self) -> Seq<u8>;

    /// The representation always fits the short-message hash.
    proof fn repr_short(&self)
        ensures
            self.repr().len() < 192,
    ;

    /// Produces the byte representation.
    fn to_bytes(&self) -> (r: Vec<u8>)
        ensures
            r@ == self.repr(),
    ;
}

/// The little-endian bytes of a 32-bit word.
pub open spec fn u32_le_seq(x: u32) -> Seq<u8> {
    seq![
        (x & 0xff) as u8,
        ((x >> 8u32) & 0xff) as u8,
        ((x >> 16u32) & 0xff) as u8,
        ((x >> 24u32) & 0xff) as u8,
    ]
}

/// The little-endian bytes of a 64-bit word.
pub open spec fn u64_le_seq(x: u64) -> Seq<u8> {
    seq![
        (x & 0xff) as u8,
        ((x >> 8u64) & 0xff) as u8,
        ((x >> 16u64) & 0xff) as u8,
        ((x >> 24u64) & 0xff) as u8,
        ((x >> 32u64) & 0xff) as u8,
        ((x >> 40u64) & 0xff) as u8,
        ((x >> 48u64) & 0xff) as u8,
        ((x >> 56u64) & 0xff) as u8,
    ]
}

impl ByteRepr for u32 {
    open spec fn repr(&self) -> Seq<u8> {
        u32_le_seq(*self)
    }

    proof fn repr_short(&self) {
    }

    fn to_bytes(&self) -> (r: Vec<u8>) {
        let x = *self;
        let mut r: Vec<u8> = Vec::new();
        r.push((x & 0xff) as u8);
        r.push(((x >> 8u32) & 0xff) as u8);
        r.push(((x >> 16u32) & 0xff) as u8);
        r.push(((x >> 24u32) & 0xff) as u8);
        proof {
            assert(r@ =~= u32_le_seq(x));
        }
        r
    }
}

impl ByteRepr for i32 {
    open spec fn repr(&self) -> Seq<u8> {
        u32_le_seq(*self as u32)
    }

    proof fn repr_short(&self) {
    }

    fn to_bytes(&self) -> (r: Vec<u8>) {
        let x = *self as u32;
        let mut r: Vec<u8> = Vec::new();
        r.push((x & 0xff) as u8);
        r.push(((x >> 8u32) & 0xff) as u8);
        r.push(((x >> 16u32) & 0xff) as u8);
        r.push(((x >> 24u32) & 0xff) as u8);
        proof {
            assert(r@ =~= u32_le_seq(x));
        }
        r
    }
}

impl ByteRepr for u64 {
    open spec fn repr(&self) -> Seq<u8> {
        u64_le_seq(*self)
    }

    proof fn repr_short(&self) {
    }

    fn to_bytes(&self) -> (r: Vec<u8>) {
        let x = *self;
        let mut r: Vec<u8> = Vec::new();
        r.push((x & 0xff) as u8);
        r.push(((x >> 8u64) & 0xff) as u8);
        r.push(((x >> 16u64) & 0xff) as u8);
        r.push(((x >> 24u64) & 0xff) as u8);
        r.push(((x >> 32u64) & 0xff) as u8);
        r.push(((x >> 40u64) & 0xff) as u8);
        r.push(((x >> 48u64) & 0xff) as u8);
        r.push(((x >> 56u64) & 0xff) as u8);
        proof {
            assert(r@ =~= u64_le_seq(x));
        }
        r
    }
}

impl ByteRepr for i64 {
    open spec fn repr(&self) -> Seq<u8> {
        u64_le_seq(*self as u64)
    }

    proof fn repr_short(&self) {
    }

    fn to_bytes(&self) -> (r: Vec<u8>) {
        let x = *self as u64;
        let mut r: Vec<u8> = Vec::new();
        r.push((x & 0xff) as u8);
        r.push(((x >> 8u64) & 0xff) as u8);
        r.push(((x >> 16u64) & 0xff) as u8);
        r.push(((x >> 24u64) & 0xff) as u8);
        r.push(((x >> 32u64) & 0xff) as u8);
        r.push(((x >> 40u64) & 0xff) as u8);
        r.push(((x >> 48u64) & 0xff) as u8);
        r.push(((x >> 56u64) & 0xff) as u8);
        proof {
            assert(r@ =~= u64_le_seq(x));
        }
        r
    }
}

/// The digest probe number `i` derives for a message: the message is hashed
/// once with zero seeds, and the adapter's counter (here `i + 1`) is mixed
/// into the pair of hash words.
pub open spec fn probe_digest(msg: Seq<u8>, i: nat) -> u64 {
    let w = spooky_short_spec(msg, 0, 0);
    finish_spec(w.0, w.1, (i + 1) as u64)
}

/// The bit index probe number `i` touches in an array of `m` bits.
pub open spec fn probe_slot(msg: Seq<u8>, i: nat, m: nat) -> nat
    recommends
        0 < m,
{
    (probe_digest(msg, i) as nat) % m
}

/// Whether probe `p` of `msg` lands on a set bit.
pub open spec fn probe_set(bits: Seq<bool>, msg: Seq<u8>, p: nat, m: nat) -> bool {
    bits[probe_slot(msg, p, m) as int]
}

/// Whether all `k` probes of `msg` land on set bits — exactly what `check`
/// returns.
pub open spec fn has_all_probes(bits: Seq<bool>, msg: Seq<u8>, k: nat, m: nat) -> bool {
    forall|p: nat| p < k ==> probe_set(bits, msg, p, m)
}

/// How `set` transforms the bit array: a bit is set afterwards exactly when
/// it was set before or one of `msg`'s `k` probes lands on it.
pub open spec fn set_updates(pre: Seq<bool>, post: Seq<bool>, msg: Seq<u8>, k: nat, m: nat) -> bool {
    &&& post.len() == pre.len()
    &&& forall|j: int|
        0 <= j < pre.len() ==> post[j] == (pre[j] || exists|p: nat|
            p < k && probe_slot(msg, p, m) == j)
}

/// Every probe stays inside the bit array.
pub proof fn lemma_probe_slot_in_range(msg: Seq<u8>, i: nat, m: nat)
    requires
        0 < m,
    ensures
        probe_slot(msg, i, m) < m,
{
    lemma_mod_bound(probe_digest(msg, i) as int, m as int);
}

/// The abstract state of a filter: the bit array and the three sizing
/// parameters.
pub struct BloomState {
    pub bits: Seq<bool>,
    pub m: nat,
    pub n: nat,
    pub k: nat,
}

/// A bloom filter over a packed bit array.
pub struct Bloom {
    bits: bit_vec::BitVec<u32>,
    m: usize,
    n: usize,
    k: u32,
}

impl View for Bloom {
    type V = BloomState;

    closed spec fn view(&self) -> BloomState {
        BloomState {
            bits: bits_of(self.bits),
            m: self.m as nat,
            n: self.n as nat,
            k: self.k as nat,
        }
    }
}

impl Bloom {
    /// A filter is well formed when its parameters are positive, the bit
    /// array has length `m`, and `k` is the optimal probe count for `m`
    /// and `n`.
    pub open spec fn wf(&self) -> bool {
        &&& 0 < self@.m
        &&& 0 < self@.n
        &&& self@.bits.len() == self@.m
        &&& self@.k == optimal_k_spec(self@.m as int, self@.n as int)
        &&& 1 <= self@.k <= u32::MAX
    }

    /// A new filter of `m` bits sized for `n` items: all bits clear and
    /// `k` chosen optimally. Zero `m` or `n` is a precondition violation.
    pub fn new(m: usize, n: usize) -> (f: Bloom)
        requires
            0 < m,
            0 < n,
        ensures
            f.wf(),
            f@.m == m,
            f@.n == n,
            f@.k == optimal_k_spec(m as int, n as int),
            f@.bits == Seq::new(m as nat, |i: int| false),
    {
        let k = Bloom::optimal_k(m, n);
        let bits = bv_from_elem(m, false);
        Bloom { bits, m, n, k }
    }

    /// The probe count `ceil((m/n) * ln 2)`, at least one: the `k` that
    /// minimizes the false-positive rate at `m` bits for `n` items.
    pub fn optimal_k(m: usize, n: usize) -> (k: u32)
        requires
            0 < m,
            0 < n,
        ensures
            k as int == optimal_k_spec(m as int, n as int),
            1 <= k,
    {
        proof {
            lemma_mul_upper_bound(m as int, u64::MAX as int, LN2_NUMER as int, LN2_NUMER as int);
            lemma_mul_upper_bound(n as int, u64::MAX as int, LN2_DENOM as int, LN2_DENOM as int);
            lemma_mul_inequality(1, m as int, LN2_NUMER as int);
            lemma_mul_inequality(1, n as int, LN2_DENOM as int);
        }
        let num: u128 = (m as u128) * (LN2_NUMER as u128);
        let den: u128 = (n as u128) * (LN2_DENOM as u128);
        let raw: u128 = (num + den - 1) / den;
        proof {
            lemma_div_is_ordered(den as int, num as int + den - 1, den as int);
            lemma_div_multiples_vanish(1, den as int);
        }
        if raw > 4294967295u128 {
            4294967295u32
        } else {
            raw as u32
        }
    }

    /// The bit count `round(n * ln(1/p) / (ln 2)^2)` for a capacity `n`
    /// and a target false-positive rate `p`, saturated at `usize::MAX`.
    pub fn compute_m(n: usize, rate: FpRate) -> (m: usize)
        requires
            rate.wf(),
        ensures
            m as int == compute_m_spec(n as int, rate.num_spec() as int, rate.den_spec() as int),
    {
        let l = rate_log2_q48(rate.num(), rate.den());
        proof {
            lemma_mul_upper_bound(
                l as int,
                18014398509481983,
                INV_LN2_Q60 as int,
                INV_LN2_Q60 as int,
            );
        }
        let t: u128 = (l as u128) * (INV_LN2_Q60 as u128);
        let u: u128 = t / (Q60 as u128);
        proof {
            lemma_fundamental_div_mod(t as int, Q60 as int);
            lemma_mod_bound(t as int, Q60 as int);
            assert(u < 36028797018963968) by (nonlinear_arith)
                requires
                    (Q60 as int) * (u as int) <= t as int,
                    (t as int) < (Q60 as int) * 36028797018963968,
            ;
            lemma_mul_upper_bound(n as int, u64::MAX as int, u as int, 36028797018963967);
        }
        let v: u128 = (n as u128) * u;
        let mraw: u128 = (v + (HALF_Q48 as u128)) / (Q48 as u128);
        if mraw > usize::MAX as u128 {
            usize::MAX
        } else {
            mraw as usize
        }
    }

    /// Sizes a filter for `n` items at target rate `rate` and builds it.
    /// The target must be one that yields at least one bit.
    pub fn new_for_fp_rate(n: usize, rate: FpRate) -> (f: Bloom)
        requires
            0 < n,
            rate.wf(),
            1 <= compute_m_spec(n as int, rate.num_spec() as int, rate.den_spec() as int),
        ensures
            f.wf(),
            f@.n == n,
            f@.m == compute_m_spec(n as int, rate.num_spec() as int, rate.den_spec() as int),
            f@.bits == Seq::new(f@.m, |i: int| false),
    {
        let m = Bloom::compute_m(n, rate);
        Bloom::new(m, n)
    }

    /// Inserts an item: each of the `k` probes sets its bit; no other bit
    /// moves, and the sizing parameters are untouched.
    pub fn set<T: ByteRepr>(&mut self, item: &T)
        requires
            old(self).wf(),
        ensures
            final(self).wf(),
            final(self)@.m == old(self)@.m,
            final(self)@.n == old(self)@.n,
            final(self)@.k == old(self)@.k,
            set_updates(
                old(self)@.bits,
                final(self)@.bits,
                item.repr(),
                old(self)@.k,
                old(self)@.m,
            ),
    {
        let bytes = item.to_bytes();
        proof {
            item.repr_short();
        }
        let mut s = Spooky::new();
        let k = self.k;
        let mut i: u32 = 0;
        while i < k
            invariant
                i <= k,
                k as nat == old(self)@.k,
                self@.m == old(self)@.m,
                self@.n == old(self)@.n,
                self@.k == old(self)@.k,
                self.wf(),
                self@.bits.len() == old(self)@.bits.len(),
                bytes@ == item.repr(),
                bytes@.len() < 192,
                s@.count == i,
                i == 0 ==> s@.hash1 == 0 && s@.hash2 == 0,
                i > 0 ==> (s@.hash1, s@.hash2) == spooky_short_spec(bytes@, 0, 0),
                forall|j: int|
                    0 <= j < old(self)@.bits.len() ==> self@.bits[j] == (old(self)@.bits[j]
                        || exists|p: nat| p < i as nat && probe_slot(bytes@, p, old(self)@.m) == j),
            decreases k - i,
        {
            s.write(&bytes);
            let digest = s.finish();
            let index = (digest % (self.m as u64)) as usize;
            let ghost pre = self@.bits;
            proof {
                assert(digest == probe_digest(bytes@, i as nat));
                assert(index as nat == probe_slot(bytes@, i as nat, old(self)@.m));
                lemma_probe_slot_in_range(bytes@, i as nat, old(self)@.m);
                assert(index < self@.bits.len());
            }
            bv_set(&mut self.bits, index, true);
            proof {
                assert(self@.bits == pre.update(index as int, true));
                assert forall|j: int| 0 <= j < old(self)@.bits.len() implies self@.bits[j] == (
                old(self)@.bits[j] || exists|p: nat|
                    p < (i + 1) as nat && probe_slot(bytes@, p, old(self)@.m) == j) by {
                    if j == index as int {
                        assert(probe_slot(bytes@, i as nat, old(self)@.m) == j);
                        assert((i as nat) < (i + 1) as nat && probe_slot(
                            bytes@,
                            i as nat,
                            old(self)@.m,
                        ) == j);
                        assert(self@.bits[j]);
                    } else {
                        assert(self@.bits[j] == pre[j]);
                        if exists|p: nat|
                            p < (i + 1) as nat && probe_slot(bytes@, p, old(self)@.m) == j {
                            let p = choose|p: nat|
                                p < (i + 1) as nat && probe_slot(bytes@, p, old(self)@.m) == j;
                            assert(p != i as nat);
                            assert(p < i as nat && probe_slot(bytes@, p, old(self)@.m) == j);
                        }
                    }
                }
            }
            i = i + 1;
        }
    }

    /// Looks an item up: true exactly when all `k` of its probes land on
    /// set bits — "possibly present"; false means "definitely absent".
    pub fn check<T: ByteRepr>(&self, item: &T) -> (r: bool)
        requires
            self.wf(),
        ensures
            r == has_all_probes(self@.bits, item.repr(), self@.k, self@.m),
    {
        let bytes = item.to_bytes();
        proof {
            item.repr_short();
        }
        let mut s = Spooky::new();
        let k = self.k;
        let mut i: u32 = 0;
        while i < k
            invariant
                i <= k,
                k as nat == self@.k,
                self.wf(),
                bytes@ == item.repr(),
                bytes@.len() < 192,
                s@.count == i,
                i == 0 ==> s@.hash1 == 0 && s@.hash2 == 0,
                i > 0 ==> (s@.hash1, s@.hash2) == spooky_short_spec(bytes@, 0, 0),
                forall|p: nat| p < i as nat ==> probe_set(self@.bits, bytes@, p, self@.m),
            decreases k - i,
        {
            s.write(&bytes);
            let digest = s.finish();
            let index = (digest % (self.m as u64)) as usize;
            proof {
                assert(digest == probe_digest(bytes@, i as nat));
                assert(index as nat == probe_slot(bytes@, i as nat, self@.m));
                lemma_probe_slot_in_range(bytes@, i as nat, self@.m);
                assert(index < self@.bits.len());
            }
            let got = bv_get(&self.bits, index);
            if !got.unwrap() {
                proof {
                    assert(!probe_set(self@.bits, bytes@, i as nat, self@.m));
                    assert(!has_all_probes(self@.bits, bytes@, self@.k, self@.m));
                }
                return false;
            }
            i = i + 1;
        }
        true
    }
}

/// Law (no false negatives, first half): right after an item is inserted,
/// every one of its probes is set, so `check` on it returns true.
pub proof fn lemma_set_establishes_presence(
    pre: Seq<bool>,
    post: Seq<bool>,
    msg: Seq<u8>,
    k: nat,
    m: nat,
)
    requires
        0 < m,
        pre.len() == m,
        set_updates(pre, post, msg, k, m),
    ensures
        has_all_probes(post, msg, k, m),
{
    assert forall|p: nat| p < k implies probe_set(post, msg, p, m) by {
        let j = probe_slot(msg, p, m) as int;
        lemma_probe_slot_in_range(msg, p, m);
        assert(p < k && probe_slot(msg, p, m) == j);
        assert(post[j]);
    }
}

/// Law (no false negatives, second half): inserting any further item never
/// clears a probe — once all of an item's probes are set, they stay set
/// through every later insertion.
pub proof fn lemma_set_preserves_presence(
    pre: Seq<bool>,
    post: Seq<bool>,
    probed: Seq<u8>,
    inserted: Seq<u8>,
    k: nat,
    m: nat,
)
    requires
        0 < m,
        pre.len() == m,
        set_updates(pre, post, inserted, k, m),
        has_all_probes(pre, probed, k, m),
    ensures
        has_all_probes(post, probed, k, m),
{
    assert forall|p: nat| p < k implies probe_set(post, probed, p, m) by {
        let j = probe_slot(probed, p, m) as int;
        lemma_probe_slot_in_range(probed, p, m);
        assert(probe_set(pre, probed, p, m));
        assert(pre[j]);
        assert(post[j]);
    }
}

/// Law (idempotence): inserting the same item twice changes nothing after
/// the first insertion — the second `set` leaves the bit array as it was.
pub proof fn lemma_set_idempotent(
    pre: Seq<bool>,
    mid: Seq<bool>,
    post: Seq<bool>,
    msg: Seq<u8>,
    k: nat,
    m: nat,
)
    requires
        0 < m,
        pre.len() == m,
        set_updates(pre, mid, msg, k, m),
        set_updates(mid, post, msg, k, m),
    ensures
        post == mid,
{
    assert forall|j: int| 0 <= j < mid.len() implies post[j] == mid[j] by {
        if exists|p: nat| p < k && probe_slot(msg, p, m) == j {
            assert(mid[j]);
            assert(post[j]);
        } else {
            assert(post[j] == mid[j]);
        }
    }
    assert(post =~= mid);
}

} // verus!

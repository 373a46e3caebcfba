//! The statistical sizing math: from a capacity and a false-positive target
//! to a bit-array length `m` and a probe count `k`.
//!
//! The classic formulas are `k = ceil((m/n) * ln 2)` and
//! `m = round(n * ln(1/p) / (ln 2)^2)`. Both are computed here in exact
//! integer arithmetic: `ln 2` is carried as the 53-bit fixed-point constant
//! `LN2_NUMER / LN2_DENOM` (the double-precision value of `ln 2`), and
//! `log2(1/p)` is computed to 48 fractional bits by repeated squaring, so
//! every result is pinned by the contract and the probe-count monotonicity
//! laws are proved rather than sampled.

use vstd::prelude::*;
use vstd::arithmetic::div_mod::{
    lemma_div_is_ordered, lemma_div_pos_is_pos, lemma_fundamental_div_mod,
    lemma_hoist_over_denominator, lemma_mod_bound, lemma_basic_div, lemma_div_multiples_vanish,
};
use vstd::arithmetic::mul::{lemma_mul_inequality, lemma_mul_upper_bound};
use vstd::arithmetic::power2::{
    pow2, lemma_pow2_unfold, lemma_pow2_strictly_increases, lemma2_to64, lemma2_to64_rest,
};

verus! {

/// Numerator of `ln 2` over `LN2_DENOM`: the double-precision value of
/// `ln 2` is exactly `6243314768165359 / 2^53`.
pub const LN2_NUMER: u64 = 6243314768165359;

/// `2^53`, the denominator under `LN2_NUMER`.
pub const LN2_DENOM: u64 = 9007199254740992;

/// `round(2^60 / ln 2)`: the reciprocal of `ln 2` in 60-bit fixed point.
pub const INV_LN2_Q60: u64 = 1663314137230540311;

/// `2^62`: the fixed-point one of the squaring iteration.
pub const FIX_ONE: u128 = 4611686018427387904;

/// `2^47`.
pub const HALF_Q48: u64 = 140737488355328;

/// `2^48`: the fixed-point one of a finished base-2 logarithm.
pub const Q48: u64 = 281474976710656;

/// `2^60`.
pub const Q60: u64 = 1152921504606846976;

/// The probe count `ceil((m / n) * ln 2)`, with `ln 2` taken as
/// `LN2_NUMER / LN2_DENOM`, clamped to `1 ..= u32::MAX`.
pub open spec fn optimal_k_spec(m: int, n: int) -> int
    recommends
        0 < m,
        0 < n,
{
    let raw = (m * LN2_NUMER + n * LN2_DENOM - 1) / (n * LN2_DENOM);
    if raw < 1 {
        1
    } else if raw > u32::MAX {
        u32::MAX as int
    } else {
        raw
    }
}

/// Law: for a fixed capacity `n`, a longer bit array never asks for fewer
/// probes — `optimal_k` is monotone in `m`.
pub proof fn lemma_optimal_k_monotone_in_m(m1: int, m2: int, n: int)
    requires
        0 < m1 <= m2,
        0 < n,
    ensures
        optimal_k_spec(m1, n) <= optimal_k_spec(m2, n),
{
    let d = n * LN2_DENOM;
    lemma_mul_inequality(m1, m2, LN2_NUMER as int);
    assert(m1 * LN2_NUMER <= m2 * LN2_NUMER);
    lemma_div_is_ordered(m1 * LN2_NUMER + d - 1, m2 * LN2_NUMER + d - 1, d);
}

/// Law: for a fixed bit-array length `m`, a larger capacity `n` never asks
/// for more probes — `optimal_k` is antitone in `n`.
pub proof fn lemma_optimal_k_antitone_in_n(m: int, n1: int, n2: int)
    requires
        0 < m,
        0 < n1 <= n2,
    ensures
        optimal_k_spec(m, n2) <= optimal_k_spec(m, n1),
{
    let a = m * LN2_NUMER;
    let d1 = n1 * LN2_DENOM;
    let d2 = n2 * LN2_DENOM;
    lemma_mul_inequality(1, m, LN2_NUMER as int);
    assert(a >= LN2_NUMER > 0);
    lemma_mul_inequality(n1, n2, LN2_DENOM as int);
    assert(0 < d1 <= d2);
    let q1 = (a + d1 - 1) / d1;
    lemma_fundamental_div_mod(a + d1 - 1, d1);
    lemma_mod_bound(a + d1 - 1, d1);
    assert(d1 * q1 >= a);
    lemma_div_pos_is_pos(a + d1 - 1, d1);
    assert(q1 >= 0);
    lemma_mul_inequality(d1, d2, q1);
    assert(d1 * q1 <= d2 * q1);
    assert(a + d2 - 1 <= d2 * q1 + d2 - 1);
    lemma_div_is_ordered(a + d2 - 1, d2 * q1 + d2 - 1, d2);
    lemma_hoist_over_denominator(d2 - 1, q1, d2 as nat);
    assert((d2 - 1 + q1 * d2) / d2 == (d2 - 1) / d2 + q1);
    lemma_basic_div(d2 - 1, d2);
    assert((a + d2 - 1) / d2 <= q1);
}

/// A false-positive target in `(0, 1)`, held exactly as the fraction
/// `num / den`.
#[derive(Clone, Copy)]
pub struct FpRate {
    num: u64,
    den: u64,
}

impl FpRate {
    /// The fraction's numerator.
    pub closed spec fn num_spec(&self) -> u64 {
        self.num
    }

    /// The fraction's denominator.
    pub closed spec fn den_spec(&self) -> u64 {
        self.den
    }

    /// A valid target rate lies strictly between zero and one.
    pub open spec fn wf(&self) -> bool {
        0 < self.num_spec() < self.den_spec()
    }

    /// The rate `num / den`; it must lie strictly between zero and one.
    pub fn new(num: u64, den: u64) -> (r: FpRate)
        requires
            0 < num < den,
        ensures
            r.wf(),
            r.num_spec() == num,
            r.den_spec() == den,
    {
        FpRate { num, den }
    }

    pub fn num(&self) -> (r: u64)
        ensures
            r == self.num_spec(),
    {
        self.num
    }

    pub fn den(&self) -> (r: u64)
        ensures
            r == self.den_spec(),
    {
        self.den
    }
}

/// `floor(log2(den / num))` for `0 < num <= den`.
pub open spec fn ratio_log2_floor(num: int, den: int) -> int
    recommends
        0 < num <= den,
    decreases den - num
        when 0 < num <= den

{
    if 2 * num <= den {
        1 + ratio_log2_floor(2 * num, den)
    } else {
        0
    }
}

/// The squaring iteration: starting from `y` (a ratio in `[1, 2)` in 62-bit
/// fixed point), `steps` squarings yield the next `steps` fractional bits of
/// `log2` of that ratio. Returns the current fixed-point value and the bits
/// gathered so far.
pub open spec fn lg_bits(y: int, steps: nat) -> (int, int)
    decreases steps,
{
    if steps == 0 {
        (y, 0)
    } else {
        let prev = lg_bits(y, (steps - 1) as nat);
        let sq = (prev.0 * prev.0) / (FIX_ONE as int);
        if sq >= 2 * FIX_ONE {
            (sq / 2, prev.1 * 2 + 1)
        } else {
            (sq, prev.1 * 2)
        }
    }
}

/// `log2(den / num)` in 48-bit fixed point (truncated): integer part from
/// `ratio_log2_floor`, 48 fractional bits from the squaring iteration.
pub open spec fn log2_q48_spec(num: int, den: int) -> int
    recommends
        0 < num < den,
{
    let e = ratio_log2_floor(num, den);
    let y0 = (den * FIX_ONE) / (num * pow2(e as nat));
    e * Q48 + lg_bits(y0, 48).1
}

/// The bit count `round(n * log2(den/num) / ln 2)` — equal to
/// `round(n * ln(den/num) / (ln 2)^2)` — computed over the fixed-point
/// logarithm and `INV_LN2_Q60`, saturated at `usize::MAX`.
pub open spec fn compute_m_spec(n: int, num: int, den: int) -> int
    recommends
        0 <= n,
        0 < num < den,
{
    let l = log2_q48_spec(num, den);
    let t = (l * INV_LN2_Q60) / (Q60 as int);
    let v = n * t;
    let mraw = (v + HALF_Q48) / (Q48 as int);
    if mraw > usize::MAX {
        usize::MAX as int
    } else {
        mraw
    }
}

/// `log2(den / num)` in 48-bit fixed point, by exponent search and 48
/// squaring steps.
pub(crate) fn rate_log2_q48(num: u64, den: u64) -> (l: u64)
    requires
        0 < num < den,
    ensures
        l as int == log2_q48_spec(num as int, den as int),
        l < 18014398509481984,  // 64 * 2^48
{
    proof {
        lemma2_to64();
    }
    let mut scaled: u64 = num;
    let mut probe: u64 = 1;
    let mut e: u64 = 0;
    while scaled <= den / 2
        invariant
            0 < num < den,
            num <= scaled <= den,
            scaled as int == num * pow2(e as nat),
            probe as int == pow2(e as nat),
            ratio_log2_floor(num as int, den as int) == e + ratio_log2_floor(
                scaled as int,
                den as int,
            ),
        decreases den - scaled,
    {
        proof {
            lemma_fundamental_div_mod(den as int, 2);
            assert(2 * scaled <= den);
            assert(ratio_log2_floor(scaled as int, den as int) == 1 + ratio_log2_floor(
                2 * (scaled as int),
                den as int,
            ));
            lemma_mul_inequality(1, num as int, pow2(e as nat) as int);
            assert(probe <= scaled);
            lemma_pow2_unfold((e + 1) as nat);
            assert(pow2((e + 1) as nat) == 2 * pow2(e as nat));
            assert((num as int) * (pow2((e + 1) as nat) as int) == 2 * ((num as int) * (pow2(
                e as nat,
            ) as int))) by (nonlinear_arith)
                requires
                    pow2((e + 1) as nat) == 2 * pow2(e as nat),
            ;
            if e + 1 >= 64 {
                lemma2_to64();
                if e + 1 > 64 {
                    lemma_pow2_strictly_increases(64, (e + 1) as nat);
                }
                assert(pow2((e + 1) as nat) >= 0x10000000000000000);
                assert(2 * probe >= 0x10000000000000000);
                assert(false);
            }
        }
        scaled = scaled * 2;
        probe = probe * 2;
        e = e + 1;
    }
    proof {
        lemma_fundamental_div_mod(den as int, 2);
        assert(2 * scaled > den);
        assert(ratio_log2_floor(scaled as int, den as int) == 0);
        assert(e == ratio_log2_floor(num as int, den as int));
        if e >= 64 {
            lemma2_to64();
            if e > 64 {
                lemma_pow2_strictly_increases(64, e as nat);
            }
            assert(pow2(e as nat) >= 0x10000000000000000);
            assert(false);
        }
        lemma_mul_upper_bound(den as int, u64::MAX as int, FIX_ONE as int, FIX_ONE as int);
    }
    let y0: u128 = (den as u128) * FIX_ONE / (scaled as u128);
    proof {
        // den >= scaled, so y0 >= 2^62; den < 2 * scaled, so y0 < 2^63.
        lemma_mul_inequality(scaled as int, den as int, FIX_ONE as int);
        lemma_div_is_ordered(
            (scaled as int) * (FIX_ONE as int),
            (den as int) * (FIX_ONE as int),
            scaled as int,
        );
        lemma_div_multiples_vanish(FIX_ONE as int, scaled as int);
        assert(((scaled as int) * (FIX_ONE as int)) / (scaled as int) == FIX_ONE as int);
        assert(y0 >= FIX_ONE);
        lemma_fundamental_div_mod((den as int) * (FIX_ONE as int), scaled as int);
        lemma_mod_bound((den as int) * (FIX_ONE as int), scaled as int);
        assert((den as int) * (FIX_ONE as int) < (scaled as int) * (2 * FIX_ONE)) by (nonlinear_arith)
            requires
                den < 2 * scaled,
                0 < scaled,
        ;
        assert((scaled as int) * (y0 as int) <= (den as int) * (FIX_ONE as int));
        assert(y0 < 2 * FIX_ONE) by (nonlinear_arith)
            requires
                (scaled as int) * (y0 as int) <= (den as int) * (FIX_ONE as int),
                (den as int) * (FIX_ONE as int) < (scaled as int) * (2 * FIX_ONE),
                0 < scaled,
                0 <= y0,
        ;
    }
    let ghost y_init = y0 as int;
    proof {
        lemma2_to64();
        lemma2_to64_rest();
    }
    let mut y: u128 = y0;
    let mut acc: u64 = 0;
    let mut j: u64 = 0;
    while j < 48
        invariant
            j <= 48,
            FIX_ONE <= y < 2 * FIX_ONE,
            acc < pow2(j as nat),
            (y as int, acc as int) == lg_bits(y_init, j as nat),
        decreases 48 - j,
    {
        proof {
            lemma2_to64();
            lemma2_to64_rest();
            lemma_pow2_strictly_increases(j as nat, 48);
            assert(acc < pow2(48));
            assert(acc < 281474976710656);
            lemma_pow2_unfold((j + 1) as nat);
            assert(pow2((j + 1) as nat) == 2 * pow2(j as nat));
            lemma_mul_upper_bound(y as int, 2 * FIX_ONE - 1, y as int, 2 * FIX_ONE - 1);
            // The square stays within range: y in [2^62, 2^63) keeps
            // y*y/2^62 in [2^62, 2^64).
            assert((y as int) * (y as int) >= (FIX_ONE as int) * (FIX_ONE as int)) by (nonlinear_arith)
                requires
                    y >= FIX_ONE,
            ;
            lemma_div_is_ordered(
                (FIX_ONE as int) * (FIX_ONE as int),
                (y as int) * (y as int),
                FIX_ONE as int,
            );
            lemma_div_multiples_vanish(FIX_ONE as int, FIX_ONE as int);
            lemma_div_is_ordered(
                (y as int) * (y as int),
                (2 * FIX_ONE - 1) * (2 * FIX_ONE - 1),
                FIX_ONE as int,
            );
        }
        y = (y * y) / FIX_ONE;
        if y >= 2 * FIX_ONE {
            y = y / 2;
            acc = acc * 2 + 1;
        } else {
            acc = acc * 2;
        }
        j = j + 1;
    }
    proof {
        lemma2_to64();
        lemma2_to64_rest();
        assert(acc < 281474976710656);
    }
    let l = e * Q48 + acc;
    l
}

} // verus!

//! MeritPocket and Merit batches: per-batch exponential decay and the `minMerit`
//! floor.
//!
//! Each [`MeritBatch`] decays independently toward its own floor contribution:
//!
//! ```text
//! MeriToken_i(t) = (V_i − B_i) · e^(−λ_i · t) + B_i
//! ```
//!
//! and a [`MeritPocket`]'s `curMerit(t)` is the sum over its batches. `e^(−y)` is
//! computed with deterministic fixed-point arithmetic only: the forward series
//! `e^y = Σ y^k / k!` (recurrence `term_k = term_{k−1} · (y / k)`) is summed until a
//! term truncates to zero, and then reciprocated. `y ≤ 0` gives `1` and `y ≥ 30`
//! gives `0`.
//!
//! The floor `minMerit` starts at `e ≈ 2.718281` and moves only through
//! [`MeritPocket::update_min_merit`], which applies `B' = (x + M) · B / M` and never
//! lowers it.
use vstd::prelude::*;

use crate::error::{GmcError, GmcResult};
use crate::types::{
    fits_i128, lemma_trunc_div_bounds, spec_div, spec_mul, trunc_div, ChainId, Decimal, FayID,
    Timestamp, SCALE, elapsed,
};

verus! {

/// Raw value of `e ≈ 2.718281`, truncated to six fractional digits.
pub const E_RAW: i128 = 2_718_281;

/// Exponent (raw) from which `e^(−y)` is treated as exactly `0`: `30.0`.
pub const EXP_NEG_ZERO_THRESHOLD_RAW: i128 = 30_000_000;

/// Upper bound on the number of series terms summed for `e^y`.
pub const MAX_EXP_ITERS: i64 = 1_000;

/// Euler's number `e ≈ 2.718281`, the initial floor of every pocket.
pub fn e() -> (d: Decimal)
    ensures
        d@ == E_RAW,
{
    Decimal::from_raw(E_RAW)
}

/// The protocol decay constant `k = 1` in `λ = k / influenceDuration`.
pub fn decay_constant_k() -> (d: Decimal)
    ensures
        d@ == SCALE,
{
    Decimal::one()
}

/// Partial sums of the forward series `e^y`, continuing from term index `k` with the
/// previous term `term` and running sum `sum`. Summation stops at the iteration cap,
/// when a term truncates to zero, or when a fixed-point step would overflow.
pub open spec fn exp_series(y: int, k: int, term: int, sum: int) -> int
    decreases MAX_EXP_ITERS + 1 - k,
{
    if k > MAX_EXP_ITERS || k < 1 {
        sum
    } else {
        match spec_div(y, k * SCALE) {
            None => sum,
            Some(ratio) => match spec_mul(term, ratio) {
                None => sum,
                Some(t) => if t == 0 {
                    sum
                } else if !fits_i128(sum + t) {
                    sum
                } else {
                    exp_series(y, k + 1, t, sum + t)
                },
            },
        }
    }
}

/// The fixed-point value of `e^(−y)` (raw), for a raw exponent `y`.
pub open spec fn exp_neg_value(y: int) -> int {
    if y <= 0 {
        SCALE as int
    } else if y >= EXP_NEG_ZERO_THRESHOLD_RAW {
        0
    } else {
        match spec_div(SCALE as int, exp_series(y, 1, SCALE as int, SCALE as int)) {
            Some(q) => q,
            None => 0,
        }
    }
}

proof fn lemma_exp_series_at_least(y: int, k: int, term: int, sum: int)
    requires
        y > 0,
        term >= 0,
    ensures
        exp_series(y, k, term, sum) >= sum,
    decreases MAX_EXP_ITERS + 1 - k,
{
    if k > MAX_EXP_ITERS || k < 1 {
    } else {
        match spec_div(y, k * SCALE) {
            None => {},
            Some(ratio) => {
                vstd::arithmetic::mul::lemma_mul_nonnegative(y, SCALE as int);
                vstd::arithmetic::mul::lemma_mul_nonnegative(k, SCALE as int);
                lemma_trunc_div_bounds(y * SCALE, k * SCALE);
                match spec_mul(term, ratio) {
                    None => {},
                    Some(t) => {
                        vstd::arithmetic::mul::lemma_mul_nonnegative(term, ratio);
                        lemma_trunc_div_bounds(term * ratio, SCALE as int);
                        if t != 0 && fits_i128(sum + t) {
                            lemma_exp_series_at_least(y, k + 1, t, sum + t);
                        }
                    },
                }
            },
        }
    }
}

/// The documented accuracy of `e^(−y)`: `e^(−1)` is within `0.001` of `0.367879`,
/// and `e^(−25)` is at most `0.000001`.
pub proof fn lemma_exp_neg_accuracy()
    ensures
        367_879 - 1_000 <= exp_neg_value(SCALE as int) <= 367_879 + 1_000,
        exp_neg_value(25 * SCALE) <= 1,
{
    let y: int = 1_000_000;
    assert(exp_series(y, 10, 2, 2718277) == 2718277);
    assert(exp_series(y, 9, 24, 2718275) == 2718277);
    assert(exp_series(y, 8, 198, 2718251) == 2718277);
    assert(exp_series(y, 7, 1388, 2718053) == 2718277);
    assert(exp_series(y, 6, 8333, 2716665) == 2718277);
    assert(exp_series(y, 5, 41666, 2708332) == 2718277);
    assert(exp_series(y, 4, 166666, 2666666) == 2718277);
    assert(exp_series(y, 3, 500000, 2500000) == 2718277);
    assert(exp_series(y, 2, 1000000, 2000000) == 2718277);
    assert(exp_series(y, 1, 1000000, 1000000) == 2718277);
    assert(exp_neg_value(y) == 367880);
    let z: int = 25_000_000;
    lemma_exp_series_at_least(z, 8, 1211014568723, 1650697614853);
    assert(exp_series(z, 7, 339084133496, 439683046130) == exp_series(z, 8, 1211014568723, 1650697614853));
    assert(exp_series(z, 6, 81380205060, 100598912634) == exp_series(z, 7, 339084133496, 439683046130));
    assert(exp_series(z, 5, 16276041012, 19218707574) == exp_series(z, 6, 81380205060, 100598912634));
    assert(exp_series(z, 4, 2604166562, 2942666562) == exp_series(z, 5, 16276041012, 19218707574));
    assert(exp_series(z, 3, 312500000, 338500000) == exp_series(z, 4, 2604166562, 2942666562));
    assert(exp_series(z, 2, 25000000, 26000000) == exp_series(z, 3, 312500000, 338500000));
    assert(exp_series(z, 1, 1000000, 1000000) == exp_series(z, 2, 25000000, 26000000));
    let big = exp_series(z, 1, 1_000_000, 1_000_000);
    assert(big >= 1650697614853);
    vstd::arithmetic::div_mod::lemma_basic_div(1_000_000_000_000int, big);
}

/// `e^(−y)` always lies in `[0, 1]`.
pub proof fn lemma_exp_neg_in_unit_interval(y: int)
    ensures
        0 <= exp_neg_value(y) <= SCALE,
{
    if 0 < y < EXP_NEG_ZERO_THRESHOLD_RAW {
        let s = exp_series(y, 1, SCALE as int, SCALE as int);
        lemma_exp_series_at_least(y, 1, SCALE as int, SCALE as int);
        assert(SCALE * SCALE == 1_000_000_000_000int);
        if fits_i128(trunc_div(SCALE * SCALE, s)) {
            vstd::arithmetic::div_mod::lemma_div_is_ordered_by_denominator(
                SCALE * SCALE,
                SCALE as int,
                s,
            );
            vstd::arithmetic::div_mod::lemma_div_pos_is_pos(SCALE * SCALE, s);
            assert((SCALE * SCALE) / (SCALE as int) == SCALE);
        }
    }
}

/// Upper bound on the `k`-th series term for any exponent below `30`:
/// `⌈30 · bound(k − 1) / k⌉`, starting from `1`.
pub open spec fn term_bound(k: int) -> int
    decreases k,
{
    if k <= 0 {
        SCALE as int
    } else {
        (term_bound(k - 1) * 30 + k - 1) / k
    }
}

/// The largest value [`term_bound`] takes (at `k = 29`).
pub open spec fn term_cap() -> int {
    776_207_020_879_808_118
}

proof fn lemma_term_bound_table()
    ensures
        term_bound(29) == term_cap(),
        term_bound(30) == term_cap(),
{
    assert(term_bound(0) == 1000000int);
    assert(term_bound(1) == 30000000int);
    assert(term_bound(2) == 450000000int);
    assert(term_bound(3) == 4500000000int);
    assert(term_bound(4) == 33750000000int);
    assert(term_bound(5) == 202500000000int);
    assert(term_bound(6) == 1012500000000int);
    assert(term_bound(7) == 4339285714286int);
    assert(term_bound(8) == 16272321428573int);
    assert(term_bound(9) == 54241071428577int);
    assert(term_bound(10) == 162723214285731int);
    assert(term_bound(11) == 443790584415630int);
    assert(term_bound(12) == 1109476461039075int);
    assert(term_bound(13) == 2560330294705558int);
    assert(term_bound(14) == 5486422060083339int);
    assert(term_bound(15) == 10972844120166678int);
    assert(term_bound(16) == 20574082725312522int);
    assert(term_bound(17) == 36307204809375039int);
    assert(term_bound(18) == 60512008015625065int);
    assert(term_bound(19) == 95545275814144840int);
    assert(term_bound(20) == 143317913721217260int);
    assert(term_bound(21) == 204739876744596086int);
    assert(term_bound(22) == 279190741015358300int);
    assert(term_bound(23) == 364161836106989087int);
    assert(term_bound(24) == 455202295133736359int);
    assert(term_bound(25) == 546242754160483631int);
    assert(term_bound(26) == 630280100954404190int);
    assert(term_bound(27) == 700311223282671323int);
    assert(term_bound(28) == 750333453517147847int);
    assert(term_bound(29) == 776207020879808118int);
    assert(term_bound(30) == 776207020879808118int);
}

proof fn lemma_term_bound_le_cap(k: int)
    requires
        0 <= k,
    ensures
        0 <= term_bound(k) <= term_cap(),
    decreases k,
{
    if k <= 30 {
        lemma_term_bound_table();
    assert(term_bound(0) == 1000000int);
    assert(term_bound(1) == 30000000int);
    assert(term_bound(2) == 450000000int);
    assert(term_bound(3) == 4500000000int);
    assert(term_bound(4) == 33750000000int);
    assert(term_bound(5) == 202500000000int);
    assert(term_bound(6) == 1012500000000int);
    assert(term_bound(7) == 4339285714286int);
    assert(term_bound(8) == 16272321428573int);
    assert(term_bound(9) == 54241071428577int);
    assert(term_bound(10) == 162723214285731int);
    assert(term_bound(11) == 443790584415630int);
    assert(term_bound(12) == 1109476461039075int);
    assert(term_bound(13) == 2560330294705558int);
    assert(term_bound(14) == 5486422060083339int);
    assert(term_bound(15) == 10972844120166678int);
    assert(term_bound(16) == 20574082725312522int);
    assert(term_bound(17) == 36307204809375039int);
    assert(term_bound(18) == 60512008015625065int);
    assert(term_bound(19) == 95545275814144840int);
    assert(term_bound(20) == 143317913721217260int);
    assert(term_bound(21) == 204739876744596086int);
    assert(term_bound(22) == 279190741015358300int);
    assert(term_bound(23) == 364161836106989087int);
    assert(term_bound(24) == 455202295133736359int);
    assert(term_bound(25) == 546242754160483631int);
    assert(term_bound(26) == 630280100954404190int);
    assert(term_bound(27) == 700311223282671323int);
    assert(term_bound(28) == 750333453517147847int);
    assert(term_bound(29) == 776207020879808118int);
    assert(term_bound(30) == 776207020879808118int);
        assert(k == 0 || k == 1 || k == 2 || k == 3 || k == 4 || k == 5 || k == 6 || k == 7 || k == 8 || k == 9 || k == 10 || k == 11 || k == 12 || k == 13 || k == 14 || k == 15 || k == 16 || k == 17 || k == 18 || k == 19 || k == 20 || k == 21 || k == 22 || k == 23 || k == 24 || k == 25 || k == 26 || k == 27 || k == 28 || k == 29 || k == 30);
    } else {
        lemma_term_bound_le_cap(k - 1);
        let g = term_bound(k - 1);
        assert(0 <= (g * 30 + k - 1) / k <= g) by (nonlinear_arith)
            requires
                k >= 31,
                g >= 0,
        {
            vstd::arithmetic::div_mod::lemma_fundamental_div_mod(g * 30 + k - 1, k);
            vstd::arithmetic::div_mod::lemma_mod_pos_bound(g * 30 + k - 1, k);
        }
    }
}

proof fn lemma_floor_div(x: int, d: int)
    requires
        x >= 0,
        d > 0,
    ensures
        x / d >= 0,
        (x / d) * d <= x < (x / d) * d + d,
{
    vstd::arithmetic::div_mod::lemma_fundamental_div_mod(x, d);
    vstd::arithmetic::div_mod::lemma_mod_pos_bound(x, d);
    vstd::arithmetic::div_mod::lemma_div_pos_is_pos(x, d);
    vstd::arithmetic::mul::lemma_mul_is_commutative(d, x / d);
}

/// One series step for an exponent below `30`: the ratio `y / k` and the next term
/// are representable, and the next term stays within [`term_bound`].
proof fn lemma_series_step(y: int, k: int, term: int)
    requires
        0 < y < EXP_NEG_ZERO_THRESHOLD_RAW,
        1 <= k,
        0 <= term <= term_bound(k - 1),
    ensures
        spec_div(y, k * SCALE) is Some,
        0 <= spec_div(y, k * SCALE).unwrap(),
        spec_div(y, k * SCALE).unwrap() * k <= y,
        spec_mul(term, spec_div(y, k * SCALE).unwrap()) is Some,
        0 <= spec_mul(term, spec_div(y, k * SCALE).unwrap()).unwrap() <= term_bound(k),
{
    lemma_term_bound_le_cap(k - 1);
    let d = k * SCALE;
    assert(d >= SCALE) by (nonlinear_arith)
        requires
            k >= 1,
            d == k * SCALE,
    ;
    let x = y * SCALE;
    assert(0 < x < 30_000_000_000_000int);
    lemma_floor_div(x, d);
    let r = x / d;
    assert(trunc_div(x, d) == r);
    assert(r * k <= y) by (nonlinear_arith)
        requires
            r * d <= x,
            d == k * SCALE,
            x == y * SCALE,
            k >= 1,
            r >= 0,
    ;
    assert(r <= y) by (nonlinear_arith)
        requires
            r * k <= y,
            k >= 1,
            r >= 0,
    ;
    assert(spec_div(y, k * SCALE) == Some(r));
    let p = term * r;
    assert(0 <= p <= term_cap() * EXP_NEG_ZERO_THRESHOLD_RAW) by (nonlinear_arith)
        requires
            0 <= term <= term_cap(),
            0 <= r < EXP_NEG_ZERO_THRESHOLD_RAW,
            p == term * r,
    ;
    lemma_floor_div(p, SCALE as int);
    let t = p / SCALE as int;
    assert(trunc_div(p, SCALE as int) == t);
    assert(spec_mul(term, r) == Some(t));
    let g = term_bound(k - 1);
    assert(t * k <= g * 30) by (nonlinear_arith)
        requires
            t * SCALE <= p,
            p == term * r,
            r * k <= y,
            y < 30 * SCALE,
            0 <= term <= g,
            t >= 0,
            k >= 1,
            r >= 0,
    ;
    lemma_floor_div(g * 30 + k - 1, k);
    assert(t <= (g * 30 + k - 1) / k) by (nonlinear_arith)
        requires
            t * k <= g * 30,
            ((g * 30 + k - 1) / k) * k + k > g * 30 + k - 1,
            k >= 1,
            t >= 0,
    ;
}

/// The series for a larger exponent dominates the series for a smaller one, when
/// both start from dominated terms and sums below the overflow-free envelope.
proof fn lemma_exp_series_monotone(
    y1: int,
    y2: int,
    k: int,
    t1: int,
    t2: int,
    s1: int,
    s2: int,
)
    requires
        0 < y1 <= y2 < EXP_NEG_ZERO_THRESHOLD_RAW,
        1 <= k,
        0 <= t1 <= t2 <= term_bound(k - 1),
        0 <= s1 <= s2 <= SCALE + (k - 1) * term_cap(),
    ensures
        exp_series(y1, k, t1, s1) <= exp_series(y2, k, t2, s2),
    decreases MAX_EXP_ITERS + 1 - k,
{
    if k > MAX_EXP_ITERS {
    } else {
        lemma_series_step(y1, k, t1);
        lemma_series_step(y2, k, t2);
        let r1 = spec_div(y1, k * SCALE).unwrap();
        let r2 = spec_div(y2, k * SCALE).unwrap();
        assert(r1 <= r2) by {
            vstd::arithmetic::mul::lemma_mul_inequality(y1, y2, SCALE as int);
            vstd::arithmetic::div_mod::lemma_div_is_ordered(y1 * SCALE, y2 * SCALE, k * SCALE);
        }
        let n1 = spec_mul(t1, r1).unwrap();
        let n2 = spec_mul(t2, r2).unwrap();
        assert(n1 <= n2) by {
            assert(t1 * r1 <= t2 * r2) by (nonlinear_arith)
                requires
                    0 <= t1 <= t2,
                    0 <= r1 <= r2,
            ;
            vstd::arithmetic::mul::lemma_mul_nonnegative(t1, r1);
            vstd::arithmetic::div_mod::lemma_div_is_ordered(t1 * r1, t2 * r2, SCALE as int);
        }
        lemma_term_bound_le_cap(k);
        assert(s2 + n2 <= SCALE + k * term_cap()) by (nonlinear_arith)
            requires
                s2 <= SCALE + (k - 1) * term_cap(),
                n2 <= term_cap(),
        ;
        assert(SCALE + k * term_cap() <= i128::MAX) by (nonlinear_arith)
            requires
                k <= MAX_EXP_ITERS,
        ;
        if n2 == 0 {
        } else if n1 == 0 {
            lemma_exp_series_at_least(y2, k + 1, n2, s2 + n2);
        } else {
            lemma_exp_series_monotone(y1, y2, k + 1, n1, n2, s1 + n1, s2 + n2);
        }
    }
}

/// `e^(−y)` never increases as `y` grows.
pub proof fn lemma_exp_neg_non_increasing(y1: int, y2: int)
    requires
        y1 <= y2,
    ensures
        exp_neg_value(y2) <= exp_neg_value(y1),
{
    lemma_exp_neg_in_unit_interval(y1);
    lemma_exp_neg_in_unit_interval(y2);
    if 0 < y1 && y2 < EXP_NEG_ZERO_THRESHOLD_RAW {
        let s1 = exp_series(y1, 1, SCALE as int, SCALE as int);
        let s2 = exp_series(y2, 1, SCALE as int, SCALE as int);
        lemma_term_bound_le_cap(0);
        lemma_exp_series_monotone(y1, y2, 1, SCALE as int, SCALE as int, SCALE as int, SCALE as int);
        lemma_exp_series_at_least(y1, 1, SCALE as int, SCALE as int);
        assert(SCALE * SCALE == 1_000_000_000_000int);
        vstd::arithmetic::div_mod::lemma_div_is_ordered_by_denominator(SCALE * SCALE, s1, s2);
        vstd::arithmetic::div_mod::lemma_div_pos_is_pos(SCALE * SCALE, s2);
        vstd::arithmetic::div_mod::lemma_div_is_ordered_by_denominator(SCALE * SCALE, SCALE as int, s1);
        assert((SCALE * SCALE) / (SCALE as int) == SCALE);
    }
}

/// The running sum `Σ y^k / k!` for a raw exponent `0 < y < 30`.
fn exp_pos_series(y: Decimal) -> (s: Decimal)
    requires
        0 < y@ < EXP_NEG_ZERO_THRESHOLD_RAW,
    ensures
        s@ == exp_series(y@, 1, SCALE as int, SCALE as int),
{
    let mut term = Decimal::one();
    let mut sum = Decimal::one();
    let mut k: i64 = 1;
    while k <= MAX_EXP_ITERS
        invariant
            0 < y@ < EXP_NEG_ZERO_THRESHOLD_RAW,
            1 <= k <= MAX_EXP_ITERS + 1,
            exp_series(y@, k as int, term@, sum@) == exp_series(
                y@,
                1,
                SCALE as int,
                SCALE as int,
            ),
        decreases MAX_EXP_ITERS + 1 - k,
    {
        let kd = Decimal::from_int(k);
        let ratio = match y.checked_div(kd) {
            Some(r) => r,
            None => {
                return sum;
            },
        };
        let t = match term.checked_mul(ratio) {
            Some(t) => t,
            None => {
                return sum;
            },
        };
        if t.is_zero() {
            return sum;
        }
        sum = match sum.checked_add(t) {
            Some(s) => s,
            None => {
                return sum;
            },
        };
        term = t;
        k = k + 1;
    }
    sum
}

/// Deterministic fixed-point `e^(−y)`: `1` for `y ≤ 0`, `0` for `y ≥ 30`, otherwise
/// the reciprocal of the truncated forward series for `e^y`. The result lies in
/// `[0, 1]`.
pub fn exp_neg(y: Decimal) -> (r: Decimal)
    ensures
        r@ == exp_neg_value(y@),
        0 <= r@ <= SCALE,
{
    proof {
        lemma_exp_neg_in_unit_interval(y@);
    }
    if y.raw() <= 0 {
        return Decimal::one();
    }
    if y.raw() >= EXP_NEG_ZERO_THRESHOLD_RAW {
        return Decimal::zero();
    }
    let s = exp_pos_series(y);
    match Decimal::one().checked_div(s) {
        Some(q) => q,
        None => Decimal::zero(),
    }
}

/// A single Merit acquisition batch.
#[derive(Debug, Clone, PartialEq, Eq)]
pub struct MeritBatch {
    /// Stable identifier for this batch.
    pub batch_id: String,
    /// Initial Merit value `V` (the mint amount).
    pub v: Decimal,
    /// This batch's contribution `B` to the pocket's floor; its decay lower bound.
    pub b: Decimal,
    /// Decay coefficient `λ`.
    pub lambda: Decimal,
    /// How long the contribution stays relevant.
    pub influence_duration: Decimal,
    /// On-chain time the batch was acquired.
    pub acquired_at: Timestamp,
    /// The chain that minted this batch.
    pub source_chain_id: ChainId,
}

/// Elapsed seconds since acquisition, clamped to `i64::MAX`.
pub open spec fn clamped_elapsed(acquired: u64, now: u64) -> int {
    let e = elapsed(acquired, now);
    if e > i64::MAX {
        i64::MAX as int
    } else {
        e
    }
}

/// The decay factor `e^(−λ·t)` (raw) of a batch with coefficient `lambda` acquired at
/// `acquired`, at time `now`; an overflowing exponent counts as fully decayed.
pub open spec fn decay_factor(lambda: int, acquired: u64, now: u64) -> int {
    match spec_mul(lambda, clamped_elapsed(acquired, now) * SCALE) {
        Some(y) => exp_neg_value(y),
        None => 0,
    }
}

/// `(V − B) · factor + B` (raw), falling back to the floor `B` on any overflow.
pub open spec fn decayed_value(v: int, b: int, factor: int) -> int {
    if !fits_i128(v - b) {
        b
    } else {
        match spec_mul(v - b, factor) {
            None => b,
            Some(s) => if fits_i128(s + b) {
                s + b
            } else {
                b
            },
        }
    }
}

/// A batch's value is its amplitude decayed over the seconds actually elapsed since
/// acquisition: with `t = now − acquired_at` (no overflow anywhere), the value is
/// `(V − B) · e^(−λ·t) + B` in fixed point, the exponent being `λ·t` itself.
pub proof fn lemma_value_decays_over_elapsed_time(batch: MeritBatch, now: u64)
    requires
        batch.acquired_at.secs <= now,
        now - batch.acquired_at.secs <= i64::MAX,
        fits_i128(batch.lambda@ * (now - batch.acquired_at.secs) * SCALE),
        fits_i128(batch.v@ - batch.b@),
        fits_i128(
            (batch.v@ - batch.b@) * exp_neg_value(batch.lambda@ * (now - batch.acquired_at.secs)),
        ),
        fits_i128(
            trunc_div(
                (batch.v@ - batch.b@) * exp_neg_value(
                    batch.lambda@ * (now - batch.acquired_at.secs),
                ),
                SCALE as int,
            ) + batch.b@,
        ),
    ensures
        batch.value_at(now) == trunc_div(
            (batch.v@ - batch.b@) * exp_neg_value(batch.lambda@ * (now - batch.acquired_at.secs)),
            SCALE as int,
        ) + batch.b@,
{
    let t = now - batch.acquired_at.secs;
    let l = batch.lambda@;
    assert(l * (t * SCALE) == (l * t) * SCALE) by (nonlinear_arith);
    assert(trunc_div((l * t) * SCALE, SCALE as int) == l * t) by {
        if l * t >= 0 {
            vstd::arithmetic::div_mod::lemma_div_multiples_vanish(l * t, SCALE as int);
        } else {
            vstd::arithmetic::div_mod::lemma_div_multiples_vanish(-(l * t), SCALE as int);
            assert(-((l * t) * SCALE) == (-(l * t)) * SCALE) by (nonlinear_arith);
        }
    }
    assert(spec_mul(l, t * SCALE) == Some(l * t));
}

impl MeritBatch {
    /// The batch's decayed value (raw) at time `now`.
    pub open spec fn value_at(&self, now: u64) -> int {
        decayed_value(
            self.v@,
            self.b@,
            decay_factor(self.lambda@, self.acquired_at.secs, now),
        )
    }

    /// Builds a batch from an explicit decay coefficient `lambda`.
    pub fn new(
        batch_id: &str,
        v: Decimal,
        b: Decimal,
        lambda: Decimal,
        influence_duration: Decimal,
        acquired_at: Timestamp,
        source_chain_id: ChainId,
    ) -> (r: MeritBatch)
        ensures
            r.batch_id@ == batch_id@,
            r.v == v,
            r.b == b,
            r.lambda == lambda,
            r.influence_duration == influence_duration,
            r.acquired_at == acquired_at,
            r.source_chain_id == source_chain_id,
    {
        MeritBatch {
            batch_id: batch_id.to_owned(),
            v,
            b,
            lambda,
            influence_duration,
            acquired_at,
            source_chain_id,
        }
    }

    /// Builds a batch with `λ = k / influenceDuration`; `None` when the duration is
    /// not strictly positive or the division overflows.
    pub fn with_influence_duration(
        batch_id: &str,
        v: Decimal,
        b: Decimal,
        influence_duration: Decimal,
        acquired_at: Timestamp,
        source_chain_id: ChainId,
    ) -> (r: Option<MeritBatch>)
        ensures
            r is Some <==> (influence_duration@ > 0 && spec_div(
                SCALE as int,
                influence_duration@,
            ) is Some),
            r matches Some(m) ==> {
                &&& m.batch_id@ == batch_id@
                &&& m.v == v
                &&& m.b == b
                &&& spec_div(SCALE as int, influence_duration@) == Some(m.lambda@)
                &&& m.influence_duration == influence_duration
                &&& m.acquired_at == acquired_at
                &&& m.source_chain_id == source_chain_id
            },
    {
        if !influence_duration.is_positive() {
            return None;
        }
        match Self::lambda_from_duration(influence_duration) {
            Some(lambda) => Some(
                Self::new(batch_id, v, b, lambda, influence_duration, acquired_at, source_chain_id),
            ),
            None => None,
        }
    }

    /// `λ = k / influenceDuration` for a strictly positive duration; `None` for a
    /// non-positive duration or on overflow.
    pub fn lambda_from_duration(influence_duration: Decimal) -> (r: Option<Decimal>)
        ensures
            r is Some <==> (influence_duration@ > 0 && spec_div(
                SCALE as int,
                influence_duration@,
            ) is Some),
            r matches Some(l) ==> spec_div(SCALE as int, influence_duration@) == Some(l@),
    {
        if !influence_duration.is_positive() {
            return None;
        }
        decay_constant_k().checked_div(influence_duration)
    }

    /// The decayed value `(V − B) · e^(−λ·t) + B` at `now`, with
    /// `t = now − acquired_at` saturating at zero; any overflow falls back to `B`.
    pub fn merit_at(&self, now: Timestamp) -> (r: Decimal)
        ensures
            r@ == self.value_at(now.secs),
    {
        let elapsed_secs = now.saturating_elapsed_since(self.acquired_at);
        let clamped: i64 = if elapsed_secs > (i64::MAX as u64) {
            i64::MAX
        } else {
            elapsed_secs as i64
        };
        let t = Decimal::from_int(clamped);
        let factor = match self.lambda.checked_mul(t) {
            Some(y) => exp_neg(y),
            None => Decimal::zero(),
        };
        match self.v.checked_sub(self.b) {
            None => self.b,
            Some(amplitude) => match amplitude.checked_mul(factor) {
                None => self.b,
                Some(scaled) => match scaled.checked_add(self.b) {
                    Some(s) => s,
                    None => self.b,
                },
            },
        }
    }
}

/// A batch whose floor does not exceed its initial value keeps its decayed value
/// within `[B, V]` at every time.
pub proof fn lemma_value_between_floor_and_initial(batch: MeritBatch, now: u64)
    requires
        batch.b@ <= batch.v@,
    ensures
        batch.b@ <= batch.value_at(now) <= batch.v@,
{
    let f = decay_factor(batch.lambda@, batch.acquired_at.secs, now);
    match spec_mul(batch.lambda@, clamped_elapsed(batch.acquired_at.secs, now) * SCALE) {
        Some(y) => lemma_exp_neg_in_unit_interval(y),
        None => {},
    }
    assert(0 <= f <= SCALE);
    let a = batch.v@ - batch.b@;
    if fits_i128(a) {
        match spec_mul(a, f) {
            None => {},
            Some(s) => {
                vstd::arithmetic::mul::lemma_mul_inequality(f, SCALE as int, a);
                vstd::arithmetic::mul::lemma_mul_nonnegative(a, f);
                vstd::arithmetic::mul::lemma_mul_is_commutative(a, f);
                vstd::arithmetic::mul::lemma_mul_is_commutative(a, SCALE as int);
                vstd::arithmetic::div_mod::lemma_div_is_ordered(a * f, a * SCALE, SCALE as int);
                vstd::arithmetic::div_mod::lemma_div_multiples_vanish(a, SCALE as int);
                lemma_trunc_div_bounds(a * f, SCALE as int);
            },
        }
    }
}

/// At or before the acquisition time a batch is worth exactly its initial value,
/// provided the amplitude scaled by one does not overflow.
pub proof fn lemma_value_at_acquisition(batch: MeritBatch, now: u64)
    requires
        now <= batch.acquired_at.secs,
        batch.b@ <= batch.v@,
        fits_i128((batch.v@ - batch.b@) * SCALE),
    ensures
        batch.value_at(now) == batch.v@,
{
    assert(clamped_elapsed(batch.acquired_at.secs, now) == 0);
    assert(spec_mul(batch.lambda@, 0) == Some(0int)) by {
        assert(trunc_div(0, SCALE as int) == 0);
    }
    let a = batch.v@ - batch.b@;
    assert(decay_factor(batch.lambda@, batch.acquired_at.secs, now) == SCALE);
    vstd::arithmetic::div_mod::lemma_div_multiples_vanish(a, SCALE as int);
    vstd::arithmetic::mul::lemma_mul_is_commutative(a, SCALE as int);
    if a >= 0 {
        assert(trunc_div(a * SCALE, SCALE as int) == a);
    }
    assert(fits_i128(a));
}

proof fn lemma_decayed_value_monotone(v: int, b: int, f1: int, f2: int)
    requires
        0 <= f1 <= f2 <= SCALE,
        b <= v,
        fits_i128(b),
        fits_i128(v),
        fits_i128((v - b) * SCALE),
    ensures
        b <= decayed_value(v, b, f1) <= decayed_value(v, b, f2) <= v,
{
    let a = v - b;
    assert(0 <= a * f1 <= a * f2 <= a * SCALE) by (nonlinear_arith)
        requires
            0 <= f1 <= f2 <= SCALE,
            a >= 0,
    ;
    lemma_floor_div(a * f1, SCALE as int);
    lemma_floor_div(a * f2, SCALE as int);
    vstd::arithmetic::div_mod::lemma_div_is_ordered(a * f1, a * f2, SCALE as int);
    vstd::arithmetic::div_mod::lemma_div_is_ordered(a * f2, a * SCALE, SCALE as int);
    vstd::arithmetic::div_mod::lemma_div_multiples_vanish(a, SCALE as int);
    vstd::arithmetic::mul::lemma_mul_is_commutative(a, SCALE as int);
    assert(trunc_div(a * f1, SCALE as int) == (a * f1) / (SCALE as int));
    assert(trunc_div(a * f2, SCALE as int) == (a * f2) / (SCALE as int));
}

proof fn lemma_decay_factor_monotone(lambda: int, acquired: u64, t1: u64, t2: u64)
    requires
        t1 <= t2,
        lambda >= 0,
    ensures
        0 <= decay_factor(lambda, acquired, t2) <= decay_factor(lambda, acquired, t1) <= SCALE,
{
    let e1 = clamped_elapsed(acquired, t1);
    let e2 = clamped_elapsed(acquired, t2);
    assert(0 <= e1 <= e2);
    let p1 = lambda * (e1 * SCALE);
    let p2 = lambda * (e2 * SCALE);
    assert(0 <= p1 <= p2) by (nonlinear_arith)
        requires
            0 <= e1 <= e2,
            lambda >= 0,
            p1 == lambda * (e1 * SCALE),
            p2 == lambda * (e2 * SCALE),
    ;
    match spec_mul(lambda, e1 * SCALE) {
        Some(y1) => {
            lemma_exp_neg_in_unit_interval(y1);
            match spec_mul(lambda, e2 * SCALE) {
                Some(y2) => {
                    lemma_exp_neg_in_unit_interval(y2);
                    lemma_floor_div(p1, SCALE as int);
                    lemma_floor_div(p2, SCALE as int);
                    vstd::arithmetic::div_mod::lemma_div_is_ordered(p1, p2, SCALE as int);
                    assert(y1 == p1 / (SCALE as int));
                    assert(y2 == p2 / (SCALE as int));
                    lemma_exp_neg_non_increasing(y1, y2);
                },
                None => {},
            }
        },
        None => {
            assert(spec_mul(lambda, e2 * SCALE) is None);
        },
    }
}

/// A batch with a non-negative decay coefficient and a floor no larger than its
/// initial value never gains value over time (when its amplitude scaled by one fits).
pub proof fn lemma_value_non_increasing(batch: MeritBatch, t1: u64, t2: u64)
    requires
        t1 <= t2,
        batch.lambda@ >= 0,
        batch.b@ <= batch.v@,
        fits_i128((batch.v@ - batch.b@) * SCALE),
    ensures
        batch.value_at(t2) <= batch.value_at(t1),
{
    lemma_decay_factor_monotone(batch.lambda@, batch.acquired_at.secs, t1, t2);
    lemma_decayed_value_monotone(
        batch.v@,
        batch.b@,
        decay_factor(batch.lambda@, batch.acquired_at.secs, t2),
        decay_factor(batch.lambda@, batch.acquired_at.secs, t1),
    );
}

/// `curMerit` over the first `n` batches: a left-to-right sum that skips a term
/// whose addition would overflow.
pub open spec fn cur_merit_prefix(batches: Seq<MeritBatch>, now: u64, n: int) -> int
    decreases n,
{
    if n <= 0 {
        0
    } else {
        let t = cur_merit_prefix(batches, now, n - 1);
        let m = batches[n - 1].value_at(now);
        if fits_i128(t + m) {
            t + m
        } else {
            t
        }
    }
}

/// `Σ B_i` over the first `n` batches.
pub open spec fn floor_sum(batches: Seq<MeritBatch>, n: int) -> int
    decreases n,
{
    if n <= 0 {
        0
    } else {
        floor_sum(batches, n - 1) + batches[n - 1].b@
    }
}

/// `Σ V_i` over the first `n` batches.
pub open spec fn initial_sum(batches: Seq<MeritBatch>, n: int) -> int
    decreases n,
{
    if n <= 0 {
        0
    } else {
        initial_sum(batches, n - 1) + batches[n - 1].v@
    }
}

/// The container of MeriToken for one identity.
#[derive(Debug, Clone, PartialEq, Eq)]
pub struct MeritPocket {
    /// The identity this pocket is bound to.
    pub fay_id: FayID,
    /// The floor value `minMerit`.
    pub min_merit: Decimal,
    /// Active Merit batches; each decays independently.
    pub batches: Vec<MeritBatch>,
}

/// The floor after a mint of `x` with pre-mint `curMerit` `m` and floor `b`, or
/// `None` when the mint is rejected (non-positive `x`, or an overflow).
pub open spec fn updated_floor(b: int, x: int, m: int) -> Option<int> {
    if x <= 0 {
        None
    } else if m == 0 {
        if fits_i128(b + x) {
            Some(b + x)
        } else {
            None
        }
    } else if !fits_i128(x + m) {
        None
    } else {
        match spec_mul(x + m, b) {
            None => None,
            Some(p) => match spec_div(p, m) {
                None => None,
                Some(q) => Some(
                    if q < b {
                        b
                    } else {
                        q
                    },
                ),
            },
        }
    }
}

/// The floor after a mint follows `B' = (x + M) · B / M` (fixed point, never below
/// the old floor `B`) when the pocket's `curMerit` `M` is positive, and `B' = B + x`
/// when `M` is zero; a non-positive `x` is refused.
pub proof fn lemma_floor_formula(b: int, x: int, m: int)
    requires
        fits_i128(b),
        fits_i128(x),
        m >= 0,
        fits_i128(m),
    ensures
        x <= 0 ==> updated_floor(b, x, m) is None,
        x > 0 && m == 0 && fits_i128(b + x) ==> updated_floor(b, x, m) == Some(b + x),
        x > 0 && m > 0 && fits_i128(x + m) && fits_i128((x + m) * b) && fits_i128(
            trunc_div((x + m) * b, SCALE as int) * SCALE,
        ) ==> updated_floor(b, x, m) == Some(
            if trunc_div(trunc_div((x + m) * b, SCALE as int) * SCALE, m) < b {
                b
            } else {
                trunc_div(trunc_div((x + m) * b, SCALE as int) * SCALE, m)
            },
        ),
{
    if x > 0 && m > 0 && fits_i128(x + m) && fits_i128((x + m) * b) && fits_i128(
        trunc_div((x + m) * b, SCALE as int) * SCALE,
    ) {
        let p = trunc_div((x + m) * b, SCALE as int);
        lemma_trunc_div_bounds(p * SCALE, m);
    }
}

impl MeritPocket {
    /// `curMerit` (raw) at time `now`.
    pub open spec fn cur_merit_value(&self, now: u64) -> int {
        cur_merit_prefix(self.batches@, now, self.batches@.len() as int)
    }

    /// An empty pocket for `fay_id` with its floor at `e`.
    pub fn new(fay_id: FayID) -> (p: MeritPocket)
        ensures
            p.fay_id == fay_id,
            p.min_merit@ == E_RAW,
            p.batches@.len() == 0,
    {
        MeritPocket { fay_id, min_merit: e(), batches: Vec::new() }
    }

    /// Appends a batch; the floor is not touched.
    pub fn add_batch(&mut self, batch: MeritBatch)
        ensures
            final(self).batches@ == old(self).batches@.push(batch),
            final(self).min_merit == old(self).min_merit,
            final(self).fay_id == old(self).fay_id,
    {
        self.batches.push(batch);
    }

    /// The current floor `minMerit`.
    pub fn min_merit(&self) -> (d: Decimal)
        ensures
            d == self.min_merit,
    {
        self.min_merit
    }

    /// `curMerit(now) = Σ_i MeriToken_i(now)`; `0` for an empty pocket.
    pub fn cur_merit(&self, now: Timestamp) -> (d: Decimal)
        ensures
            d@ == self.cur_merit_value(now.secs),
    {
        let mut total = Decimal::zero();
        let mut i: usize = 0;
        while i < self.batches.len()
            invariant
                i <= self.batches@.len(),
                total@ == cur_merit_prefix(self.batches@, now.secs, i as int),
            decreases self.batches@.len() - i,
        {
            let m = self.batches[i].merit_at(now);
            total = match total.checked_add(m) {
                Some(s) => s,
                None => total,
            };
            i = i + 1;
        }
        total
    }

    /// Applies the floor rule `B' = (x + M) · B / M` for a mint of `mint_amount` with
    /// pre-mint `curMerit` `cur_merit_before`. `M = 0` settles the whole amount into
    /// the floor (`B' = B + x`); the result is never below `B`. A non-positive amount,
    /// or an overflow, is `InvalidMintAmount` and leaves the floor unchanged.
    pub fn update_min_merit(&mut self, mint_amount: Decimal, cur_merit_before: Decimal) -> (r:
        GmcResult<Decimal>)
        ensures
            final(self).fay_id == old(self).fay_id,
            final(self).batches == old(self).batches,
            match updated_floor(old(self).min_merit@, mint_amount@, cur_merit_before@) {
                Some(f) => r matches Ok(d) && d@ == f && final(self).min_merit == d,
                None => r == Err::<Decimal, GmcError>(GmcError::InvalidMintAmount)
                    && final(self).min_merit == old(self).min_merit,
            },
    {
        if !mint_amount.is_positive() {
            return Err(GmcError::InvalidMintAmount);
        }
        let b = self.min_merit;
        if cur_merit_before.is_zero() {
            return match b.checked_add(mint_amount) {
                Some(f) => {
                    self.min_merit = f;
                    Ok(f)
                },
                None => Err(GmcError::InvalidMintAmount),
            };
        }
        let factor = match mint_amount.checked_add(cur_merit_before) {
            Some(f) => f,
            None => {
                return Err(GmcError::InvalidMintAmount);
            },
        };
        let scaled = match factor.checked_mul(b) {
            Some(s) => s,
            None => {
                return Err(GmcError::InvalidMintAmount);
            },
        };
        let q = match scaled.checked_div(cur_merit_before) {
            Some(q) => q,
            None => {
                return Err(GmcError::InvalidMintAmount);
            },
        };
        let new_floor = if q.less_than(&b) {
            b
        } else {
            q
        };
        self.min_merit = new_floor;
        Ok(new_floor)
    }

    /// `true` iff `curMerit(now) >= minMerit`.
    pub fn invariant_holds(&self, now: Timestamp) -> (b: bool)
        ensures
            b == (self.cur_merit_value(now.secs) >= self.min_merit@),
    {
        let c = self.cur_merit(now);
        self.min_merit.at_most(&c)
    }
}

/// The floor never decreases: a successful update yields a value at least the old
/// floor.
pub proof fn lemma_floor_never_decreases(b: int, x: int, m: int)
    ensures
        updated_floor(b, x, m) matches Some(f) ==> f >= b,
{
}

proof fn lemma_prefix_bounds(batches: Seq<MeritBatch>, now: u64, n: int)
    requires
        0 <= n <= batches.len(),
        forall|i: int| 0 <= i < batches.len() ==> 0 <= #[trigger] batches[i].b@ <= batches[i].v@,
        initial_sum(batches, n) <= i128::MAX,
    ensures
        floor_sum(batches, n) <= cur_merit_prefix(batches, now, n) <= initial_sum(batches, n),
        0 <= floor_sum(batches, n),
    decreases n,
{
    if n > 0 {
        let bt = batches[n - 1];
        assert(0 <= bt.b@ <= bt.v@);
        assert(initial_sum(batches, n - 1) <= initial_sum(batches, n));
        lemma_prefix_bounds(batches, now, n - 1);
        lemma_value_between_floor_and_initial(bt, now);
    }
}

proof fn lemma_prefix_non_increasing(batches: Seq<MeritBatch>, t1: u64, t2: u64, n: int)
    requires
        0 <= n <= batches.len(),
        t1 <= t2,
        forall|i: int| 0 <= i < batches.len() ==> 0 <= #[trigger] batches[i].b@ <= batches[i].v@,
        forall|i: int|
            0 <= i < batches.len() ==> (#[trigger] batches[i]).lambda@ >= 0 && fits_i128(
                (batches[i].v@ - batches[i].b@) * SCALE,
            ),
        initial_sum(batches, n) <= i128::MAX,
    ensures
        cur_merit_prefix(batches, t2, n) <= cur_merit_prefix(batches, t1, n),
    decreases n,
{
    if n > 0 {
        let bt = batches[n - 1];
        assert(0 <= bt.b@ <= bt.v@);
        assert(bt.lambda@ >= 0);
        assert(initial_sum(batches, n - 1) <= initial_sum(batches, n));
        lemma_prefix_non_increasing(batches, t1, t2, n - 1);
        lemma_prefix_bounds(batches, t1, n - 1);
        lemma_prefix_bounds(batches, t2, n - 1);
        lemma_value_between_floor_and_initial(bt, t1);
        lemma_value_between_floor_and_initial(bt, t2);
        lemma_value_non_increasing(bt, t1, t2);
    }
}

/// With every batch floor in `[0, V_i]`, non-negative decay coefficients, amplitudes
/// whose scaling by one fits, and `Σ V_i` within `i128`, `curMerit` never increases
/// over time.
pub proof fn lemma_cur_merit_non_increasing(pocket: MeritPocket, t1: u64, t2: u64)
    requires
        t1 <= t2,
        forall|i: int|
            0 <= i < pocket.batches@.len() ==> 0 <= #[trigger] pocket.batches@[i].b@
                <= pocket.batches@[i].v@,
        forall|i: int|
            0 <= i < pocket.batches@.len() ==> (#[trigger] pocket.batches@[i]).lambda@ >= 0
                && fits_i128((pocket.batches@[i].v@ - pocket.batches@[i].b@) * SCALE),
        initial_sum(pocket.batches@, pocket.batches@.len() as int) <= i128::MAX,
    ensures
        pocket.cur_merit_value(t2) <= pocket.cur_merit_value(t1),
{
    lemma_prefix_non_increasing(pocket.batches@, t1, t2, pocket.batches@.len() as int);
}

/// With every batch floor in `[0, V_i]` and `Σ V_i` within `i128`, `curMerit` lies
/// between `Σ B_i` and `Σ V_i` at every time; in particular, a floor `minMerit` no
/// larger than `Σ B_i` is always covered (`curMerit ≥ minMerit`).
pub proof fn lemma_cur_merit_covers_floors(pocket: MeritPocket, now: u64)
    requires
        forall|i: int|
            0 <= i < pocket.batches@.len() ==> 0 <= #[trigger] pocket.batches@[i].b@
                <= pocket.batches@[i].v@,
        initial_sum(pocket.batches@, pocket.batches@.len() as int) <= i128::MAX,
    ensures
        floor_sum(pocket.batches@, pocket.batches@.len() as int) <= pocket.cur_merit_value(now)
            <= initial_sum(pocket.batches@, pocket.batches@.len() as int),
        pocket.min_merit@ <= floor_sum(pocket.batches@, pocket.batches@.len() as int)
            ==> pocket.cur_merit_value(now) >= pocket.min_merit@,
{
    lemma_prefix_bounds(pocket.batches@, now, pocket.batches@.len() as int);
}

} // verus!

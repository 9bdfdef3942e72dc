use gmc_core::error::GmcError;
use gmc_core::merit::MeritBatch;
use gmc_core::merit::MeritPocket;
use gmc_core::merit::e;
use gmc_core::merit::exp_neg;
use gmc_core::types::ChainId;
use gmc_core::types::Decimal;
use gmc_core::types::FayID;
use gmc_core::types::Timestamp;

fn parse_decimal(s: &str) -> Result<Decimal, String> {
    let (neg, digits) = match s.strip_prefix('-') {
        Some(rest) => (true, rest),
        None => (false, s),
    };
    let (int_part, frac_part) = match digits.split_once('.') {
        Some((i, f)) => (i, f),
        None => (digits, ""),
    };
    if int_part.is_empty() || frac_part.len() > 6 {
        return Err(format!("invalid decimal literal {s}"));
    }
    let whole: i128 = int_part.parse().map_err(|_| format!("invalid decimal literal {s}"))?;
    let mut frac: i128 = 0;
    for (k, ch) in frac_part.chars().enumerate() {
        let d = ch.to_digit(10).ok_or_else(|| format!("invalid decimal literal {s}"))? as i128;
        frac += d * 10i128.pow(5 - k as u32);
    }
    let raw = whole * 1_000_000 + frac;
    Ok(Decimal::from_raw(if neg { -raw } else { raw }))
}

/// Absolute-difference tolerance helper for the fixed-point exp approximation.
fn approx_eq(a: Decimal, b: Decimal, tol: Decimal) -> bool {
    let diff = a.checked_sub(b).expect("no overflow in test diff");
    let abs = if diff.is_negative() {
        Decimal::zero().checked_sub(diff).unwrap()
    } else {
        diff
    };
    abs <= tol
}

fn ts(secs: u64) -> Timestamp {
    Timestamp::from_secs(secs)
}

fn sample_batch(v: &str, b: &str, lambda: &str, acquired: u64) -> MeritBatch {
    MeritBatch::new(
        "batch",
        parse_decimal(v).unwrap(),
        parse_decimal(b).unwrap(),
        parse_decimal(lambda).unwrap(),
        Decimal::from_int(100),
        ts(acquired),
        ChainId::new("chain-1"),
    )
}

// --- exp_neg sanity ----------------------------------------------------

#[test]
fn exp_neg_at_zero_is_one() {
    assert_eq!(exp_neg(Decimal::zero()), Decimal::one());
}

#[test]
fn exp_neg_of_one_is_reciprocal_of_e() {
    // e^(-1) ≈ 0.367879
    let expected = parse_decimal("0.367879").unwrap();
    assert!(
        approx_eq(exp_neg(Decimal::one()), expected, parse_decimal("0.001").unwrap()),
        "exp_neg(1) = {:?}",
        exp_neg(Decimal::one())
    );
}

#[test]
fn exp_neg_large_underflows_to_zero() {
    assert_eq!(exp_neg(Decimal::from_int(40)), Decimal::zero());
    // Just below the threshold the value is still numerically ~0 at 6 digits.
    assert!(exp_neg(Decimal::from_int(25)) <= parse_decimal("0.000001").unwrap());
}

#[test]
fn exp_neg_is_non_increasing_in_y() {
    let mut prev = exp_neg(Decimal::zero());
    let tol = parse_decimal("0.0001").unwrap();
    for raw in 1..=200i128 {
        let y = Decimal::from_raw(raw * 100_000); // 0.1, 0.2, ... 20.0
        let cur = exp_neg(y);
        assert!(
            cur <= prev.checked_add(tol).unwrap(),
            "exp_neg not non-increasing at y={y:?}: {cur:?} > {prev:?}"
        );
        prev = cur;
    }
}

// --- min_merit initialisation ------------------------

#[test]
fn min_merit_initializes_to_e() {
    let pocket = MeritPocket::new(FayID::new("fay-1"));
    assert_eq!(pocket.min_merit(), e());
    assert_eq!(pocket.min_merit(), parse_decimal("2.718281").unwrap());
    assert!(pocket.batches.is_empty());
}

// --- single-batch decay ------------------------

#[test]
fn single_batch_at_t0_equals_v() {
    // At t = 0 the decay factor is exactly 1, so MeriToken(0) == V exactly.
    let batch = sample_batch("100", "10", "0.05", 1_000);
    assert_eq!(batch.merit_at(ts(1_000)), Decimal::from_int(100));
}

#[test]
fn merit_before_acquisition_is_v() {
    // now < acquired_at ⇒ elapsed saturates to 0 ⇒ value is V.
    let batch = sample_batch("100", "10", "0.05", 1_000);
    assert_eq!(batch.merit_at(ts(500)), Decimal::from_int(100));
}

#[test]
fn decay_is_non_increasing_in_time() {
    let batch = sample_batch("100", "10", "0.05", 0);
    let tol = parse_decimal("0.0001").unwrap();
    let times = [0u64, 1, 5, 10, 30, 60, 120, 300, 600, 1_200, 6_000, 60_000];
    let mut prev = batch.merit_at(ts(times[0]));
    for &t in &times[1..] {
        let cur = batch.merit_at(ts(t));
        assert!(
            cur <= prev.checked_add(tol).unwrap(),
            "decay increased at t={t:?}: {cur:?} > {prev:?}"
        );
        prev = cur;
    }
}

#[test]
fn decayed_value_never_below_b() {
    let batch = sample_batch("100", "10", "0.05", 0);
    let b = Decimal::from_int(10);
    for t in [0u64, 10, 100, 1_000, 10_000, 100_000, 1_000_000] {
        let value = batch.merit_at(ts(t));
        assert!(value >= b, "value {value:?} dropped below floor {b:?} at t={t:?}");
        assert!(value <= Decimal::from_int(100), "value {value:?} exceeded V at t={t:?}");
    }
}

#[test]
fn decay_approaches_b_as_time_grows() {
    let batch = sample_batch("100", "10", "0.05", 0);
    // After many influence durations the amplitude term has fully decayed.
    let far = batch.merit_at(ts(10_000_000));
    assert!(
        approx_eq(far, Decimal::from_int(10), parse_decimal("0.001").unwrap()),
        "far-future value {far:?} did not converge to floor B=10"
    );
}

#[test]
fn zero_amplitude_batch_is_constant_b() {
    // V == B ⇒ amplitude 0 ⇒ value is constant B at every t.
    let batch = sample_batch("10", "10", "0.05", 0);
    for t in [0u64, 100, 10_000] {
        assert_eq!(batch.merit_at(ts(t)), Decimal::from_int(10));
    }
}

// --- cur_merit summation -----------------------------

#[test]
fn cur_merit_sums_multiple_batches() {
    let mut pocket = MeritPocket::new(FayID::new("fay-1"));
    let b1 = sample_batch("100", "10", "0.05", 0);
    let b2 = MeritBatch::new(
        "batch-2",
        Decimal::from_int(50),
        Decimal::from_int(5),
        parse_decimal("0.02").unwrap(),
        Decimal::from_int(200),
        ts(0),
        ChainId::new("chain-2"),
    );
    let now = ts(120);
    let expected = b1.merit_at(now).checked_add(b2.merit_at(now)).unwrap();
    pocket.add_batch(b1);
    pocket.add_batch(b2);
    assert_eq!(pocket.cur_merit(now), expected);
}

#[test]
fn cur_merit_empty_pocket_is_zero() {
    let pocket = MeritPocket::new(FayID::new("fay-1"));
    assert_eq!(pocket.cur_merit(ts(1_000)), Decimal::zero());
}

#[test]
fn cur_merit_at_t0_sums_to_total_v() {
    let mut pocket = MeritPocket::new(FayID::new("fay-1"));
    pocket.add_batch(sample_batch("100", "10", "0.05", 0));
    pocket.add_batch(sample_batch("40", "4", "0.10", 0));
    // At t = 0 every batch equals its V, so curMerit == ΣV = 140.
    assert_eq!(pocket.cur_merit(ts(0)), Decimal::from_int(140));
}

// --- lambda helper -----------------------------------------------------

#[test]
fn lambda_from_duration_divides_k() {
    // λ = k / T with k = 1 ⇒ λ = 1/100 = 0.01.
    let lambda = MeritBatch::lambda_from_duration(Decimal::from_int(100)).unwrap();
    assert_eq!(lambda, parse_decimal("0.01").unwrap());
    assert_eq!(MeritBatch::lambda_from_duration(Decimal::zero()), None);
    assert_eq!(MeritBatch::lambda_from_duration(Decimal::from_int(-5)), None);
}

#[test]
fn with_influence_duration_rejects_non_positive() {
    assert!(MeritBatch::with_influence_duration(
        "b",
        Decimal::from_int(100),
        Decimal::from_int(10),
        Decimal::zero(),
        ts(0),
        ChainId::new("c"),
    )
    .is_none());

    let batch = MeritBatch::with_influence_duration(
        "b",
        Decimal::from_int(100),
        Decimal::from_int(10),
        Decimal::from_int(50),
        ts(0),
        ChainId::new("c"),
    )
    .unwrap();
    // λ = 1/50 = 0.02
    assert_eq!(batch.lambda, parse_decimal("0.02").unwrap());
}

// --- minMerit floor update ------------

#[test]
fn update_min_merit_rejects_non_positive_amount() {
    // a non-positive mint must leave minMerit untouched.
    let mut pocket = MeritPocket::new(FayID::new("fay-1"));
    let before = pocket.min_merit();
    assert_eq!(
        pocket.update_min_merit(Decimal::zero(), Decimal::from_int(10)),
        Err(GmcError::InvalidMintAmount)
    );
    assert_eq!(
        pocket.update_min_merit(Decimal::from_int(-5), Decimal::from_int(10)),
        Err(GmcError::InvalidMintAmount)
    );
    // Floor unchanged after both rejected updates.
    assert_eq!(pocket.min_merit(), before);
}

#[test]
fn update_min_merit_m_zero_establishes_floor_as_b_plus_x() {
    // M == 0 edge case (empty pocket / zero pre-mint curMerit): B' = x + B.
    // A fresh pocket has min_merit = e() and no batches ⇒ cur_merit(now) == 0.
    let mut pocket = MeritPocket::new(FayID::new("fay-1"));
    let x = Decimal::from_int(10);
    let new_floor = pocket.update_min_merit(x, Decimal::zero()).unwrap();
    // B' = e() + 10
    assert_eq!(new_floor, e().checked_add(x).unwrap());
    assert_eq!(pocket.min_merit(), new_floor);
}

#[test]
fn update_min_merit_bottom_state_adds_x() {
    // Bottom state: M == B. The rule collapses to B' = (x + B)·B / B = x + B.
    // Use a clean integer floor so fixed-point division is exact.
    let mut pocket = MeritPocket::new(FayID::new("fay-1"));
    pocket.min_merit = Decimal::from_int(4); // B = 4
    let x = Decimal::from_int(6);
    let new_floor = pocket.update_min_merit(x, Decimal::from_int(4)).unwrap(); // M == B == 4
    // B' = 6 + 4 = 10
    assert_eq!(new_floor, Decimal::from_int(10));
    assert_eq!(pocket.min_merit(), Decimal::from_int(10));
}

#[test]
fn update_min_merit_general_rule_matches_formula() {
    // M > B general case: B' = (x + M)·B / M with clean divisors for exactness.
    // B = 5, M = 20, x = 60 ⇒ B' = (80)·5/20 = 400/20 = 20.
    let mut pocket = MeritPocket::new(FayID::new("fay-1"));
    pocket.min_merit = Decimal::from_int(5);
    let new_floor = pocket
        .update_min_merit(Decimal::from_int(60), Decimal::from_int(20))
        .unwrap();
    assert_eq!(new_floor, Decimal::from_int(20));
}

#[test]
fn update_min_merit_is_monotonic_non_decreasing() {
    // For any x > 0 and M >= B, B' >= B (only increases, never decreases).
    for b_raw in [2i64, 5, 100] {
        for m_extra in [0i64, 1, 7, 50] {
            for x in [1i64, 3, 25, 500] {
                let mut pocket = MeritPocket::new(FayID::new("fay-1"));
                let b = Decimal::from_int(b_raw);
                pocket.min_merit = b;
                let m = Decimal::from_int(b_raw + m_extra); // M >= B
                let new_floor = pocket
                    .update_min_merit(Decimal::from_int(x), m)
                    .unwrap();
                assert!(
                    new_floor >= b,
                    "B'={new_floor:?} < B={b:?} for M={m:?}, x={x:?} (must be non-decreasing)"
                );
            }
        }
    }
}

#[test]
fn min_merit_never_decreases_across_a_sequence_of_mints() {
    // Drive a sequence of mints and assert the floor is non-decreasing at each
    // step. We feed a pre-mint curMerit M >= current floor each time (the
    // documented precondition the minting pipeline guarantees).
    let mut pocket = MeritPocket::new(FayID::new("fay-1"));
    let mut prev = pocket.min_merit();
    for x in [1i64, 5, 2, 40, 7, 100] {
        // Use M = current floor + a positive slack so M >= B holds.
        let m = pocket.min_merit().checked_add(Decimal::from_int(3)).unwrap();
        let new_floor = pocket.update_min_merit(Decimal::from_int(x), m).unwrap();
        assert!(
            new_floor >= prev,
            "floor decreased: {new_floor:?} < {prev:?} after minting x={x:?}"
        );
        prev = new_floor;
    }
}

// --- curMerit >= minMerit invariant -------

#[test]
fn invariant_holds_when_batch_floors_cover_min_merit() {
    // Directly construct a pocket whose Σ B_i >= minMerit and verify the
    // invariant at several time points, including the far future where each
    // batch has converged to its own floor B_i.
    let mut pocket = MeritPocket::new(FayID::new("fay-1"));
    pocket.min_merit = Decimal::from_int(20);
    // Σ B_i = 15 + 10 = 25 >= 20.
    pocket.add_batch(sample_batch("100", "15", "0.001", 0));
    pocket.add_batch(sample_batch("50", "10", "0.001", 0));
    for t in [0u64, 100, 1_000, 10_000, 1_000_000, 100_000_000] {
        assert!(
            pocket.invariant_holds(ts(t)),
            "invariant curMerit >= minMerit violated at t={t:?}: cur={:?}, min={:?}",
            pocket.cur_merit(ts(t)),
            pocket.min_merit()
        );
    }
}

#[test]
fn invariant_holds_through_a_simulated_mint_pipeline() {
    // Simulate the mint pipeline: snapshot pre-mint curMerit M,
    // update the floor, then add a batch whose floor contribution B_i equals the
    // floor increment. With the floor seeded by a backing batch (B = e()), the
    // batch floors telescope to exactly minMerit, so curMerit(t) >= minMerit at
    // every t.
    let mut pocket = MeritPocket::new(FayID::new("fay-1"));
    // Backing batch for the initial floor e(): a slowly-decaying batch with
    // B = e() so that Σ B_i starts equal to minMerit = e().
    pocket.add_batch(MeritBatch::new(
        "reg-grant",
        Decimal::from_int(100), // V
        e(),                       // B = initial floor
        parse_decimal("0.001").unwrap(),
        Decimal::from_int(1_000),
        ts(0),
        ChainId::new("chain-1"),
    ));

    // Helper: one mint following the documented call order.
    let mint = |pocket: &mut MeritPocket, id: &str, x: i64, now: u64| {
        let amount = Decimal::from_int(x);
        let m = pocket.cur_merit(ts(now)); // snapshot M BEFORE mutating
        let before = pocket.min_merit();
        let after = pocket.update_min_merit(amount, m).unwrap();
        let increment = after.checked_sub(before).unwrap();
        // B_i = floor increment (<= x because B <= M ⇒ B·x/M <= x).
        pocket.add_batch(MeritBatch::new(
            id,
            amount,
            increment,
            parse_decimal("0.001").unwrap(),
            Decimal::from_int(1_000),
            ts(now),
            ChainId::new("chain-1"),
        ));
    };

    mint(&mut pocket, "m1", 50, 100);
    mint(&mut pocket, "m2", 30, 500);
    mint(&mut pocket, "m3", 80, 1_500);

    // Invariant holds at a spread of time points, including the far future.
    for t in [0u64, 100, 500, 1_500, 5_000, 50_000, 1_000_000, 100_000_000] {
        assert!(
            pocket.invariant_holds(ts(t)),
            "invariant violated at t={t:?}: cur={:?}, min={:?}",
            pocket.cur_merit(ts(t)),
            pocket.min_merit()
        );
    }
}

#[test]
fn invariant_far_future_converges_to_sum_of_floors() {
    // As t → ∞ each batch → B_i, so curMerit → Σ B_i; with Σ B_i == minMerit the
    // invariant holds with (near) equality up to the exp approximation.
    let mut pocket = MeritPocket::new(FayID::new("fay-1"));
    pocket.min_merit = Decimal::from_int(12); // Σ B_i below
    pocket.add_batch(sample_batch("100", "8", "0.01", 0));
    pocket.add_batch(sample_batch("40", "4", "0.01", 0)); // Σ B = 12
    let far = pocket.cur_merit(ts(50_000_000));
    assert!(
        approx_eq(far, Decimal::from_int(12), parse_decimal("0.001").unwrap()),
        "far-future curMerit {far:?} did not converge to Σ B_i = 12"
    );
    assert!(pocket.invariant_holds(ts(50_000_000)));
}

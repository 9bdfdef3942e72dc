use gmc_core::error::GmcError;
use gmc_core::quota::QuotaConfig;
use gmc_core::quota::QuotaLedger;
use gmc_core::quota::QuotaLedgerSet;
use gmc_core::quota::RefreshPeriod;
use gmc_core::quota::TimeUnit;
use gmc_core::types::ChainId;
use gmc_core::types::Decimal;
use gmc_core::types::Timestamp;

fn parse_decimal(s: &str) -> Result<Decimal, String> {
    let (neg, digits) = match s.strip_prefix('-') {
        Some(rest) => (true, rest),
        None => (false, s),
    };
    let (int_part, frac_part) = match digits.split_once('.') {
        Some((i, f)) => (i, f),
        None => (digits, ""),
    };
    if int_part.is_empty() || frac_part.len() > 6 {
        return Err(format!("invalid decimal literal {s}"));
    }
    let whole: i128 = int_part.parse().map_err(|_| format!("invalid decimal literal {s}"))?;
    let mut frac: i128 = 0;
    for (k, ch) in frac_part.chars().enumerate() {
        let d = ch.to_digit(10).ok_or_else(|| format!("invalid decimal literal {s}"))? as i128;
        frac += d * 10i128.pow(5 - k as u32);
    }
    let raw = whole * 1_000_000 + frac;
    Ok(Decimal::from_raw(if neg { -raw } else { raw }))
}

fn dec(s: &str) -> Decimal {
    parse_decimal(s).unwrap()
}

// --- QuotaConfig validation ---------------------

#[test]
fn valid_quota_with_one_time_is_accepted() {
    let cfg = QuotaConfig::new(Decimal::from_int(100), RefreshPeriod::OneTime)
        .expect("positive quota + OneTime must be accepted");
    assert_eq!(cfg.quota(), Decimal::from_int(100));
    assert_eq!(cfg.refresh_period(), RefreshPeriod::OneTime);
    assert!(cfg.is_one_time());
}

#[test]
fn valid_quota_with_periodic_is_accepted() {
    let period = RefreshPeriod::Periodic {
        unit: TimeUnit::Day,
        value: dec("30"),
    };
    let cfg = QuotaConfig::new(dec("1000.5"), period)
        .expect("positive quota + valid Periodic must be accepted");
    assert_eq!(cfg.quota(), dec("1000.5"));
    assert_eq!(cfg.refresh_period(), period);
    assert!(!cfg.is_one_time());
}

#[test]
fn zero_quota_is_rejected() {
    assert_eq!(
        QuotaConfig::new(Decimal::zero(), RefreshPeriod::OneTime),
        Err(GmcError::QuotaConfigInvalid)
    );
}

#[test]
fn negative_quota_is_rejected() {
    assert_eq!(
        QuotaConfig::new(dec("-1"), RefreshPeriod::OneTime),
        Err(GmcError::QuotaConfigInvalid)
    );
}

#[test]
fn periodic_with_zero_value_is_rejected() {
    let period = RefreshPeriod::Periodic {
        unit: TimeUnit::Hour,
        value: Decimal::zero(),
    };
    assert_eq!(
        QuotaConfig::new(Decimal::from_int(100), period),
        Err(GmcError::QuotaConfigInvalid)
    );
}

#[test]
fn periodic_with_negative_value_is_rejected() {
    let period = RefreshPeriod::Periodic {
        unit: TimeUnit::Second,
        value: dec("-5"),
    };
    assert_eq!(
        QuotaConfig::new(Decimal::from_int(100), period),
        Err(GmcError::QuotaConfigInvalid)
    );
}

// --- RefreshPeriod helpers ---------------------------------------------

#[test]
fn refresh_period_validity() {
    assert!(RefreshPeriod::OneTime.is_valid());
    assert!(RefreshPeriod::OneTime.is_one_time());

    let good = RefreshPeriod::Periodic {
        unit: TimeUnit::Day,
        value: Decimal::one(),
    };
    assert!(good.is_valid());
    assert!(!good.is_one_time());

    let bad = RefreshPeriod::Periodic {
        unit: TimeUnit::Day,
        value: Decimal::zero(),
    };
    assert!(!bad.is_valid());
}

#[test]
fn time_unit_seconds() {
    assert_eq!(TimeUnit::Second.seconds(), 1);
    assert_eq!(TimeUnit::Hour.seconds(), 3_600);
    assert_eq!(TimeUnit::Day.seconds(), 86_400);
}

// --- QuotaLedger construction ------------------------------------------

#[test]
fn quota_ledger_initializes_clean_period() {
    let ledger = QuotaLedger::new(ChainId::new("env-chain"), Timestamp::from_secs(1_000));
    assert_eq!(ledger.chain_id().as_str(), "env-chain");
    assert_eq!(ledger.minted_this_period(), Decimal::zero());
    assert_eq!(ledger.period_start(), Timestamp::from_secs(1_000));
    assert!(!ledger.is_exhausted());
}

// --- check_quota / consume_quota ------

fn periodic_cfg(quota: &str) -> QuotaConfig {
    QuotaConfig::new(
        dec(quota),
        RefreshPeriod::Periodic {
            unit: TimeUnit::Day,
            value: Decimal::one(),
        },
    )
    .expect("valid periodic config")
}

fn one_time_cfg(quota: &str) -> QuotaConfig {
    QuotaConfig::new(dec(quota), RefreshPeriod::OneTime).expect("valid one-time config")
}

fn fresh_ledger() -> QuotaLedger {
    QuotaLedger::new(ChainId::new("chain-a"), Timestamp::from_secs(0))
}

#[test]
fn mint_within_quota_succeeds_and_accumulates() {
    // a successful mint accumulates into minted_this_period.
    let cfg = periodic_cfg("100");
    let mut ledger = fresh_ledger();

    assert!(ledger.check_quota(&cfg, dec("30")).is_ok());
    ledger.consume_quota(&cfg, dec("30")).expect("30 <= 100");
    assert_eq!(ledger.minted_this_period(), dec("30"));

    ledger.consume_quota(&cfg, dec("20")).expect("30 + 20 <= 100");
    assert_eq!(ledger.minted_this_period(), dec("50"));
    assert!(!ledger.is_exhausted());
}

#[test]
fn mint_exceeding_quota_is_rejected_and_counter_unchanged() {
    // over-quota request is rejected and the counter is unchanged.
    let cfg = periodic_cfg("100");
    let mut ledger = fresh_ledger();
    ledger.consume_quota(&cfg, dec("80")).expect("80 <= 100");

    // 80 + 30 = 110 > 100 -> rejected.
    assert_eq!(ledger.check_quota(&cfg, dec("30")), Err(GmcError::QuotaExceeded));
    assert_eq!(
        ledger.consume_quota(&cfg, dec("30")),
        Err(GmcError::QuotaExceeded)
    );
    // Counter must be unchanged by the rejected request.
    assert_eq!(ledger.minted_this_period(), dec("80"));

    // A request that still fits is accepted afterwards (no permanent lockout for
    // a periodic chain).
    ledger.consume_quota(&cfg, dec("20")).expect("80 + 20 == 100");
    assert_eq!(ledger.minted_this_period(), dec("100"));
}

#[test]
fn cumulative_mints_up_to_exactly_quota_then_next_rejected() {
    // accumulation may reach the cap exactly; the next positive
    // mint is rejected.
    let cfg = periodic_cfg("100");
    let mut ledger = fresh_ledger();

    ledger.consume_quota(&cfg, dec("60")).expect("60 <= 100");
    ledger.consume_quota(&cfg, dec("40")).expect("60 + 40 == 100");
    assert_eq!(ledger.minted_this_period(), dec("100"));

    // Exactly at the cap; any further positive amount is over quota.
    assert_eq!(
        ledger.consume_quota(&cfg, dec("0.000001")),
        Err(GmcError::QuotaExceeded)
    );
    assert_eq!(ledger.minted_this_period(), dec("100"));
    // A periodic chain at its cap is NOT flagged exhausted (only OneTime is).
    assert!(!ledger.is_exhausted());
}

#[test]
fn one_time_chain_exhausts_at_quota_and_stays_exhausted() {
    // a one-time chain that fully consumes its quota is
    // exhausted and rejects every subsequent request, never restoring quota.
    let cfg = one_time_cfg("50");
    let mut ledger = fresh_ledger();

    ledger.consume_quota(&cfg, dec("50")).expect("50 == 50");
    assert_eq!(ledger.minted_this_period(), dec("50"));
    assert!(ledger.is_exhausted());

    // Every later request is rejected, even tiny ones, and nothing changes.
    assert_eq!(
        ledger.check_quota(&cfg, dec("0.000001")),
        Err(GmcError::QuotaExceeded)
    );
    assert_eq!(
        ledger.consume_quota(&cfg, dec("0.000001")),
        Err(GmcError::QuotaExceeded)
    );
    assert_eq!(ledger.minted_this_period(), dec("50"));
    assert!(ledger.is_exhausted());
}

#[test]
fn one_time_chain_partial_consumption_does_not_exhaust() {
    // A one-time chain only becomes exhausted once the cap is reached; partial
    // consumption keeps the remaining allowance usable.
    let cfg = one_time_cfg("50");
    let mut ledger = fresh_ledger();

    ledger.consume_quota(&cfg, dec("30")).expect("30 <= 50");
    assert!(!ledger.is_exhausted());

    ledger.consume_quota(&cfg, dec("20")).expect("30 + 20 == 50");
    assert!(ledger.is_exhausted());
}

// --- Per-chain isolation -----------------------------

#[test]
fn two_chains_ledgers_are_independent() {
    // Consuming on chain A must not change chain B's available allowance.
    let cfg_a = periodic_cfg("100");
    let cfg_b = periodic_cfg("100");
    let mut ledger_a = QuotaLedger::new(ChainId::new("chain-a"), Timestamp::from_secs(0));
    let mut ledger_b = QuotaLedger::new(ChainId::new("chain-b"), Timestamp::from_secs(0));

    ledger_a.consume_quota(&cfg_a, dec("100")).expect("100 == 100");
    // chain A is now full / would reject more...
    assert_eq!(
        ledger_a.consume_quota(&cfg_a, dec("1")),
        Err(GmcError::QuotaExceeded)
    );
    // ...but chain B is entirely unaffected.
    assert_eq!(ledger_b.minted_this_period(), Decimal::zero());
    ledger_b.consume_quota(&cfg_b, dec("75")).expect("75 <= 100");
    assert_eq!(ledger_b.minted_this_period(), dec("75"));
    assert_eq!(ledger_a.minted_this_period(), dec("100"));
}

#[test]
fn ledger_set_routes_check_and_consume_per_chain() {
    // The optional registry makes isolation explicit: each chain has its own
    // (config, ledger) and consuming on one never touches another.
    let mut set = QuotaLedgerSet::new();
    let a = ChainId::new("chain-a");
    let b = ChainId::new("chain-b");
    set.register(a.clone(), one_time_cfg("50"), Timestamp::from_secs(0));
    set.register(b.clone(), periodic_cfg("200"), Timestamp::from_secs(0));

    // Exhaust chain A (one-time).
    set.consume(&a, dec("50")).expect("50 == 50");
    assert!(set.ledger(&a).unwrap().is_exhausted());
    assert_eq!(set.consume(&a, dec("1")), Err(GmcError::QuotaExceeded));

    // Chain B is independent and still fully available.
    assert_eq!(set.minted_this_period(&b), Some(Decimal::zero()));
    set.consume(&b, dec("120")).expect("120 <= 200");
    assert_eq!(set.minted_this_period(&b), Some(dec("120")));
    assert_eq!(set.minted_this_period(&a), Some(dec("50")));
}

#[test]
fn ledger_set_unknown_chain_is_rejected() {
    let set = QuotaLedgerSet::new();
    let unknown = ChainId::new("nope");
    assert_eq!(
        set.check(&unknown, dec("1")),
        Err(GmcError::QuotaConfigInvalid)
    );
    assert!(set.ledger(&unknown).is_none());
    assert!(!set.contains(&unknown));
}

// --- Refresh-period rollover / reset ------------------

/// A periodic config with an explicit period length (`value` whole units).
fn periodic_cfg_unit(quota: &str, unit: TimeUnit, value: &str) -> QuotaConfig {
    QuotaConfig::new(
        dec(quota),
        RefreshPeriod::Periodic {
            unit,
            value: dec(value),
        },
    )
    .expect("valid periodic config")
}

#[test]
fn period_length_secs_computation() {
    // OneTime has no period length.
    assert_eq!(RefreshPeriod::OneTime.period_length_secs(), None);

    // length = unit.seconds() * whole(value)
    assert_eq!(
        RefreshPeriod::Periodic {
            unit: TimeUnit::Second,
            value: Decimal::one(),
        }
        .period_length_secs(),
        Some(1)
    );
    assert_eq!(
        RefreshPeriod::Periodic {
            unit: TimeUnit::Day,
            value: dec("30"),
        }
        .period_length_secs(),
        Some(86_400 * 30)
    );
    assert_eq!(
        RefreshPeriod::Periodic {
            unit: TimeUnit::Hour,
            value: dec("2"),
        }
        .period_length_secs(),
        Some(7_200)
    );

    // Fractional unit counts truncate toward zero; a sub-unit value yields no
    // usable boundary.
    assert_eq!(
        RefreshPeriod::Periodic {
            unit: TimeUnit::Day,
            value: dec("1.9"),
        }
        .period_length_secs(),
        Some(86_400) // 1.9 -> 1 whole day
    );
    assert_eq!(
        RefreshPeriod::Periodic {
            unit: TimeUnit::Day,
            value: dec("0.5"),
        }
        .period_length_secs(),
        None // floors to 0 whole units
    );
}

#[test]
fn periodic_chain_resets_after_period_elapses_and_accepts_new_mints() {
    // once a full period elapses, minted_this_period resets to 0
    // and the chain can mint up to quota again.
    let cfg = periodic_cfg_unit("100", TimeUnit::Day, "1"); // 86,400s period
    let mut ledger = QuotaLedger::new(ChainId::new("chain-a"), Timestamp::from_secs(0));

    // Fill the period.
    ledger.consume_quota(&cfg, dec("100")).expect("100 == 100");
    assert_eq!(ledger.minted_this_period(), dec("100"));
    // No more room this period.
    assert_eq!(
        ledger.consume_quota(&cfg, dec("1")),
        Err(GmcError::QuotaExceeded)
    );

    // Cross the period boundary (exactly one day later).
    let did_reset = ledger.reset_if_elapsed(&cfg, Timestamp::from_secs(86_400));
    assert!(did_reset);
    assert_eq!(ledger.minted_this_period(), Decimal::zero());
    assert_eq!(ledger.period_start(), Timestamp::from_secs(86_400));

    // Fresh allowance: full quota mintable again.
    ledger.consume_quota(&cfg, dec("100")).expect("fresh period");
    assert_eq!(ledger.minted_this_period(), dec("100"));
}

#[test]
fn reset_within_same_period_is_noop() {
    // Calling reset_if_elapsed before a full period has elapsed must not reset.
    let cfg = periodic_cfg_unit("100", TimeUnit::Day, "1"); // 86,400s
    let mut ledger = QuotaLedger::new(ChainId::new("chain-a"), Timestamp::from_secs(0));
    ledger.consume_quota(&cfg, dec("40")).expect("40 <= 100");

    // Just before the boundary -> no reset, accumulation preserved.
    assert!(!ledger.reset_if_elapsed(&cfg, Timestamp::from_secs(86_399)));
    assert_eq!(ledger.minted_this_period(), dec("40"));
    assert_eq!(ledger.period_start(), Timestamp::from_secs(0));

    // At t=0 (same instant) -> no reset.
    assert!(!ledger.reset_if_elapsed(&cfg, Timestamp::from_secs(0)));
    assert_eq!(ledger.minted_this_period(), dec("40"));
}

#[test]
fn reset_is_idempotent_within_new_period() {
    // After one rollover, a second call inside the new period does nothing.
    let cfg = periodic_cfg_unit("100", TimeUnit::Day, "1");
    let mut ledger = QuotaLedger::new(ChainId::new("chain-a"), Timestamp::from_secs(0));
    ledger.consume_quota(&cfg, dec("90")).expect("90 <= 100");

    // First crossing resets.
    assert!(ledger.reset_if_elapsed(&cfg, Timestamp::from_secs(90_000)));
    assert_eq!(ledger.minted_this_period(), Decimal::zero());
    let start_after_reset = ledger.period_start();
    ledger.consume_quota(&cfg, dec("10")).expect("10 <= 100");

    // Second call within the same (new) period: no further reset, counter intact.
    assert!(!ledger.reset_if_elapsed(&cfg, Timestamp::from_secs(90_100)));
    assert_eq!(ledger.minted_this_period(), dec("10"));
    assert_eq!(ledger.period_start(), start_after_reset);
}

#[test]
fn reset_advances_period_start_to_boundary_across_multiple_periods() {
    // period_start advances to period_start + k*len (boundary alignment), where k
    // is the number of whole periods elapsed.
    let cfg = periodic_cfg_unit("100", TimeUnit::Day, "1"); // len = 86,400
    let mut ledger = QuotaLedger::new(ChainId::new("chain-a"), Timestamp::from_secs(0));
    ledger.consume_quota(&cfg, dec("50")).expect("50 <= 100");

    // 3.5 days later: k = 3 whole periods, boundary = 3 * 86,400 = 259,200.
    let now = Timestamp::from_secs(86_400 * 3 + 43_200);
    assert!(ledger.reset_if_elapsed(&cfg, now));
    assert_eq!(ledger.minted_this_period(), Decimal::zero());
    assert_eq!(ledger.period_start(), Timestamp::from_secs(259_200));

    // The new period_start is on the cadence and is <= now, so we are inside it.
    assert!(ledger.period_start() <= now);
    assert!(!ledger.reset_if_elapsed(&cfg, now));
}

#[test]
fn one_time_chain_never_resets_and_stays_exhausted() {
    // Rollover only applies to non-one-time chains. A one-time chain never
    // refreshes: reset_if_elapsed is a no-op even far in the future, and an
    // exhausted chain remains exhausted with no restored quota.
    let cfg = one_time_cfg("50");
    let mut ledger = QuotaLedger::new(ChainId::new("chain-a"), Timestamp::from_secs(0));
    ledger.consume_quota(&cfg, dec("50")).expect("50 == 50");
    assert!(ledger.is_exhausted());

    // Far in the future — still no reset for a one-time chain.
    assert!(!ledger.reset_if_elapsed(&cfg, Timestamp::from_secs(10_000_000)));
    assert_eq!(ledger.minted_this_period(), dec("50"));
    assert_eq!(ledger.period_start(), Timestamp::from_secs(0));
    assert!(ledger.is_exhausted());

    // Still rejects everything.
    assert_eq!(
        ledger.consume_quota(&cfg, dec("1")),
        Err(GmcError::QuotaExceeded)
    );
}

#[test]
fn reset_skew_backwards_now_is_noop() {
    // A `now` earlier than period_start (clock skew) saturates elapsed to 0 and
    // never triggers a reset.
    let cfg = periodic_cfg_unit("100", TimeUnit::Day, "1");
    let mut ledger = QuotaLedger::new(ChainId::new("chain-a"), Timestamp::from_secs(1_000_000));
    ledger.consume_quota(&cfg, dec("30")).expect("30 <= 100");
    assert!(!ledger.reset_if_elapsed(&cfg, Timestamp::from_secs(500_000)));
    assert_eq!(ledger.minted_this_period(), dec("30"));
    assert_eq!(ledger.period_start(), Timestamp::from_secs(1_000_000));
}

#[test]
fn low_level_reset_clears_counter_and_sets_start() {
    let cfg = periodic_cfg("100");
    let mut ledger = fresh_ledger();
    ledger.consume_quota(&cfg, dec("75")).expect("75 <= 100");
    ledger.reset(Timestamp::from_secs(12_345));
    assert_eq!(ledger.minted_this_period(), Decimal::zero());
    assert_eq!(ledger.period_start(), Timestamp::from_secs(12_345));
}

#[test]
fn ledger_set_routes_reset_per_chain() {
    // reset_if_elapsed on one chain must not disturb another chain's ledger.
    let mut set = QuotaLedgerSet::new();
    let a = ChainId::new("chain-a");
    let b = ChainId::new("chain-b");
    set.register(
        a.clone(),
        periodic_cfg_unit("100", TimeUnit::Day, "1"),
        Timestamp::from_secs(0),
    );
    set.register(
        b.clone(),
        periodic_cfg_unit("100", TimeUnit::Day, "1"),
        Timestamp::from_secs(0),
    );
    set.consume(&a, dec("80")).expect("80 <= 100");
    set.consume(&b, dec("80")).expect("80 <= 100");

    // Roll chain A over a day later; chain B is untouched.
    assert_eq!(set.reset_if_elapsed(&a, Timestamp::from_secs(86_400)), Ok(true));
    assert_eq!(set.minted_this_period(&a), Some(Decimal::zero()));
    assert_eq!(set.minted_this_period(&b), Some(dec("80")));

    // Unknown chain is rejected.
    assert_eq!(
        set.reset_if_elapsed(&ChainId::new("nope"), Timestamp::from_secs(1)),
        Err(GmcError::QuotaConfigInvalid)
    );
}

use gmc_core::antifraud::ANOMALY_WINDOW_SECS;
use gmc_core::antifraud::AntiFraudEngine;
use gmc_core::antifraud::INTIMACY_EXCLUSION_THRESHOLD_RAW;
use gmc_core::antifraud::MIN_VOTER_SET_SIZE;
use gmc_core::antifraud::Stakeholder;
use gmc_core::antifraud::VoteEvent;
use gmc_core::antifraud::detect_anomaly;
use gmc_core::antifraud::select_voters;
use gmc_core::error::GmcError;
use gmc_core::types::Decimal;
use gmc_core::types::FayID;
use gmc_core::types::Ratio;
use gmc_core::types::Timestamp;

fn parse_decimal(s: &str) -> Result<Decimal, String> {
    let (neg, digits) = match s.strip_prefix('-') {
        Some(rest) => (true, rest),
        None => (false, s),
    };
    let (int_part, frac_part) = match digits.split_once('.') {
        Some((i, f)) => (i, f),
        None => (digits, ""),
    };
    if int_part.is_empty() || frac_part.len() > 6 {
        return Err(format!("invalid decimal literal {s}"));
    }
    let whole: i128 = int_part.parse().map_err(|_| format!("invalid decimal literal {s}"))?;
    let mut frac: i128 = 0;
    for (k, ch) in frac_part.chars().enumerate() {
        let d = ch.to_digit(10).ok_or_else(|| format!("invalid decimal literal {s}"))? as i128;
        frac += d * 10i128.pow(5 - k as u32);
    }
    let raw = whole * 1_000_000 + frac;
    Ok(Decimal::from_raw(if neg { -raw } else { raw }))
}

fn ratio(s: &str) -> Ratio {
    Ratio::new(parse_decimal(s).unwrap()).unwrap()
}

/// Builds `n` stakeholders all sharing the same intimacy, ids `prefix0..prefixN`.
fn pool(prefix: &str, n: usize, intimacy: &str) -> Vec<Stakeholder> {
    (0..n)
        .map(|i| Stakeholder::new(FayID::new(&format!("{prefix}{i}")), ratio(intimacy)))
        .collect()
}

// --- high-intimacy exclusion --------------------------

#[test]
fn excludes_intimacy_strictly_above_threshold() {
    // 7 low-intimacy keepers + several > 0.9 that must be excluded.
    let mut stakeholders = pool("ok", 7, "0.5");
    stakeholders.push(Stakeholder::new(FayID::new("hi-0.91"), ratio("0.91")));
    stakeholders.push(Stakeholder::new(FayID::new("hi-0.95"), ratio("0.95")));
    stakeholders.push(Stakeholder::new(FayID::new("hi-1.0"), ratio("1")));

    let voters = select_voters(&stakeholders, 100, 42).unwrap();

    // No high-intimacy entity appears in the result.
    for excluded in ["hi-0.91", "hi-0.95", "hi-1.0"] {
        assert!(
            !voters.iter().any(|v| v.as_str() == excluded),
            "{excluded:?} should have been excluded"
        );
    }
    // With sample_size capped at remaining (7), all 7 keepers are selected.
    assert_eq!(voters.len(), 7);
}

#[test]
fn intimacy_exactly_at_threshold_is_kept() {
    // Boundary: 0.9 is "not strictly greater than 0.9", so it must be kept.
    let stakeholders = pool("edge", 7, "0.9");
    let voters = select_voters(&stakeholders, 7, 1).unwrap();
    assert_eq!(voters.len(), 7);
    // Every keeper has intimacy <= 0.9 (here exactly 0.9).
    for s in &stakeholders {
        assert!(!s.is_high_intimacy());
    }
}

#[test]
fn all_selected_voters_have_intimacy_at_most_threshold() {
    // Mixed pool; verify each selected voter maps back to intimacy <= 0.9.
    let mut stakeholders = pool("low", 10, "0.3");
    stakeholders.extend(pool("mid", 5, "0.9"));
    stakeholders.extend(pool("high", 8, "0.99")); // all excluded

    let voters = select_voters(&stakeholders, 12, 7).unwrap();
    for v in &voters {
        let s = stakeholders.iter().find(|s| &s.id == v).unwrap();
        assert!(
            s.intimacy.value() <= Decimal::from_raw(INTIMACY_EXCLUSION_THRESHOLD_RAW),
            "selected voter {v:?} has intimacy > 0.9"
        );
    }
}

// --- insufficient stakeholders ------------------------

#[test]
fn fewer_than_seven_remaining_yields_stakeholder_insufficient() {
    // 6 keepers (< 7) plus excluded high-intimacy ones.
    let mut stakeholders = pool("ok", 6, "0.2");
    stakeholders.extend(pool("hi", 10, "0.95"));
    let err = select_voters(&stakeholders, 7, 99).unwrap_err();
    assert_eq!(err, GmcError::StakeholderInsufficient);
}

#[test]
fn all_high_intimacy_yields_stakeholder_insufficient() {
    let stakeholders = pool("hi", 20, "0.95");
    assert_eq!(
        select_voters(&stakeholders, 7, 0).unwrap_err(),
        GmcError::StakeholderInsufficient
    );
}

#[test]
fn empty_pool_yields_stakeholder_insufficient() {
    assert_eq!(
        select_voters(&[], 7, 0).unwrap_err(),
        GmcError::StakeholderInsufficient
    );
}

#[test]
fn exactly_seven_remaining_succeeds() {
    let stakeholders = pool("ok", 7, "0.1");
    let voters = select_voters(&stakeholders, 7, 123).unwrap();
    assert_eq!(voters.len(), 7);
}

// --- sample size bounds & clamping --------------------

#[test]
fn sample_size_below_floor_is_clamped_up_to_seven() {
    let stakeholders = pool("ok", 20, "0.1");
    // Asking for 3 must still yield at least 7.
    let voters = select_voters(&stakeholders, 3, 5).unwrap();
    assert_eq!(voters.len(), MIN_VOTER_SET_SIZE);
}

#[test]
fn sample_size_above_remaining_is_capped() {
    let stakeholders = pool("ok", 9, "0.1");
    // Asking for 50 caps at the 9 that remain.
    let voters = select_voters(&stakeholders, 50, 5).unwrap();
    assert_eq!(voters.len(), 9);
}

#[test]
fn sample_size_within_range_is_respected() {
    let stakeholders = pool("ok", 20, "0.1");
    let voters = select_voters(&stakeholders, 11, 5).unwrap();
    assert_eq!(voters.len(), 11);
    assert!(voters.len() >= MIN_VOTER_SET_SIZE && voters.len() <= 20);
}

#[test]
fn selected_voters_are_distinct() {
    let stakeholders = pool("ok", 30, "0.4");
    let voters = select_voters(&stakeholders, 15, 777).unwrap();
    let mut sorted: Vec<&str> = voters.iter().map(|v| v.as_str()).collect();
    sorted.sort_unstable();
    sorted.dedup();
    assert_eq!(sorted.len(), voters.len(), "voters must be distinct");
}

// --- Determinism --------------------------------------------------------

#[test]
fn same_seed_yields_same_selection() {
    let stakeholders = pool("ok", 25, "0.5");
    let a = select_voters(&stakeholders, 10, 0xDEAD_BEEF).unwrap();
    let b = select_voters(&stakeholders, 10, 0xDEAD_BEEF).unwrap();
    assert_eq!(a, b, "selection must be reproducible for a fixed seed");
}

#[test]
fn different_seeds_generally_differ() {
    // Not a hard guarantee for all inputs, but with 25 choose 10 the odds of an
    // identical ordered pick across two distinct seeds are vanishingly small.
    let stakeholders = pool("ok", 25, "0.5");
    let a = select_voters(&stakeholders, 10, 1).unwrap();
    let b = select_voters(&stakeholders, 10, 2).unwrap();
    assert_ne!(a, b);
}

// --- anomalous voting-behaviour detection -------------

const DAY: u64 = 86_400;

/// Builds a `VoteEvent` for `voter`/`target` at `days_ago` before `now_secs`.
fn vote_at(voter: &str, target: &str, approve: bool, secs: u64) -> VoteEvent {
    VoteEvent::new(FayID::new(voter), target, approve, Timestamp::from_secs(secs))
}

#[test]
fn five_approvals_above_80_percent_within_window_is_flagged() {
    let now = Timestamp::from_secs(100 * DAY);
    let voter = FayID::new("v1");
    // 5 approvals + 1 reject => 5/6 ≈ 83.3% > 80%, count 5 >= 5 -> anomalous.
    let history = vec![
        vote_at("v1", "obj", true, 99 * DAY),
        vote_at("v1", "obj", true, 98 * DAY),
        vote_at("v1", "obj", true, 97 * DAY),
        vote_at("v1", "obj", true, 96 * DAY),
        vote_at("v1", "obj", true, 95 * DAY),
        vote_at("v1", "obj", false, 94 * DAY),
    ];
    let entry = detect_anomaly(&voter, "obj", &history, now).expect("should be flagged");
    assert_eq!(entry.voter, voter);
    assert_eq!(entry.target, "obj");
    assert_eq!(entry.approval_count, 5);
    assert_eq!(entry.total_count, 6);
    assert_eq!(entry.window_end, now);
}

#[test]
fn four_approvals_below_count_threshold_is_not_flagged() {
    let now = Timestamp::from_secs(100 * DAY);
    let voter = FayID::new("v1");
    // 4 approvals only (100% ratio) but count < 5 -> not anomalous.
    let history = vec![
        vote_at("v1", "obj", true, 99 * DAY),
        vote_at("v1", "obj", true, 98 * DAY),
        vote_at("v1", "obj", true, 97 * DAY),
        vote_at("v1", "obj", true, 96 * DAY),
    ];
    assert!(detect_anomaly(&voter, "obj", &history, now).is_none());
}

#[test]
fn exactly_80_percent_ratio_is_not_flagged() {
    let now = Timestamp::from_secs(100 * DAY);
    let voter = FayID::new("v1");
    // 8 approvals + 2 rejects => 8/10 = exactly 80%; must be strictly greater.
    let mut history = Vec::new();
    for i in 0..8 {
        history.push(vote_at("v1", "obj", true, (99 - i) * DAY));
    }
    history.push(vote_at("v1", "obj", false, 90 * DAY));
    history.push(vote_at("v1", "obj", false, 89 * DAY));
    assert_eq!(history.iter().filter(|e| e.approve).count(), 8);
    assert!(
        detect_anomaly(&voter, "obj", &history, now).is_none(),
        "exactly 80% must NOT be flagged (strictly greater required)"
    );
}

#[test]
fn just_above_80_percent_ratio_is_flagged() {
    let now = Timestamp::from_secs(100 * DAY);
    let voter = FayID::new("v1");
    // 9 approvals + 2 rejects => 9/11 ≈ 81.8% > 80%, count 9 >= 5 -> anomalous.
    let mut history = Vec::new();
    for i in 0..9 {
        history.push(vote_at("v1", "obj", true, (99 - i) * DAY));
    }
    history.push(vote_at("v1", "obj", false, 90 * DAY));
    history.push(vote_at("v1", "obj", false, 89 * DAY));
    let entry = detect_anomaly(&voter, "obj", &history, now).expect("should be flagged");
    assert_eq!(entry.approval_count, 9);
    assert_eq!(entry.total_count, 11);
}

#[test]
fn votes_older_than_30_days_are_excluded_from_window() {
    let now = Timestamp::from_secs(100 * DAY);
    let voter = FayID::new("v1");
    // 3 approvals inside the window + 4 approvals older than 30 days.
    // In-window count is 3 (< 5) so NOT anomalous despite 100% ratio overall.
    let history = vec![
        vote_at("v1", "obj", true, 99 * DAY), // 1 day ago - in window
        vote_at("v1", "obj", true, 80 * DAY), // 20 days ago - in window
        vote_at("v1", "obj", true, 71 * DAY), // 29 days ago - in window
        vote_at("v1", "obj", true, 60 * DAY), // 40 days ago - outside
        vote_at("v1", "obj", true, 50 * DAY), // outside
        vote_at("v1", "obj", true, 40 * DAY), // outside
        vote_at("v1", "obj", true, 30 * DAY), // outside
    ];
    assert!(
        detect_anomaly(&voter, "obj", &history, now).is_none(),
        "only the 3 in-window approvals count; below the 5-approval threshold"
    );
}

#[test]
fn vote_exactly_30_days_old_is_inside_window() {
    let now = Timestamp::from_secs(100 * DAY);
    let voter = FayID::new("v1");
    // Place 5 approvals, the oldest exactly 30 days old (boundary == in window).
    let history = vec![
        vote_at("v1", "obj", true, 100 * DAY - ANOMALY_WINDOW_SECS), // exactly 30d ago
        vote_at("v1", "obj", true, 99 * DAY),
        vote_at("v1", "obj", true, 98 * DAY),
        vote_at("v1", "obj", true, 97 * DAY),
        vote_at("v1", "obj", true, 96 * DAY),
    ];
    let entry = detect_anomaly(&voter, "obj", &history, now).expect("boundary vote counts");
    assert_eq!(entry.approval_count, 5);
    assert_eq!(entry.total_count, 5);
}

#[test]
fn votes_toward_other_targets_and_other_voters_are_ignored() {
    let now = Timestamp::from_secs(100 * DAY);
    let voter = FayID::new("v1");
    // Only 4 approvals toward "obj"; the rest are noise toward other targets/voters.
    let history = vec![
        vote_at("v1", "obj", true, 99 * DAY),
        vote_at("v1", "obj", true, 98 * DAY),
        vote_at("v1", "obj", true, 97 * DAY),
        vote_at("v1", "obj", true, 96 * DAY),
        vote_at("v1", "other-obj", true, 95 * DAY), // different target
        vote_at("v2", "obj", true, 94 * DAY),       // different voter
    ];
    assert!(
        detect_anomaly(&voter, "obj", &history, now).is_none(),
        "only v1's votes toward obj count; that is 4 (< 5)"
    );
}

#[test]
fn future_dated_votes_are_ignored() {
    let now = Timestamp::from_secs(100 * DAY);
    let voter = FayID::new("v1");
    let history = vec![
        vote_at("v1", "obj", true, 101 * DAY), // future
        vote_at("v1", "obj", true, 99 * DAY),
        vote_at("v1", "obj", true, 98 * DAY),
    ];
    // Only 2 in-window approvals -> not anomalous.
    assert!(detect_anomaly(&voter, "obj", &history, now).is_none());
}

#[test]
fn engine_records_pending_audit_entry_when_anomalous() {
    let now = Timestamp::from_secs(100 * DAY);
    let voter = FayID::new("v1");
    let history = vec![
        vote_at("v1", "obj", true, 99 * DAY),
        vote_at("v1", "obj", true, 98 * DAY),
        vote_at("v1", "obj", true, 97 * DAY),
        vote_at("v1", "obj", true, 96 * DAY),
        vote_at("v1", "obj", true, 95 * DAY),
    ];
    let mut engine = AntiFraudEngine::new();
    assert!(engine.pending_audit().is_empty());

    let recorded = engine
        .record_if_anomalous(&voter, "obj", &history, now)
        .cloned()
        .expect("anomalous behaviour should be recorded");
    assert_eq!(recorded.approval_count, 5);
    assert_eq!(recorded.total_count, 5);

    assert_eq!(engine.pending_audit().len(), 1);
    assert_eq!(engine.pending_audit()[0], recorded);
}

#[test]
fn engine_records_nothing_when_not_anomalous() {
    let now = Timestamp::from_secs(100 * DAY);
    let voter = FayID::new("v1");
    // 4 approvals -> below count threshold.
    let history = vec![
        vote_at("v1", "obj", true, 99 * DAY),
        vote_at("v1", "obj", true, 98 * DAY),
        vote_at("v1", "obj", true, 97 * DAY),
        vote_at("v1", "obj", true, 96 * DAY),
    ];
    let mut engine = AntiFraudEngine::new();
    assert!(engine.record_if_anomalous(&voter, "obj", &history, now).is_none());
    assert!(engine.pending_audit().is_empty());
}

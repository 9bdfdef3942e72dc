use gmc_core::error::GmcError;
use gmc_core::mechanism::AcquisitionMode;
use gmc_core::mechanism::DEFAULT_EXCLUDE_HIGH_INTIMACY;
use gmc_core::mechanism::EvaluationMechanism;
use gmc_core::mechanism::EvaluationMechanismSlot;
use gmc_core::mechanism::GovernanceDecision;
use gmc_core::types::Decimal;
use gmc_core::types::Ratio;

fn parse_decimal(s: &str) -> Result<Decimal, String> {
    let (neg, digits) = match s.strip_prefix('-') {
        Some(rest) => (true, rest),
        None => (false, s),
    };
    let (int_part, frac_part) = match digits.split_once('.') {
        Some((i, f)) => (i, f),
        None => (digits, ""),
    };
    if int_part.is_empty() || frac_part.len() > 6 {
        return Err(format!("invalid decimal literal {s}"));
    }
    let whole: i128 = int_part.parse().map_err(|_| format!("invalid decimal literal {s}"))?;
    let mut frac: i128 = 0;
    for (k, ch) in frac_part.chars().enumerate() {
        let d = ch.to_digit(10).ok_or_else(|| format!("invalid decimal literal {s}"))? as i128;
        frac += d * 10i128.pow(5 - k as u32);
    }
    let raw = whole * 1_000_000 + frac;
    Ok(Decimal::from_raw(if neg { -raw } else { raw }))
}

fn ratio(s: &str) -> Ratio {
    Ratio::new(parse_decimal(s).expect("valid decimal")).expect("valid ratio")
}

// --- Construction: accept valid configs --------------------------------

#[test]
fn accepts_single_mode_and_in_range_threshold() {
    let mech = EvaluationMechanism::new(
        &[AcquisitionMode::ObjectiveMetering],
        ratio("0.66"),
        true,
    )
    .expect("valid config should be accepted");
    assert_eq!(mech.acquisition_mode_count(), 1);
    assert!(mech.has_acquisition_mode(AcquisitionMode::ObjectiveMetering));
    assert!(!mech.has_acquisition_mode(AcquisitionMode::BountyTask));
    assert_eq!(mech.consensus_threshold(), ratio("0.66"));
}

#[test]
fn accepts_combination_of_modes() {
    let mech = EvaluationMechanism::new(
        &[AcquisitionMode::ObjectiveMetering, AcquisitionMode::BountyTask],
        ratio("0.5"),
        true,
    )
    .expect("two-mode config should be accepted");
    assert_eq!(mech.acquisition_mode_count(), 2);
    assert_eq!(
        mech.acquisition_modes().collect::<Vec<_>>(),
        vec![AcquisitionMode::ObjectiveMetering, AcquisitionMode::BountyTask]
    );
}

#[test]
fn duplicate_modes_are_deduplicated_but_still_valid() {
    let mech = EvaluationMechanism::new(
        &[
            AcquisitionMode::BountyTask,
            AcquisitionMode::BountyTask,
            AcquisitionMode::BountyTask,
        ],
        ratio("0.75"),
        true,
    )
    .expect("config with duplicate modes should still be accepted");
    assert_eq!(mech.acquisition_mode_count(), 1);
    assert!(mech.has_acquisition_mode(AcquisitionMode::BountyTask));
}

// --- Threshold boundary behaviour (0, 1] -------------------------------

#[test]
fn accepts_threshold_at_upper_bound_one() {
    // 1.0 is the inclusive upper bound of (0, 1].
    let mech = EvaluationMechanism::new(&[AcquisitionMode::BountyTask], Ratio::one(), true)
        .expect("threshold == 1 is the inclusive upper bound and must be accepted");
    assert_eq!(mech.consensus_threshold(), Ratio::one());
}

#[test]
fn rejects_threshold_zero() {
    // 0 is excluded by the open lower bound of (0, 1].
    let err = EvaluationMechanism::new(&[AcquisitionMode::BountyTask], Ratio::zero(), true)
        .expect_err("threshold == 0 must be rejected");
    assert_eq!(err, GmcError::MechanismConfigInvalid);
}

#[test]
fn rejects_threshold_above_one_via_decimal_constructor() {
    // > 1 is unrepresentable as a Ratio, so exercise the decimal entry point which
    // performs the [0, 1] range check itself.
    let err = EvaluationMechanism::from_threshold_decimal(
        &[AcquisitionMode::ObjectiveMetering],
        parse_decimal("1.5").unwrap(),
        true,
    )
    .expect_err("threshold > 1 must be rejected");
    assert_eq!(err, GmcError::MechanismConfigInvalid);
}

#[test]
fn decimal_constructor_rejects_zero_threshold() {
    let err = EvaluationMechanism::from_threshold_decimal(
        &[AcquisitionMode::ObjectiveMetering],
        Decimal::zero(),
        true,
    )
    .expect_err("threshold == 0 via decimal must be rejected");
    assert_eq!(err, GmcError::MechanismConfigInvalid);
}

#[test]
fn decimal_constructor_accepts_in_range_threshold() {
    let mech = EvaluationMechanism::from_threshold_decimal(
        &[AcquisitionMode::ObjectiveMetering],
        parse_decimal("0.8").unwrap(),
        true,
    )
    .expect("in-range decimal threshold should be accepted");
    assert_eq!(mech.consensus_threshold(), ratio("0.8"));
}

// --- Missing acquisition mode ------------------------------------------

#[test]
fn rejects_empty_acquisition_modes() {
    let err = EvaluationMechanism::new(&[], ratio("0.66"), true)
        .expect_err("no acquisition mode declared must be rejected");
    assert_eq!(err, GmcError::MechanismConfigInvalid);
}

#[test]
fn rejects_empty_modes_even_with_valid_threshold_via_decimal() {
    let err = EvaluationMechanism::from_threshold_decimal(
        &[],
        parse_decimal("0.7").unwrap(),
        true,
    )
    .expect_err("no acquisition mode declared must be rejected");
    assert_eq!(err, GmcError::MechanismConfigInvalid);
}

// --- High-intimacy exclusion default -----------------

#[test]
fn exclude_high_intimacy_defaults_to_true() {
    assert!(DEFAULT_EXCLUDE_HIGH_INTIMACY);
    let mech = EvaluationMechanism::with_default_exclusion(
        &[AcquisitionMode::ObjectiveMetering],
        ratio("0.66"),
    )
    .expect("valid config");
    assert!(mech.exclude_high_intimacy());
}

#[test]
fn exclude_high_intimacy_is_configurable() {
    let mech =
        EvaluationMechanism::new(&[AcquisitionMode::BountyTask], ratio("0.66"), false).unwrap();
    assert!(!mech.exclude_high_intimacy());
}

// --- Slot: independent storage + preserve-on-reject ----

#[test]
fn empty_slot_is_undefined() {
    let slot = EvaluationMechanismSlot::empty();
    assert!(!slot.is_defined());
    assert!(slot.current().is_none());
}

#[test]
fn slot_try_set_accepts_valid_config() {
    let mut slot = EvaluationMechanismSlot::empty();
    slot.try_set(&[AcquisitionMode::ObjectiveMetering], ratio("0.66"), true)
        .expect("valid config should be stored");
    assert!(slot.is_defined());
    assert_eq!(
        slot.current().unwrap().consensus_threshold(),
        ratio("0.66")
    );
}

#[test]
fn slot_failed_update_preserves_previous_valid_config() {
    // a rejected config must leave the prior valid config intact.
    let mut slot = EvaluationMechanismSlot::with_config(
        EvaluationMechanism::new(&[AcquisitionMode::BountyTask], ratio("0.7"), true).unwrap(),
    );

    // Attempt an invalid update (threshold == 0).
    let err = slot
        .try_set(&[AcquisitionMode::ObjectiveMetering], Ratio::zero(), true)
        .expect_err("invalid update must be rejected");
    assert_eq!(err, GmcError::MechanismConfigInvalid);

    // Previous valid config is unchanged.
    let current = slot.current().expect("previous config preserved");
    assert_eq!(current.consensus_threshold(), ratio("0.7"));
    assert!(current.has_acquisition_mode(AcquisitionMode::BountyTask));
    assert_eq!(current.acquisition_mode_count(), 1);
}

#[test]
fn slot_failed_first_set_leaves_slot_undefined() {
    let mut slot = EvaluationMechanismSlot::empty();
    let err = slot
        .try_set(&[], ratio("0.66"), true)
        .expect_err("invalid first config must be rejected");
    assert_eq!(err, GmcError::MechanismConfigInvalid);
    assert!(!slot.is_defined());
    assert!(slot.current().is_none());
}

#[test]
fn slot_successful_update_replaces_config() {
    let mut slot = EvaluationMechanismSlot::with_config(
        EvaluationMechanism::new(&[AcquisitionMode::BountyTask], ratio("0.7"), true).unwrap(),
    );
    slot.try_set(
        &[AcquisitionMode::ObjectiveMetering, AcquisitionMode::BountyTask],
        ratio("0.9"),
        false,
    )
    .expect("valid update should replace the stored config");
    let current = slot.current().unwrap();
    assert_eq!(current.consensus_threshold(), ratio("0.9"));
    assert_eq!(current.acquisition_mode_count(), 2);
    assert!(!current.exclude_high_intimacy());
}

// --- Governance-gated change flow ----------

#[test]
fn governance_decision_from_passed_maps_both_ways() {
    assert_eq!(
        GovernanceDecision::from_passed(true),
        GovernanceDecision::ThresholdReached
    );
    assert_eq!(
        GovernanceDecision::from_passed(false),
        GovernanceDecision::ThresholdNotReached
    );
    assert!(GovernanceDecision::ThresholdReached.threshold_reached());
    assert!(!GovernanceDecision::ThresholdNotReached.threshold_reached());
}

#[test]
fn propose_change_applies_when_threshold_reached() {
    // a change that reached the governance threshold takes effect.
    let mut slot = EvaluationMechanismSlot::with_config(
        EvaluationMechanism::new(&[AcquisitionMode::BountyTask], ratio("0.7"), true).unwrap(),
    );
    let proposal = EvaluationMechanism::new(
        &[AcquisitionMode::ObjectiveMetering, AcquisitionMode::BountyTask],
        ratio("0.85"),
        false,
    )
    .unwrap();

    let receipt = slot
        .propose_change(proposal.clone(), GovernanceDecision::ThresholdReached)
        .expect("threshold-reached change must be applied");

    // The stored config now reflects the change.
    let current = slot.current().expect("config still defined");
    assert_eq!(current, &proposal);
    assert_eq!(current.consensus_threshold(), ratio("0.85"));
    assert_eq!(current.acquisition_mode_count(), 2);
    assert!(!current.exclude_high_intimacy());

    // the effective change is flagged for L1 anchoring, carrying
    // exactly what took effect.
    assert!(receipt.anchor_required());
    assert_eq!(receipt.applied(), &proposal);
}

#[test]
fn propose_change_rejected_below_threshold_preserves_existing_config() {
    // a change that did not reach the threshold is rejected and
    // the existing config is preserved unchanged.
    let original =
        EvaluationMechanism::new(&[AcquisitionMode::BountyTask], ratio("0.7"), true).unwrap();
    let mut slot = EvaluationMechanismSlot::with_config(original.clone());

    let proposal = EvaluationMechanism::new(
        &[AcquisitionMode::ObjectiveMetering],
        ratio("0.95"),
        false,
    )
    .unwrap();

    let err = slot
        .propose_change(proposal, GovernanceDecision::ThresholdNotReached)
        .expect_err("below-threshold change must be rejected");
    assert_eq!(err, GmcError::GovernanceThresholdNotMet);

    // The previously stored config is completely unchanged.
    assert_eq!(slot.current(), Some(&original));
}

#[test]
fn propose_change_from_parts_applies_valid_change_when_threshold_reached() {
    let mut slot = EvaluationMechanismSlot::empty();
    let receipt = slot
        .propose_change_from_parts(
            &[AcquisitionMode::ObjectiveMetering],
            ratio("0.8"),
            true,
            GovernanceDecision::ThresholdReached,
        )
        .expect("valid + threshold-reached change must be applied");

    let current = slot.current().expect("config now defined");
    assert_eq!(current.consensus_threshold(), ratio("0.8"));
    assert!(current.has_acquisition_mode(AcquisitionMode::ObjectiveMetering));
    assert!(current.exclude_high_intimacy());
    assert!(receipt.anchor_required());
    assert_eq!(receipt.applied().consensus_threshold(), ratio("0.8"));
}

#[test]
fn propose_change_from_parts_rejects_invalid_proposal_without_applying() {
    // An invalid proposal (no acquisition mode) is rejected with
    // MechanismConfigInvalid and the prior config is preserved — even when the
    // governance decision would otherwise allow the change.
    let original =
        EvaluationMechanism::new(&[AcquisitionMode::BountyTask], ratio("0.7"), true).unwrap();
    let mut slot = EvaluationMechanismSlot::with_config(original.clone());

    let err = slot
        .propose_change_from_parts(
            &[],
            ratio("0.9"),
            true,
            GovernanceDecision::ThresholdReached,
        )
        .expect_err("invalid proposal must be rejected");
    assert_eq!(err, GmcError::MechanismConfigInvalid);
    assert_eq!(slot.current(), Some(&original));

    // A zero threshold is likewise invalid and must not apply.
    let err = slot
        .propose_change_from_parts(
            &[AcquisitionMode::ObjectiveMetering],
            Ratio::zero(),
            true,
            GovernanceDecision::ThresholdReached,
        )
        .expect_err("zero-threshold proposal must be rejected");
    assert_eq!(err, GmcError::MechanismConfigInvalid);
    assert_eq!(slot.current(), Some(&original));
}

#[test]
fn propose_change_from_parts_below_threshold_preserves_config_even_if_valid() {
    // The proposal is valid, but governance did not pass: reject with
    // GovernanceThresholdNotMet and preserve the prior config.
    let original =
        EvaluationMechanism::new(&[AcquisitionMode::BountyTask], ratio("0.7"), true).unwrap();
    let mut slot = EvaluationMechanismSlot::with_config(original.clone());

    let err = slot
        .propose_change_from_parts(
            &[AcquisitionMode::ObjectiveMetering],
            ratio("0.9"),
            false,
            GovernanceDecision::ThresholdNotReached,
        )
        .expect_err("below-threshold change must be rejected");
    assert_eq!(err, GmcError::GovernanceThresholdNotMet);
    assert_eq!(slot.current(), Some(&original));
}

#[test]
fn propose_change_below_threshold_on_empty_slot_leaves_it_undefined() {
    // A first-time change that does not reach the threshold must not define the
    // slot (nothing to preserve, but still no mutation).
    let mut slot = EvaluationMechanismSlot::empty();
    let proposal =
        EvaluationMechanism::new(&[AcquisitionMode::BountyTask], ratio("0.6"), true).unwrap();

    let err = slot
        .propose_change(proposal, GovernanceDecision::ThresholdNotReached)
        .expect_err("below-threshold change must be rejected");
    assert_eq!(err, GmcError::GovernanceThresholdNotMet);
    assert!(!slot.is_defined());
    assert!(slot.current().is_none());
}

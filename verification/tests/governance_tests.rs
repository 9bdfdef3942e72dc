use gmc_core::governance::GovernanceError;
use gmc_core::governance::GovernanceModule;
use gmc_core::governance::VoteId;
use gmc_core::governance::Voter;
use gmc_core::types::Decimal;
use gmc_core::types::FayID;
use gmc_core::types::Ratio;

fn parse_decimal(s: &str) -> Result<Decimal, String> {
    let (neg, digits) = match s.strip_prefix('-') {
        Some(rest) => (true, rest),
        None => (false, s),
    };
    let (int_part, frac_part) = match digits.split_once('.') {
        Some((i, f)) => (i, f),
        None => (digits, ""),
    };
    if int_part.is_empty() || frac_part.len() > 6 {
        return Err(format!("invalid decimal literal {s}"));
    }
    let whole: i128 = int_part.parse().map_err(|_| format!("invalid decimal literal {s}"))?;
    let mut frac: i128 = 0;
    for (k, ch) in frac_part.chars().enumerate() {
        let d = ch.to_digit(10).ok_or_else(|| format!("invalid decimal literal {s}"))? as i128;
        frac += d * 10i128.pow(5 - k as u32);
    }
    let raw = whole * 1_000_000 + frac;
    Ok(Decimal::from_raw(if neg { -raw } else { raw }))
}

fn voter(id: &str, merit: &str) -> Voter {
    Voter::new(FayID::new(id), parse_decimal(merit).unwrap())
}

fn ratio(s: &str) -> Ratio {
    Ratio::new(parse_decimal(s).unwrap()).unwrap()
}

// --- Weighting ---------------------------------------

#[test]
fn weights_are_curmerit_proportions_that_sum_to_one() {
    // Merits chosen so each curMerit/total is exact at 6 dp: 25/100, 25/100, 50/100.
    let mut gov = GovernanceModule::new();
    let id = gov
        .open_vote(
            "subject",
            ratio("0.5"),
            vec![
                voter("a", "25"),
                voter("b", "25"),
                voter("c", "50"),
            ],
        )
        .unwrap();

    assert_eq!(gov.voter_weight(id, &FayID::new("a")), Some(ratio("0.25")));
    assert_eq!(gov.voter_weight(id, &FayID::new("b")), Some(ratio("0.25")));
    assert_eq!(gov.voter_weight(id, &FayID::new("c")), Some(ratio("0.5")));

    // All weights sum to exactly 1.
    let sum = gov
        .voter_weights(id)
        .unwrap()
        .into_iter()
        .fold(Decimal::zero(), |acc, (_, w)| acc.checked_add(w.value()).unwrap());
    assert_eq!(sum, Decimal::one());
}

#[test]
fn two_equal_voters_each_have_half_weight() {
    let mut gov = GovernanceModule::new();
    let id = gov
        .open_vote("s", ratio("0.5"), vec![voter("a", "7"), voter("b", "7")])
        .unwrap();
    assert_eq!(gov.voter_weight(id, &FayID::new("a")), Some(ratio("0.5")));
    assert_eq!(gov.voter_weight(id, &FayID::new("b")), Some(ratio("0.5")));
}

// --- Threshold decision -------------------------------------------------

#[test]
fn weighted_approval_above_threshold_passes() {
    let mut gov = GovernanceModule::new();
    let id = gov
        .open_vote("s", ratio("0.5"), vec![voter("a", "60"), voter("b", "40")])
        .unwrap();
    gov.cast_vote(id, &FayID::new("a"), true).unwrap();
    gov.cast_vote(id, &FayID::new("b"), false).unwrap();

    let outcome = gov.tally(id).unwrap();
    assert_eq!(outcome.approval_ratio, ratio("0.6"));
    assert!(outcome.passed);
}

#[test]
fn weighted_approval_exactly_at_threshold_passes() {
    // 50/50 split, threshold 0.5 -> approval 0.5 >= 0.5 passes (inclusive).
    let mut gov = GovernanceModule::new();
    let id = gov
        .open_vote("s", ratio("0.5"), vec![voter("a", "50"), voter("b", "50")])
        .unwrap();
    gov.cast_vote(id, &FayID::new("a"), true).unwrap();
    gov.cast_vote(id, &FayID::new("b"), false).unwrap();

    let outcome = gov.tally(id).unwrap();
    assert_eq!(outcome.approval_ratio, ratio("0.5"));
    assert!(outcome.passed);
}

#[test]
fn weighted_approval_below_threshold_fails() {
    let mut gov = GovernanceModule::new();
    let id = gov
        .open_vote("s", ratio("0.5"), vec![voter("a", "40"), voter("b", "60")])
        .unwrap();
    gov.cast_vote(id, &FayID::new("a"), true).unwrap();
    gov.cast_vote(id, &FayID::new("b"), false).unwrap();

    let outcome = gov.tally(id).unwrap();
    assert_eq!(outcome.approval_ratio, ratio("0.4"));
    assert!(!outcome.passed);
}

#[test]
fn abstaining_voter_counts_against_approval() {
    // a approves (60), b abstains (40). approval = 60/100 = 0.6 >= 0.5 -> passes.
    let mut gov = GovernanceModule::new();
    let id = gov
        .open_vote("s", ratio("0.5"), vec![voter("a", "60"), voter("b", "40")])
        .unwrap();
    gov.cast_vote(id, &FayID::new("a"), true).unwrap();
    // b does not vote.
    let outcome = gov.tally(id).unwrap();
    assert_eq!(outcome.approval_ratio, ratio("0.6"));
    assert!(outcome.passed);

    // With a higher threshold the same abstention sinks the vote.
    let id2 = gov
        .open_vote("s", ratio("0.7"), vec![voter("a", "60"), voter("b", "40")])
        .unwrap();
    gov.cast_vote(id2, &FayID::new("a"), true).unwrap();
    assert!(!gov.tally(id2).unwrap().passed);
}

// --- Zero-total-merit edge case -----------------------------------------

#[test]
fn zero_total_merit_electorate_is_rejected() {
    let mut gov = GovernanceModule::new();
    let err = gov
        .open_vote("s", ratio("0.5"), vec![voter("a", "0"), voter("b", "0")])
        .unwrap_err();
    assert_eq!(err, GovernanceError::InvalidElectorate);
}

#[test]
fn empty_electorate_is_rejected() {
    let mut gov = GovernanceModule::new();
    let err = gov.open_vote("s", ratio("0.5"), vec![]).unwrap_err();
    assert_eq!(err, GovernanceError::InvalidElectorate);
}

#[test]
fn negative_merit_is_rejected() {
    let mut gov = GovernanceModule::new();
    let err = gov
        .open_vote("s", ratio("0.5"), vec![voter("a", "-1"), voter("b", "10")])
        .unwrap_err();
    assert_eq!(err, GovernanceError::InvalidElectorate);
}

#[test]
fn voter_with_zero_merit_is_allowed_when_total_positive() {
    // A zero-merit member is fine as long as the set total is positive; it simply
    // carries weight 0.
    let mut gov = GovernanceModule::new();
    let id = gov
        .open_vote("s", ratio("0.5"), vec![voter("a", "0"), voter("b", "10")])
        .unwrap();
    assert_eq!(gov.voter_weight(id, &FayID::new("a")), Some(Ratio::zero()));
    assert_eq!(gov.voter_weight(id, &FayID::new("b")), Some(Ratio::one()));
}

// --- cast_vote validation ----------------------------------------------

#[test]
fn cast_vote_rejects_unknown_vote_ineligible_voter_and_double_vote() {
    let mut gov = GovernanceModule::new();
    let id = gov
        .open_vote("s", ratio("0.5"), vec![voter("a", "10"), voter("b", "10")])
        .unwrap();

    // Unknown vote id.
    let bogus = VoteId(9999);
    assert_eq!(
        gov.cast_vote(bogus, &FayID::new("a"), true),
        Err(GovernanceError::UnknownVote)
    );

    // Ineligible voter.
    assert_eq!(
        gov.cast_vote(id, &FayID::new("z"), true),
        Err(GovernanceError::VoterNotEligible)
    );

    // First ballot ok, second from same voter rejected.
    gov.cast_vote(id, &FayID::new("a"), true).unwrap();
    assert_eq!(
        gov.cast_vote(id, &FayID::new("a"), false),
        Err(GovernanceError::AlreadyVoted)
    );
}

// --- anchor placeholder & tally errors ----------------------------------

#[test]
fn anchor_outcome_placeholder_marks_anchored() {
    let mut gov = GovernanceModule::new();
    let id = gov.open_vote("s", ratio("0.5"), vec![voter("a", "10")]).unwrap();
    assert_eq!(gov.is_anchored(id), Some(false));
    gov.anchor_outcome(id).unwrap();
    assert_eq!(gov.is_anchored(id), Some(true));
}

#[test]
fn tally_and_anchor_reject_unknown_vote() {
    let mut gov = GovernanceModule::new();
    let bogus = VoteId(0);
    assert_eq!(gov.tally(bogus), Err(GovernanceError::UnknownVote));
    assert_eq!(gov.anchor_outcome(bogus), Err(GovernanceError::UnknownVote));
}

#[test]
fn no_ballots_yields_zero_approval() {
    let mut gov = GovernanceModule::new();
    let id = gov
        .open_vote("s", ratio("0.5"), vec![voter("a", "10"), voter("b", "10")])
        .unwrap();
    let outcome = gov.tally(id).unwrap();
    assert_eq!(outcome.approval_ratio, Ratio::zero());
    assert!(!outcome.passed);
}

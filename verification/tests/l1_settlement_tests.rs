use gmc_core::error::GmcError;
use gmc_core::l1_settlement::AnchorKind;
use gmc_core::l1_settlement::BatchProof;
use gmc_core::l1_settlement::ChainRegistrationRecord;
use gmc_core::l1_settlement::ConsensusConfig;
use gmc_core::l1_settlement::IdentityRegistrationRecord;
use gmc_core::l1_settlement::L1Settlement;
use gmc_core::l1_settlement::PenaltyRecord;
use gmc_core::l1_settlement::StateRoot;
use gmc_core::l1_settlement::TRANSACTION_FEE_RAW;
use gmc_core::l1_settlement::VoteResultRecord;
use gmc_core::registry::OriginType;
use gmc_core::types::ChainId;
use gmc_core::types::Decimal;
use gmc_core::types::FayID;
use gmc_core::types::Timestamp;

fn ts(secs: u64) -> Timestamp {
    Timestamp::from_secs(secs)
}

fn chain_record(id: &str) -> ChainRegistrationRecord {
    ChainRegistrationRecord::new(
        ChainId::new(id),
        Some(ChainId::new("gmc-base")),
        "academic",
        FayID::new("steward-1"),
        OriginType::StewardInitiated,
        ts(1_000),
    )
}

// --- chain registration storage + anchoring (2.6) -----

#[test]
fn anchor_chain_creation_stores_record_and_advances_root() {
    let mut l1 = L1Settlement::new();
    let before = l1.state_root();
    assert_eq!(before, StateRoot::genesis());

    let new_root = l1.anchor_chain_creation(chain_record("academic-chain"));

    // The record is stored and retrievable.
    let stored = l1
        .chain_registration(&ChainId::new("academic-chain"))
        .expect("anchored chain record is retrievable");
    assert_eq!(stored.domain, "academic");
    assert_eq!(stored.parent_id, Some(ChainId::new("gmc-base")));
    assert_eq!(stored.origin, OriginType::StewardInitiated);
    assert_eq!(l1.chain_registration_count(), 1);

    // The state root advanced (anchoring updates settled state).
    assert_ne!(new_root, before);
    assert_eq!(l1.state_root(), new_root);
    assert_eq!(l1.version(), 1);

    // The anchoring event is in the audit log.
    let entry = l1.anchor_log().last().unwrap();
    assert_eq!(entry.kind, AnchorKind::ChainCreation);
    assert_eq!(entry.chain_id, Some(ChainId::new("academic-chain")));
    assert_eq!(entry.resulting_root, new_root);
}

// --- identity registration storage -------------------

#[test]
fn store_identity_registration_is_retrievable() {
    let mut l1 = L1Settlement::new();
    l1.store_identity_registration(IdentityRegistrationRecord::new(
        FayID::new("fay-1"),
        ts(2_000),
    ));

    let stored = l1
        .identity_registration(&FayID::new("fay-1"))
        .expect("identity registration is retrievable");
    assert_eq!(stored.registered_at, ts(2_000));
    assert_eq!(l1.version(), 1);
}

// --- governance vote result storage ------------------

#[test]
fn store_vote_result_is_retrievable() {
    let mut l1 = L1Settlement::new();
    l1.store_vote_result(VoteResultRecord::new(
        "vote-7",
        "mechanism-change:academic-chain",
        true,
        ts(3_000),
    ));

    let stored = l1.vote_result("vote-7").expect("vote result is retrievable");
    assert!(stored.passed);
    assert_eq!(stored.subject, "mechanism-change:academic-chain");
}

// --- penalty record ---------------------------

#[test]
fn record_penalty_appends_to_penalty_log() {
    let mut l1 = L1Settlement::new();
    assert!(l1.penalties().is_empty());

    l1.record_penalty(PenaltyRecord::new(
        FayID::new("fay-cheater"),
        "collusion-clawback",
        ts(4_000),
    ));

    assert_eq!(l1.penalties().len(), 1);
    assert_eq!(l1.penalties()[0].subject, FayID::new("fay-cheater"));
    assert_eq!(l1.penalties()[0].reason, "collusion-clawback");
}

// --- state-root updates --------------------------

#[test]
fn update_state_root_sets_explicit_root() {
    let mut l1 = L1Settlement::new();
    let batch_root = StateRoot::from_bytes([7u8; 32]);

    let confirmed = l1.update_state_root(batch_root);

    assert_eq!(confirmed, batch_root);
    assert_eq!(l1.state_root(), batch_root);
    assert_eq!(l1.version(), 1);
    assert_eq!(l1.anchor_log().last().unwrap().kind, AnchorKind::StateRootUpdate);
}

#[test]
fn anchor_derivation_state_root_sets_explicit_root() {
    let mut l1 = L1Settlement::new();
    let derivation_root = StateRoot::from_bytes([42u8; 32]);

    let confirmed = l1.anchor_derivation_state_root(derivation_root);

    assert_eq!(confirmed, derivation_root);
    assert_eq!(l1.state_root(), derivation_root);
    assert_eq!(
        l1.anchor_log().last().unwrap().kind,
        AnchorKind::DerivationStateRoot
    );
}

// --- ZK batch-proof verification guard ---

#[test]
fn valid_batch_proof_advances_confirmed_root_to_batch_root() {
    let mut l1 = L1Settlement::new();
    let before_root = l1.state_root();
    let before_version = l1.version();
    let batch_root = StateRoot::from_bytes([9u8; 32]);

    let confirmed = l1
        .submit_batch_proof(batch_root, BatchProof::valid_for(batch_root))
        .expect("a valid proof for the batch root verifies");

    // The confirmed root advanced to the batch root and the version moved forward.
    assert_eq!(confirmed, batch_root);
    assert_eq!(l1.state_root(), batch_root);
    assert_ne!(l1.state_root(), before_root);
    assert_eq!(l1.version(), before_version + 1);

    // The successful settlement is recorded as a state-root update.
    assert_eq!(
        l1.anchor_log().last().unwrap().kind,
        AnchorKind::StateRootUpdate
    );
}

#[test]
fn invalid_batch_proof_is_rejected_and_retains_previous_root() {
    let mut l1 = L1Settlement::new();

    // Establish a non-genesis confirmed root via a first, valid batch.
    let confirmed_root = StateRoot::from_bytes([1u8; 32]);
    l1.submit_batch_proof(confirmed_root, BatchProof::valid_for(confirmed_root))
        .expect("first valid batch settles");
    let version_after_valid = l1.version();

    // A second batch arrives with an invalid proof.
    let rejected_root = StateRoot::from_bytes([2u8; 32]);
    let err = l1
        .submit_batch_proof(rejected_root, BatchProof::invalid_for(rejected_root))
        .expect_err("an invalid proof must be rejected");

    // The error is ProofVerificationFailed.
    assert_eq!(err, GmcError::ProofVerificationFailed);

    // The previous confirmed root is retained, unchanged; version does not advance.
    assert_eq!(l1.state_root(), confirmed_root);
    assert_ne!(l1.state_root(), rejected_root);
    assert_eq!(l1.version(), version_after_valid);

    // The rejection is traceable but did not advance state: the audit entry points
    // at the retained root and the unchanged version.
    let last = l1.anchor_log().last().unwrap();
    assert_eq!(last.kind, AnchorKind::BatchProofRejected);
    assert_eq!(last.resulting_root, confirmed_root);
    assert_eq!(last.version, version_after_valid);
}

#[test]
fn valid_proof_committing_to_different_root_does_not_verify() {
    let mut l1 = L1Settlement::new();
    let batch_root = StateRoot::from_bytes([5u8; 32]);
    let other_root = StateRoot::from_bytes([6u8; 32]);

    // A proof that is "valid" but commits to a *different* root must not authorise
    // settling `batch_root` (mirrors real ZK semantics).
    let err = l1
        .submit_batch_proof(batch_root, BatchProof::valid_for(other_root))
        .expect_err("a proof for a different root must not verify this batch");

    assert_eq!(err, GmcError::ProofVerificationFailed);
    assert_eq!(l1.state_root(), StateRoot::genesis());
    assert_eq!(l1.version(), 0);
}

#[test]
fn mixed_proof_sequence_only_advances_on_valid_submissions() {
    let mut l1 = L1Settlement::new();

    let r1 = StateRoot::from_bytes([10u8; 32]);
    let r2 = StateRoot::from_bytes([20u8; 32]);
    let r3 = StateRoot::from_bytes([30u8; 32]);

    // valid -> advances to r1
    assert_eq!(
        l1.submit_batch_proof(r1, BatchProof::valid_for(r1)).unwrap(),
        r1
    );
    assert_eq!(l1.state_root(), r1);
    assert_eq!(l1.version(), 1);

    // invalid -> rejected, root and version retained at r1 / 1
    assert_eq!(
        l1.submit_batch_proof(r2, BatchProof::invalid()).unwrap_err(),
        GmcError::ProofVerificationFailed
    );
    assert_eq!(l1.state_root(), r1, "failed proof retains the prior root");
    assert_eq!(l1.version(), 1, "failed proof does not advance the version");

    // valid -> advances to r3 (only the verified batches move the root)
    assert_eq!(
        l1.submit_batch_proof(r3, BatchProof::valid_for(r3)).unwrap(),
        r3
    );
    assert_eq!(l1.state_root(), r3);
    assert_eq!(l1.version(), 2);

    // The confirmed root only ever equalled the roots of the verified batches.
    assert_ne!(l1.state_root(), r2);
}

// --- change & outcome anchoring ----------

#[test]
fn mechanism_inflation_and_retro_anchors_advance_distinct_roots() {
    let mut l1 = L1Settlement::new();
    let r0 = l1.state_root();

    let r1 = l1.anchor_mechanism_change(ChainId::new("academic-chain"));
    let r2 = l1.anchor_inflation_index_change(ChainId::new("academic-chain"));
    let r3 = l1.anchor_retroactive_outcome(VoteResultRecord::new(
        "retro-1",
        "retro:carbon-chain",
        false,
        ts(5_000),
    ));

    // Every anchoring advanced the root to a fresh value.
    let roots = [r0, r1, r2, r3];
    for (i, a) in roots.iter().enumerate() {
        for b in roots.iter().skip(i + 1) {
            assert_ne!(a, b, "each settled change must move the state root");
        }
    }
    assert_eq!(l1.version(), 3);

    // The retro outcome's vote result is stored.
    assert_eq!(l1.vote_result("retro-1").unwrap().passed, false);

    // The audit log records the kinds in order.
    let kinds: Vec<AnchorKind> = l1.anchor_log().iter().map(|e| e.kind).collect();
    assert_eq!(
        kinds,
        vec![
            AnchorKind::MechanismChange,
            AnchorKind::InflationIndexChange,
            AnchorKind::RetroactiveOutcome,
        ]
    );
}

// --- fee-free -----------------------------------------

#[test]
fn transaction_fee_is_zero() {
    let l1 = L1Settlement::new();
    assert_eq!(l1.transaction_fee(), Decimal::zero());
    assert!(l1.transaction_fee().is_zero());
    assert!(l1.is_fee_free());
    assert_eq!(Decimal::from_raw(TRANSACTION_FEE_RAW), Decimal::zero());
}

// --- GRANDPA/BABE consensus ---------------------------

#[test]
fn consensus_config_is_grandpa_babe() {
    let l1 = L1Settlement::new();
    assert_eq!(l1.consensus_config(), ConsensusConfig::GrandpaBabe);
    assert_eq!(l1.consensus_config().label(), "GRANDPA/BABE");
    assert!(l1.consensus_config().uses_grandpa());
    assert!(l1.consensus_config().uses_babe());
}

// --- State-root model determinism ---------------------------------------

#[test]
fn state_root_advance_is_deterministic_across_instances() {
    let mut a = L1Settlement::new();
    let mut b = L1Settlement::new();
    a.anchor_chain_creation(chain_record("c1"));
    b.anchor_chain_creation(chain_record("c1"));
    assert_eq!(a.state_root(), b.state_root());
    assert_eq!(a.version(), b.version());
}

#[test]
fn genesis_state_root_is_zero_and_default_matches_new() {
    let l1 = L1Settlement::default();
    assert_eq!(l1.state_root(), StateRoot::genesis());
    assert_eq!(l1.state_root().as_bytes(), &[0u8; 32]);
    assert_eq!(l1.version(), 0);
}

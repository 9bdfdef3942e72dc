use gmc_core::error::GmcError;
use gmc_core::recording::ContributionId;
use gmc_core::recording::ContributionRequest;
use gmc_core::recording::EvaluationStatus;
use gmc_core::recording::EvidenceRef;
use gmc_core::recording::RecordingService;
use gmc_core::recording::RegistrationLookup;
use gmc_core::types::ChainId;
use gmc_core::types::FayID;
use gmc_core::types::Timestamp;

use std::collections::BTreeSet;

/// Test double for [`RegistrationLookup`]: holds a set of `(contributor, chain)`
/// pairs that have a matching valid registration, and the id it links them to.
struct StubRegistrations {
    valid: BTreeSet<(String, String)>,
    linked_id: String,
}

impl StubRegistrations {
    fn new() -> Self {
        StubRegistrations {
            valid: BTreeSet::new(),
            linked_id: "reg-1".to_owned(),
        }
    }

    /// Marks `(contributor, chain)` as having a matching valid registration.
    fn with_valid(mut self, contributor: &str, chain: &str) -> Self {
        self.valid
            .insert((contributor.to_owned(), chain.to_owned()));
        self
    }
}

impl RegistrationLookup for StubRegistrations {
    fn find_valid_registration(
        &self,
        contributor_id: &FayID,
        chain_id: &ChainId,
    ) -> Option<String> {
        let key = (
            contributor_id.as_str().to_owned(),
            chain_id.as_str().to_owned(),
        );
        if self.valid.contains(&key) {
            Some(self.linked_id.clone())
        } else {
            None
        }
    }
}

fn request(contributor: &str, chain: &str) -> ContributionRequest {
    ContributionRequest::new(
        FayID::new(contributor),
        ChainId::new(chain),
        vec![EvidenceRef::new("ipfs://cid", "0xhash")],
        Timestamp::from_secs(1_000),
    )
}

// --- matching valid registration → linked Pending record ---

#[test]
fn record_with_matching_valid_registration_creates_pending_linked_record() {
    let registrations = StubRegistrations::new().with_valid("alice", "academia");
    let mut service = RecordingService::new();

    let id = service
        .record(request("alice", "academia"), &registrations, false)
        .expect("a matching valid registration must allow recording");

    let record = service.get(&id).expect("record stored");
    assert_eq!(record.evaluation_status(), EvaluationStatus::Pending);
    assert!(record.is_linked());
    assert_eq!(record.registration_id(), Some("reg-1"));
    assert_eq!(record.contributor_id(), &FayID::new("alice"));
    assert_eq!(record.chain_id(), &ChainId::new("academia"));
    assert_eq!(service.len(), 1);
}

// --- no valid registration + not retroactive → NotRegistered ---

#[test]
fn record_without_valid_registration_and_not_retroactive_is_rejected() {
    let registrations = StubRegistrations::new(); // no valid registrations at all
    let mut service = RecordingService::new();

    let err = service
        .record(request("bob", "academia"), &registrations, false)
        .expect_err("missing valid registration must be rejected");

    assert_eq!(err, GmcError::NotRegistered);
    // Atomic: nothing was written.
    assert!(service.is_empty());
}

#[test]
fn record_rejected_when_chain_does_not_match_a_valid_registration() {
    // A valid registration exists for a *different* chain — must not match.
    let registrations = StubRegistrations::new().with_valid("alice", "academia");
    let mut service = RecordingService::new();

    let err = service
        .record(request("alice", "charity"), &registrations, false)
        .expect_err("mismatched chain must be rejected");

    assert_eq!(err, GmcError::NotRegistered);
    assert!(service.is_empty());
}

// --- retroactive path allows an unlinked record ---

#[test]
fn record_without_valid_registration_via_retroactive_path_creates_unlinked_record() {
    let registrations = StubRegistrations::new();
    let mut service = RecordingService::new();

    let id = service
        .record(request("carol", "history"), &registrations, true)
        .expect("retroactive path allows recording without a registration");

    let record = service.get(&id).expect("record stored");
    assert_eq!(record.evaluation_status(), EvaluationStatus::Pending);
    assert!(!record.is_linked());
    assert_eq!(record.registration_id(), None);
    assert_eq!(service.len(), 1);
}

#[test]
fn retroactive_flag_still_links_when_a_valid_registration_exists() {
    // An existing valid registration takes the linked standard path even if the
    // request is flagged retroactive.
    let registrations = StubRegistrations::new().with_valid("alice", "academia");
    let mut service = RecordingService::new();

    let id = service
        .record(request("alice", "academia"), &registrations, true)
        .expect("valid registration always links");

    assert!(service.get(&id).unwrap().is_linked());
}

// --- failed evaluation retains record, marks Failed ---

#[test]
fn mark_evaluation_result_false_marks_failed_and_retains_record() {
    let registrations = StubRegistrations::new().with_valid("alice", "academia");
    let mut service = RecordingService::new();
    let id = service
        .record(request("alice", "academia"), &registrations, false)
        .unwrap();

    service
        .mark_evaluation_result(&id, false)
        .expect("marking a stored record must succeed");

    let record = service.get(&id).expect("record is retained, not removed");
    assert_eq!(record.evaluation_status(), EvaluationStatus::Failed);
    assert_eq!(service.len(), 1);
}

#[test]
fn mark_evaluation_result_true_marks_passed() {
    let registrations = StubRegistrations::new().with_valid("alice", "academia");
    let mut service = RecordingService::new();
    let id = service
        .record(request("alice", "academia"), &registrations, false)
        .unwrap();

    service
        .mark_evaluation_result(&id, true)
        .expect("marking a stored record must succeed");

    assert_eq!(
        service.get(&id).unwrap().evaluation_status(),
        EvaluationStatus::Passed
    );
}

#[test]
fn mark_evaluation_result_on_unknown_record_is_rejected() {
    let mut service = RecordingService::new();
    let err = service
        .mark_evaluation_result(&ContributionId::new("contrib-404"), true)
        .expect_err("unknown record id must be rejected");
    assert_eq!(err, GmcError::FieldValidation);
}

// --- id allocation is unique/deterministic across records ---

#[test]
fn distinct_records_get_distinct_ids() {
    let registrations = StubRegistrations::new()
        .with_valid("alice", "academia")
        .with_valid("bob", "academia");
    let mut service = RecordingService::new();

    let id1 = service
        .record(request("alice", "academia"), &registrations, false)
        .unwrap();
    let id2 = service
        .record(request("bob", "academia"), &registrations, false)
        .unwrap();

    assert_ne!(id1, id2);
    assert_eq!(service.len(), 2);
}

// --- has_valid_registration default method delegates correctly ---

#[test]
fn has_valid_registration_default_matches_find() {
    let registrations = StubRegistrations::new().with_valid("alice", "academia");
    assert!(registrations
        .has_valid_registration(&FayID::new("alice"), &ChainId::new("academia")));
    assert!(!registrations
        .has_valid_registration(&FayID::new("alice"), &ChainId::new("charity")));
}

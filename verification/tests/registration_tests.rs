use gmc_core::error::GmcError;
use gmc_core::registration::GrantContext;
use gmc_core::registration::MAX_DESCRIPTION_CHARS;
use gmc_core::registration::Registration;
use gmc_core::registration::RegistrationApplication;
use gmc_core::registration::RegistrationId;
use gmc_core::registration::RegistrationService;
use gmc_core::registration::RegistrationStatus;
use gmc_core::registration::can_grant;
use gmc_core::types::ChainId;
use gmc_core::types::FayID;
use gmc_core::types::Timestamp;

fn app(contributor: &str, chain: &str, description: &str) -> RegistrationApplication {
    RegistrationApplication::new(
        FayID::new(contributor),
        ChainId::new(chain),
        description,
        Timestamp::from_secs(1_000),
    )
}

// --- Successful registration -------------------------

#[test]
fn valid_application_creates_a_valid_registration() {
    let mut svc = RegistrationService::new();
    let id = svc
        .register(app("fay-1", "academic", "intend to publish a paper"))
        .expect("a complete, in-bounds application must be accepted");

    let reg = svc.get(&id).expect("registration stored");
    assert_eq!(reg.contributor_id(), &FayID::new("fay-1"));
    assert_eq!(reg.chain_id(), &ChainId::new("academic"));
    assert_eq!(reg.description(), "intend to publish a paper");
    assert_eq!(reg.registered_at(), Timestamp::from_secs(1_000));
    assert_eq!(reg.status(), RegistrationStatus::Valid);
    assert!(reg.is_valid());
    assert_eq!(svc.len(), 1);
}

// --- Missing required fields rejected, nothing created ---

#[test]
fn registration_missing_contributor_id_is_rejected_and_nothing_created() {
    let mut svc = RegistrationService::new();
    let result = svc.register(app("", "academic", "desc"));
    assert_eq!(result, Err(GmcError::FieldValidation));
    assert!(svc.is_empty());
}

#[test]
fn missing_chain_id_is_rejected_and_nothing_created() {
    let mut svc = RegistrationService::new();
    let result = svc.register(app("fay-1", "", "desc"));
    assert_eq!(result, Err(GmcError::FieldValidation));
    assert!(svc.is_empty());
}

// --- Description length boundary ---------------

#[test]
fn description_of_exactly_2000_chars_is_accepted() {
    let mut svc = RegistrationService::new();
    let desc: String = "a".repeat(MAX_DESCRIPTION_CHARS);
    assert_eq!(desc.chars().count(), 2000);
    let id = svc
        .register(app("fay-1", "academic", &desc))
        .expect("a 2000-char description is within bounds");
    assert_eq!(svc.get(&id).unwrap().description().chars().count(), 2000);
}

#[test]
fn description_of_2001_chars_is_rejected_and_nothing_created() {
    let mut svc = RegistrationService::new();
    let desc: String = "a".repeat(MAX_DESCRIPTION_CHARS + 1);
    assert_eq!(desc.chars().count(), 2001);
    let result = svc.register(app("fay-1", "academic", &desc));
    assert_eq!(result, Err(GmcError::FieldValidation));
    assert!(svc.is_empty());
}

#[test]
fn description_length_counts_unicode_chars_not_bytes() {
    // 2000 multi-byte CJK characters: > 2000 bytes but exactly 2000 *characters*,
    // so it must be accepted (the bound is "字" = characters, not bytes).
    let mut svc = RegistrationService::new();
    let desc: String = "字".repeat(MAX_DESCRIPTION_CHARS);
    assert!(desc.len() > MAX_DESCRIPTION_CHARS); // byte length far exceeds 2000
    assert_eq!(desc.chars().count(), 2000);
    svc.register(app("fay-1", "academic", &desc))
        .expect("2000 CJK characters is within the character bound");

    // One more character must tip it over.
    let mut svc2 = RegistrationService::new();
    let too_long: String = "字".repeat(MAX_DESCRIPTION_CHARS + 1);
    assert_eq!(
        svc2.register(app("fay-1", "academic", &too_long)),
        Err(GmcError::FieldValidation)
    );
    assert!(svc2.is_empty());
}

// --- find_valid_registration -----------------

#[test]
fn find_valid_registration_returns_match_for_contributor_and_chain() {
    let mut svc = RegistrationService::new();
    svc.register(app("fay-1", "academic", "desc")).unwrap();

    let found = svc.find_valid_registration(&FayID::new("fay-1"), &ChainId::new("academic"));
    assert!(found.is_some());
    let reg = found.unwrap();
    assert_eq!(reg.contributor_id(), &FayID::new("fay-1"));
    assert_eq!(reg.chain_id(), &ChainId::new("academic"));
    assert!(reg.is_valid());
}

#[test]
fn find_valid_registration_requires_both_contributor_and_chain_to_match() {
    let mut svc = RegistrationService::new();
    svc.register(app("fay-1", "academic", "desc")).unwrap();

    // Right contributor, wrong chain.
    assert!(svc
        .find_valid_registration(&FayID::new("fay-1"), &ChainId::new("charity"))
        .is_none());
    // Wrong contributor, right chain.
    assert!(svc
        .find_valid_registration(&FayID::new("fay-2"), &ChainId::new("academic"))
        .is_none());
}

#[test]
fn find_valid_registration_ignores_non_valid_status() {
    // Build a service holding a single non-Valid registration directly, to confirm
    // the lookup keys off `status == Valid` (the recording stage must not match a
    // Consumed/Revoked registration).
    let mut svc = RegistrationService::new();
    let id = svc.register(app("fay-1", "academic", "desc")).unwrap();

    // Move the stored record's status out of `Valid` by rebuilding the store: the
    // service has no status setter, so this checks the status sensitivity directly.
    let mut consumed = svc.get(&id).unwrap().clone();
    consumed.status = RegistrationStatus::Consumed;
    let mut svc2 = RegistrationService::new();
    svc2.registrations.push(consumed);

    assert!(svc2
        .find_valid_registration(&FayID::new("fay-1"), &ChainId::new("academic"))
        .is_none());
}

#[test]
fn each_registration_gets_a_distinct_id() {
    let mut svc = RegistrationService::new();
    let a = svc.register(app("fay-1", "academic", "first")).unwrap();
    let b = svc.register(app("fay-1", "academic", "second")).unwrap();
    assert_ne!(a, b);
    assert_eq!(svc.len(), 2);
}

#[test]
fn anchor_registration_root_seam_is_callable() {
    let svc = RegistrationService::new();
    assert_eq!(svc.anchor_registration_root(), Ok(()));
}

// --- Grant three-condition guard ---------------

/// Test double for [`GrantContext`]: carries the two contribution-derived facts
/// (whether an associated record exists, and whether it passed evaluation).
struct StubGrantContext {
    has_linked_record: bool,
    evaluation_passed: bool,
}

impl GrantContext for StubGrantContext {
    fn has_linked_record(&self) -> bool {
        self.has_linked_record
    }
    fn evaluation_passed(&self) -> bool {
        self.evaluation_passed
    }
}

/// Builds a single `Valid` registration to stand in for "matching valid
/// registration exists" in the pure-predicate tests.
fn valid_registration() -> Registration {
    Registration {
        id: RegistrationId::new("reg-0"),
        contributor_id: FayID::new("fay-1"),
        chain_id: ChainId::new("academic"),
        description: "desc".to_owned(),
        registered_at: Timestamp::from_secs(1_000),
        status: RegistrationStatus::Valid,
    }
}

// Pure predicate: full truth table of the three conditions.

#[test]
fn can_grant_predicate_true_only_when_all_three_conditions_hold() {
    let reg = valid_registration();
    // All true => grant.
    assert!(can_grant(Some(&reg), true, true));
}

#[test]
fn can_grant_predicate_false_when_no_valid_registration() {
    // Condition 1 false: no registration at all.
    assert!(!can_grant(None, true, true));
}

#[test]
fn can_grant_predicate_false_when_registration_not_valid() {
    // Condition 1 false: a registration exists but is not `Valid`.
    let mut consumed = valid_registration();
    consumed.status = RegistrationStatus::Consumed;
    assert!(!can_grant(Some(&consumed), true, true));

    let mut revoked = valid_registration();
    revoked.status = RegistrationStatus::Revoked;
    assert!(!can_grant(Some(&revoked), true, true));
}

#[test]
fn can_grant_predicate_false_when_no_linked_record() {
    // Condition 2 false: no associated contribution record.
    let reg = valid_registration();
    assert!(!can_grant(Some(&reg), false, true));
}

#[test]
fn can_grant_predicate_false_when_evaluation_not_passed() {
    // Condition 3 false: the record has not passed evaluation.
    let reg = valid_registration();
    assert!(!can_grant(Some(&reg), true, false));
}

#[test]
fn can_grant_predicate_false_when_all_conditions_false() {
    assert!(!can_grant(None, false, false));
}

// Service entry point: condition 1 is supplied by find_valid_registration.

#[test]
fn service_can_grant_true_when_all_three_conditions_hold() {
    let mut svc = RegistrationService::new();
    svc.register(app("fay-1", "academic", "desc")).unwrap();
    let ctx = StubGrantContext {
        has_linked_record: true,
        evaluation_passed: true,
    };
    assert!(svc.can_grant(&FayID::new("fay-1"), &ChainId::new("academic"), &ctx));
}

#[test]
fn service_can_grant_false_when_no_matching_valid_registration() {
    // No registration for this (contributor, chain) at all → condition 1 false,
    // even though the contribution facts are both true.
    let svc = RegistrationService::new();
    let ctx = StubGrantContext {
        has_linked_record: true,
        evaluation_passed: true,
    };
    assert!(!svc.can_grant(&FayID::new("fay-1"), &ChainId::new("academic"), &ctx));
}

#[test]
fn service_can_grant_false_when_registration_matches_other_chain() {
    // A valid registration exists, but for a different chain → no match.
    let mut svc = RegistrationService::new();
    svc.register(app("fay-1", "academic", "desc")).unwrap();
    let ctx = StubGrantContext {
        has_linked_record: true,
        evaluation_passed: true,
    };
    assert!(!svc.can_grant(&FayID::new("fay-1"), &ChainId::new("charity"), &ctx));
}

#[test]
fn service_can_grant_false_when_no_linked_record() {
    let mut svc = RegistrationService::new();
    svc.register(app("fay-1", "academic", "desc")).unwrap();
    let ctx = StubGrantContext {
        has_linked_record: false,
        evaluation_passed: true,
    };
    assert!(!svc.can_grant(&FayID::new("fay-1"), &ChainId::new("academic"), &ctx));
}

#[test]
fn service_can_grant_false_when_evaluation_not_passed() {
    let mut svc = RegistrationService::new();
    svc.register(app("fay-1", "academic", "desc")).unwrap();
    let ctx = StubGrantContext {
        has_linked_record: true,
        evaluation_passed: false,
    };
    assert!(!svc.can_grant(&FayID::new("fay-1"), &ChainId::new("academic"), &ctx));
}

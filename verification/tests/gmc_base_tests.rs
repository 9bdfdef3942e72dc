use gmc_core::error::GmcError;
use gmc_core::gmc_base::GmcBase;
use gmc_core::gmc_base::MonetaryRequest;
use gmc_core::gmc_base::ROOT_CHAIN_ID;
use gmc_core::gmc_base::ROOT_DEPTH;
use gmc_core::types::ChainId;

#[test]
fn root_chain_id_is_the_fixed_depth_zero_root() {
    // GMC_Base is the depth-0 root under a fixed identifier.
    assert_eq!(GmcBase::root_chain_id(), ChainId::new("gmc-base"));
    assert_eq!(GmcBase::root_chain_id().as_str(), ROOT_CHAIN_ID);
    assert_eq!(ROOT_DEPTH, 0);
}

#[test]
fn recorded_top_level_category_is_retrievable() {
    // top-level contribution behavior categories are recorded.
    let mut base = GmcBase::new();
    assert_eq!(base.category_count(), 0);

    assert!(base.record_top_level_category("academic"));
    assert!(base.record_top_level_category("public-good"));

    assert!(base.has_top_level_category("academic"));
    assert!(base.has_top_level_category("public-good"));
    assert!(!base.has_top_level_category("environment"));
    assert_eq!(base.category_count(), 2);

    let recorded: Vec<&str> = base.top_level_categories().collect();
    assert_eq!(recorded, vec!["academic", "public-good"]);
}

#[test]
fn recording_is_idempotent_and_ignores_empty_names() {
    let mut base = GmcBase::new();
    assert!(base.record_top_level_category("art"));
    // Re-recording the same category does not duplicate it.
    assert!(!base.record_top_level_category("art"));
    // Empty / whitespace-only names are not recorded.
    assert!(!base.record_top_level_category(""));
    assert!(!base.record_top_level_category("   "));
    assert_eq!(base.category_count(), 1);
}

#[test]
fn reject_monetary_request_always_returns_operation_not_allowed() {
    // any monetary-funding / purchase-of-recognition request is
    // rejected with OperationNotAllowed.
    let base = GmcBase::new();

    let fund = MonetaryRequest::fund_for_meritoken("academic", "1000 USD");
    assert_eq!(
        base.reject_monetary_request(&fund),
        Err(GmcError::OperationNotAllowed)
    );

    let purchase = MonetaryRequest::purchase_recognition("public-good", "5 BTC");
    assert_eq!(
        base.reject_monetary_request(&purchase),
        Err(GmcError::OperationNotAllowed)
    );
}

#[test]
fn rejected_monetary_request_mutates_no_state() {
    // a rejected request mints nothing and changes no recognition
    // result. Here we assert the recorded top-level categories are untouched by a
    // rejected monetary request (it neither adds, removes, nor alters categories).
    let mut base = GmcBase::new();
    base.record_top_level_category("academic");
    base.record_top_level_category("environment");

    let before = base.clone();

    let req = MonetaryRequest::fund_for_meritoken("academic", "huge pile of money");
    let result = base.reject_monetary_request(&req);

    assert_eq!(result, Err(GmcError::OperationNotAllowed));
    // State is byte-for-byte identical: no category added, removed or changed.
    assert_eq!(base, before);
    assert_eq!(base.category_count(), 2);
    assert!(base.has_top_level_category("academic"));
    assert!(base.has_top_level_category("environment"));
}

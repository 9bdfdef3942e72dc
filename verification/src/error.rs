//! The unified, machine-identifiable error codes returned across the crate.
use vstd::prelude::*;

verus! {

/// The single error type returned across all modules; every rejected request leaves
/// state unchanged and returns one of these codes.
#[derive(Debug, Clone, Copy, PartialEq, Eq, Hash, Structural)]
#[non_exhaustive]
pub enum GmcError {
    /// Derivation named a parent chain that is not registered.
    ParentNotFound,
    /// Derivation would make a chain its own ancestor.
    CycleConflict,
    /// Derivation would push a chain deeper than the depth bound.
    DepthExceeded,
    /// A required parent id, domain or steward is missing.
    MissingField,
    /// The `(parent, domain)` combination (or the chain id) is already taken.
    DomainConflict,
    /// A steward-initiated request came from an unqualified entity.
    StewardNotQualified,
    /// An institution's creation application failed review.
    InstitutionReviewFailed,
    /// An evaluation-mechanism config declares no acquisition mode or has a
    /// threshold outside `(0, 1]`.
    MechanismConfigInvalid,
    /// A governed change did not reach the governance threshold.
    GovernanceThresholdNotMet,
    /// A mint would exceed the period quota, or a one-time chain is exhausted.
    QuotaExceeded,
    /// A quota config is not positive or names an illegal refresh period.
    QuotaConfigInvalid,
    /// A contribution cannot be classified into any scoring dimension.
    DimensionUnmatched,
    /// Dimension weights do not sum to exactly one.
    WeightSumInvalid,
    /// An inflation index lies outside its dimension's allowed range.
    InflationIndexOutOfRange,
    /// A mint amount is not strictly positive (or cannot be represented).
    InvalidMintAmount,
    /// A registration or record reference is missing or malformed.
    FieldValidation,
    /// A contribution has no matching valid registration.
    NotRegistered,
    /// No evidence reference can be independently verified.
    EvidenceInvalid,
    /// A retroactive vote fell below the retroactive threshold.
    RetroThresholdNotMet,
    /// Fewer than seven stakeholders remain after exclusion.
    StakeholderInsufficient,
    /// A monetary-exchange or purchase-of-recognition request.
    OperationNotAllowed,
    /// A carbon-credit voucher was already converted.
    DoubleConversion,
    /// L1 failed to verify a batch proof.
    ProofVerificationFailed,
}

/// The stable text code of each error: the variant's name.
pub open spec fn error_code(e: GmcError) -> Seq<char> {
    match e {
        GmcError::ParentNotFound => "ParentNotFound"@,
        GmcError::CycleConflict => "CycleConflict"@,
        GmcError::DepthExceeded => "DepthExceeded"@,
        GmcError::MissingField => "MissingField"@,
        GmcError::DomainConflict => "DomainConflict"@,
        GmcError::StewardNotQualified => "StewardNotQualified"@,
        GmcError::InstitutionReviewFailed => "InstitutionReviewFailed"@,
        GmcError::MechanismConfigInvalid => "MechanismConfigInvalid"@,
        GmcError::GovernanceThresholdNotMet => "GovernanceThresholdNotMet"@,
        GmcError::QuotaExceeded => "QuotaExceeded"@,
        GmcError::QuotaConfigInvalid => "QuotaConfigInvalid"@,
        GmcError::DimensionUnmatched => "DimensionUnmatched"@,
        GmcError::WeightSumInvalid => "WeightSumInvalid"@,
        GmcError::InflationIndexOutOfRange => "InflationIndexOutOfRange"@,
        GmcError::InvalidMintAmount => "InvalidMintAmount"@,
        GmcError::FieldValidation => "FieldValidation"@,
        GmcError::NotRegistered => "NotRegistered"@,
        GmcError::EvidenceInvalid => "EvidenceInvalid"@,
        GmcError::RetroThresholdNotMet => "RetroThresholdNotMet"@,
        GmcError::StakeholderInsufficient => "StakeholderInsufficient"@,
        GmcError::OperationNotAllowed => "OperationNotAllowed"@,
        GmcError::DoubleConversion => "DoubleConversion"@,
        GmcError::ProofVerificationFailed => "ProofVerificationFailed"@,
    }
}

/// Distinct errors have distinct codes, so a code identifies its error.
pub proof fn lemma_error_codes_distinct(a: GmcError, b: GmcError)
    requires
        a != b,
    ensures
        error_code(a) != error_code(b),
{
    reveal_strlit("ParentNotFound");
    reveal_strlit("CycleConflict");
    reveal_strlit("DepthExceeded");
    reveal_strlit("MissingField");
    reveal_strlit("DomainConflict");
    reveal_strlit("StewardNotQualified");
    reveal_strlit("InstitutionReviewFailed");
    reveal_strlit("MechanismConfigInvalid");
    reveal_strlit("GovernanceThresholdNotMet");
    reveal_strlit("QuotaExceeded");
    reveal_strlit("QuotaConfigInvalid");
    reveal_strlit("DimensionUnmatched");
    reveal_strlit("WeightSumInvalid");
    reveal_strlit("InflationIndexOutOfRange");
    reveal_strlit("InvalidMintAmount");
    reveal_strlit("FieldValidation");
    reveal_strlit("NotRegistered");
    reveal_strlit("EvidenceInvalid");
    reveal_strlit("RetroThresholdNotMet");
    reveal_strlit("StakeholderInsufficient");
    reveal_strlit("OperationNotAllowed");
    reveal_strlit("DoubleConversion");
    reveal_strlit("ProofVerificationFailed");
    if error_code(a) == error_code(b) {
        assert(error_code(a).len() == error_code(b).len());
        assert(error_code(a)[0] == error_code(b)[0]);
    }
}

impl GmcError {
    /// A short, stable, machine-readable code for this error (the variant's name).
    pub fn code(&self) -> (s: &'static str)
        ensures
            s@ == error_code(*self),
    {
        match self {
            GmcError::ParentNotFound => "ParentNotFound",
            GmcError::CycleConflict => "CycleConflict",
            GmcError::DepthExceeded => "DepthExceeded",
            GmcError::MissingField => "MissingField",
            GmcError::DomainConflict => "DomainConflict",
            GmcError::StewardNotQualified => "StewardNotQualified",
            GmcError::InstitutionReviewFailed => "InstitutionReviewFailed",
            GmcError::MechanismConfigInvalid => "MechanismConfigInvalid",
            GmcError::GovernanceThresholdNotMet => "GovernanceThresholdNotMet",
            GmcError::QuotaExceeded => "QuotaExceeded",
            GmcError::QuotaConfigInvalid => "QuotaConfigInvalid",
            GmcError::DimensionUnmatched => "DimensionUnmatched",
            GmcError::WeightSumInvalid => "WeightSumInvalid",
            GmcError::InflationIndexOutOfRange => "InflationIndexOutOfRange",
            GmcError::InvalidMintAmount => "InvalidMintAmount",
            GmcError::FieldValidation => "FieldValidation",
            GmcError::NotRegistered => "NotRegistered",
            GmcError::EvidenceInvalid => "EvidenceInvalid",
            GmcError::RetroThresholdNotMet => "RetroThresholdNotMet",
            GmcError::StakeholderInsufficient => "StakeholderInsufficient",
            GmcError::OperationNotAllowed => "OperationNotAllowed",
            GmcError::DoubleConversion => "DoubleConversion",
            GmcError::ProofVerificationFailed => "ProofVerificationFailed",
        }
    }

    /// The error rendered as text for display: its code.
    pub fn to_string(&self) -> (s: String)
        ensures
            s@ == error_code(*self),
    {
        self.code().to_owned()
    }
}

/// Convenience result alias used across the crate.
pub type GmcResult<T> = Result<T, GmcError>;

} // verus!

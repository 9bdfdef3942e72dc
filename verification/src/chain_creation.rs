//! `Chain_Creation_Service`: the three channels through which a chain is derived.
//!
//! A chain is created by a governance vote that passed (`VoteInitiated`), by a
//! qualified steward (`StewardInitiated`), or by an institution whose review passed
//! (`InstitutionApplied`). A channel whose precondition fails refuses with its own
//! error and creates nothing; otherwise the registry's derivation rules decide.
use vstd::prelude::*;

use crate::error::{GmcError, GmcResult};
use crate::registry::{derive_outcome, ChainRegistry, DeriveRequest, OriginType};
use crate::types::{ChainId, FayID, Timestamp};

verus! {

/// A request to create a chain, independent of the channel.
#[derive(Debug, Clone, PartialEq, Eq)]
pub struct CreationRequest {
    /// Identifier the new chain should take.
    pub proposed_id: ChainId,
    /// The parent chain.
    pub parent_id: ChainId,
    /// The domain the new chain will own.
    pub domain: String,
    /// Stewards of the new chain.
    pub stewards: Vec<FayID>,
    /// Creation time.
    pub created_at: Timestamp,
}

/// The derivation request a creation request becomes on channel `origin`.
pub open spec fn derive_request_of(req: CreationRequest, origin: OriginType) -> DeriveRequest {
    DeriveRequest {
        proposed_id: req.proposed_id,
        parent_id: req.parent_id,
        domain: req.domain,
        stewards: req.stewards,
        origin_type: origin,
        created_at: req.created_at,
    }
}

impl CreationRequest {
    /// Builds a request.
    pub fn new(
        proposed_id: ChainId,
        parent_id: ChainId,
        domain: &str,
        stewards: Vec<FayID>,
        created_at: Timestamp,
    ) -> (r: CreationRequest)
        ensures
            r.proposed_id == proposed_id,
            r.parent_id == parent_id,
            r.domain@ == domain@,
            r.stewards == stewards,
            r.created_at == created_at,
    {
        CreationRequest { proposed_id, parent_id, domain: domain.to_owned(), stewards, created_at }
    }

    fn into_derive_request(self, origin_type: OriginType) -> (r: DeriveRequest)
        ensures
            r == derive_request_of(self, origin_type),
    {
        DeriveRequest {
            proposed_id: self.proposed_id,
            parent_id: self.parent_id,
            domain: self.domain,
            stewards: self.stewards,
            origin_type,
            created_at: self.created_at,
        }
    }
}

/// The stateless creation service.
#[derive(Debug, Clone, Copy, Default)]
pub struct ChainCreationService;

impl ChainCreationService {
    /// Creates a chain after a governance vote: `GovernanceThresholdNotMet` unless the
    /// vote passed; otherwise derives it as `VoteInitiated`.
    pub fn create_by_vote(registry: &mut ChainRegistry, request: CreationRequest, governance_passed: bool) -> (r:
        GmcResult<ChainId>)
        requires
            old(registry).wf(),
        ensures
            final(registry).wf(),
            final(registry).spec_root_id() == old(registry).spec_root_id(),
            !governance_passed ==> r == Err::<ChainId, GmcError>(GmcError::GovernanceThresholdNotMet)
                && final(registry).spec_chains() == old(registry).spec_chains(),
            governance_passed ==> derive_outcome(
                old(registry).spec_chains(),
                final(registry).spec_chains(),
                derive_request_of(request, OriginType::VoteInitiated),
                r,
            ),
    {
        if !governance_passed {
            return Err(GmcError::GovernanceThresholdNotMet);
        }
        registry.derive(request.into_derive_request(OriginType::VoteInitiated))
    }

    /// Creates a chain on a steward's request: `StewardNotQualified` unless the steward
    /// is qualified; otherwise derives it as `StewardInitiated`.
    pub fn create_by_steward(registry: &mut ChainRegistry, request: CreationRequest, steward_qualified: bool) -> (r:
        GmcResult<ChainId>)
        requires
            old(registry).wf(),
        ensures
            final(registry).wf(),
            final(registry).spec_root_id() == old(registry).spec_root_id(),
            !steward_qualified ==> r == Err::<ChainId, GmcError>(GmcError::StewardNotQualified)
                && final(registry).spec_chains() == old(registry).spec_chains(),
            steward_qualified ==> derive_outcome(
                old(registry).spec_chains(),
                final(registry).spec_chains(),
                derive_request_of(request, OriginType::StewardInitiated),
                r,
            ),
    {
        if !steward_qualified {
            return Err(GmcError::StewardNotQualified);
        }
        registry.derive(request.into_derive_request(OriginType::StewardInitiated))
    }

    /// Creates a chain on an institution's application: `InstitutionReviewFailed`
    /// unless the review passed; otherwise derives it as `InstitutionApplied`.
    pub fn create_by_institution(registry: &mut ChainRegistry, request: CreationRequest, review_passed: bool) -> (r:
        GmcResult<ChainId>)
        requires
            old(registry).wf(),
        ensures
            final(registry).wf(),
            final(registry).spec_root_id() == old(registry).spec_root_id(),
            !review_passed ==> r == Err::<ChainId, GmcError>(GmcError::InstitutionReviewFailed)
                && final(registry).spec_chains() == old(registry).spec_chains(),
            review_passed ==> derive_outcome(
                old(registry).spec_chains(),
                final(registry).spec_chains(),
                derive_request_of(request, OriginType::InstitutionApplied),
                r,
            ),
    {
        if !review_passed {
            return Err(GmcError::InstitutionReviewFailed);
        }
        registry.derive(request.into_derive_request(OriginType::InstitutionApplied))
    }
}

} // verus!

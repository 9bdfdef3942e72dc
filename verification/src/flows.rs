//! End-to-end flows wiring the services together.
//!
//! - Flow 1: derive a chain through one of the three channels and anchor its creation
//!   record on L1.
//! - Flow 2: register → record → evaluate → grant; minting happens only when a valid
//!   registration, a linked record and a passed evaluation all hold.
//! - Flow 3: a retroactive declaration is reviewed by a merit-weighted vote among
//!   sampled low-intimacy voters against the stricter retroactive threshold; an
//!   approved one mints, a rejected one mints nothing, and both outcomes are anchored.
//! - Flow 4: a carbon-credit voucher runs through the retroactive review and, when
//!   approved, converts once against the environmental chain's quota.
//! - Rollup batches are settled on L1 through the proof-sink bridge.
use vstd::prelude::*;

use crate::antifraud::{
    clamp_sample, eligible_ids, lemma_eligible_ids_listed, select_voters, selected_positions,
    Stakeholder, MIN_VOTER_SET_SIZE,
};
use crate::carbon::CarbonCreditVoucher;
use crate::chain_creation::{derive_request_of, ChainCreationService, CreationRequest};
use crate::error::{GmcError, GmcResult};
use crate::governance::{
    approve_total, checked_total, electorate_error, electorate_from, entries_of, key_index,
    lemma_electorate_has_listed, lemma_tally_in_range, weight_of, GovernanceError,
    GovernanceModule, Voter,
};
use crate::l1_settlement::{
    advanced_by, chain_key, root_set_to, stores_unchanged, upserted, vote_key, BatchProof as L1BatchProof,
    ChainRegistrationRecord, L1Settlement, StateRoot, VoteResultRecord,
};
use crate::l2_rollup::{Batch, BatchProof, BatchRoot, L1ProofSink};
use crate::merit::MeritPocket;
use crate::minting::{mint_applied, MintReceipt, MintRequest, MintingService};
use crate::quota::{QuotaConfig, QuotaLedger};
use crate::recording::{
    contribution_id_text, opt_text, ContributionRecord, ContributionRequest, EvaluationStatus,
    RecordingService, RegistrationLookup,
};
use crate::registration::{
    application_error, can_grant, first_valid_id, registration_id_text, valid_match, GrantContext,
    RegistrationApplication, RegistrationService, RegistrationStatus,
};
use crate::registry::{derive_outcome, lemma_index_of_unique, ChainRegistry, OriginType};
use crate::retroactive::{
    declaration_id_text, intake_error, lemma_position_of_stored, retro_threshold,
    retro_threshold_value, DeclarationId, RetroactiveApplication, RetroactiveDeclaration,
    RetroactiveReviewModule, ReviewStatus,
};
use crate::scoring::{mint_amount, BaseScores, InflationIndexConfig, ScoringEngine};
use crate::types::{
    decimal_text, text_with_number, ChainId, Decimal, DimensionWeights, FayID, Ratio, Timestamp,
};

verus! {

/// A [`RegistrationLookup`] over a [`RegistrationService`]: the id of the first valid
/// registration of the contributor on the chain.
pub struct RegistrationLookupBridge<'a> {
    service: &'a RegistrationService,
}

impl<'a> RegistrationLookupBridge<'a> {
    /// The wrapped service.
    pub closed spec fn spec_service(&self) -> RegistrationService {
        *self.service
    }

    /// Wraps `service`.
    pub fn new(service: &'a RegistrationService) -> (b: RegistrationLookupBridge<'a>)
        ensures
            b.spec_service() == *service,
    {
        RegistrationLookupBridge { service }
    }
}

/// The id text of the first valid registration of `contributor_id` on `chain_id`.
fn find_registration_id(service: &RegistrationService, contributor_id: &FayID, chain_id: &ChainId) -> (r:
    Option<String>)
    ensures
        r is Some <==> exists|i: int|
            0 <= i < service.spec_regs().len() && valid_match(
                #[trigger] service.spec_regs()[i],
                contributor_id@,
                chain_id@,
            ),
        r matches Some(t) ==> exists|i: int|
            0 <= i < service.spec_regs().len() && t@ == service.spec_regs()[i].id@ && valid_match(
                service.spec_regs()[i],
                contributor_id@,
                chain_id@,
            ) && forall|j: int|
                0 <= j < i ==> !valid_match(
                    #[trigger] service.spec_regs()[j],
                    contributor_id@,
                    chain_id@,
                ),
        opt_text(r) == first_valid_id(service.spec_regs(), contributor_id@, chain_id@),
{
    let r = match service.find_valid_registration(contributor_id, chain_id) {
        Some(registration) => Some(registration.id().as_str().to_owned()),
        None => None,
    };
    proof {
        let regs = service.spec_regs();
        let c = contributor_id@;
        let ch = chain_id@;
        if r is Some {
            let t = r.unwrap();
            let i = choose|i: int|
                0 <= i < regs.len() && t@ == regs[i].id@ && valid_match(regs[i], c, ch) && forall|
                    j: int,
                | 0 <= j < i ==> !valid_match(#[trigger] regs[j], c, ch);
            let k = choose|k: int|
                0 <= k < regs.len() && valid_match(regs[k], c, ch) && forall|j: int|
                    0 <= j < k ==> !valid_match(#[trigger] regs[j], c, ch);
            assert(valid_match(regs[k], c, ch));
            if k < i {
                assert(!valid_match(regs[k], c, ch));
            } else if i < k {
                assert(!valid_match(regs[i], c, ch));
            }
            assert(k == i);
        }
    }
    r
}

impl<'a> RegistrationLookup for RegistrationLookupBridge<'a> {
    /// The answers follow the wrapped service.
    open spec fn obeys_lookup_spec(&self) -> bool {
        true
    }

    /// The first valid registration of `contributor` on `chain`, in id order.
    open spec fn spec_lookup(&self, contributor: Seq<char>, chain: Seq<char>) -> Option<Seq<char>> {
        first_valid_id(self.spec_service().spec_regs(), contributor, chain)
    }

    /// The id of the first valid registration of `contributor_id` on `chain_id`.
    fn find_valid_registration(&self, contributor_id: &FayID, chain_id: &ChainId) -> (r: Option<
        String,
    >)
        ensures
            r is Some <==> exists|i: int|
                0 <= i < self.spec_service().spec_regs().len() && valid_match(
                    #[trigger] self.spec_service().spec_regs()[i],
                    contributor_id@,
                    chain_id@,
                ),
            r matches Some(t) ==> exists|i: int|
                0 <= i < self.spec_service().spec_regs().len() && t@
                    == self.spec_service().spec_regs()[i].id@ && valid_match(
                    self.spec_service().spec_regs()[i],
                    contributor_id@,
                    chain_id@,
                ) && forall|j: int|
                    0 <= j < i ==> !valid_match(
                        #[trigger] self.spec_service().spec_regs()[j],
                        contributor_id@,
                        chain_id@,
                    ),
    {
        let r = find_registration_id(self.service, contributor_id, chain_id);
        proof {
            assert(self.spec_service() == *self.service);
        }
        r
    }

    /// Whether `contributor_id` holds a valid registration on `chain_id`.
    fn has_valid_registration(&self, contributor_id: &FayID, chain_id: &ChainId) -> (b: bool)
        ensures
            b <==> exists|i: int|
                0 <= i < self.spec_service().spec_regs().len() && valid_match(
                    #[trigger] self.spec_service().spec_regs()[i],
                    contributor_id@,
                    chain_id@,
                ),
    {
        let r = find_registration_id(self.service, contributor_id, chain_id);
        proof {
            assert(self.spec_service() == *self.service);
        }
        r.is_some()
    }
}

/// A [`GrantContext`] over a contribution record: linked iff the record is linked,
/// passed iff its evaluation passed.
pub struct RecordGrantContext<'a> {
    record: &'a ContributionRecord,
}

impl<'a> RecordGrantContext<'a> {
    /// The wrapped record.
    pub closed spec fn spec_record(&self) -> ContributionRecord {
        *self.record
    }

    /// Wraps `record`.
    pub fn new(record: &'a ContributionRecord) -> (c: RecordGrantContext<'a>)
        ensures
            c.spec_record() == *record,
    {
        RecordGrantContext { record }
    }
}

impl<'a> GrantContext for RecordGrantContext<'a> {
    /// The answers follow the wrapped record.
    open spec fn obeys_grant_spec(&self) -> bool {
        true
    }

    /// Linked iff the record names a registration.
    open spec fn spec_linked(&self) -> bool {
        self.spec_record().registration_id is Some
    }

    /// Passed iff the record's evaluation passed.
    open spec fn spec_passed(&self) -> bool {
        self.spec_record().evaluation_status == EvaluationStatus::Passed
    }

    /// Whether the record is linked to a registration.
    fn has_linked_record(&self) -> (b: bool)
        ensures
            b == (self.spec_record().registration_id is Some),
    {
        self.record.is_linked()
    }

    /// Whether the record's evaluation passed.
    fn evaluation_passed(&self) -> (b: bool)
        ensures
            b == (self.spec_record().evaluation_status == EvaluationStatus::Passed),
    {
        self.record.evaluation_status() == EvaluationStatus::Passed
    }
}

/// An [`L1ProofSink`] over the settlement layer: the batch root is mapped byte for
/// byte onto a state root and submitted with a verifying proof.
pub struct L1SettlementProofSink<'a> {
    l1: &'a mut L1Settlement,
}

impl<'a> L1SettlementProofSink<'a> {
    /// The settlement layer the sink writes to.
    pub closed spec fn spec_l1(&self) -> L1Settlement {
        *self.l1
    }

    /// Wraps `l1`.
    pub fn new(l1: &'a mut L1Settlement) -> (s: L1SettlementProofSink<'a>)
        ensures
            s.spec_l1() == *old(l1),
    {
        L1SettlementProofSink { l1 }
    }
}

/// Settles `batch_root` on `l1`: the state root with the same bytes, with a proof that
/// verifies for it. The batch always settles, so the confirmed root becomes those
/// bytes.
fn settle_batch_root(l1: &mut L1Settlement, batch_root: BatchRoot) -> (r: GmcResult<()>)
    requires
        old(l1).spec_version() < u64::MAX,
    ensures
        old(l1).wf() ==> final(l1).wf(),
        r == Ok::<(), GmcError>(()),
        root_set_to(*old(l1), *final(l1), crate::l1_settlement::AnchorKind::StateRootUpdate, batch_root@),
        stores_unchanged(*old(l1), *final(l1)),
{
    let state_root = StateRoot::from_bytes(*batch_root.as_bytes());
    let l1_proof = L1BatchProof::valid_for(state_root);
    match l1.submit_batch_proof(state_root, l1_proof) {
        Ok(_) => Ok(()),
        Err(e) => Err(e),
    }
}

impl<'a> L1ProofSink for L1SettlementProofSink<'a> {
    /// The verdicts follow the settlement layer's state.
    open spec fn obeys_sink_spec(&self) -> bool {
        true
    }

    /// Every batch settles while the settlement version can still advance.
    open spec fn spec_verdict(&self, batch_root: BatchRoot, proof: BatchProof) -> GmcResult<()> {
        if self.spec_l1().spec_version() < u64::MAX {
            Ok(())
        } else {
            Err(GmcError::ProofVerificationFailed)
        }
    }

    /// Settles `batch_root`: while the settlement version can still advance the batch
    /// settles and the confirmed root becomes its bytes; otherwise
    /// `ProofVerificationFailed` and nothing changes.
    fn submit_batch_proof(&mut self, batch_root: BatchRoot, proof: &BatchProof) -> (r: GmcResult<()>)
        ensures
            old(self).spec_l1().spec_version() < u64::MAX ==> r is Ok && root_set_to(
                old(self).spec_l1(),
                final(self).spec_l1(),
                crate::l1_settlement::AnchorKind::StateRootUpdate,
                batch_root@,
            ) && stores_unchanged(old(self).spec_l1(), final(self).spec_l1()),
            old(self).spec_l1().spec_version() == u64::MAX ==> r == Err::<(), GmcError>(
                GmcError::ProofVerificationFailed,
            ) && final(self).spec_l1() == old(self).spec_l1(),
    {
        proof {
            assert(old(self).spec_l1() == *self.l1);
        }
        if self.l1.version() < u64::MAX {
            let r = settle_batch_root(self.l1, batch_root);
            proof {
                assert(old(self).spec_verdict(batch_root, *proof) == Ok::<(), GmcError>(()));
            }
            r
        } else {
            Err(GmcError::ProofVerificationFailed)
        }
    }
}

/// Settles a produced rollup batch on L1. The bridge submits a verifying proof for the
/// batch's own root, so settlement succeeds and the confirmed root becomes the batch
/// root.
pub fn anchor_rollup_batch(batch: &Batch, l1: &mut L1Settlement) -> (r: GmcResult<()>)
    requires
        old(l1).wf(),
        old(l1).spec_version() < u64::MAX,
    ensures
        final(l1).wf(),
        r is Ok,
        root_set_to(*old(l1), *final(l1), crate::l1_settlement::AnchorKind::StateRootUpdate, batch.batch_root@),
        stores_unchanged(*old(l1), *final(l1)),
{
    settle_batch_root(l1, batch.batch_root)
}

/// The creation channel of [`run_chain_creation`] with its precondition decision.
pub enum CreationChannel {
    /// Governance vote; `governance_passed` is the tally's outcome.
    Vote {
        /// Whether the proposal reached the threshold.
        governance_passed: bool,
    },
    /// Steward request; `steward_qualified` is the qualification result.
    Steward {
        /// Whether the steward is qualified.
        steward_qualified: bool,
    },
    /// Institution application; `review_passed` is the review outcome.
    Institution {
        /// Whether the application passed review.
        review_passed: bool,
    },
}

/// The refusal of a channel whose precondition failed, if it failed.
pub open spec fn channel_gate_error(channel: CreationChannel) -> Option<GmcError> {
    match channel {
        CreationChannel::Vote { governance_passed } => if governance_passed {
            None
        } else {
            Some(GmcError::GovernanceThresholdNotMet)
        },
        CreationChannel::Steward { steward_qualified } => if steward_qualified {
            None
        } else {
            Some(GmcError::StewardNotQualified)
        },
        CreationChannel::Institution { review_passed } => if review_passed {
            None
        } else {
            Some(GmcError::InstitutionReviewFailed)
        },
    }
}

/// The origin recorded for a chain created through `channel`.
pub open spec fn channel_origin(channel: CreationChannel) -> OriginType {
    match channel {
        CreationChannel::Vote { .. } => OriginType::VoteInitiated,
        CreationChannel::Steward { .. } => OriginType::StewardInitiated,
        CreationChannel::Institution { .. } => OriginType::InstitutionApplied,
    }
}

/// Flow 1: runs the channel and, when the chain is derived, anchors its creation
/// record (id, parent, domain, first steward, origin, creation time) on L1. A closed
/// precondition or a rejected derivation changes neither the registry nor L1.
pub fn run_chain_creation(
    registry: &mut ChainRegistry,
    l1: &mut L1Settlement,
    request: CreationRequest,
    channel: CreationChannel,
) -> (r: GmcResult<(ChainId, StateRoot)>)
    requires
        old(registry).wf(),
        old(l1).wf(),
        old(l1).spec_version() < u64::MAX,
    ensures
        final(registry).wf(),
        final(l1).wf(),
        final(registry).spec_root_id() == old(registry).spec_root_id(),
        channel_gate_error(channel) matches Some(e) ==> r == Err::<(ChainId, StateRoot), GmcError>(e)
            && final(registry).spec_chains() == old(registry).spec_chains() && *final(l1) == *old(l1),
        channel_gate_error(channel) is None ==> {
            let dreq = derive_request_of(request, channel_origin(channel));
            match r {
                Err(e) => derive_outcome(
                    old(registry).spec_chains(),
                    final(registry).spec_chains(),
                    dreq,
                    Err(e),
                ) && *final(l1) == *old(l1),
                Ok((id, root)) => {
                    &&& derive_outcome(
                        old(registry).spec_chains(),
                        final(registry).spec_chains(),
                        dreq,
                        Ok(id),
                    )
                    &&& root@ == final(l1).spec_root()
                    &&& advanced_by(
                        *old(l1),
                        *final(l1),
                        crate::l1_settlement::AnchorKind::ChainCreation,
                        Some(id@),
                    )
                    &&& exists|rec: ChainRegistrationRecord|
                        final(l1).spec_chain_regs() == #[trigger] upserted(
                            old(l1).spec_chain_regs(),
                            chain_key(),
                            rec,
                        ) && rec.chain_id == request.proposed_id && rec.parent_id == Some(
                            request.parent_id,
                        ) && rec.domain@ == request.domain@ && rec.steward == request.stewards@[0]
                            && rec.origin == channel_origin(channel) && rec.created_at
                            == request.created_at
                },
            }
        },
{
    let ghost dreq = derive_request_of(request, channel_origin(channel));
    let r = match channel {
        CreationChannel::Vote { governance_passed } => ChainCreationService::create_by_vote(
            registry,
            request,
            governance_passed,
        ),
        CreationChannel::Steward { steward_qualified } => ChainCreationService::create_by_steward(
            registry,
            request,
            steward_qualified,
        ),
        CreationChannel::Institution { review_passed } => ChainCreationService::create_by_institution(
            registry,
            request,
            review_passed,
        ),
    };
    let chain_id = match r {
        Ok(id) => id,
        Err(e) => {
            return Err(e);
        },
    };
    let ghost chains = registry.spec_chains();
    proof {
        crate::registry::lemma_registry_ids_unique(registry);
        lemma_index_of_unique(chains, chains.len() - 1);
    }
    let chain = match registry.get(&chain_id) {
        Some(c) => c,
        None => {
            return Err(GmcError::ParentNotFound);
        },
    };
    let parent = match chain.parent_id() {
        Some(p) => Some(p.clone()),
        None => None,
    };
    let stewards = chain.stewards();
    if stewards.len() == 0 {
        return Err(GmcError::MissingField);
    }
    let origin = match chain.origin_type() {
        Some(o) => o,
        None => {
            return Err(GmcError::MissingField);
        },
    };
    let record = ChainRegistrationRecord::new(
        chain.id().clone(),
        parent,
        chain.domain(),
        stewards[0].clone(),
        origin,
        chain.created_at(),
    );
    let ghost rec = record;
    let state_root = l1.anchor_chain_creation(record);
    proof {
        assert(final(l1).spec_chain_regs() == upserted(old(l1).spec_chain_regs(), chain_key(), rec));
    }
    Ok((chain_id, state_root))
}


/// The per-call inputs of [`run_register_record_grant`].
pub struct GrantFlowInput {
    /// The registration application.
    pub application: RegistrationApplication,
    /// The contribution to record.
    pub contribution: ContributionRequest,
    /// The evaluation verdict for the recorded contribution.
    pub evaluation_passed: bool,
    /// Dimension weights for scoring.
    pub weights: DimensionWeights,
    /// Per-dimension base scores.
    pub base_scores: BaseScores,
    /// The chain's inflation indices.
    pub indices: InflationIndexConfig,
    /// Influence duration of the minted batch.
    pub influence_duration: Decimal,
    /// Id of the minted batch.
    pub batch_id: String,
}

/// The outcome of [`run_register_record_grant`].
#[derive(Debug)]
pub enum GrantOutcome {
    /// All three grant conditions held and a batch was minted.
    Minted(MintReceipt),
    /// A grant condition failed; nothing was minted.
    NotGranted,
}

/// The mint request Flow 2 issues for an amount of `amount` (raw).
pub open spec fn grant_mint_request(input: GrantFlowInput, amount: int) -> MintRequest {
    MintRequest {
        batch_id: input.batch_id,
        amount: Decimal { raw: amount as i128 },
        influence_duration: input.influence_duration,
        acquired_at: input.contribution.recorded_at,
        source_chain_id: input.contribution.chain_id,
    }
}

/// `after` is `before` with `app` registered: one new `Valid` registration with the
/// next id, every other registration kept.
pub open spec fn registered_as(
    before: RegistrationService,
    after: RegistrationService,
    app: RegistrationApplication,
) -> bool {
    let n = before.spec_regs().len();
    let idt = registration_id_text(before.spec_next_seq());
    &&& after.spec_next_seq() == before.spec_next_seq() + 1
    &&& exists|k: int|
        0 <= k < after.spec_regs().len() && {
            let reg = #[trigger] after.spec_regs()[k];
            &&& reg.id@ == idt
            &&& reg.contributor_id == app.contributor_id
            &&& reg.chain_id == app.chain_id
            &&& reg.description@ == app.description@
            &&& reg.registered_at == app.registered_at
            &&& reg.status == RegistrationStatus::Valid
        }
    &&& forall|j: int|
        0 <= j < n && before.spec_regs()[j].id@ != idt ==> exists|k: int|
            0 <= k < after.spec_regs().len() && #[trigger] after.spec_regs()[k]
                == before.spec_regs()[j]
    &&& forall|k: int|
        0 <= k < after.spec_regs().len() && (#[trigger] after.spec_regs()[k]).id@ != idt
            ==> exists|j: int| 0 <= j < n && before.spec_regs()[j] == after.spec_regs()[k]
}

/// `after` is `before` with one record of contribution `c` with the next id, linked
/// to the registration `link` and evaluated `Passed` or `Failed` per `passed`.
pub open spec fn recorded_as(
    before: RecordingService,
    after: RecordingService,
    c: ContributionRequest,
    link: Option<Seq<char>>,
    passed: bool,
) -> bool {
    &&& after.spec_next_seq() == before.spec_next_seq() + 1
    &&& exists|p: int|
        0 <= p <= before.spec_records().len() && {
            let rec = #[trigger] after.spec_records()[p];
            &&& after.spec_records() == before.spec_records().insert(p, rec)
            &&& rec.id@ == contribution_id_text(before.spec_next_seq())
            &&& opt_text(rec.registration_id) == link
            &&& rec.contributor_id == c.contributor_id
            &&& rec.chain_id == c.chain_id
            &&& rec.evidence_refs == c.evidence_refs
            &&& rec.dimension_weights is None
            &&& rec.evaluation_status == if passed {
                EvaluationStatus::Passed
            } else {
                EvaluationStatus::Failed
            }
            &&& rec.recorded_at == c.recorded_at
        }
}

/// Flow 2: register the application, record the contribution against the first
/// valid registration of its contributor on its chain (`NotRegistered` when there is
/// none), mark the evaluation verdict, and mint only when the grant guard holds (a
/// valid registration, a linked record, a passed evaluation). A failed evaluation
/// mints nothing and returns `NotGranted`. Any error leaves pocket and ledger as
/// they were.
pub fn run_register_record_grant(
    registrations: &mut RegistrationService,
    recordings: &mut RecordingService,
    scoring: &ScoringEngine,
    minting: &MintingService,
    pocket: &mut MeritPocket,
    quota_config: &QuotaConfig,
    ledger: &mut QuotaLedger,
    input: GrantFlowInput,
) -> (r: GmcResult<GrantOutcome>)
    requires
        old(registrations).wf(),
        old(registrations).spec_next_seq() < u64::MAX,
        old(recordings).wf(),
        old(recordings).spec_next_seq() < u64::MAX,
    ensures
        final(registrations).wf(),
        final(recordings).wf(),
        application_error(input.application) matches Some(e) ==> r == Err::<GrantOutcome, GmcError>(
            e,
        ) && final(registrations).spec_regs() == old(registrations).spec_regs()
            && *final(recordings) == *old(recordings),
        r is Err ==> *final(pocket) == *old(pocket) && *final(ledger) == *old(ledger),
        application_error(input.application) is None ==> registered_as(
            *old(registrations),
            *final(registrations),
            input.application,
        ),
        application_error(input.application) is None && first_valid_id(
            final(registrations).spec_regs(),
            input.contribution.contributor_id@,
            input.contribution.chain_id@,
        ) is Some ==> recorded_as(
            *old(recordings),
            *final(recordings),
            input.contribution,
            first_valid_id(
                final(registrations).spec_regs(),
                input.contribution.contributor_id@,
                input.contribution.chain_id@,
            ),
            input.evaluation_passed,
        ),
        r matches Ok(GrantOutcome::NotGranted) ==> !input.evaluation_passed && *final(pocket)
            == *old(pocket) && *final(ledger) == *old(ledger),
        r matches Ok(GrantOutcome::Minted(receipt)) ==> {
            &&& input.evaluation_passed
            &&& mint_amount(input.weights, input.base_scores, input.indices) matches Ok(v)
                && receipt.minted_amount@ == v && receipt.batch_id@ == input.batch_id@
                && final(ledger).spec_minted() == old(ledger).spec_minted() + v && mint_applied(
                *old(pocket),
                *final(pocket),
                *old(ledger),
                *final(ledger),
                *quota_config,
                grant_mint_request(input, v),
                receipt,
            )
            &&& final(pocket).batches@.len() == old(pocket).batches@.len() + 1
        },
        ({
            let c = input.contribution;
            &&& application_error(input.application) is None
            &&& input.evaluation_passed
            &&& (exists|i: int|
                0 <= i < final(registrations).spec_regs().len() && valid_match(
                    #[trigger] final(registrations).spec_regs()[i],
                    c.contributor_id@,
                    c.chain_id@,
                ))
            &&& mint_amount(input.weights, input.base_scores, input.indices) matches Ok(v)
                && crate::minting::mint_error(
                *old(pocket),
                *quota_config,
                *old(ledger),
                grant_mint_request(input, v),
            ) is None
        }) ==> r matches Ok(GrantOutcome::Minted(_)),
        ({
            let c = input.contribution;
            &&& application_error(input.application) is None
            &&& input.evaluation_passed
            &&& (exists|i: int|
                0 <= i < final(registrations).spec_regs().len() && valid_match(
                    #[trigger] final(registrations).spec_regs()[i],
                    c.contributor_id@,
                    c.chain_id@,
                ))
        }) ==> {
            let amount = mint_amount(input.weights, input.base_scores, input.indices);
            &&& amount is Err ==> r == Err::<GrantOutcome, GmcError>(amount->Err_0)
            &&& (amount is Ok && crate::minting::mint_error(
                *old(pocket),
                *quota_config,
                *old(ledger),
                grant_mint_request(input, amount->Ok_0),
            ) is Some) ==> r == Err::<GrantOutcome, GmcError>(
                crate::minting::mint_error(
                    *old(pocket),
                    *quota_config,
                    *old(ledger),
                    grant_mint_request(input, amount->Ok_0),
                ).unwrap(),
            )
        },
        ({
            let c = input.contribution;
            &&& application_error(input.application) is None
            &&& !(exists|i: int|
                0 <= i < final(registrations).spec_regs().len() && valid_match(
                    #[trigger] final(registrations).spec_regs()[i],
                    c.contributor_id@,
                    c.chain_id@,
                ))
        }) ==> r == Err::<GrantOutcome, GmcError>(GmcError::NotRegistered),
        ({
            let c = input.contribution;
            &&& application_error(input.application) is None
            &&& !input.evaluation_passed
            &&& (exists|i: int|
                0 <= i < final(registrations).spec_regs().len() && valid_match(
                    #[trigger] final(registrations).spec_regs()[i],
                    c.contributor_id@,
                    c.chain_id@,
                ))
        }) ==> r matches Ok(GrantOutcome::NotGranted),
{
    let ghost input0 = input;
    let GrantFlowInput {
        application,
        contribution,
        evaluation_passed,
        weights,
        base_scores,
        indices,
        influence_duration,
        batch_id,
    } = input;
    match registrations.register(application) {
        Ok(_) => {},
        Err(e) => {
            return Err(e);
        },
    }
    let registration_id = find_registration_id(
        &*registrations,
        &contribution.contributor_id,
        &contribution.chain_id,
    );
    let contribution_id = match recordings.record_with_registration(
        contribution,
        registration_id,
        false,
    ) {
        Ok(id) => id,
        Err(e) => {
            return Err(e);
        },
    };
    let ghost recorded = recordings.spec_records();
    let ghost rp: int = choose|p: int|
        0 <= p <= old(recordings).spec_records().len() && {
            let rec = #[trigger] recorded[p];
            &&& recorded == old(recordings).spec_records().insert(p, rec)
            &&& rec.id@ == contribution_id_text(old(recordings).spec_next_seq())
            &&& rec.registration_id == registration_id
            &&& rec.contributor_id == input0.contribution.contributor_id
            &&& rec.chain_id == input0.contribution.chain_id
            &&& rec.evidence_refs == input0.contribution.evidence_refs
            &&& rec.dimension_weights is None
            &&& rec.evaluation_status == EvaluationStatus::Pending
            &&& rec.recorded_at == input0.contribution.recorded_at
        };
    proof {
        crate::recording::lemma_record_ids_unique(recordings);
        assert(recorded[rp].id@ == contribution_id@);
    }
    match recordings.mark_evaluation_result(&contribution_id, evaluation_passed) {
        Ok(()) => {},
        Err(e) => {
            return Err(e);
        },
    }
    let ghost marked = recordings.spec_records();
    proof {
        assert forall|j: int| 0 <= j < marked.len() && j != rp implies marked[j] == recorded[j] by {
            assert(recorded[j].id@ != recorded[rp].id@);
        }
        assert(marked =~= old(recordings).spec_records().insert(rp, marked[rp]));
        assert(recorded_as(
            *old(recordings),
            *recordings,
            input0.contribution,
            opt_text(registration_id),
            evaluation_passed,
        ));
    }
    let ghost n: int = choose|p: int|
        0 <= p < recorded.len() && recorded[p].id@ == contribution_id@
            && recorded[p].contributor_id == input0.contribution.contributor_id
            && recorded[p].chain_id == input0.contribution.chain_id
            && recorded[p].registration_id is Some
            && recorded[p].recorded_at == input0.contribution.recorded_at;
    proof {
        crate::recording::lemma_record_ids_unique(recordings);
        assert(recorded[n].id@ == contribution_id@);
        assert(exists|j: int| 0 <= j < recorded.len() && recorded[j].id@ == contribution_id@);
        assert(marked[n].id@ == contribution_id@);
    }
    let record = match recordings.get(&contribution_id) {
        Some(rec) => rec,
        None => {
            return Err(GmcError::FieldValidation);
        },
    };
    proof {
        let i = choose|i: int| 0 <= i < marked.len() && marked[i] == *record && record.id@ == contribution_id@;
        if i != n {
            assert(marked[i].id@ != marked[n].id@);
        }
        assert(*record == ContributionRecord {
            evaluation_status: if evaluation_passed {
                EvaluationStatus::Passed
            } else {
                EvaluationStatus::Failed
            },
            ..recorded[n]
        });
        assert(record.contributor_id == input0.contribution.contributor_id);
        assert(record.chain_id == input0.contribution.chain_id);
        assert(record.registration_id is Some);
    }
    let contributor_id = record.contributor_id().clone();
    let chain_id = record.chain_id().clone();
    let acquired_at = record.recorded_at();
    let linked = record.is_linked();
    let passed = record.evaluation_status() == EvaluationStatus::Passed;
    let registration = registrations.find_valid_registration(&contributor_id, &chain_id);
    let granted = can_grant(registration, linked, passed);
    assert(granted == evaluation_passed);
    if !granted {
        return Ok(GrantOutcome::NotGranted);
    }
    let amount = match scoring.compute_mint_amount(&weights, &base_scores, &indices) {
        Ok(a) => a,
        Err(e) => {
            return Err(e);
        },
    };
    let request = MintRequest::new(batch_id.as_str(), amount, influence_duration, acquired_at, chain_id);
    assert(crate::minting::mint_error(*old(pocket), *quota_config, *old(ledger), request)
        == crate::minting::mint_error(
        *old(pocket),
        *quota_config,
        *old(ledger),
        grant_mint_request(input0, amount@),
    ));
    match minting.mint(pocket, quota_config, ledger, request) {
        Ok(receipt) => Ok(GrantOutcome::Minted(receipt)),
        Err(e) => Err(e),
    }
}


/// The settlement-wide error for a voting-engine error: an unusable electorate is
/// `StakeholderInsufficient`, an overflow `InvalidMintAmount`, and misuse
/// `FieldValidation`.
pub open spec fn governance_error_code(error: GovernanceError) -> GmcError {
    match error {
        GovernanceError::InvalidElectorate => GmcError::StakeholderInsufficient,
        GovernanceError::Overflow => GmcError::InvalidMintAmount,
        GovernanceError::UnknownVote => GmcError::FieldValidation,
        GovernanceError::VoterNotEligible => GmcError::FieldValidation,
        GovernanceError::AlreadyVoted => GmcError::FieldValidation,
    }
}

fn map_governance_err(error: GovernanceError) -> (e: GmcError)
    ensures
        e == governance_error_code(error),
{
    match error {
        GovernanceError::InvalidElectorate => GmcError::StakeholderInsufficient,
        GovernanceError::Overflow => GmcError::InvalidMintAmount,
        GovernanceError::UnknownVote => GmcError::FieldValidation,
        GovernanceError::VoterNotEligible => GmcError::FieldValidation,
        GovernanceError::AlreadyVoted => GmcError::FieldValidation,
    }
}

/// A candidate voter of a retroactive review: the stakeholder, its current merit and
/// its ballot.
pub struct RetroVoter {
    /// The stakeholder (identity and intimacy).
    pub stakeholder: Stakeholder,
    /// Current merit, the voting weight.
    pub cur_merit: Decimal,
    /// The ballot.
    pub approve: bool,
}

impl RetroVoter {
    /// Builds a candidate voter.
    pub fn new(stakeholder: Stakeholder, cur_merit: Decimal, approve: bool) -> (v: RetroVoter)
        ensures
            v.stakeholder == stakeholder,
            v.cur_merit == cur_merit,
            v.approve == approve,
    {
        RetroVoter { stakeholder, cur_merit, approve }
    }
}

/// The stakeholders behind a list of candidate voters.
pub open spec fn candidate_stakeholders(voters: Seq<RetroVoter>) -> Seq<Stakeholder> {
    voters.map_values(|v: RetroVoter| v.stakeholder)
}

/// Whether too few candidates remain once high-intimacy ones are excluded.
pub open spec fn too_few_candidates(voters: Seq<RetroVoter>) -> bool {
    let s = candidate_stakeholders(voters);
    eligible_ids(s, s.len() as int).len() < MIN_VOTER_SET_SIZE
}

/// The position of the last of the first `n` listed candidates with identity `id`,
/// or `-1` when none has it.
pub open spec fn last_listed(voters: Seq<RetroVoter>, id: Seq<char>, n: int) -> int
    decreases n,
{
    if n <= 0 {
        -1
    } else if voters[n - 1].stakeholder.id@ == id {
        n - 1
    } else {
        last_listed(voters, id, n - 1)
    }
}

proof fn lemma_last_listed(voters: Seq<RetroVoter>, id: Seq<char>, n: int)
    requires
        0 <= n <= voters.len(),
    ensures
        -1 <= last_listed(voters, id, n) < n,
        last_listed(voters, id, n) >= 0 ==> voters[last_listed(voters, id, n)].stakeholder.id@
            == id,
        last_listed(voters, id, n) < 0 ==> forall|i: int|
            0 <= i < n ==> (#[trigger] voters[i]).stakeholder.id@ != id,
    decreases n,
{
    if n > 0 {
        lemma_last_listed(voters, id, n - 1);
    }
}

/// The identities a review vote selects, in selection order.
pub open spec fn retro_selected(voters: Seq<RetroVoter>, sample_size: usize, seed: u64) -> Seq<
    Seq<char>,
> {
    let s = candidate_stakeholders(voters);
    let elig = eligible_ids(s, s.len() as int);
    let pos = selected_positions(elig.len() as int, sample_size, seed);
    Seq::new(
        clamp_sample(sample_size, elig.len() as int) as nat,
        |a: int| elig[pos[a] as int],
    )
}

/// The selected identities, each with the merit of its last listing.
pub open spec fn retro_entries(voters: Seq<RetroVoter>, sample_size: usize, seed: u64) -> Seq<
    (Seq<char>, int),
> {
    retro_selected(voters, sample_size, seed).map_values(
        |id: Seq<char>| (id, voters[last_listed(voters, id, voters.len() as int)].cur_merit@),
    )
}

/// The electorate of a review vote.
pub open spec fn retro_electorate(voters: Seq<RetroVoter>, sample_size: usize, seed: u64) -> Seq<
    (Seq<char>, int),
> {
    let l = retro_entries(voters, sample_size, seed);
    electorate_from(l, l.len() as int)
}

/// The ballots of the selected identities, each the ballot of its last listing.
pub open spec fn retro_ballots(voters: Seq<RetroVoter>, sample_size: usize, seed: u64) -> Seq<
    (Seq<char>, bool),
> {
    retro_selected(voters, sample_size, seed).map_values(
        |id: Seq<char>| (id, voters[last_listed(voters, id, voters.len() as int)].approve),
    )
}

/// The approval ratio (raw) the review vote yields, when it is representable.
pub open spec fn retro_vote_ratio(voters: Seq<RetroVoter>, sample_size: usize, seed: u64) -> Option<
    int,
> {
    let e = retro_electorate(voters, sample_size, seed);
    let b = retro_ballots(voters, sample_size, seed);
    match approve_total(b, e, b.len() as int) {
        Some(a) => weight_of(a, checked_total(e, e.len() as int).unwrap()),
        None => None,
    }
}

/// Why the voters of a review cannot complete a vote, in the order the steps run:
/// too few candidates remain (`StakeholderInsufficient`), the electorate cannot be
/// voted on (its governance error), an identity is selected twice
/// (`FieldValidation`, its second ballot is refused), or the approval ratio is not
/// representable (`InvalidMintAmount`).
pub open spec fn retro_vote_error(voters: Seq<RetroVoter>, sample_size: usize, seed: u64) -> Option<
    GmcError,
> {
    let e = retro_electorate(voters, sample_size, seed);
    if too_few_candidates(voters) {
        Some(GmcError::StakeholderInsufficient)
    } else if electorate_error(e) is Some {
        Some(governance_error_code(electorate_error(e).unwrap()))
    } else if !retro_selected(voters, sample_size, seed).no_duplicates() {
        Some(GmcError::FieldValidation)
    } else if retro_vote_ratio(voters, sample_size, seed) is None {
        Some(GmcError::InvalidMintAmount)
    } else {
        None
    }
}

/// When the voters of a review can complete a vote.
pub open spec fn retro_vote_completes(voters: Seq<RetroVoter>, sample_size: usize, seed: u64) -> bool {
    retro_vote_error(voters, sample_size, seed) is None
}

/// When a review vote of `declaration_id` completes: the voters can complete a vote,
/// and the declaration is stored and still pending.
pub open spec fn retro_vote_owed(
    retro: RetroactiveReviewModule,
    declaration_id: Seq<char>,
    voters: Seq<RetroVoter>,
    sample_size: usize,
    seed: u64,
) -> bool {
    &&& retro_vote_completes(voters, sample_size, seed)
    &&& retro.position(declaration_id) matches Some(i) && retro.spec_decls()[i].review_status
        == ReviewStatus::Pending
}

/// The declaration `id` is stored and anchored.
pub open spec fn anchored_decl(m: RetroactiveReviewModule, id: Seq<char>) -> bool {
    exists|i: int|
        0 <= i < m.spec_decls().len() && (#[trigger] m.spec_decls()[i]).id@ == id
            && m.spec_decls()[i].anchored
}

proof fn lemma_not_anchored(m: RetroactiveReviewModule, p: int, id: Seq<char>)
    requires
        m.wf(),
        0 <= p < m.spec_decls().len(),
        m.spec_decls()[p].id@ == id,
        !m.spec_decls()[p].anchored,
    ensures
        !anchored_decl(m, id),
{
    crate::retroactive::lemma_decl_ids_distinct(&m);
}

/// The declaration `id` is stored resolved to `st` under the vote `handle`, and
/// anchored.
pub open spec fn resolved_and_anchored(
    m: RetroactiveReviewModule,
    id: Seq<char>,
    st: ReviewStatus,
    handle: Seq<char>,
) -> bool {
    exists|i: int|
        0 <= i < m.spec_decls().len() && (#[trigger] m.spec_decls()[i]).id@ == id
            && m.spec_decls()[i].review_status == st && m.spec_decls()[i].anchored && (
        m.spec_decls()[i].vote_id matches Some(h) && h@ == handle)
}

/// `after` is `before` with one new pending, unresolved, unanchored declaration with
/// the next id, for `contributor` on `chain`.
pub open spec fn submitted_pending(
    before: RetroactiveReviewModule,
    after: RetroactiveReviewModule,
    contributor: FayID,
    chain: ChainId,
) -> bool {
    &&& after.spec_next_seq() == before.spec_next_seq() + 1
    &&& exists|p: int|
        0 <= p <= before.spec_decls().len() && {
            let d = #[trigger] after.spec_decls()[p];
            &&& after.spec_decls() == before.spec_decls().insert(p, d)
            &&& d.id@ == declaration_id_text(before.spec_next_seq())
            &&& d.contributor_id == contributor
            &&& d.chain_id == chain
            &&& d.review_status == ReviewStatus::Pending
            &&& d.vote_id is None
            &&& !d.anchored
        }
}

/// `after` is `before` with the pending declaration `id` resolved to `st` under the
/// vote `handle`, every other declaration and field unchanged.
pub open spec fn vote_resolved(
    before: RetroactiveReviewModule,
    after: RetroactiveReviewModule,
    id: Seq<char>,
    st: ReviewStatus,
    handle: Seq<char>,
) -> bool {
    before.position(id) matches Some(i) && {
        let old_d = before.spec_decls()[i];
        let new_d = after.spec_decls()[i];
        &&& old_d.review_status == ReviewStatus::Pending
        &&& after.spec_decls().len() == before.spec_decls().len()
        &&& forall|j: int|
            0 <= j < before.spec_decls().len() && j != i ==> (#[trigger] after.spec_decls()[j])
                == before.spec_decls()[j]
        &&& new_d.vote_id matches Some(v) && v@ == handle
        &&& new_d.review_status == st
        &&& new_d.id == old_d.id && new_d.contributor_id == old_d.contributor_id
            && new_d.chain_id == old_d.chain_id && new_d.description == old_d.description
            && new_d.occurred_at == old_d.occurred_at && new_d.evidence_refs
            == old_d.evidence_refs && new_d.anchored == old_d.anchored
    }
}

/// The merit and ballot of the last listed candidate with identity `id`.
fn voter_entry(voters: &[RetroVoter], id: &FayID) -> (r: Option<(Decimal, bool)>)
    ensures
        ({
            let li = last_listed(voters@, id@, voters@.len() as int);
            if li < 0 {
                r is None
            } else {
                r == Some((voters@[li].cur_merit, voters@[li].approve))
            }
        }),
{
    let mut found: Option<(Decimal, bool)> = None;
    let mut i: usize = 0;
    while i < voters.len()
        invariant
            i <= voters@.len(),
            ({
                let li = last_listed(voters@, id@, i as int);
                if li < 0 {
                    found is None
                } else {
                    found == Some((voters@[li].cur_merit, voters@[li].approve))
                }
            }),
        decreases voters@.len() - i,
    {
        if voters[i].stakeholder.id == *id {
            found = Some((voters[i].cur_merit, voters[i].approve));
        }
        i = i + 1;
    }
    found
}

/// Runs the review vote of declaration `declaration_id`: selects voters (excluding
/// high intimacy, sampling at least seven), opens a merit-weighted vote at the
/// retroactive threshold, casts every selected voter's ballot, tallies, and resolves
/// the declaration. A below-threshold vote is `Ok((Rejected, handle))`, not an error;
/// an error leaves the declarations as they were.
fn conduct_retro_vote(
    retro: &mut RetroactiveReviewModule,
    governance: &mut GovernanceModule,
    declaration_id: &DeclarationId,
    voters: &[RetroVoter],
    sample_size: usize,
    seed: u64,
    regular_threshold: Ratio,
    subject: &str,
) -> (r: GmcResult<(ReviewStatus, String)>)
    requires
        old(retro).wf(),
        old(governance).wf(),
        old(governance).spec_votes().len() < u64::MAX,
    ensures
        final(retro).wf(),
        final(governance).wf(),
        final(retro).spec_next_seq() == old(retro).spec_next_seq(),
        final(retro).spec_decls().len() == old(retro).spec_decls().len(),
        forall|j: int|
            0 <= j < old(retro).spec_decls().len() ==> (#[trigger] final(retro).spec_decls()[j]).id
                == old(retro).spec_decls()[j].id,
        r is Err ==> *final(retro) == *old(retro),
        r matches Ok((st, handle)) ==> (st is Approved || st is Rejected) && vote_resolved(
            *old(retro),
            *final(retro),
            declaration_id@,
            st,
            handle@,
        ),
        r matches Ok((st, _)) ==> exists|j: int|
            0 <= j < final(retro).spec_decls().len() && final(retro).spec_decls()[j].id@
                == declaration_id@ && (#[trigger] final(retro).spec_decls()[j]).review_status == st,
        too_few_candidates(voters@) ==> r == Err::<(ReviewStatus, String), GmcError>(
            GmcError::StakeholderInsufficient,
        ) && *final(governance) == *old(governance),
        retro_vote_error(voters@, sample_size, seed) matches Some(e) ==> r == Err::<
            (ReviewStatus, String),
            GmcError,
        >(e),
        retro_vote_completes(voters@, sample_size, seed) && !(old(retro).position(
            declaration_id@,
        ) matches Some(i) && old(retro).spec_decls()[i].review_status == ReviewStatus::Pending)
            ==> r == Err::<(ReviewStatus, String), GmcError>(GmcError::FieldValidation),
        retro_vote_owed(*old(retro), declaration_id@, voters@, sample_size, seed) ==> (r matches Ok(
            (st, _),
        ) && retro_vote_ratio(voters@, sample_size, seed) matches Some(q) && (st
            == ReviewStatus::Approved <==> q >= retro_threshold_value(regular_threshold@))),
        r matches Ok((st, handle)) ==> {
            let n = old(governance).spec_votes().len();
            &&& final(governance).spec_votes().len() == n + 1
            &&& final(governance).spec_votes().subrange(0, n as int) == old(governance).spec_votes()
            &&& final(governance).spec_votes()[n as int].spec_threshold() == retro_threshold_value(
                regular_threshold@,
            )
            &&& final(governance).spec_votes()[n as int].spec_electorate() == retro_electorate(
                voters@,
                sample_size,
                seed,
            )
            &&& final(governance).spec_votes()[n as int].spec_ballots() == retro_ballots(
                voters@,
                sample_size,
                seed,
            )
            &&& Some(final(governance).spec_votes()[n as int].spec_total()) == checked_total(
                retro_electorate(voters@, sample_size, seed),
                retro_electorate(voters@, sample_size, seed).len() as int,
            )
            &&& handle@ == "retro-vote-"@ + decimal_text(n as nat)
            &&& tallied_ratio(*final(governance), n as int) == retro_vote_ratio(
                voters@,
                sample_size,
                seed,
            )
            &&& tallied_ratio(*final(governance), n as int) matches Some(q) && (st
                == ReviewStatus::Approved <==> q >= retro_threshold_value(regular_threshold@))
        },
{
    let mut stakeholders: Vec<Stakeholder> = Vec::new();
    let mut i: usize = 0;
    while i < voters.len()
        invariant
            i <= voters@.len(),
            stakeholders@.len() == i,
            forall|k: int| 0 <= k < i ==> (#[trigger] stakeholders@[k]) == voters@[k].stakeholder,
        decreases voters@.len() - i,
    {
        stakeholders.push(voters[i].stakeholder.clone());
        i = i + 1;
    }
    proof {
        assert(stakeholders@ =~= candidate_stakeholders(voters@));
    }
    let selected = match select_voters(stakeholders.as_slice(), sample_size, seed) {
        Ok(v) => v,
        Err(e) => {
            return Err(e);
        },
    };
    proof {
        lemma_eligible_ids_listed(stakeholders@, stakeholders@.len() as int);
        assert(!too_few_candidates(voters@));
    }
    let ghost elig = eligible_ids(stakeholders@, stakeholders@.len() as int);
    let ghost pos = selected_positions(elig.len() as int, sample_size, seed);
    let ghost sel = retro_selected(voters@, sample_size, seed);
    let ghost ents = retro_entries(voters@, sample_size, seed);
    proof {
        assert(sel.len() == selected@.len());
        assert forall|a: int| 0 <= a < sel.len() implies (#[trigger] selected@[a])@ == sel[a] by {}
    }
    let mut electorate: Vec<Voter> = Vec::new();
    let mut a: usize = 0;
    while a < selected.len()
        invariant
            !too_few_candidates(voters@),
            a <= selected@.len(),
            stakeholders@.len() == voters@.len(),
            forall|k: int| 0 <= k < voters@.len() ==> (#[trigger] stakeholders@[k]) == voters@[k].stakeholder,
            forall|k: int| 0 <= k < elig.len() ==> exists|q: int|
                0 <= q < stakeholders@.len() && stakeholders@[q].id@ == #[trigger] elig[k],
            forall|k: int| 0 <= k < selected@.len() ==> (#[trigger] selected@[k])@ == elig[pos[k] as int]
                && pos[k] < elig.len(),
            sel == retro_selected(voters@, sample_size, seed),
            ents == retro_entries(voters@, sample_size, seed),
            sel.len() == selected@.len(),
            forall|k: int| 0 <= k < sel.len() ==> (#[trigger] selected@[k])@ == sel[k],
            electorate@.len() == a,
            forall|k: int| 0 <= k < a ==> (#[trigger] entries_of(electorate@)[k]) == ents[k],
        decreases selected@.len() - a,
    {
        proof {
            lemma_last_listed(voters@, selected@[a as int]@, voters@.len() as int);
        }
        let entry = voter_entry(voters, &selected[a]);
        let (merit, _) = match entry {
            Some(e) => e,
            None => {
                proof {
                    let k = pos[a as int] as int;
                    let q = choose|q: int| 0 <= q < stakeholders@.len() && stakeholders@[q].id@ == elig[k];
                    assert(voters@[q].stakeholder.id@ == selected@[a as int]@);
                }
                return Err(GmcError::StakeholderInsufficient);
            },
        };
        let ghost before = electorate@;
        electorate.push(Voter::new(selected[a].clone(), merit));
        proof {
            assert forall|k: int| 0 <= k < a + 1 implies (#[trigger] entries_of(electorate@)[k])
                == ents[k] by {
                assert(entries_of(electorate@)[k] == (electorate@[k].id@, electorate@[k].cur_merit@));
                if k < a {
                    assert(electorate@[k] == before[k]);
                    assert(entries_of(before)[k] == ents[k]);
                    assert(entries_of(before)[k] == (before[k].id@, before[k].cur_merit@));
                } else {
                    let li = last_listed(voters@, sel[k], voters@.len() as int);
                    assert(ents[k] == (sel[k], voters@[li].cur_merit@));
                    assert(electorate@[k].id == selected@[k]);
                    assert(electorate@[k].cur_merit == voters@[li].cur_merit);
                }
            }
        }
        a = a + 1;
    }
    proof {
        assert(entries_of(electorate@) =~= ents);
    }
    let vote_id = match governance.open_vote(subject, retro_threshold(regular_threshold), electorate) {
        Ok(id) => id,
        Err(e) => {
            return Err(map_governance_err(e));
        },
    };
    let ghost n = old(governance).spec_votes().len();
    let ghost e = retro_electorate(voters@, sample_size, seed);
    let ghost bal = retro_ballots(voters@, sample_size, seed);
    let mut b: usize = 0;
    while b < selected.len()
        invariant
            !too_few_candidates(voters@),
            stakeholders@.len() == voters@.len(),
            forall|k: int| 0 <= k < voters@.len() ==> (#[trigger] stakeholders@[k]) == voters@[k].stakeholder,
            forall|k: int| 0 <= k < elig.len() ==> exists|q: int|
                0 <= q < stakeholders@.len() && stakeholders@[q].id@ == #[trigger] elig[k],
            forall|k: int| 0 <= k < selected@.len() ==> (#[trigger] selected@[k])@ == elig[pos[k] as int]
                && pos[k] < elig.len(),
            bal == retro_ballots(voters@, sample_size, seed),
            b <= selected@.len(),
            governance.wf(),
            retro.wf(),
            *retro == *old(retro),
            vote_id.0 == n,
            governance.spec_votes().len() == n + 1,
            governance.spec_votes().subrange(0, n as int) == old(governance).spec_votes(),
            governance.spec_votes()[n as int].spec_threshold() == retro_threshold_value(
                regular_threshold@,
            ),
            sel == retro_selected(voters@, sample_size, seed),
            ents == retro_entries(voters@, sample_size, seed),
            e == retro_electorate(voters@, sample_size, seed),
            sel.len() == selected@.len(),
            forall|k: int| 0 <= k < sel.len() ==> (#[trigger] selected@[k])@ == sel[k],
            governance.spec_votes()[n as int].spec_electorate() == e,
            Some(governance.spec_votes()[n as int].spec_total()) == checked_total(e, e.len() as int),
            governance.spec_votes()[n as int].spec_ballots().len() == b,
            forall|k: int| 0 <= k < b ==> (#[trigger] governance.spec_votes()[n as int].spec_ballots()[k]) == bal[k],
            electorate_error(e) is None,
            forall|i: int, j: int| 0 <= i < b && 0 <= j < b && i != j ==> sel[i] != sel[j],
        decreases selected@.len() - b,
    {
        let ghost before = governance.spec_votes();
        proof {
            lemma_last_listed(voters@, selected@[b as int]@, voters@.len() as int);
        }
        let approve = match voter_entry(voters, &selected[b]) {
            Some((_, approve)) => approve,
            None => {
                proof {
                    let k = pos[b as int] as int;
                    let q = choose|q: int| 0 <= q < stakeholders@.len() && stakeholders@[q].id@ == elig[k];
                    assert(voters@[q].stakeholder.id@ == selected@[b as int]@);
                }
                false
            },
        };
        proof {
            let li = last_listed(voters@, sel[b as int], voters@.len() as int);
            assert(bal[b as int] == (sel[b as int], voters@[li].approve));
        }
        proof {
            assert(ents[b as int].0 == sel[b as int]);
            lemma_electorate_has_listed(ents, ents.len() as int, b as int);
            let bl = before[n as int].spec_ballots();
            assert forall|k: int| 0 <= k < bl.len() implies bl[k].0 == sel[k] by {
                assert(bl[k] == bal[k]);
            }
        }
        match governance.cast_vote(vote_id, &selected[b], approve) {
            Ok(()) => {
                proof {
                    assert(governance.spec_votes().subrange(0, n as int) =~= before.subrange(
                        0,
                        n as int,
                    ));
                    let nb = governance.spec_votes()[n as int].spec_ballots();
                    assert forall|k: int| 0 <= k < b + 1 implies (#[trigger] nb[k]) == bal[k] by {
                        if k < b {
                            assert(nb[k] == before[n as int].spec_ballots()[k]);
                        }
                    }
                    let bl = before[n as int].spec_ballots();
                    assert forall|k: int| 0 <= k < b implies sel[k] != sel[b as int] by {
                        assert(bl[k].0 == sel[k]);
                    }
                }
            },
            Err(e) => {
                proof {
                    let bl = before[n as int].spec_ballots();
                    let k = key_index(bl, sel[b as int]).unwrap();
                    assert(bl[k].0 == sel[k]);
                    assert(!sel.no_duplicates());
                }
                return Err(map_governance_err(e));
            },
        }
        b = b + 1;
    }
    proof {
        lemma_tally_in_range(governance, vote_id);
        assert(governance.spec_votes()[n as int].spec_ballots() =~= bal);
        assert(sel.no_duplicates());
    }
    let outcome = match governance.tally(vote_id) {
        Ok(o) => o,
        Err(e) => {
            return Err(map_governance_err(e));
        },
    };
    let vote_handle = text_with_number("retro-vote-", vote_id.raw());
    match retro.resolve_vote(
        declaration_id,
        outcome.approval_ratio,
        regular_threshold,
        vote_handle.as_str(),
    ) {
        Ok(_) => Ok((ReviewStatus::Approved, vote_handle)),
        Err(GmcError::RetroThresholdNotMet) => Ok((ReviewStatus::Rejected, vote_handle)),
        Err(other) => Err(other),
    }
}

/// The approval ratio (raw) a tally of vote `n` of `g` yields, when it is
/// representable.
pub open spec fn tallied_ratio(g: GovernanceModule, n: int) -> Option<int> {
    let v = g.spec_votes()[n];
    let b = v.spec_ballots();
    match approve_total(b, v.spec_electorate(), b.len() as int) {
        Some(a) => weight_of(a, v.spec_total()),
        None => None,
    }
}

/// `after` is `before` with the vote result `(handle, subject, passed, at)` stored
/// (replacing any result with the same handle) and the root advanced for it.
pub open spec fn retro_outcome_anchored(
    before: L1Settlement,
    after: L1Settlement,
    handle: Seq<char>,
    subject: Seq<char>,
    passed: bool,
    at: Timestamp,
) -> bool {
    &&& exists|rec: VoteResultRecord|
        after.spec_vote_results() == #[trigger] upserted(before.spec_vote_results(), vote_key(), rec)
            && rec.vote_id@ == handle && rec.subject@ == subject && rec.passed == passed
            && rec.anchored_at == at
    &&& advanced_by(before, after, crate::l1_settlement::AnchorKind::RetroactiveOutcome, None)
    &&& after.spec_chain_regs() == before.spec_chain_regs()
    &&& after.spec_identity_regs() == before.spec_identity_regs()
    &&& after.spec_penalties() == before.spec_penalties()
}

/// Anchors a resolved declaration's outcome: the vote result is stored on L1 and the
/// declaration is marked anchored.
fn anchor_retro_outcome(
    retro: &mut RetroactiveReviewModule,
    l1: &mut L1Settlement,
    declaration_id: &DeclarationId,
    vote_handle: &str,
    subject: &str,
    passed: bool,
    anchored_at: Timestamp,
) -> (r: GmcResult<StateRoot>)
    requires
        old(retro).wf(),
        old(l1).wf(),
        old(l1).spec_version() < u64::MAX,
    ensures
        final(retro).wf(),
        final(l1).wf(),
        final(retro).spec_next_seq() == old(retro).spec_next_seq(),
        (exists|j: int|
            0 <= j < old(retro).spec_decls().len() && (#[trigger] old(retro).spec_decls()[j]).id@
                == declaration_id@) ==> r is Ok,
        old(retro).position(declaration_id@) matches Some(i) ==> {
            &&& final(retro).spec_decls().len() == old(retro).spec_decls().len()
            &&& final(retro).spec_decls()[i] == (RetroactiveDeclaration {
                anchored: true,
                ..old(retro).spec_decls()[i]
            })
        },
        retro_outcome_anchored(*old(l1), *final(l1), vote_handle@, subject@, passed, anchored_at),
{
    let record = VoteResultRecord::new(vote_handle, subject, passed, anchored_at);
    let state_root = l1.anchor_retroactive_outcome(record);
    match retro.anchor_outcome(declaration_id) {
        Ok(()) => Ok(state_root),
        Err(e) => Err(e),
    }
}

/// The per-call inputs of [`run_retroactive_review`].
pub struct RetroFlowInput {
    /// The retroactive declaration.
    pub application: RetroactiveApplication,
    /// Candidate voters.
    pub voters: Vec<RetroVoter>,
    /// Requested sample size (clamped to at least seven).
    pub sample_size: usize,
    /// Sampling seed.
    pub seed: u64,
    /// The chain's regular threshold.
    pub regular_threshold: Ratio,
    /// Subject recorded with the vote.
    pub subject: String,
    /// Dimension weights for scoring.
    pub weights: DimensionWeights,
    /// Base scores.
    pub base_scores: BaseScores,
    /// Inflation indices.
    pub indices: InflationIndexConfig,
    /// Influence duration of the minted batch.
    pub influence_duration: Decimal,
    /// Id of the minted batch.
    pub batch_id: String,
    /// Mint and anchoring time.
    pub acquired_at: Timestamp,
}

/// The mint request of an approved review minting `amount`.
pub open spec fn retro_mint_request(input: RetroFlowInput, amount: int) -> MintRequest {
    MintRequest {
        batch_id: input.batch_id,
        amount: Decimal { raw: amount as i128 },
        influence_duration: input.influence_duration,
        acquired_at: input.acquired_at,
        source_chain_id: input.application.chain_id,
    }
}

/// The outcome of [`run_retroactive_review`].
#[derive(Debug)]
pub enum RetroOutcome {
    /// Approved and minted.
    Approved(MintReceipt),
    /// Rejected; nothing minted.
    Rejected,
}

/// Flow 3: submit the declaration, review it by vote, and on approval score and mint;
/// either outcome is anchored on L1. A rejected declaration mints nothing, and any
/// error leaves pocket and ledger as they were.
pub fn run_retroactive_review(
    retro: &mut RetroactiveReviewModule,
    governance: &mut GovernanceModule,
    scoring: &ScoringEngine,
    minting: &MintingService,
    pocket: &mut MeritPocket,
    quota_config: &QuotaConfig,
    ledger: &mut QuotaLedger,
    l1: &mut L1Settlement,
    input: RetroFlowInput,
) -> (r: GmcResult<RetroOutcome>)
    requires
        old(retro).wf(),
        old(retro).spec_next_seq() < u64::MAX,
        old(governance).wf(),
        old(governance).spec_votes().len() < u64::MAX,
        old(l1).wf(),
        old(l1).spec_version() < u64::MAX,
    ensures
        final(retro).wf(),
        final(governance).wf(),
        final(l1).wf(),
        crate::retroactive::submission_error(input.application) matches Some(e) ==> r == Err::<
            RetroOutcome,
            GmcError,
        >(e) && *final(retro) == *old(retro) && *final(governance) == *old(governance)
            && *final(l1) == *old(l1),
        r is Err ==> *final(pocket) == *old(pocket) && *final(ledger) == *old(ledger),
        r matches Ok(RetroOutcome::Rejected) ==> *final(pocket) == *old(pocket) && *final(ledger)
            == *old(ledger),
        r matches Ok(RetroOutcome::Approved(receipt)) ==> {
            &&& mint_amount(input.weights, input.base_scores, input.indices) matches Ok(v)
                && receipt.minted_amount@ == v && receipt.batch_id@ == input.batch_id@
                && final(ledger).spec_minted() == old(ledger).spec_minted() + v && mint_applied(
                *old(pocket),
                *final(pocket),
                *old(ledger),
                *final(ledger),
                *quota_config,
                retro_mint_request(input, v),
                receipt,
            )
            &&& final(pocket).batches@.len() == old(pocket).batches@.len() + 1
        },
        crate::retroactive::submission_error(input.application) is None && too_few_candidates(
            input.voters@,
        ) ==> r == Err::<RetroOutcome, GmcError>(GmcError::StakeholderInsufficient)
            && *final(governance) == *old(governance) && *final(l1) == *old(l1)
            && submitted_pending(
            *old(retro),
            *final(retro),
            input.application.contributor_id,
            input.application.chain_id,
        ),
        crate::retroactive::submission_error(input.application) is None && retro_vote_completes(
            input.voters@,
            input.sample_size,
            input.seed,
        ) ==> {
            let thr = retro_threshold_value(input.regular_threshold@);
            &&& retro_vote_ratio(input.voters@, input.sample_size, input.seed) matches Some(q)
            &&& q < thr ==> (r matches Ok(RetroOutcome::Rejected))
            &&& (q >= thr && mint_amount(input.weights, input.base_scores, input.indices) is Ok
                && crate::minting::mint_error(
                *old(pocket),
                *quota_config,
                *old(ledger),
                retro_mint_request(
                    input,
                    mint_amount(input.weights, input.base_scores, input.indices)->Ok_0,
                ),
            ) is None) ==> (r matches Ok(RetroOutcome::Approved(_)))
            &&& (q >= thr && mint_amount(input.weights, input.base_scores, input.indices) is Err)
                ==> r == Err::<RetroOutcome, GmcError>(
                mint_amount(input.weights, input.base_scores, input.indices)->Err_0,
            )
            &&& (q >= thr && mint_amount(input.weights, input.base_scores, input.indices) is Ok
                && crate::minting::mint_error(
                *old(pocket),
                *quota_config,
                *old(ledger),
                retro_mint_request(
                    input,
                    mint_amount(input.weights, input.base_scores, input.indices)->Ok_0,
                ),
            ) is Some) ==> r == Err::<RetroOutcome, GmcError>(
                crate::minting::mint_error(
                    *old(pocket),
                    *quota_config,
                    *old(ledger),
                    retro_mint_request(
                        input,
                        mint_amount(input.weights, input.base_scores, input.indices)->Ok_0,
                    ),
                ).unwrap(),
            )
        },
        crate::retroactive::submission_error(input.application) is None ==> (retro_vote_error(
            input.voters@,
            input.sample_size,
            input.seed,
        ) matches Some(e) ==> r == Err::<RetroOutcome, GmcError>(e) && *final(l1) == *old(l1)),
        crate::retroactive::submission_error(input.application) is None && r is Err ==> *final(l1)
            == *old(l1) && !anchored_decl(
            *final(retro),
            declaration_id_text(old(retro).spec_next_seq()),
        ),
        r is Ok ==> resolved_and_anchored(
            *final(retro),
            declaration_id_text(old(retro).spec_next_seq()),
            if r matches Ok(RetroOutcome::Approved(_)) {
                ReviewStatus::Approved
            } else {
                ReviewStatus::Rejected
            },
            "retro-vote-"@ + decimal_text(old(governance).spec_votes().len() as nat),
        ),
        r is Ok ==> {
            let n = old(governance).spec_votes().len();
            &&& final(governance).spec_votes().len() == n + 1
            &&& final(governance).spec_votes().subrange(0, n as int) == old(governance).spec_votes()
            &&& final(governance).spec_votes()[n as int].spec_threshold() == retro_threshold_value(
                input.regular_threshold@,
            )
            &&& tallied_ratio(*final(governance), n as int) matches Some(q) && (r matches Ok(
                RetroOutcome::Approved(_),
            ) <==> q >= retro_threshold_value(input.regular_threshold@))
            &&& retro_outcome_anchored(
                *old(l1),
                *final(l1),
                "retro-vote-"@ + decimal_text(n as nat),
                input.subject@,
                r matches Ok(RetroOutcome::Approved(_)),
                input.acquired_at,
            )
        },
{
    let ghost input0 = input;
    let RetroFlowInput {
        application,
        voters,
        sample_size,
        seed,
        regular_threshold,
        subject,
        weights,
        base_scores,
        indices,
        influence_duration,
        batch_id,
        acquired_at,
    } = input;
    let chain_id = application.chain_id.clone();
    let declaration_id = match retro.submit(application) {
        Ok(id) => id,
        Err(e) => {
            return Err(e);
        },
    };
    let ghost submitted = retro.spec_decls();
    let ghost sub = *retro;
    let ghost p: int = choose|p: int|
        0 <= p <= old(retro).spec_decls().len() && {
            let d = #[trigger] sub.spec_decls()[p];
            &&& sub.spec_decls() == old(retro).spec_decls().insert(p, d)
            &&& d.id@ == declaration_id_text(old(retro).spec_next_seq())
            &&& d.contributor_id == input0.application.contributor_id
            &&& d.chain_id == input0.application.chain_id
            &&& d.description@ == input0.application.description@
            &&& d.occurred_at == input0.application.occurred_at
            &&& d.evidence_refs == input0.application.evidence_refs
            &&& d.review_status == ReviewStatus::Pending
            &&& d.vote_id is None
            &&& !d.anchored
        };
    proof {
        lemma_position_of_stored(retro, p);
        assert(declaration_id@ == sub.spec_decls()[p].id@);
    }
    let (status, vote_handle) = match conduct_retro_vote(
        retro,
        governance,
        &declaration_id,
        voters.as_slice(),
        sample_size,
        seed,
        regular_threshold,
        subject.as_str(),
    ) {
        Ok(v) => v,
        Err(e) => {
            proof {
                lemma_not_anchored(*retro, p, declaration_id@);
            }
            return Err(e);
        },
    };
    proof {
        assert(retro.spec_decls()[p].id == submitted[p].id);
        assert(retro.spec_decls()[p].id@ == declaration_id@);
        lemma_position_of_stored(retro, p);
        lemma_not_anchored(*retro, p, declaration_id@);
    }
    match status {
        ReviewStatus::Approved => {
            let amount = match scoring.compute_mint_amount(&weights, &base_scores, &indices) {
                Ok(a) => a,
                Err(e) => {
                    return Err(e);
                },
            };
            let request = MintRequest::new(batch_id.as_str(), amount, influence_duration, acquired_at, chain_id);
            assert(crate::minting::mint_error(*old(pocket), *quota_config, *old(ledger), request)
                == crate::minting::mint_error(
                *old(pocket),
                *quota_config,
                *old(ledger),
                retro_mint_request(input0, amount@),
            ));
            let receipt = match minting.mint(pocket, quota_config, ledger, request) {
                Ok(rc) => rc,
                Err(e) => {
                    return Err(e);
                },
            };
            match anchor_retro_outcome(
                retro,
                l1,
                &declaration_id,
                vote_handle.as_str(),
                subject.as_str(),
                true,
                acquired_at,
            ) {
                Ok(_) => Ok(RetroOutcome::Approved(receipt)),
                Err(e) => Err(e),
            }
        },
        ReviewStatus::Rejected => {
            match anchor_retro_outcome(
                retro,
                l1,
                &declaration_id,
                vote_handle.as_str(),
                subject.as_str(),
                false,
                acquired_at,
            ) {
                Ok(_) => Ok(RetroOutcome::Rejected),
                Err(e) => Err(e),
            }
        },
        ReviewStatus::Pending => {
            proof {
                assert(false);
            }
            Err(GmcError::FieldValidation)
        },
    }
}


/// The per-call inputs of [`run_carbon_conversion`].
pub struct CarbonFlowInput {
    /// The contributor holding the voucher.
    pub contributor_id: FayID,
    /// The environmental chain.
    pub chain_id: ChainId,
    /// What the voucher certifies.
    pub description: String,
    /// When it happened.
    pub occurred_at: Timestamp,
    /// Candidate voters.
    pub voters: Vec<RetroVoter>,
    /// Requested sample size.
    pub sample_size: usize,
    /// Sampling seed.
    pub seed: u64,
    /// The chain's regular threshold.
    pub regular_threshold: Ratio,
    /// Subject recorded with the vote.
    pub subject: String,
    /// Dimension weights for scoring.
    pub weights: DimensionWeights,
    /// Base scores.
    pub base_scores: BaseScores,
    /// Inflation indices.
    pub indices: InflationIndexConfig,
    /// Anchoring time.
    pub acquired_at: Timestamp,
}

/// The outcome of [`run_carbon_conversion`].
#[derive(Debug)]
pub enum CarbonOutcome {
    /// Approved; the voucher converted for this amount.
    Converted(Decimal),
    /// Rejected; nothing converted.
    Rejected,
}

/// Flow 4: import the voucher into the retroactive flow, review it by vote, and on
/// approval convert it once against the environmental chain's quota; either outcome
/// is anchored on L1. A rejected voucher stays unconverted and consumes no quota, and
/// any error leaves voucher and ledger as they were.
pub fn run_carbon_conversion(
    voucher: &mut CarbonCreditVoucher,
    retro: &mut RetroactiveReviewModule,
    governance: &mut GovernanceModule,
    scoring: &ScoringEngine,
    env_quota_config: &QuotaConfig,
    env_ledger: &mut QuotaLedger,
    l1: &mut L1Settlement,
    input: CarbonFlowInput,
) -> (r: GmcResult<CarbonOutcome>)
    requires
        old(retro).wf(),
        old(retro).spec_next_seq() < u64::MAX,
        old(governance).wf(),
        old(governance).spec_votes().len() < u64::MAX,
        old(l1).wf(),
        old(l1).spec_version() < u64::MAX,
    ensures
        final(retro).wf(),
        final(governance).wf(),
        final(l1).wf(),
        r is Err ==> *final(voucher) == *old(voucher) && *final(env_ledger) == *old(env_ledger),
        r matches Ok(CarbonOutcome::Rejected) ==> *final(voucher) == *old(voucher)
            && *final(env_ledger) == *old(env_ledger),
        r matches Ok(CarbonOutcome::Converted(amount)) ==> {
            &&& mint_amount(input.weights, input.base_scores, input.indices) == Ok::<int, GmcError>(
                amount@,
            )
            &&& !old(voucher).spec_converted()
            &&& final(voucher).spec_converted()
            &&& final(voucher).spec_declaration() == Some(
                declaration_id_text(old(retro).spec_next_seq()),
            )
            &&& final(env_ledger).spec_minted() == old(env_ledger).spec_minted() + amount@
        },
        intake_error(
            input.contributor_id@,
            input.chain_id@,
            input.description@,
            seq![old(voucher).spec_evidence()],
        ) matches Some(e) ==> r == Err::<CarbonOutcome, GmcError>(e) && *final(retro) == *old(
            retro,
        ) && *final(governance) == *old(governance) && *final(l1) == *old(l1),
        intake_error(
            input.contributor_id@,
            input.chain_id@,
            input.description@,
            seq![old(voucher).spec_evidence()],
        ) is None && too_few_candidates(input.voters@) ==> r == Err::<CarbonOutcome, GmcError>(
            GmcError::StakeholderInsufficient,
        ) && *final(governance) == *old(governance) && *final(l1) == *old(l1) && submitted_pending(
            *old(retro),
            *final(retro),
            input.contributor_id,
            input.chain_id,
        ),
        intake_error(
            input.contributor_id@,
            input.chain_id@,
            input.description@,
            seq![old(voucher).spec_evidence()],
        ) is None && retro_vote_completes(input.voters@, input.sample_size, input.seed) ==> {
            let thr = retro_threshold_value(input.regular_threshold@);
            &&& retro_vote_ratio(input.voters@, input.sample_size, input.seed) matches Some(q)
            &&& q < thr ==> (r matches Ok(CarbonOutcome::Rejected))
            &&& (q >= thr && mint_amount(input.weights, input.base_scores, input.indices) is Ok
                && !old(voucher).spec_converted() && crate::quota::quota_allows(
                old(env_ledger).spec_exhausted(),
                old(env_ledger).spec_minted(),
                env_quota_config.spec_quota(),
                mint_amount(input.weights, input.base_scores, input.indices)->Ok_0,
            )) ==> (r matches Ok(CarbonOutcome::Converted(_)))
            &&& (q >= thr && mint_amount(input.weights, input.base_scores, input.indices) is Err)
                ==> r == Err::<CarbonOutcome, GmcError>(
                mint_amount(input.weights, input.base_scores, input.indices)->Err_0,
            )
            &&& (q >= thr && mint_amount(input.weights, input.base_scores, input.indices) is Ok
                && old(voucher).spec_converted()) ==> r == Err::<CarbonOutcome, GmcError>(
                GmcError::DoubleConversion,
            )
            &&& (q >= thr && mint_amount(input.weights, input.base_scores, input.indices) is Ok
                && !old(voucher).spec_converted() && !crate::quota::quota_allows(
                old(env_ledger).spec_exhausted(),
                old(env_ledger).spec_minted(),
                env_quota_config.spec_quota(),
                mint_amount(input.weights, input.base_scores, input.indices)->Ok_0,
            )) ==> r == Err::<CarbonOutcome, GmcError>(GmcError::QuotaExceeded)
        },
        intake_error(
            input.contributor_id@,
            input.chain_id@,
            input.description@,
            seq![old(voucher).spec_evidence()],
        ) is None ==> (retro_vote_error(input.voters@, input.sample_size, input.seed) matches Some(
            e,
        ) ==> r == Err::<CarbonOutcome, GmcError>(e) && *final(l1) == *old(l1)),
        intake_error(
            input.contributor_id@,
            input.chain_id@,
            input.description@,
            seq![old(voucher).spec_evidence()],
        ) is None && r is Err ==> *final(l1) == *old(l1) && !anchored_decl(
            *final(retro),
            declaration_id_text(old(retro).spec_next_seq()),
        ),
        r is Ok ==> resolved_and_anchored(
            *final(retro),
            declaration_id_text(old(retro).spec_next_seq()),
            if r matches Ok(CarbonOutcome::Converted(_)) {
                ReviewStatus::Approved
            } else {
                ReviewStatus::Rejected
            },
            "retro-vote-"@ + decimal_text(old(governance).spec_votes().len() as nat),
        ),
        r is Ok ==> {
            let n = old(governance).spec_votes().len();
            &&& final(governance).spec_votes().len() == n + 1
            &&& final(governance).spec_votes().subrange(0, n as int) == old(governance).spec_votes()
            &&& final(governance).spec_votes()[n as int].spec_threshold() == retro_threshold_value(
                input.regular_threshold@,
            )
            &&& tallied_ratio(*final(governance), n as int) matches Some(q) && (r matches Ok(
                CarbonOutcome::Converted(_),
            ) <==> q >= retro_threshold_value(input.regular_threshold@))
            &&& retro_outcome_anchored(
                *old(l1),
                *final(l1),
                "retro-vote-"@ + decimal_text(n as nat),
                input.subject@,
                r matches Ok(CarbonOutcome::Converted(_)),
                input.acquired_at,
            )
        },
{
    let ghost input0 = input;
    let CarbonFlowInput {
        contributor_id,
        chain_id,
        description,
        occurred_at,
        voters,
        sample_size,
        seed,
        regular_threshold,
        subject,
        weights,
        base_scores,
        indices,
        acquired_at,
    } = input;
    let declaration_id = match voucher.import_to_retroactive_flow(
        retro,
        contributor_id,
        chain_id,
        description.as_str(),
        occurred_at,
    ) {
        Ok(id) => id,
        Err(e) => {
            return Err(e);
        },
    };
    let ghost submitted = retro.spec_decls();
    let ghost sub = *retro;
    let ghost p: int = choose|p: int|
        0 <= p <= old(retro).spec_decls().len() && {
            let d = #[trigger] sub.spec_decls()[p];
            &&& sub.spec_decls() == old(retro).spec_decls().insert(p, d)
            &&& d.id@ == declaration_id@
            &&& d.id@ == declaration_id_text(old(retro).spec_next_seq())
            &&& d.evidence_refs@ == seq![old(voucher).spec_evidence()]
            &&& d.contributor_id == input0.contributor_id
            &&& d.chain_id == input0.chain_id
            &&& d.description@ == input0.description@
            &&& d.occurred_at == input0.occurred_at
            &&& d.review_status == ReviewStatus::Pending
            &&& d.vote_id is None
            &&& !d.anchored
        };
    proof {
        lemma_position_of_stored(retro, p);
    }
    let (status, vote_handle) = match conduct_retro_vote(
        retro,
        governance,
        &declaration_id,
        voters.as_slice(),
        sample_size,
        seed,
        regular_threshold,
        subject.as_str(),
    ) {
        Ok(v) => v,
        Err(e) => {
            proof {
                lemma_not_anchored(*retro, p, declaration_id@);
            }
            return Err(e);
        },
    };
    proof {
        assert(retro.spec_decls()[p].id == submitted[p].id);
        assert(retro.spec_decls()[p].id@ == declaration_id@);
        lemma_position_of_stored(retro, p);
        lemma_not_anchored(*retro, p, declaration_id@);
    }
    match status {
        ReviewStatus::Approved => {
            let amount = match scoring.compute_mint_amount(&weights, &base_scores, &indices) {
                Ok(a) => a,
                Err(e) => {
                    return Err(e);
                },
            };
            match voucher.convert(declaration_id.as_str(), amount, env_quota_config, env_ledger) {
                Ok(()) => {},
                Err(e) => {
                    return Err(e);
                },
            }
            match anchor_retro_outcome(
                retro,
                l1,
                &declaration_id,
                vote_handle.as_str(),
                subject.as_str(),
                true,
                acquired_at,
            ) {
                Ok(_) => Ok(CarbonOutcome::Converted(amount)),
                Err(e) => Err(e),
            }
        },
        ReviewStatus::Rejected => {
            match anchor_retro_outcome(
                retro,
                l1,
                &declaration_id,
                vote_handle.as_str(),
                subject.as_str(),
                false,
                acquired_at,
            ) {
                Ok(_) => Ok(CarbonOutcome::Rejected),
                Err(e) => Err(e),
            }
        },
        ReviewStatus::Pending => {
            proof {
                assert(false);
            }
            Err(GmcError::FieldValidation)
        },
    }
}

} // verus!

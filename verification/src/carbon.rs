//! Carbon-credit vouchers: import into the retroactive review flow, and one-time
//! conversion into merit.
//!
//! A voucher enters the retroactive flow as a declaration carrying the voucher's
//! evidence reference, so an unverifiable voucher is refused there with
//! `EvidenceInvalid`. A voucher converts at most once: a second conversion is
//! `DoubleConversion`, and a conversion that the quota refuses leaves the voucher
//! unconverted.
use vstd::prelude::*;

use crate::error::{GmcError, GmcResult};
use crate::quota::{quota_allows, QuotaConfig, QuotaLedger};
use crate::retroactive::{
    declaration_id_text, intake_error, DeclarationId, EvidenceRef, RetroactiveApplication,
    RetroactiveReviewModule, ReviewStatus,
};
use crate::types::{ChainId, Decimal, FayID, Timestamp};

verus! {

/// A carbon-credit voucher.
#[derive(Debug, Clone, PartialEq, Eq)]
pub struct CarbonCreditVoucher {
    voucher_id: String,
    evidence_ref: EvidenceRef,
    converted_declaration_id: Option<String>,
}

/// A voucher is converted exactly when it records the declaration it was converted
/// under.
pub proof fn lemma_converted_iff_declared(v: &CarbonCreditVoucher)
    ensures
        v.spec_converted() <==> v.spec_declaration() is Some,
{
}

impl CarbonCreditVoucher {
    /// The voucher's id.
    pub closed spec fn spec_id(&self) -> Seq<char> {
        self.voucher_id@
    }

    /// The voucher's evidence.
    pub closed spec fn spec_evidence(&self) -> EvidenceRef {
        self.evidence_ref
    }

    /// Whether it was converted: exactly when it records a declaration.
    pub closed spec fn spec_converted(&self) -> bool {
        self.converted_declaration_id is Some
    }

    /// The declaration it was converted under, if any.
    pub closed spec fn spec_declaration(&self) -> Option<Seq<char>> {
        match self.converted_declaration_id {
            Some(s) => Some(s@),
            None => None,
        }
    }

    /// An unconverted voucher.
    pub fn new(voucher_id: &str, evidence_ref: EvidenceRef) -> (v: CarbonCreditVoucher)
        ensures
            v.spec_id() == voucher_id@,
            v.spec_evidence() == evidence_ref,
            !v.spec_converted(),
            v.spec_declaration() is None,
    {
        CarbonCreditVoucher {
            voucher_id: voucher_id.to_owned(),
            evidence_ref,
            converted_declaration_id: None,
        }
    }

    /// The voucher's id.
    pub fn voucher_id(&self) -> (s: &str)
        ensures
            s@ == self.spec_id(),
    {
        self.voucher_id.as_str()
    }

    /// The voucher's evidence.
    pub fn evidence_ref(&self) -> (e: &EvidenceRef)
        ensures
            *e == self.spec_evidence(),
    {
        &self.evidence_ref
    }

    /// Whether it was converted.
    pub fn is_converted(&self) -> (b: bool)
        ensures
            b == self.spec_converted(),
    {
        self.converted_declaration_id.is_some()
    }

    /// The declaration it was converted under.
    pub fn converted_declaration_id(&self) -> (r: Option<&str>)
        ensures
            match self.spec_declaration() {
                Some(s) => r matches Some(t) && t@ == s,
                None => r is None,
            },
    {
        match &self.converted_declaration_id {
            Some(s) => Some(s.as_str()),
            None => None,
        }
    }

    /// Submits a retroactive declaration carrying exactly this voucher's evidence; the
    /// module's intake rules decide (see
    /// [`RetroactiveReviewModule::submit`]). The voucher itself is unchanged.
    pub fn import_to_retroactive_flow(
        &self,
        module: &mut RetroactiveReviewModule,
        contributor_id: FayID,
        chain_id: ChainId,
        description: &str,
        occurred_at: Timestamp,
    ) -> (r: GmcResult<DeclarationId>)
        requires
            old(module).wf(),
            old(module).spec_next_seq() < u64::MAX,
        ensures
            final(module).wf(),
            ({
                let err = intake_error(
                    contributor_id@,
                    chain_id@,
                    description@,
                    seq![self.spec_evidence()],
                );
                &&& err matches Some(e) ==> r == Err::<DeclarationId, GmcError>(e)
                    && *final(module) == *old(module)
                &&& err is None ==> r is Ok && final(module).spec_next_seq() == old(
                    module,
                ).spec_next_seq() + 1 && exists|p: int|
                    0 <= p <= old(module).spec_decls().len() && {
                        let d = #[trigger] final(module).spec_decls()[p];
                        &&& final(module).spec_decls() == old(module).spec_decls().insert(p, d)
                        &&& r matches Ok(id) && d.id@ == id@
                        &&& d.id@ == declaration_id_text(old(module).spec_next_seq())
                        &&& d.evidence_refs@ == seq![self.spec_evidence()]
                        &&& d.contributor_id == contributor_id
                        &&& d.chain_id == chain_id
                        &&& d.description@ == description@
                        &&& d.occurred_at == occurred_at
                        &&& d.review_status == ReviewStatus::Pending
                        &&& d.vote_id is None
                        &&& !d.anchored
                    }
            }),
    {
        let mut evidence: Vec<EvidenceRef> = Vec::new();
        evidence.push(self.evidence_ref.clone());
        let application = RetroactiveApplication::new(
            contributor_id,
            chain_id,
            description,
            occurred_at,
            evidence,
        );
        module.submit(application)
    }

    /// Converts the voucher once, consuming `mint_amount` from the chain's quota and
    /// recording `declaration_id`. A converted voucher is `DoubleConversion`; a
    /// quota refusal is `QuotaExceeded`; both leave voucher and ledger unchanged.
    pub fn convert(
        &mut self,
        declaration_id: &str,
        mint_amount: Decimal,
        config: &QuotaConfig,
        ledger: &mut QuotaLedger,
    ) -> (r: GmcResult<()>)
        ensures
            old(self).spec_converted() ==> r == Err::<(), GmcError>(GmcError::DoubleConversion)
                && *final(self) == *old(self) && *final(ledger) == *old(ledger),
            !old(self).spec_converted() && !quota_allows(
                old(ledger).spec_exhausted(),
                old(ledger).spec_minted(),
                config.spec_quota(),
                mint_amount@,
            ) ==> r == Err::<(), GmcError>(GmcError::QuotaExceeded) && *final(self) == *old(self)
                && !final(self).spec_converted() && final(self).spec_declaration() is None
                && *final(ledger) == *old(ledger),
            !old(self).spec_converted() && quota_allows(
                old(ledger).spec_exhausted(),
                old(ledger).spec_minted(),
                config.spec_quota(),
                mint_amount@,
            ) ==> {
                &&& r is Ok
                &&& final(self).spec_converted()
                &&& final(self).spec_declaration() == Some(declaration_id@)
                &&& final(self).spec_id() == old(self).spec_id()
                &&& final(self).spec_evidence() == old(self).spec_evidence()
                &&& final(ledger).spec_minted() == old(ledger).spec_minted() + mint_amount@
                &&& final(ledger).spec_exhausted() == (config.spec_period() is OneTime
                    && final(ledger).spec_minted() >= config.spec_quota())
                &&& final(ledger).spec_chain_id() == old(ledger).spec_chain_id()
                &&& final(ledger).spec_period_start() == old(ledger).spec_period_start()
            },
    {
        if self.converted_declaration_id.is_some() {
            return Err(GmcError::DoubleConversion);
        }
        match ledger.consume_quota(config, mint_amount) {
            Ok(()) => {},
            Err(e) => {
                return Err(e);
            },
        }
        self.converted_declaration_id = Some(declaration_id.to_owned());
        Ok(())
    }
}

} // verus!

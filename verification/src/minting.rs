//! `Minting_Service`: the ordered mint pipeline.
//!
//! A mint runs: validate `amount > 0` → derive `λ` from the influence duration →
//! check quota → snapshot the pre-mint `curMerit` → update the floor `minMerit` →
//! record a new batch (`V = amount`, `B = floor increment`) → consume quota. Any
//! rejection happens before the first mutation, so a failed mint leaves the pocket
//! and the ledger exactly as they were.
use vstd::prelude::*;

use crate::error::{GmcError, GmcResult};
use crate::merit::{
    cur_merit_prefix, lemma_value_at_acquisition, updated_floor, MeritBatch, MeritPocket,
};
use crate::quota::{quota_allows, QuotaConfig, QuotaLedger};
use crate::types::{fits_i128, spec_div, trunc_div, ChainId, Decimal, Timestamp, SCALE};

verus! {

/// One mint request.
#[derive(Debug, Clone, PartialEq, Eq)]
pub struct MintRequest {
    /// Identifier of the batch to create.
    pub batch_id: String,
    /// Amount `x` to mint; must be strictly positive.
    pub amount: Decimal,
    /// Influence duration of the new batch; must be strictly positive.
    pub influence_duration: Decimal,
    /// On-chain time of the mint; also the batch's acquisition time.
    pub acquired_at: Timestamp,
    /// The chain minting the batch.
    pub source_chain_id: ChainId,
}

impl MintRequest {
    /// Builds a request.
    pub fn new(
        batch_id: &str,
        amount: Decimal,
        influence_duration: Decimal,
        acquired_at: Timestamp,
        source_chain_id: ChainId,
    ) -> (r: MintRequest)
        ensures
            r.batch_id@ == batch_id@,
            r.amount == amount,
            r.influence_duration == influence_duration,
            r.acquired_at == acquired_at,
            r.source_chain_id == source_chain_id,
    {
        MintRequest {
            batch_id: batch_id.to_owned(),
            amount,
            influence_duration,
            acquired_at,
            source_chain_id,
        }
    }
}

/// What a successful mint did.
#[derive(Debug, Clone, PartialEq, Eq)]
pub struct MintReceipt {
    /// The created batch's identifier.
    pub batch_id: String,
    /// The amount minted (the batch's `V`).
    pub minted_amount: Decimal,
    /// `B' − B`, the amount settled into the floor (the batch's `B`).
    pub floor_increment: Decimal,
    /// The floor after the mint.
    pub new_min_merit: Decimal,
}

/// What a successful mint of `request` does: the floor becomes
/// `B' = updated_floor(B, x, M)`, one batch `(V = x, B = B' − B, λ = k / duration)` is
/// appended, `x` is consumed from the ledger, and the receipt reports the batch id,
/// the amount, the floor increment and the new floor.
pub open spec fn mint_applied(
    old_pocket: MeritPocket,
    new_pocket: MeritPocket,
    old_ledger: QuotaLedger,
    new_ledger: QuotaLedger,
    config: QuotaConfig,
    request: MintRequest,
    receipt: MintReceipt,
) -> bool {
    let f = updated_floor(
        old_pocket.min_merit@,
        request.amount@,
        old_pocket.cur_merit_value(request.acquired_at.secs),
    ).unwrap();
    let inc = floor_increment(old_pocket.min_merit@, f);
    let n = old_pocket.batches@.len();
    &&& receipt.batch_id@ == request.batch_id@
    &&& receipt.minted_amount == request.amount
    &&& receipt.floor_increment@ == inc
    &&& receipt.new_min_merit@ == f
    &&& new_pocket.min_merit@ == f
    &&& new_pocket.fay_id == old_pocket.fay_id
    &&& new_pocket.batches@.len() == n + 1
    &&& new_pocket.batches@.subrange(0, n as int) == old_pocket.batches@
    &&& new_pocket.batches@[n as int].batch_id@ == request.batch_id@
    &&& new_pocket.batches@[n as int].v == request.amount
    &&& new_pocket.batches@[n as int].b@ == inc
    &&& spec_div(SCALE as int, request.influence_duration@) == Some(
        new_pocket.batches@[n as int].lambda@,
    )
    &&& new_pocket.batches@[n as int].influence_duration == request.influence_duration
    &&& new_pocket.batches@[n as int].acquired_at == request.acquired_at
    &&& new_pocket.batches@[n as int].source_chain_id == request.source_chain_id
    &&& new_ledger.spec_minted() == old_ledger.spec_minted() + request.amount@
    &&& new_ledger.spec_exhausted() == (config.spec_period() is OneTime
        && new_ledger.spec_minted() >= config.spec_quota())
    &&& new_ledger.spec_chain_id() == old_ledger.spec_chain_id()
    &&& new_ledger.spec_period_start() == old_ledger.spec_period_start()
}

/// The batch a mint appends decays with `λ = k / influenceDuration` (`k = 1`): in
/// fixed point, `λ · duration ≤ 1 < (λ + 10⁻⁶) · duration`, so one influence duration
/// after acquisition its exponent `λ · duration` is `1` up to truncation.
pub proof fn lemma_minted_lambda_is_k_over_duration(
    old_pocket: MeritPocket,
    new_pocket: MeritPocket,
    old_ledger: QuotaLedger,
    new_ledger: QuotaLedger,
    config: QuotaConfig,
    request: MintRequest,
    receipt: MintReceipt,
)
    requires
        mint_applied(old_pocket, new_pocket, old_ledger, new_ledger, config, request, receipt),
        request.influence_duration@ > 0,
    ensures
        ({
            let l = new_pocket.batches@[old_pocket.batches@.len() as int].lambda@;
            let d = request.influence_duration@;
            &&& l * d <= SCALE * SCALE
            &&& SCALE * SCALE < (l + 1) * d
        }),
{
    let l = new_pocket.batches@[old_pocket.batches@.len() as int].lambda@;
    let d = request.influence_duration@;
    let kk = SCALE * SCALE;
    assert(l == kk / d);
    vstd::arithmetic::div_mod::lemma_fundamental_div_mod(kk, d);
    assert(l * d <= kk && kk < (l + 1) * d) by (nonlinear_arith)
        requires
            d > 0,
            kk == d * l + kk % d,
            0 <= kk % d < d,
    ;
}

proof fn lemma_prefix_agrees(a: Seq<MeritBatch>, b: Seq<MeritBatch>, now: u64, n: int)
    requires
        0 <= n <= a.len(),
        n <= b.len(),
        forall|i: int| 0 <= i < n ==> a[i] == b[i],
    ensures
        cur_merit_prefix(a, now, n) == cur_merit_prefix(b, now, n),
    decreases n,
{
    if n > 0 {
        lemma_prefix_agrees(a, b, now, n - 1);
    }
}

/// A mint of `x` raises the pocket's `curMerit` at the mint time by exactly `x`: the
/// new batch is worth its full amount when acquired, and every earlier batch keeps its
/// value.
pub proof fn lemma_mint_adds_amount_to_cur_merit(
    old_pocket: MeritPocket,
    new_pocket: MeritPocket,
    old_ledger: QuotaLedger,
    new_ledger: QuotaLedger,
    config: QuotaConfig,
    request: MintRequest,
    receipt: MintReceipt,
)
    requires
        mint_applied(old_pocket, new_pocket, old_ledger, new_ledger, config, request, receipt),
        new_pocket.batches@[old_pocket.batches@.len() as int].b@ <= request.amount@,
        fits_i128(
            (request.amount@ - new_pocket.batches@[old_pocket.batches@.len() as int].b@) * SCALE,
        ),
        fits_i128(old_pocket.cur_merit_value(request.acquired_at.secs) + request.amount@),
    ensures
        new_pocket.cur_merit_value(request.acquired_at.secs) == old_pocket.cur_merit_value(
            request.acquired_at.secs,
        ) + request.amount@,
{
    let n = old_pocket.batches@.len() as int;
    let t = request.acquired_at.secs;
    let nb = new_pocket.batches@[n];
    lemma_value_at_acquisition(nb, t);
    assert forall|i: int| 0 <= i < n implies old_pocket.batches@[i] == new_pocket.batches@[i] by {
        assert(new_pocket.batches@.subrange(0, n)[i] == new_pocket.batches@[i]);
    }
    lemma_prefix_agrees(old_pocket.batches@, new_pocket.batches@, t, n);
}

/// A successful mint of `x` consumes exactly `x` from the ledger, appends one batch
/// worth `V = x` whose floor share `B` is exactly the rise of the pocket's floor, and
/// never lowers the floor: the new floor is `(x + M) · B / M` (at least the old floor)
/// for the pre-mint `curMerit` `M`.
pub proof fn lemma_mint_moves_floor_and_quota(
    old_pocket: MeritPocket,
    new_pocket: MeritPocket,
    old_ledger: QuotaLedger,
    new_ledger: QuotaLedger,
    config: QuotaConfig,
    request: MintRequest,
    receipt: MintReceipt,
)
    requires
        mint_applied(old_pocket, new_pocket, old_ledger, new_ledger, config, request, receipt),
        mint_error(old_pocket, config, old_ledger, request) is None,
    ensures
        new_ledger.spec_minted() == old_ledger.spec_minted() + request.amount@,
        receipt.minted_amount == request.amount,
        new_pocket.batches@.len() == old_pocket.batches@.len() + 1,
        new_pocket.batches@[old_pocket.batches@.len() as int].v@ == request.amount@,
        new_pocket.min_merit@ >= old_pocket.min_merit@,
        fits_i128(new_pocket.min_merit@ - old_pocket.min_merit@) ==> new_pocket.batches@[old_pocket.batches@.len() as int].b@
            == new_pocket.min_merit@ - old_pocket.min_merit@,
        receipt.new_min_merit == new_pocket.min_merit,
        ({
            let b = old_pocket.min_merit@;
            let x = request.amount@;
            let m = old_pocket.cur_merit_value(request.acquired_at.secs);
            m > 0 && fits_i128(x + m) && fits_i128((x + m) * b) && fits_i128(
                trunc_div((x + m) * b, SCALE as int) * SCALE,
            ) ==> new_pocket.min_merit@ == if trunc_div(
                trunc_div((x + m) * b, SCALE as int) * SCALE,
                m,
            ) < b {
                b
            } else {
                trunc_div(trunc_div((x + m) * b, SCALE as int) * SCALE, m)
            }
        }),
{
    let b = old_pocket.min_merit@;
    let x = request.amount@;
    let m = old_pocket.cur_merit_value(request.acquired_at.secs);
    crate::merit::lemma_floor_never_decreases(b, x, m);
    if m > 0 && fits_i128(x + m) {
        crate::merit::lemma_floor_formula(b, x, m);
    }
}

/// The stateless mint pipeline.
#[derive(Debug, Clone, Copy, Default)]
pub struct MintingService;

/// Why a mint is rejected, in the pipeline's order, or `None` when it succeeds.
pub open spec fn mint_error(
    pocket: MeritPocket,
    config: QuotaConfig,
    ledger: QuotaLedger,
    request: MintRequest,
) -> Option<GmcError> {
    if request.amount@ <= 0 {
        Some(GmcError::InvalidMintAmount)
    } else if !(request.influence_duration@ > 0 && spec_div(
        SCALE as int,
        request.influence_duration@,
    ) is Some) {
        Some(GmcError::InvalidMintAmount)
    } else if !quota_allows(
        ledger.spec_exhausted(),
        ledger.spec_minted(),
        config.spec_quota(),
        request.amount@,
    ) {
        Some(GmcError::QuotaExceeded)
    } else if updated_floor(
        pocket.min_merit@,
        request.amount@,
        pocket.cur_merit_value(request.acquired_at.secs),
    ) is None {
        Some(GmcError::InvalidMintAmount)
    } else {
        None
    }
}

/// The floor increment `new − old`, or `0` when it does not fit.
pub open spec fn floor_increment(old_floor: int, new_floor: int) -> int {
    if fits_i128(new_floor - old_floor) {
        new_floor - old_floor
    } else {
        0
    }
}

impl MintingService {
    /// The service.
    pub fn new() -> (s: MintingService)
        ensures
            s == MintingService,
    {
        MintingService
    }

    /// Runs the mint pipeline. On rejection (see [`mint_error`]) nothing changes.
    /// On success the floor becomes `B' = (x + M) · B / M` (with `M` the pre-mint
    /// `curMerit` at the mint time), one batch `(V = x, B = B' − B, λ = k / duration)`
    /// is appended, and `x` is consumed from the ledger.
    pub fn mint(
        &self,
        pocket: &mut MeritPocket,
        config: &QuotaConfig,
        ledger: &mut QuotaLedger,
        request: MintRequest,
    ) -> (r: GmcResult<MintReceipt>)
        ensures
            mint_error(*old(pocket), *config, *old(ledger), request) matches Some(e) ==> r
                == Err::<MintReceipt, GmcError>(e) && *final(pocket) == *old(pocket)
                && *final(ledger) == *old(ledger),
            mint_error(*old(pocket), *config, *old(ledger), request) is None ==> (r matches Ok(
                receipt,
            ) && mint_applied(
                *old(pocket),
                *final(pocket),
                *old(ledger),
                *final(ledger),
                *config,
                request,
                receipt,
            )),
    {
        if !request.amount.is_positive() {
            return Err(GmcError::InvalidMintAmount);
        }
        let lambda = match MeritBatch::lambda_from_duration(request.influence_duration) {
            Some(l) => l,
            None => {
                return Err(GmcError::InvalidMintAmount);
            },
        };
        match ledger.check_quota(config, request.amount) {
            Ok(()) => {},
            Err(e) => {
                return Err(e);
            },
        }
        let m = pocket.cur_merit(request.acquired_at);
        let old_floor = pocket.min_merit();
        let new_floor = match pocket.update_min_merit(request.amount, m) {
            Ok(f) => f,
            Err(e) => {
                return Err(e);
            },
        };
        let increment = match new_floor.checked_sub(old_floor) {
            Some(d) => d,
            None => Decimal::zero(),
        };
        let batch = MeritBatch::new(
            request.batch_id.as_str(),
            request.amount,
            increment,
            lambda,
            request.influence_duration,
            request.acquired_at,
            request.source_chain_id.clone(),
        );
        let ghost before_push = pocket.batches@;
        pocket.add_batch(batch);
        assert(pocket.batches@.subrange(0, before_push.len() as int) == before_push);
        match ledger.consume_quota(config, request.amount) {
            Ok(()) => {},
            Err(e) => {
                return Err(e);
            },
        }
        self.compute_meritoken_l2(pocket, request.acquired_at);
        self.anchor_state_root_to_l1();
        Ok(
            MintReceipt {
                batch_id: request.batch_id,
                minted_amount: request.amount,
                floor_increment: increment,
                new_min_merit: new_floor,
            },
        )
    }

    /// Seam for recomputing the pocket's MeriToken on the rollup; nothing to do in
    /// this in-process model.
    fn compute_meritoken_l2(&self, pocket: &MeritPocket, now: Timestamp) {
    }

    /// Seam for anchoring the updated state root on L1; nothing to do in this
    /// in-process model.
    fn anchor_state_root_to_l1(&self) {
    }
}

} // verus!

//! `L2_Rollup`: real-time contribution computation, buffered batch settlement,
//! capacity scale-out and aggregate-only vote results.
//!
//! Contributions are computed immediately and buffered. A batch is flushed when the
//! buffer is non-empty and either holds at least [`BATCH_MAX_RECORDS`] records (this
//! trigger takes priority) or [`BATCH_MAX_INTERVAL_SECS`] seconds have passed since
//! the previous flush (inclusive). A flush drains the whole buffer in order, derives a
//! deterministic batch root and a proof committing to it, and advances the batch
//! sequence. Record ids are `rollup-rec-N`, numbered from `0` across flushes.
//!
//! The shard controller scales out only after the observed rate has exceeded the
//! rated throughput for more than [`SUSTAINED_OVERLOAD_SECS`], to
//! `max(1, ⌈rate / 1000⌉)` instances, and never shrinks.
use vstd::prelude::*;
use vstd::string::StringSliceAdditionalSpecFns;

use crate::error::{GmcError, GmcResult};
use crate::l1_settlement::{fnv_fold, FNV_OFFSET, FNV_PRIME};
use crate::types::{
    decimal_text, elapsed, spec_div, text_with_number, ChainId, Decimal, FayID, Ratio, Timestamp,
};

verus! {

/// Records that force a batch flush.
pub const BATCH_MAX_RECORDS: usize = 1_000;

/// Seconds since the previous flush that force a flush of a non-empty buffer.
pub const BATCH_MAX_INTERVAL_SECS: u64 = 60;

/// Latency budget for computing a contribution, in seconds.
pub const COMPUTE_LATENCY_BUDGET_SECS: u64 = 5;

/// Finality budget of the BFT consensus, in seconds.
pub const BFT_FINALITY_BUDGET_SECS: u64 = 3;

/// Rated throughput of one rollup instance, in records per second.
pub const PER_INSTANCE_THROUGHPUT_RECORDS_PER_SEC: u64 = 1_000;

/// Overload must last strictly longer than this many seconds before scaling out.
pub const SUSTAINED_OVERLOAD_SECS: u64 = 60;

/// The rollup's consensus.
#[derive(Debug, Clone, Copy, PartialEq, Eq, PartialOrd, Ord, Hash, Default, Structural)]
pub enum L2Consensus {
    /// Byzantine-fault-tolerant consensus.
    #[default]
    Bft,
}

impl L2Consensus {
    /// The configured consensus.
    pub fn l2() -> (c: L2Consensus)
        ensures
            c == L2Consensus::Bft,
    {
        L2Consensus::Bft
    }

    /// Human-readable label.
    pub fn label(self) -> (s: &'static str)
        ensures
            s@ == "BFT"@,
    {
        match self {
            L2Consensus::Bft => "BFT",
        }
    }

    /// The finality budget in seconds.
    pub fn finality_budget_secs(self) -> (s: u64)
        ensures
            s == BFT_FINALITY_BUDGET_SECS,
    {
        BFT_FINALITY_BUDGET_SECS
    }

    /// `true` for the BFT consensus.
    pub fn is_bft(self) -> (b: bool)
        ensures
            b == (self is Bft),
    {
        match self {
            L2Consensus::Bft => true,
        }
    }
}

/// Identifier of a rollup record.
#[derive(Debug, Eq, PartialOrd, Ord, Hash)]
pub struct RollupRecordId(String);

impl View for RollupRecordId {
    type V = Seq<char>;

    closed spec fn view(&self) -> Seq<char> {
        self.0@
    }
}

impl RollupRecordId {
    /// Builds an id from its text.
    pub fn new(id: &str) -> (r: RollupRecordId)
        ensures
            r@ == id@,
    {
        RollupRecordId(id.to_owned())
    }

    fn from_string(id: String) -> (r: RollupRecordId)
        ensures
            r@ == id@,
    {
        RollupRecordId(id)
    }

    /// The id's text.
    pub fn as_str(&self) -> (s: &str)
        ensures
            s@ == self@,
    {
        self.0.as_str()
    }

    /// The id rendered as text for display: the id itself.
    pub fn to_string(&self) -> (s: String)
        ensures
            s@ == self@,
    {
        self.0.clone()
    }
}

impl Clone for RollupRecordId {
    fn clone(&self) -> (c: Self)
        ensures
            c@ == self@,
    {
        RollupRecordId(self.0.clone())
    }
}

impl PartialEq for RollupRecordId {
    fn eq(&self, other: &Self) -> (b: bool) {
        self.0 == other.0
    }
}

impl vstd::std_specs::cmp::PartialEqSpecImpl for RollupRecordId {
    open spec fn obeys_eq_spec() -> bool {
        true
    }

    open spec fn eq_spec(&self, other: &RollupRecordId) -> bool {
        self@ == other@
    }
}

/// A contribution submitted for computation.
#[derive(Debug, Clone, PartialEq, Eq)]
pub struct ContributionSubmission {
    /// The contributor.
    pub contributor_id: FayID,
    /// The chain.
    pub chain_id: ChainId,
    /// The merit amount credited.
    pub merit_amount: Decimal,
}

impl ContributionSubmission {
    /// Builds a submission.
    pub fn new(contributor_id: FayID, chain_id: ChainId, merit_amount: Decimal) -> (s:
        ContributionSubmission)
        ensures
            s.contributor_id == contributor_id,
            s.chain_id == chain_id,
            s.merit_amount == merit_amount,
    {
        ContributionSubmission { contributor_id, chain_id, merit_amount }
    }
}

/// The immediate result of computing a contribution.
#[derive(Debug, Clone, PartialEq, Eq)]
pub struct ComputationResult {
    /// The allocated record id.
    pub record_id: RollupRecordId,
    /// The contributor.
    pub contributor_id: FayID,
    /// The chain.
    pub chain_id: ChainId,
    /// The merit amount.
    pub merit_amount: Decimal,
    /// Whether the intimacy graph was updated (always `true`).
    pub intimacy_updated: bool,
    /// When it was computed.
    pub computed_at: Timestamp,
}

/// A computed record awaiting batch settlement.
#[derive(Debug, Clone, PartialEq, Eq)]
pub struct BufferedRecord {
    /// The record id.
    pub record_id: RollupRecordId,
    /// The contributor.
    pub contributor_id: FayID,
    /// The chain.
    pub chain_id: ChainId,
    /// The merit amount.
    pub merit_amount: Decimal,
    /// When it entered the buffer.
    pub ingested_at: Timestamp,
}

impl BufferedRecord {
    /// Builds a buffered record.
    pub fn new(
        record_id: RollupRecordId,
        contributor_id: FayID,
        chain_id: ChainId,
        merit_amount: Decimal,
        ingested_at: Timestamp,
    ) -> (r: BufferedRecord)
        ensures
            r.record_id@ == record_id@,
            r.contributor_id == contributor_id,
            r.chain_id == chain_id,
            r.merit_amount == merit_amount,
            r.ingested_at == ingested_at,
    {
        BufferedRecord { record_id, contributor_id, chain_id, merit_amount, ingested_at }
    }
}

/// Why a batch was flushed.
#[derive(Debug, Clone, Copy, PartialEq, Eq, PartialOrd, Ord, Hash, Structural)]
pub enum BatchTrigger {
    /// The buffer reached the record threshold.
    RecordThreshold,
    /// The flush interval elapsed.
    IntervalElapsed,
}

/// A 32-byte batch state root.
#[derive(Debug, Clone, Copy, PartialOrd, Ord, Hash)]
pub struct BatchRoot(pub [u8; 32]);

impl View for BatchRoot {
    type V = Seq<u8>;

    open spec fn view(&self) -> Seq<u8> {
        self.0@
    }
}

impl PartialEq for BatchRoot {
    fn eq(&self, other: &Self) -> (b: bool) {
        let mut i: usize = 0;
        while i < 32
            invariant
                i <= 32,
                self.0@.len() == 32,
                other.0@.len() == 32,
                forall|j: int| 0 <= j < i ==> self.0@[j] == other.0@[j],
            decreases 32 - i,
        {
            if self.0[i] != other.0[i] {
                return false;
            }
            i = i + 1;
        }
        proof {
            assert(self.0@ =~= other.0@);
        }
        true
    }
}

impl vstd::std_specs::cmp::PartialEqSpecImpl for BatchRoot {
    open spec fn obeys_eq_spec() -> bool {
        true
    }

    open spec fn eq_spec(&self, other: &BatchRoot) -> bool {
        self@ == other@
    }
}

impl Eq for BatchRoot {}

/// The UTF-8 bytes of every record id, concatenated in buffer order, mixed into `h`.
pub open spec fn fnv_records(h: u64, ids: Seq<Seq<char>>, n: int) -> u64
    decreases n,
{
    if n <= 0 {
        h
    } else {
        let b = vstd::utf8::encode_utf8(ids[n - 1]);
        fnv_fold(fnv_records(h, ids, n - 1), b, b.len() as int)
    }
}

/// Byte `i` of the root of batch `seq` over records with ids `ids`.
pub open spec fn batch_root_byte(seq: u64, ids: Seq<Seq<char>>, i: int) -> u8 {
    let h0 = (FNV_OFFSET ^ seq).wrapping_mul(FNV_PRIME);
    let h1 = (h0 ^ (i as u64)).wrapping_mul(FNV_PRIME);
    let h2 = (h1 ^ (ids.len() as u64)).wrapping_mul(FNV_PRIME);
    let h = fnv_records(h2, ids, ids.len() as int);
    (h ^ (h >> 32u64)) as u8
}

/// The root of batch `seq` over records with ids `ids`.
pub open spec fn batch_root_of(seq: u64, ids: Seq<Seq<char>>) -> Seq<u8> {
    Seq::new(32, |i: int| batch_root_byte(seq, ids, i))
}

/// The ids of buffered records, in order.
pub open spec fn record_ids(records: Seq<BufferedRecord>) -> Seq<Seq<char>> {
    records.map_values(|r: BufferedRecord| r.record_id@)
}

impl BatchRoot {
    /// The genesis root: all zero bytes.
    pub fn genesis() -> (r: BatchRoot)
        ensures
            r@ == Seq::new(32, |i: int| 0u8),
    {
        let r = BatchRoot([0u8; 32]);
        proof {
            assert(r@ =~= Seq::new(32, |i: int| 0u8));
        }
        r
    }

    /// Wraps explicit bytes.
    pub fn from_bytes(bytes: [u8; 32]) -> (r: BatchRoot)
        ensures
            r@ == bytes@,
    {
        BatchRoot(bytes)
    }

    /// The underlying bytes.
    pub fn as_bytes(&self) -> (b: &[u8; 32])
        ensures
            b@ == self@,
    {
        &self.0
    }

    /// `true` iff all bytes are zero.
    pub fn is_genesis(&self) -> (b: bool)
        ensures
            b == (self@ == Seq::new(32, |i: int| 0u8)),
    {
        let mut i: usize = 0;
        while i < 32
            invariant
                i <= 32,
                self.0@.len() == 32,
                forall|j: int| 0 <= j < i ==> self.0@[j] == 0u8,
            decreases 32 - i,
        {
            if self.0[i] != 0 {
                proof {
                    assert(Seq::new(32, |k: int| 0u8)[i as int] == 0u8);
                }
                return false;
            }
            i = i + 1;
        }
        proof {
            assert(self@ =~= Seq::new(32, |k: int| 0u8));
        }
        true
    }

    fn derive(seq: u64, records: &Vec<BufferedRecord>) -> (r: BatchRoot)
        ensures
            r@ == batch_root_of(seq, record_ids(records@)),
    {
        let ghost ids = record_ids(records@);
        let mut out = [0u8; 32];
        let mut i: usize = 0;
        while i < 32
            invariant
                i <= 32,
                out@.len() == 32,
                ids == record_ids(records@),
                forall|j: int| 0 <= j < i ==> out@[j] == batch_root_byte(seq, ids, j),
            decreases 32 - i,
        {
            let mut h: u64 = FNV_OFFSET;
            h = (h ^ seq).wrapping_mul(FNV_PRIME);
            h = (h ^ (i as u64)).wrapping_mul(FNV_PRIME);
            h = (h ^ (records.len() as u64)).wrapping_mul(FNV_PRIME);
            let ghost h2 = h;
            let mut k: usize = 0;
            while k < records.len()
                invariant
                    k <= records@.len(),
                    ids == record_ids(records@),
                    h == fnv_records(h2, ids, k as int),
                decreases records@.len() - k,
            {
                let bytes = records[k].record_id.as_str().as_bytes();
                let ghost hk = h;
                let mut m: usize = 0;
                while m < bytes.len()
                    invariant
                        m <= bytes@.len(),
                        h == fnv_fold(hk, bytes@, m as int),
                    decreases bytes@.len() - m,
                {
                    h = (h ^ (bytes[m] as u64)).wrapping_mul(FNV_PRIME);
                    m = m + 1;
                }
                proof {
                    assert(bytes@ == vstd::utf8::encode_utf8(ids[k as int]));
                }
                k = k + 1;
            }
            out[i] = (h ^ (h >> 32)) as u8;
            i = i + 1;
        }
        let r = BatchRoot(out);
        proof {
            assert(r@ =~= batch_root_of(seq, ids));
        }
        r
    }
}

impl Default for BatchRoot {
    fn default() -> (r: Self)
        ensures
            r@ == Seq::new(32, |i: int| 0u8),
    {
        BatchRoot::genesis()
    }
}

/// The proof shipped with a batch: the number of records and the committed root.
#[derive(Debug, Clone, PartialEq, Eq)]
pub struct BatchProof {
    record_count: usize,
    committed_root: BatchRoot,
}

impl BatchProof {
    /// The number of records covered.
    pub closed spec fn spec_record_count(&self) -> usize {
        self.record_count
    }

    /// The committed root.
    pub closed spec fn spec_committed(&self) -> Seq<u8> {
        self.committed_root@
    }

    /// The number of records covered.
    pub fn record_count(&self) -> (n: usize)
        ensures
            n == self.spec_record_count(),
    {
        self.record_count
    }

    /// The committed root.
    pub fn committed_root(&self) -> (r: BatchRoot)
        ensures
            r@ == self.spec_committed(),
    {
        self.committed_root
    }
}

/// A flushed batch.
#[derive(Debug, Clone, PartialEq, Eq)]
pub struct Batch {
    /// Batch sequence number (from `1`).
    pub seq: u64,
    /// The drained records, in ingestion order.
    pub records: Vec<BufferedRecord>,
    /// The batch root.
    pub batch_root: BatchRoot,
    /// The proof committing to `batch_root`.
    pub proof: BatchProof,
    /// Flush time.
    pub submitted_at: Timestamp,
    /// Why the batch was flushed.
    pub trigger: BatchTrigger,
}

impl Batch {
    /// Number of records.
    pub fn len(&self) -> (n: usize)
        ensures
            n == self.records@.len(),
    {
        self.records.len()
    }

    /// `true` iff the batch holds no record.
    pub fn is_empty(&self) -> (b: bool)
        ensures
            b == (self.records@.len() == 0),
    {
        self.records.len() == 0
    }
}

/// The settlement layer's proof intake, as seen by the rollup.
pub trait L1ProofSink {
    /// Whether this sink's verdicts follow [`L1ProofSink::spec_verdict`]; an
    /// implementation that defines neither makes no claim.
    open spec fn obeys_sink_spec(&self) -> bool {
        false
    }

    /// The verdict the sink, in its current state, gives `proof` for `batch_root`.
    open spec fn spec_verdict(&self, batch_root: BatchRoot, proof: BatchProof) -> GmcResult<()> {
        Err(GmcError::ProofVerificationFailed)
    }

    /// Submits `proof` for `batch_root`.
    fn submit_batch_proof(&mut self, batch_root: BatchRoot, proof: &BatchProof) -> (r: GmcResult<
        (),
    >)
        ensures
            old(self).obeys_sink_spec() ==> r == old(self).spec_verdict(batch_root, *proof),
    ;
}

/// Which trigger, if any, fires for a buffer of `len` records `secs` seconds after the
/// previous flush.
pub open spec fn trigger_for(len: int, secs: int) -> Option<BatchTrigger> {
    if len == 0 {
        None
    } else if len >= BATCH_MAX_RECORDS {
        Some(BatchTrigger::RecordThreshold)
    } else if secs >= BATCH_MAX_INTERVAL_SECS {
        Some(BatchTrigger::IntervalElapsed)
    } else {
        None
    }
}

/// The text of record id number `n`.
pub open spec fn record_id_text(n: u64) -> Seq<char> {
    "rollup-rec-"@ + decimal_text(n as nat)
}

/// How many of the first `k` steps processed a contribution.
pub open spec fn count_processed(processed: Seq<bool>, k: int) -> nat
    decreases k,
{
    if k <= 0 {
        0
    } else {
        count_processed(processed, k - 1) + if processed[k - 1] {
            1nat
        } else {
            0nat
        }
    }
}

/// Record ids count every earlier processed contribution. Take a run of rollup states
/// from a fresh rollup (`L2Rollup::new` starts the counter at `0`), where step `i`
/// either processes a contribution (the counter grows by one, as `process_contribution`
/// ensures) or is any other operation (the counter is kept, as every other operation
/// ensures). Then before step `k` the counter equals the number of contributions
/// processed in the first `k` steps, so a contribution processed there is named
/// `rollup-rec-<that number>`; batch flushes never reset it.
pub proof fn lemma_record_ids_count_calls(states: Seq<L2Rollup>, processed: Seq<bool>, k: int)
    requires
        states.len() == processed.len() + 1,
        states[0].spec_next_record_seq() == 0,
        forall|i: int|
            0 <= i < processed.len() ==> states[i + 1].spec_next_record_seq() == states[i].spec_next_record_seq()
                + if #[trigger] processed[i] {
                1int
            } else {
                0int
            },
        0 <= k <= processed.len(),
    ensures
        states[k].spec_next_record_seq() == count_processed(processed, k),
        record_id_text(states[k].spec_next_record_seq()) == "rollup-rec-"@ + decimal_text(
            count_processed(processed, k),
        ),
    decreases k,
{
    if k > 0 {
        lemma_record_ids_count_calls(states, processed, k - 1);
        assert(processed[k - 1] == processed[k - 1]);
    }
}

/// Record ids are never reused: distinct sequence numbers give distinct ids, and
/// every processed contribution takes the next number.
pub proof fn lemma_record_ids_distinct(a: u64, b: u64)
    requires
        a != b,
    ensures
        record_id_text(a) != record_id_text(b),
{
    crate::types::lemma_decimal_text_injective(a as nat, b as nat);
    let p = "rollup-rec-"@;
    let x = record_id_text(a);
    let y = record_id_text(b);
    if x == y {
        assert(x.subrange(p.len() as int, x.len() as int) =~= decimal_text(a as nat));
        assert(y.subrange(p.len() as int, y.len() as int) =~= decimal_text(b as nat));
    }
}

/// The rollup state.
#[derive(Debug, Clone)]
pub struct L2Rollup {
    buffer: Vec<BufferedRecord>,
    last_batch_at: Timestamp,
    next_batch_seq: u64,
    next_record_seq: u64,
    consensus: L2Consensus,
}

impl L2Rollup {
    /// Buffered records, in ingestion order.
    pub closed spec fn spec_buffer(&self) -> Seq<BufferedRecord> {
        self.buffer@
    }

    /// Time of the previous flush (or genesis).
    pub closed spec fn spec_last_batch_at(&self) -> u64 {
        self.last_batch_at.secs
    }

    /// Sequence number of the next batch.
    pub closed spec fn spec_next_batch_seq(&self) -> u64 {
        self.next_batch_seq
    }

    /// Number of the next record id.
    pub closed spec fn spec_next_record_seq(&self) -> u64 {
        self.next_record_seq
    }

    /// The consensus.
    pub closed spec fn spec_consensus(&self) -> L2Consensus {
        self.consensus
    }

    /// An empty rollup whose interval clock starts at `genesis_time`; batches are
    /// numbered from `1` and record ids from `0`.
    pub fn new(genesis_time: Timestamp) -> (r: L2Rollup)
        ensures
            r.spec_buffer().len() == 0,
            r.spec_last_batch_at() == genesis_time.secs,
            r.spec_next_batch_seq() == 1,
            r.spec_next_record_seq() == 0,
            r.spec_consensus() == L2Consensus::Bft,
    {
        L2Rollup {
            buffer: Vec::new(),
            last_batch_at: genesis_time,
            next_batch_seq: 1,
            next_record_seq: 0,
            consensus: L2Consensus::l2(),
        }
    }

    /// The consensus.
    pub fn consensus(&self) -> (c: L2Consensus)
        ensures
            c == self.spec_consensus(),
    {
        self.consensus
    }

    /// Number of buffered records.
    pub fn buffered_len(&self) -> (n: usize)
        ensures
            n == self.spec_buffer().len(),
    {
        self.buffer.len()
    }

    /// `true` iff nothing is buffered.
    pub fn is_buffer_empty(&self) -> (b: bool)
        ensures
            b == (self.spec_buffer().len() == 0),
    {
        self.buffer.len() == 0
    }

    /// Time of the previous flush.
    pub fn last_batch_at(&self) -> (t: Timestamp)
        ensures
            t.secs == self.spec_last_batch_at(),
    {
        self.last_batch_at
    }

    /// Sequence number of the next batch.
    pub fn next_batch_seq(&self) -> (s: u64)
        ensures
            s == self.spec_next_batch_seq(),
    {
        self.next_batch_seq
    }

    /// Seconds since the previous flush (saturating at zero).
    pub fn secs_since_last_batch(&self, now: Timestamp) -> (s: u64)
        ensures
            s == elapsed(self.spec_last_batch_at(), now.secs),
    {
        now.saturating_elapsed_since(self.last_batch_at)
    }

    /// The buffered records, in ingestion order.
    pub fn buffered(&self) -> (r: std::slice::Iter<'_, BufferedRecord>)
        ensures
            vstd::std_specs::slice::into_iter_elts(r) == self.spec_buffer(),
    {
        broadcast use vstd::std_specs::slice::axiom_spec_slice_iter;

        self.buffer.iter()
    }

    /// Computes a contribution immediately: allocates the next record id, buffers the
    /// record, and returns the result (`intimacy_updated` is always `true`).
    pub fn process_contribution(&mut self, submission: ContributionSubmission, now: Timestamp) -> (r:
        ComputationResult)
        requires
            old(self).spec_next_record_seq() < u64::MAX,
        ensures
            r.record_id@ == record_id_text(old(self).spec_next_record_seq()),
            r.contributor_id == submission.contributor_id,
            r.chain_id == submission.chain_id,
            r.merit_amount == submission.merit_amount,
            r.intimacy_updated,
            r.computed_at == now,
            final(self).spec_next_record_seq() == old(self).spec_next_record_seq() + 1,
            final(self).spec_buffer().len() == old(self).spec_buffer().len() + 1,
            final(self).spec_buffer().subrange(0, old(self).spec_buffer().len() as int)
                == old(self).spec_buffer(),
            final(self).spec_buffer().last().record_id@ == r.record_id@,
            final(self).spec_buffer().last().contributor_id == submission.contributor_id,
            final(self).spec_buffer().last().chain_id == submission.chain_id,
            final(self).spec_buffer().last().merit_amount == submission.merit_amount,
            final(self).spec_buffer().last().ingested_at == now,
            final(self).spec_last_batch_at() == old(self).spec_last_batch_at(),
            final(self).spec_next_batch_seq() == old(self).spec_next_batch_seq(),
            final(self).spec_consensus() == old(self).spec_consensus(),
    {
        let record_id = self.allocate_record_id();
        let result = ComputationResult {
            record_id: record_id.clone(),
            contributor_id: submission.contributor_id.clone(),
            chain_id: submission.chain_id.clone(),
            merit_amount: submission.merit_amount,
            intimacy_updated: true,
            computed_at: now,
        };
        self.record_contribution(
            BufferedRecord::new(
                record_id,
                submission.contributor_id,
                submission.chain_id,
                submission.merit_amount,
                now,
            ),
        );
        result
    }

    /// Appends a computed record to the buffer.
    pub fn record_contribution(&mut self, record: BufferedRecord)
        ensures
            final(self).spec_buffer() == old(self).spec_buffer().push(record),
            final(self).spec_last_batch_at() == old(self).spec_last_batch_at(),
            final(self).spec_next_batch_seq() == old(self).spec_next_batch_seq(),
            final(self).spec_next_record_seq() == old(self).spec_next_record_seq(),
            final(self).spec_consensus() == old(self).spec_consensus(),
    {
        self.buffer.push(record);
    }

    /// Which trigger fires at `now`, if any (see [`trigger_for`]).
    pub fn batch_trigger(&self, now: Timestamp) -> (r: Option<BatchTrigger>)
        ensures
            r == trigger_for(
                self.spec_buffer().len() as int,
                elapsed(self.spec_last_batch_at(), now.secs),
            ),
    {
        if self.buffer.len() == 0 {
            return None;
        }
        if self.buffer.len() >= BATCH_MAX_RECORDS {
            Some(BatchTrigger::RecordThreshold)
        } else if self.secs_since_last_batch(now) >= BATCH_MAX_INTERVAL_SECS {
            Some(BatchTrigger::IntervalElapsed)
        } else {
            None
        }
    }

    /// `true` iff a trigger fires at `now`.
    pub fn should_submit_batch(&self, now: Timestamp) -> (b: bool)
        ensures
            b == trigger_for(
                self.spec_buffer().len() as int,
                elapsed(self.spec_last_batch_at(), now.secs),
            ) is Some,
    {
        self.batch_trigger(now).is_some()
    }

    /// Flushes when a trigger fires: drains the whole buffer into a batch numbered
    /// with the next sequence number, with root [`batch_root_of`] and a proof
    /// committing to it; the interval clock restarts at `now`. Otherwise `None` and
    /// nothing changes.
    pub fn try_submit_batch(&mut self, now: Timestamp) -> (r: Option<Batch>)
        requires
            old(self).spec_next_batch_seq() < u64::MAX,
        ensures
            ({
                let t = trigger_for(
                    old(self).spec_buffer().len() as int,
                    elapsed(old(self).spec_last_batch_at(), now.secs),
                );
                &&& t is None ==> r is None && *final(self) == *old(self)
                &&& t matches Some(trig) ==> {
                    &&& r matches Some(b) && b.seq == old(self).spec_next_batch_seq()
                        && b.records@ == old(self).spec_buffer() && b.batch_root@
                        == batch_root_of(b.seq, record_ids(b.records@))
                        && b.proof.spec_record_count() == b.records@.len()
                        && b.proof.spec_committed() == b.batch_root@ && b.submitted_at == now
                        && b.trigger == trig
                    &&& final(self).spec_buffer().len() == 0
                    &&& final(self).spec_last_batch_at() == now.secs
                    &&& final(self).spec_next_batch_seq() == old(self).spec_next_batch_seq() + 1
                    &&& final(self).spec_next_record_seq() == old(self).spec_next_record_seq()
                    &&& final(self).spec_consensus() == old(self).spec_consensus()
                }
            }),
    {
        let trigger = match self.batch_trigger(now) {
            Some(t) => t,
            None => {
                return None;
            },
        };
        let seq = self.next_batch_seq;
        let batch_root = BatchRoot::derive(seq, &self.buffer);
        let mut records: Vec<BufferedRecord> = Vec::new();
        std::mem::swap(&mut records, &mut self.buffer);
        let proof = BatchProof { record_count: records.len(), committed_root: batch_root };
        self.last_batch_at = now;
        self.next_batch_seq = self.next_batch_seq + 1;
        Some(Batch { seq, records, batch_root, proof, submitted_at: now, trigger })
    }

    /// Hands `batch`'s root and proof to `sink`, returning its verdict.
    pub fn submit_batch_proof_to<S: L1ProofSink>(batch: &Batch, sink: &mut S) -> (r: GmcResult<()>)
        ensures
            old(sink).obeys_sink_spec() ==> r == old(sink).spec_verdict(batch.batch_root, batch.proof),
    {
        sink.submit_batch_proof(batch.batch_root, &batch.proof)
    }

    fn allocate_record_id(&mut self) -> (r: RollupRecordId)
        requires
            old(self).spec_next_record_seq() < u64::MAX,
        ensures
            r@ == record_id_text(old(self).spec_next_record_seq()),
            final(self).spec_next_record_seq() == old(self).spec_next_record_seq() + 1,
            final(self).spec_buffer() == old(self).spec_buffer(),
            final(self).spec_last_batch_at() == old(self).spec_last_batch_at(),
            final(self).spec_next_batch_seq() == old(self).spec_next_batch_seq(),
            final(self).spec_consensus() == old(self).spec_consensus(),
    {
        proof {
            reveal_strlit("rollup-rec-");
        }
        let id = RollupRecordId::from_string(text_with_number("rollup-rec-", self.next_record_seq));
        self.next_record_seq = self.next_record_seq + 1;
        id
    }
}

/// `⌈rate / 1000⌉`, at least `1`.
pub open spec fn instances_needed(rate: u64) -> int {
    let c = (rate as int + PER_INSTANCE_THROUGHPUT_RECORDS_PER_SEC - 1)
        / PER_INSTANCE_THROUGHPUT_RECORDS_PER_SEC as int;
    if c < 1 {
        1
    } else {
        c
    }
}

/// The number of instances needed to carry `submission_rate_per_sec`:
/// `max(1, ⌈rate / 1000⌉)`.
pub fn required_instances(submission_rate_per_sec: u64) -> (n: usize)
    ensures
        n == instances_needed(submission_rate_per_sec) as usize,
{
    let q = submission_rate_per_sec / PER_INSTANCE_THROUGHPUT_RECORDS_PER_SEC;
    let ceil = if submission_rate_per_sec % PER_INSTANCE_THROUGHPUT_RECORDS_PER_SEC != 0 {
        q + 1
    } else {
        q
    };
    assert(ceil == (submission_rate_per_sec as int + PER_INSTANCE_THROUGHPUT_RECORDS_PER_SEC - 1)
        / PER_INSTANCE_THROUGHPUT_RECORDS_PER_SEC as int);
    let c = if ceil < 1 {
        1
    } else {
        ceil
    };
    c as usize
}

/// The needed instances always carry the rate, and one fewer would not (unless one is
/// already the minimum).
pub proof fn lemma_required_instances_cover_rate(rate: u64)
    ensures
        instances_needed(rate) >= 1,
        instances_needed(rate) * PER_INSTANCE_THROUGHPUT_RECORDS_PER_SEC >= rate,
        instances_needed(rate) > 1 ==> (instances_needed(rate) - 1)
            * PER_INSTANCE_THROUGHPUT_RECORDS_PER_SEC < rate,
{
}

/// The controller's answer to one rate observation.
#[derive(Debug, Clone, Copy, PartialEq, Eq, Structural)]
pub struct ScaleDecision {
    /// Instances after the observation.
    pub instance_count: usize,
    /// Whether this observation scaled out.
    pub scaled_out: bool,
}

/// Horizontal scale-out of rollup instances.
#[derive(Debug, Clone)]
pub struct ShardController {
    instance_count: usize,
    overload_since: Option<Timestamp>,
}

impl ShardController {
    /// Running instances.
    pub closed spec fn spec_instances(&self) -> usize {
        self.instance_count
    }

    /// Start of the current overload window, if overloaded.
    pub closed spec fn spec_overload_since(&self) -> Option<Timestamp> {
        self.overload_since
    }

    /// One instance, not overloaded.
    pub fn new() -> (c: ShardController)
        ensures
            c.spec_instances() == 1,
            c.spec_overload_since() is None,
    {
        ShardController { instance_count: 1, overload_since: None }
    }

    /// `max(1, instance_count)` instances, not overloaded.
    pub fn with_instances(instance_count: usize) -> (c: ShardController)
        ensures
            c.spec_instances() == if instance_count < 1 {
                1
            } else {
                instance_count
            },
            c.spec_overload_since() is None,
    {
        ShardController {
            instance_count: if instance_count < 1 {
                1
            } else {
                instance_count
            },
            overload_since: None,
        }
    }

    /// Running instances.
    pub fn instance_count(&self) -> (n: usize)
        ensures
            n == self.spec_instances(),
    {
        self.instance_count
    }

    /// `instances × 1000` records per second.
    pub fn rated_throughput_per_sec(&self) -> (t: u64)
        requires
            self.spec_instances() * PER_INSTANCE_THROUGHPUT_RECORDS_PER_SEC <= u64::MAX,
        ensures
            t == self.spec_instances() * PER_INSTANCE_THROUGHPUT_RECORDS_PER_SEC,
    {
        (self.instance_count as u64) * PER_INSTANCE_THROUGHPUT_RECORDS_PER_SEC
    }

    /// `true` while an overload window is open.
    pub fn is_overloaded(&self) -> (b: bool)
        ensures
            b == (self.spec_overload_since() is Some),
    {
        self.overload_since.is_some()
    }

    /// Start of the current overload window.
    pub fn overload_since(&self) -> (t: Option<Timestamp>)
        ensures
            t == self.spec_overload_since(),
    {
        self.overload_since
    }

    /// Observes the submission rate at `now`. Within capacity: the overload window
    /// closes and nothing scales. Above capacity: the window opens at `now` if closed;
    /// once it has lasted more than 60 s, the instances grow to
    /// `max(current, required_instances(rate))` and the window re-anchors at `now`.
    /// Instances never shrink.
    pub fn observe_rate(&mut self, rate_per_sec: u64, now: Timestamp) -> (d: ScaleDecision)
        requires
            old(self).spec_instances() * PER_INSTANCE_THROUGHPUT_RECORDS_PER_SEC <= u64::MAX,
        ensures
            instances_needed(rate_per_sec) * PER_INSTANCE_THROUGHPUT_RECORDS_PER_SEC <= u64::MAX
                ==> final(self).spec_instances() * PER_INSTANCE_THROUGHPUT_RECORDS_PER_SEC
                <= u64::MAX,
            final(self).spec_instances() >= old(self).spec_instances(),
            d.instance_count == final(self).spec_instances(),
            d.scaled_out == (final(self).spec_instances() > old(self).spec_instances()),
            rate_per_sec <= old(self).spec_instances() * PER_INSTANCE_THROUGHPUT_RECORDS_PER_SEC
                ==> final(self).spec_overload_since() is None && final(self).spec_instances()
                == old(self).spec_instances(),
            rate_per_sec > old(self).spec_instances() * PER_INSTANCE_THROUGHPUT_RECORDS_PER_SEC
                ==> {
                let since = match old(self).spec_overload_since() {
                    Some(t) => t,
                    None => now,
                };
                if elapsed(since.secs, now.secs) <= SUSTAINED_OVERLOAD_SECS {
                    final(self).spec_overload_since() == Some(since)
                        && final(self).spec_instances() == old(self).spec_instances()
                } else {
                    &&& final(self).spec_overload_since() == Some(now)
                    &&& final(self).spec_instances() == if instances_needed(rate_per_sec) as usize
                        > old(self).spec_instances() {
                        instances_needed(rate_per_sec) as usize
                    } else {
                        old(self).spec_instances()
                    }
                }
            },
    {
        if rate_per_sec <= self.rated_throughput_per_sec() {
            self.overload_since = None;
            return ScaleDecision { instance_count: self.instance_count, scaled_out: false };
        }
        let since = match self.overload_since {
            Some(t) => t,
            None => {
                self.overload_since = Some(now);
                now
            },
        };
        let sustained_secs = now.saturating_elapsed_since(since);
        if sustained_secs <= SUSTAINED_OVERLOAD_SECS {
            return ScaleDecision { instance_count: self.instance_count, scaled_out: false };
        }
        let needed = required_instances(rate_per_sec);
        proof {
            lemma_required_instances_cover_rate(rate_per_sec);
        }
        let scaled_out = needed > self.instance_count;
        if scaled_out {
            self.instance_count = needed;
        }
        self.overload_since = Some(now);
        ScaleDecision { instance_count: self.instance_count, scaled_out }
    }
}

impl Default for ShardController {
    fn default() -> (c: Self)
        ensures
            c.spec_instances() == 1,
            c.spec_overload_since() is None,
    {
        ShardController::new()
    }
}

/// An aggregate tally: approving weight out of total weight.
#[derive(Debug, Clone, Copy, PartialEq, Eq, Structural)]
pub struct VoteTally {
    approve_weight: Decimal,
    total_weight: Decimal,
}

/// The approval ratio (raw) of an aggregate: `approve / total`, `0` when the division
/// fails, `1` when it leaves `[0, 1]`.
pub open spec fn tally_ratio(approve: int, total: int) -> int {
    let raw = match spec_div(approve, total) {
        Some(q) => q,
        None => 0,
    };
    if Ratio::in_range(raw) {
        raw
    } else {
        1_000_000
    }
}

impl VoteTally {
    /// Approving weight (raw).
    pub closed spec fn spec_approve(&self) -> int {
        self.approve_weight@
    }

    /// Total weight (raw).
    pub closed spec fn spec_total(&self) -> int {
        self.total_weight@
    }

    /// Accepts `0 <= approve <= total` with `total > 0`.
    pub fn new(approve_weight: Decimal, total_weight: Decimal) -> (r: Option<VoteTally>)
        ensures
            r is Some <==> (total_weight@ > 0 && 0 <= approve_weight@ <= total_weight@),
            r matches Some(t) ==> t.spec_approve() == approve_weight@ && t.spec_total()
                == total_weight@,
    {
        if !total_weight.is_positive() {
            return None;
        }
        if approve_weight.is_negative() || total_weight.less_than(&approve_weight) {
            return None;
        }
        Some(VoteTally { approve_weight, total_weight })
    }

    /// Approving weight.
    pub fn approve_weight(&self) -> (d: Decimal)
        ensures
            d@ == self.spec_approve(),
    {
        self.approve_weight
    }

    /// Total weight.
    pub fn total_weight(&self) -> (d: Decimal)
        ensures
            d@ == self.spec_total(),
    {
        self.total_weight
    }

    /// `approve / total` as a ratio (see [`tally_ratio`]).
    pub fn approval_ratio(&self) -> (r: Ratio)
        ensures
            r@ == tally_ratio(self.spec_approve(), self.spec_total()),
    {
        let raw = match self.approve_weight.checked_div(self.total_weight) {
            Some(q) => q,
            None => Decimal::zero(),
        };
        match Ratio::new(raw) {
            Some(r) => r,
            None => Ratio::one(),
        }
    }
}

/// A vote result exposing only the aggregate outcome, never voter identities.
#[derive(Debug, Clone, Copy, PartialEq, Eq)]
pub struct PublicVoteResult {
    passed: bool,
    approval_ratio: Ratio,
}

impl PublicVoteResult {
    /// Whether it passed.
    pub closed spec fn spec_passed(&self) -> bool {
        self.passed
    }

    /// The approval ratio (raw).
    pub closed spec fn spec_ratio(&self) -> int {
        self.approval_ratio@
    }

    /// The result of `tally` against `threshold`: passes iff the approval ratio is at
    /// least the threshold.
    pub fn from_tally(tally: &VoteTally, threshold: Ratio) -> (r: PublicVoteResult)
        ensures
            r.spec_ratio() == tally_ratio(tally.spec_approve(), tally.spec_total()),
            r.spec_passed() == (r.spec_ratio() >= threshold@),
    {
        let approval_ratio = tally.approval_ratio();
        PublicVoteResult {
            passed: threshold.value().at_most(&approval_ratio.value()),
            approval_ratio,
        }
    }

    /// A result built from an already-aggregated outcome.
    pub fn new(passed: bool, approval_ratio: Ratio) -> (r: PublicVoteResult)
        ensures
            r.spec_passed() == passed,
            r.spec_ratio() == approval_ratio@,
    {
        PublicVoteResult { passed, approval_ratio }
    }

    /// Whether it passed.
    pub fn passed(&self) -> (b: bool)
        ensures
            b == self.spec_passed(),
    {
        self.passed
    }

    /// The approval ratio.
    pub fn approval_ratio(&self) -> (r: Ratio)
        ensures
            r@ == self.spec_ratio(),
    {
        self.approval_ratio
    }
}

} // verus!

//! `L1_Settlement`: the in-memory model of the settlement layer.
//!
//! It keeps the confirmed state root and a settlement version, the stored records
//! (chain registrations, identity registrations and vote results, each keyed by its
//! id, plus an append-only penalty list) and an append-only anchor log. Every settled
//! change bumps the version by one and appends one log entry; record anchoring moves
//! the root by a deterministic byte-mixing step, and explicit roots are set verbatim.
//! A submitted batch proof moves the root only when it verifies; a rejected proof
//! leaves root and version untouched and is logged for audit.
use vstd::prelude::*;
use vstd::string::StringSliceAdditionalSpecFns;

use crate::error::{GmcError, GmcResult};
use crate::registry::OriginType;
use crate::types::{str_eq, ChainId, Decimal, FayID, Timestamp};

verus! {

/// The settlement layer's consensus pairing.
#[derive(Debug, Clone, Copy, PartialEq, Eq, PartialOrd, Ord, Hash, Default, Structural)]
pub enum ConsensusConfig {
    /// BABE block production with GRANDPA finality.
    #[default]
    GrandpaBabe,
}

impl ConsensusConfig {
    /// The configured consensus.
    pub fn l1() -> (c: ConsensusConfig)
        ensures
            c == ConsensusConfig::GrandpaBabe,
    {
        ConsensusConfig::GrandpaBabe
    }

    /// Human-readable label of the pairing.
    pub fn label(self) -> (s: &'static str)
        ensures
            s@ == "GRANDPA/BABE"@,
    {
        match self {
            ConsensusConfig::GrandpaBabe => "GRANDPA/BABE",
        }
    }

    /// `true` when GRANDPA finality is in use.
    pub fn uses_grandpa(self) -> (b: bool)
        ensures
            b == (self is GrandpaBabe),
    {
        match self {
            ConsensusConfig::GrandpaBabe => true,
        }
    }

    /// `true` when BABE block production is in use.
    pub fn uses_babe(self) -> (b: bool)
        ensures
            b == (self is GrandpaBabe),
    {
        match self {
            ConsensusConfig::GrandpaBabe => true,
        }
    }
}

/// A 32-byte model of the settlement state root.
#[derive(Debug, Clone, Copy, PartialOrd, Ord, Hash)]
pub struct StateRoot(pub [u8; 32]);

impl View for StateRoot {
    type V = Seq<u8>;

    open spec fn view(&self) -> Seq<u8> {
        self.0@
    }
}

impl PartialEq for StateRoot {
    fn eq(&self, other: &Self) -> (b: bool) {
        let mut i: usize = 0;
        while i < 32
            invariant
                i <= 32,
                self.0@.len() == 32,
                other.0@.len() == 32,
                forall|j: int| 0 <= j < i ==> self.0@[j] == other.0@[j],
            decreases 32 - i,
        {
            if self.0[i] != other.0[i] {
                return false;
            }
            i = i + 1;
        }
        proof {
            assert(self.0@ =~= other.0@);
        }
        true
    }
}

impl vstd::std_specs::cmp::PartialEqSpecImpl for StateRoot {
    open spec fn obeys_eq_spec() -> bool {
        true
    }

    open spec fn eq_spec(&self, other: &StateRoot) -> bool {
        self@ == other@
    }
}

impl Eq for StateRoot {}

/// FNV-1a offset basis.
pub const FNV_OFFSET: u64 = 0xcbf2_9ce4_8422_2325;

/// FNV-1a prime.
pub const FNV_PRIME: u64 = 0x0000_0100_0000_01b3;

/// FNV-mixes the first `n` bytes of `tag` into `h`.
pub open spec fn fnv_fold(h: u64, tag: Seq<u8>, n: int) -> u64
    decreases n,
{
    if n <= 0 {
        h
    } else {
        (fnv_fold(h, tag, n - 1) ^ (tag[n - 1] as u64)).wrapping_mul(FNV_PRIME)
    }
}

/// Byte `i` of the root advanced from `root` at `version` with event `tag`.
pub open spec fn advanced_byte(root: Seq<u8>, version: u64, tag: Seq<u8>, i: int) -> u8 {
    let h0 = (FNV_OFFSET ^ (root[i] as u64)).wrapping_mul(FNV_PRIME);
    let h1 = (h0 ^ version).wrapping_mul(FNV_PRIME);
    let h2 = (h1 ^ (i as u64)).wrapping_mul(FNV_PRIME);
    let h = fnv_fold(h2, tag, tag.len() as int);
    (h ^ (h >> 32u64)) as u8
}

/// The root advanced from `root` at `version` with event `tag`.
pub open spec fn advanced_root(root: Seq<u8>, version: u64, tag: Seq<u8>) -> Seq<u8> {
    Seq::new(32, |i: int| advanced_byte(root, version, tag, i))
}

impl StateRoot {
    /// The genesis root: all zero bytes.
    pub fn genesis() -> (r: StateRoot)
        ensures
            r@ == Seq::new(32, |i: int| 0u8),
    {
        let r = StateRoot([0u8; 32]);
        proof {
            assert(r@ =~= Seq::new(32, |i: int| 0u8));
        }
        r
    }

    /// Wraps explicit bytes.
    pub fn from_bytes(bytes: [u8; 32]) -> (r: StateRoot)
        ensures
            r@ == bytes@,
    {
        StateRoot(bytes)
    }

    /// The underlying bytes.
    pub fn as_bytes(&self) -> (b: &[u8; 32])
        ensures
            b@ == self@,
    {
        &self.0
    }

    /// Deterministically derives the next root from this one, the new `version` and
    /// the event `tag` (a non-cryptographic FNV-style mix per byte).
    fn advanced(self, version: u64, tag: &str) -> (r: StateRoot)
        ensures
            r@ == advanced_root(self@, version, tag.spec_bytes()),
    {
        let bytes = tag.as_bytes();
        let mut out = [0u8; 32];
        let mut i: usize = 0;
        while i < 32
            invariant
                i <= 32,
                out@.len() == 32,
                self.0@.len() == 32,
                bytes@ == tag.spec_bytes(),
                forall|j: int| 0 <= j < i ==> out@[j] == advanced_byte(self@, version, bytes@, j),
            decreases 32 - i,
        {
            let mut h: u64 = FNV_OFFSET;
            h = (h ^ (self.0[i] as u64)).wrapping_mul(FNV_PRIME);
            h = (h ^ version).wrapping_mul(FNV_PRIME);
            h = (h ^ (i as u64)).wrapping_mul(FNV_PRIME);
            let ghost h2 = h;
            let mut k: usize = 0;
            while k < bytes.len()
                invariant
                    k <= bytes@.len(),
                    h == fnv_fold(h2, bytes@, k as int),
                decreases bytes@.len() - k,
            {
                h = (h ^ (bytes[k] as u64)).wrapping_mul(FNV_PRIME);
                k = k + 1;
            }
            out[i] = (h ^ (h >> 32)) as u8;
            i = i + 1;
        }
        let r = StateRoot(out);
        proof {
            assert(r@ =~= advanced_root(self@, version, tag.spec_bytes()));
        }
        r
    }
}

impl Default for StateRoot {
    fn default() -> (r: Self)
        ensures
            r@ == Seq::new(32, |i: int| 0u8),
    {
        StateRoot::genesis()
    }
}

/// A model of an L2 batch's validity proof.
#[derive(Debug, Clone, Copy, PartialEq, Eq, Hash)]
pub struct BatchProof {
    committed_root: StateRoot,
    valid: bool,
}

impl BatchProof {
    /// The root the proof commits to.
    pub closed spec fn spec_committed(&self) -> Seq<u8> {
        self.committed_root@
    }

    /// Whether the proof is (modelled as) valid.
    pub closed spec fn spec_valid(&self) -> bool {
        self.valid
    }

    /// `true` iff the proof is valid and commits to exactly `root`.
    pub open spec fn spec_verifies(&self, root: Seq<u8>) -> bool {
        self.spec_valid() && self.spec_committed() == root
    }

    /// A valid proof committing to `batch_root`.
    pub fn valid_for(batch_root: StateRoot) -> (p: BatchProof)
        ensures
            p.spec_valid(),
            p.spec_committed() == batch_root@,
    {
        BatchProof { committed_root: batch_root, valid: true }
    }

    /// An invalid proof committing to `batch_root`.
    pub fn invalid_for(batch_root: StateRoot) -> (p: BatchProof)
        ensures
            !p.spec_valid(),
            p.spec_committed() == batch_root@,
    {
        BatchProof { committed_root: batch_root, valid: false }
    }

    /// An invalid proof committing to the genesis root.
    pub fn invalid() -> (p: BatchProof)
        ensures
            !p.spec_valid(),
            p.spec_committed() == Seq::new(32, |i: int| 0u8),
    {
        BatchProof { committed_root: StateRoot::genesis(), valid: false }
    }

    /// The committed root.
    pub fn committed_root(&self) -> (r: StateRoot)
        ensures
            r@ == self.spec_committed(),
    {
        self.committed_root
    }

    /// Whether the proof is valid.
    pub fn is_valid(&self) -> (b: bool)
        ensures
            b == self.spec_valid(),
    {
        self.valid
    }

    /// `true` iff the proof is valid and commits to exactly `batch_root`.
    pub fn verifies(&self, batch_root: StateRoot) -> (b: bool)
        ensures
            b == self.spec_verifies(batch_root@),
    {
        self.valid && self.committed_root == batch_root
    }
}

/// A chain registration as stored on L1.
#[derive(Debug, Clone, PartialEq, Eq)]
pub struct ChainRegistrationRecord {
    /// The created chain.
    pub chain_id: ChainId,
    /// Its parent (`None` only for the root).
    pub parent_id: Option<ChainId>,
    /// The chain's domain.
    pub domain: String,
    /// A representative steward.
    pub steward: FayID,
    /// How the chain was created.
    pub origin: OriginType,
    /// Creation time.
    pub created_at: Timestamp,
}

impl ChainRegistrationRecord {
    /// Builds a record.
    pub fn new(
        chain_id: ChainId,
        parent_id: Option<ChainId>,
        domain: &str,
        steward: FayID,
        origin: OriginType,
        created_at: Timestamp,
    ) -> (r: ChainRegistrationRecord)
        ensures
            r.chain_id == chain_id,
            r.parent_id == parent_id,
            r.domain@ == domain@,
            r.steward == steward,
            r.origin == origin,
            r.created_at == created_at,
    {
        ChainRegistrationRecord {
            chain_id,
            parent_id,
            domain: domain.to_owned(),
            steward,
            origin,
            created_at,
        }
    }
}

/// An identity registration as stored on L1.
#[derive(Debug, Clone, PartialEq, Eq)]
pub struct IdentityRegistrationRecord {
    /// The registered identity.
    pub fay_id: FayID,
    /// Registration time.
    pub registered_at: Timestamp,
}

impl IdentityRegistrationRecord {
    /// Builds a record.
    pub fn new(fay_id: FayID, registered_at: Timestamp) -> (r: IdentityRegistrationRecord)
        ensures
            r.fay_id == fay_id,
            r.registered_at == registered_at,
    {
        IdentityRegistrationRecord { fay_id, registered_at }
    }
}

/// A governance vote result as stored on L1.
#[derive(Debug, Clone, PartialEq, Eq)]
pub struct VoteResultRecord {
    /// Opaque vote identifier.
    pub vote_id: String,
    /// What the vote decided.
    pub subject: String,
    /// Whether it passed.
    pub passed: bool,
    /// When the result was anchored.
    pub anchored_at: Timestamp,
}

impl VoteResultRecord {
    /// Builds a record.
    pub fn new(vote_id: &str, subject: &str, passed: bool, anchored_at: Timestamp) -> (r:
        VoteResultRecord)
        ensures
            r.vote_id@ == vote_id@,
            r.subject@ == subject@,
            r.passed == passed,
            r.anchored_at == anchored_at,
    {
        VoteResultRecord {
            vote_id: vote_id.to_owned(),
            subject: subject.to_owned(),
            passed,
            anchored_at,
        }
    }
}

/// A penalty as stored on L1 (append-only).
#[derive(Debug, Clone, PartialEq, Eq)]
pub struct PenaltyRecord {
    /// The penalised identity.
    pub subject: FayID,
    /// Why.
    pub reason: String,
    /// When it was recorded.
    pub recorded_at: Timestamp,
}

impl PenaltyRecord {
    /// Builds a record.
    pub fn new(subject: FayID, reason: &str, recorded_at: Timestamp) -> (r: PenaltyRecord)
        ensures
            r.subject == subject,
            r.reason@ == reason@,
            r.recorded_at == recorded_at,
    {
        PenaltyRecord { subject, reason: reason.to_owned(), recorded_at }
    }
}

/// The kind of a settled event in the anchor log.
#[derive(Debug, Clone, Copy, PartialEq, Eq, PartialOrd, Ord, Hash, Structural)]
pub enum AnchorKind {
    /// A chain creation record.
    ChainCreation,
    /// An evaluation-mechanism change.
    MechanismChange,
    /// An inflation-index change.
    InflationIndexChange,
    /// A retroactive review outcome (or any stored vote result).
    RetroactiveOutcome,
    /// An identity registration.
    IdentityRegistration,
    /// A penalty.
    Penalty,
    /// The registry's derivation state root.
    DerivationStateRoot,
    /// An explicit state root update.
    StateRootUpdate,
    /// A rejected batch proof (advances nothing).
    BatchProofRejected,
}

/// The stable tag of each anchor kind.
pub open spec fn anchor_tag(kind: AnchorKind) -> &'static str {
    match kind {
        AnchorKind::ChainCreation => "chain-creation",
        AnchorKind::MechanismChange => "mechanism-change",
        AnchorKind::InflationIndexChange => "inflation-index-change",
        AnchorKind::RetroactiveOutcome => "retroactive-outcome",
        AnchorKind::IdentityRegistration => "identity-registration",
        AnchorKind::Penalty => "penalty",
        AnchorKind::DerivationStateRoot => "derivation-state-root",
        AnchorKind::StateRootUpdate => "state-root-update",
        AnchorKind::BatchProofRejected => "batch-proof-rejected",
    }
}

impl AnchorKind {
    /// The kind's stable tag, mixed into the advanced root.
    pub fn tag(self) -> (s: &'static str)
        ensures
            s == anchor_tag(self),
    {
        match self {
            AnchorKind::ChainCreation => "chain-creation",
            AnchorKind::MechanismChange => "mechanism-change",
            AnchorKind::InflationIndexChange => "inflation-index-change",
            AnchorKind::RetroactiveOutcome => "retroactive-outcome",
            AnchorKind::IdentityRegistration => "identity-registration",
            AnchorKind::Penalty => "penalty",
            AnchorKind::DerivationStateRoot => "derivation-state-root",
            AnchorKind::StateRootUpdate => "state-root-update",
            AnchorKind::BatchProofRejected => "batch-proof-rejected",
        }
    }
}

/// One anchor-log row.
#[derive(Debug, Clone, PartialEq, Eq)]
pub struct AnchorEntry {
    /// What was anchored.
    pub kind: AnchorKind,
    /// The chain concerned, if any.
    pub chain_id: Option<ChainId>,
    /// The settlement version after the event.
    pub version: u64,
    /// The root after the event.
    pub resulting_root: StateRoot,
}

/// The position of the record whose key is `k`, if any.
pub open spec fn index_by<T>(s: Seq<T>, key: spec_fn(T) -> Seq<char>, k: Seq<char>) -> Option<int> {
    if exists|i: int| 0 <= i < s.len() && key(s[i]) == k {
        Some(choose|i: int| 0 <= i < s.len() && key(s[i]) == k)
    } else {
        None
    }
}

/// No two records share a key.
pub open spec fn unique_by<T>(s: Seq<T>, key: spec_fn(T) -> Seq<char>) -> bool {
    forall|i: int, j: int| 0 <= i < s.len() && 0 <= j < s.len() && i != j ==> key(s[i]) != key(s[j])
}

/// `s` with `r` stored under its key, replacing any record with the same key.
pub open spec fn upserted<T>(s: Seq<T>, key: spec_fn(T) -> Seq<char>, r: T) -> Seq<T> {
    match index_by(s, key, key(r)) {
        Some(i) => s.update(i, r),
        None => s.push(r),
    }
}

/// The record stored under `k`, if any.
pub open spec fn lookup_by<T>(s: Seq<T>, key: spec_fn(T) -> Seq<char>, k: Seq<char>) -> Option<T> {
    match index_by(s, key, k) {
        Some(i) => Some(s[i]),
        None => None,
    }
}

proof fn lemma_index_by<T>(s: Seq<T>, key: spec_fn(T) -> Seq<char>, i: int)
    requires
        unique_by(s, key),
        0 <= i < s.len(),
    ensures
        index_by(s, key, key(s[i])) == Some(i),
{
    assert(exists|k: int| 0 <= k < s.len() && key(s[k]) == key(s[i]));
}

/// Storing a record keyed by `key` keeps keys unique; reading back its key gives the
/// stored record, and every other key reads as before.
pub proof fn lemma_upserted_unique<T>(s: Seq<T>, key: spec_fn(T) -> Seq<char>, r: T)
    requires
        unique_by(s, key),
    ensures
        unique_by(upserted(s, key, r), key),
        lookup_by(upserted(s, key, r), key, key(r)) == Some(r),
        forall|k: Seq<char>|
            k != key(r) ==> lookup_by(upserted(s, key, r), key, k) == lookup_by(s, key, k),
{
    let n = upserted(s, key, r);
    match index_by(s, key, key(r)) {
        Some(i) => {
            assert forall|a: int, b: int|
                0 <= a < n.len() && 0 <= b < n.len() && a != b implies key(n[a]) != key(n[b]) by {
                if a != i && b != i {
                    assert(n[a] == s[a] && n[b] == s[b]);
                } else if a == i {
                    assert(n[b] == s[b]);
                } else {
                    assert(n[a] == s[a]);
                }
            }
        },
        None => {
            assert forall|a: int, b: int|
                0 <= a < n.len() && 0 <= b < n.len() && a != b implies key(n[a]) != key(n[b]) by {
                if a < s.len() && b < s.len() {
                    assert(n[a] == s[a] && n[b] == s[b]);
                } else if a < s.len() {
                    assert(n[a] == s[a]);
                } else {
                    assert(n[b] == s[b]);
                }
            }
        },
    }
    let j = match index_by(s, key, key(r)) {
        Some(i) => i,
        None => s.len() as int,
    };
    lemma_index_by(n, key, j);
    assert forall|k: Seq<char>| k != key(r) implies lookup_by(n, key, k) == lookup_by(s, key, k) by {
        if exists|m: int| 0 <= m < n.len() && key(n[m]) == k {
            let m = choose|m: int| 0 <= m < n.len() && key(n[m]) == k;
            assert(m != j);
            assert(n[m] == s[m]);
            lemma_index_by(n, key, m);
            lemma_index_by(s, key, m);
        } else {
            assert forall|m: int| 0 <= m < s.len() implies key(s[m]) != k by {
                if m != j {
                    assert(n[m] == s[m]);
                }
            }
        }
    }
}

/// Key of a chain registration: its chain id.
pub open spec fn chain_key() -> spec_fn(ChainRegistrationRecord) -> Seq<char> {
    |r: ChainRegistrationRecord| r.chain_id@
}

/// Key of an identity registration: its identity.
pub open spec fn identity_key() -> spec_fn(IdentityRegistrationRecord) -> Seq<char> {
    |r: IdentityRegistrationRecord| r.fay_id@
}

/// Key of a vote result: its vote id.
pub open spec fn vote_key() -> spec_fn(VoteResultRecord) -> Seq<char> {
    |r: VoteResultRecord| r.vote_id@
}

fn find_chain(regs: &Vec<ChainRegistrationRecord>, id: &ChainId) -> (r: Option<usize>)
    ensures
        r matches Some(i) ==> i < regs@.len() && regs@[i as int].chain_id@ == id@,
        r is None ==> forall|j: int| 0 <= j < regs@.len() ==> regs@[j].chain_id@ != id@,
{
    let mut i: usize = 0;
    while i < regs.len()
        invariant
            i <= regs@.len(),
            forall|j: int| 0 <= j < i ==> regs@[j].chain_id@ != id@,
        decreases regs@.len() - i,
    {
        if regs[i].chain_id == *id {
            return Some(i);
        }
        i = i + 1;
    }
    None
}

fn find_identity(regs: &Vec<IdentityRegistrationRecord>, id: &FayID) -> (r: Option<usize>)
    ensures
        r matches Some(i) ==> i < regs@.len() && regs@[i as int].fay_id@ == id@,
        r is None ==> forall|j: int| 0 <= j < regs@.len() ==> regs@[j].fay_id@ != id@,
{
    let mut i: usize = 0;
    while i < regs.len()
        invariant
            i <= regs@.len(),
            forall|j: int| 0 <= j < i ==> regs@[j].fay_id@ != id@,
        decreases regs@.len() - i,
    {
        if regs[i].fay_id == *id {
            return Some(i);
        }
        i = i + 1;
    }
    None
}

fn find_vote(results: &Vec<VoteResultRecord>, id: &str) -> (r: Option<usize>)
    ensures
        r matches Some(i) ==> i < results@.len() && results@[i as int].vote_id@ == id@,
        r is None ==> forall|j: int| 0 <= j < results@.len() ==> results@[j].vote_id@ != id@,
{
    let mut i: usize = 0;
    while i < results.len()
        invariant
            i <= results@.len(),
            forall|j: int| 0 <= j < i ==> results@[j].vote_id@ != id@,
        decreases results@.len() - i,
    {
        if str_eq(results[i].vote_id.as_str(), id) {
            return Some(i);
        }
        i = i + 1;
    }
    None
}

/// The in-memory settlement layer.
#[derive(Debug, Clone)]
pub struct L1Settlement {
    chain_registrations: Vec<ChainRegistrationRecord>,
    identity_registrations: Vec<IdentityRegistrationRecord>,
    vote_results: Vec<VoteResultRecord>,
    penalties: Vec<PenaltyRecord>,
    anchor_log: Vec<AnchorEntry>,
    state_root: StateRoot,
    version: u64,
    consensus: ConsensusConfig,
}

/// The per-transaction fee (raw): zero.
pub const TRANSACTION_FEE_RAW: i128 = 0;

impl L1Settlement {
    /// Stored chain registrations.
    pub closed spec fn spec_chain_regs(&self) -> Seq<ChainRegistrationRecord> {
        self.chain_registrations@
    }

    /// Stored identity registrations.
    pub closed spec fn spec_identity_regs(&self) -> Seq<IdentityRegistrationRecord> {
        self.identity_registrations@
    }

    /// Stored vote results.
    pub closed spec fn spec_vote_results(&self) -> Seq<VoteResultRecord> {
        self.vote_results@
    }

    /// Recorded penalties.
    pub closed spec fn spec_penalties(&self) -> Seq<PenaltyRecord> {
        self.penalties@
    }

    /// The anchor log.
    pub closed spec fn spec_log(&self) -> Seq<AnchorEntry> {
        self.anchor_log@
    }

    /// The confirmed root.
    pub closed spec fn spec_root(&self) -> Seq<u8> {
        self.state_root@
    }

    /// The settlement version.
    pub closed spec fn spec_version(&self) -> u64 {
        self.version
    }

    /// The consensus configuration.
    pub closed spec fn spec_consensus(&self) -> ConsensusConfig {
        self.consensus
    }

    /// Each store holds at most one record per key.
    pub closed spec fn wf(&self) -> bool {
        &&& unique_by(self.chain_registrations@, chain_key())
        &&& unique_by(self.identity_registrations@, identity_key())
        &&& unique_by(self.vote_results@, vote_key())
        &&& self.state_root@.len() == 32
    }

    /// An empty settlement layer at the genesis root, version `0`.
    pub fn new() -> (l: L1Settlement)
        ensures
            l.wf(),
            l.spec_chain_regs().len() == 0,
            l.spec_identity_regs().len() == 0,
            l.spec_vote_results().len() == 0,
            l.spec_penalties().len() == 0,
            l.spec_log().len() == 0,
            l.spec_root() == Seq::new(32, |i: int| 0u8),
            l.spec_version() == 0,
            l.spec_consensus() == ConsensusConfig::GrandpaBabe,
    {
        L1Settlement {
            chain_registrations: Vec::new(),
            identity_registrations: Vec::new(),
            vote_results: Vec::new(),
            penalties: Vec::new(),
            anchor_log: Vec::new(),
            state_root: StateRoot::genesis(),
            version: 0,
            consensus: ConsensusConfig::l1(),
        }
    }

    /// The per-transaction fee: always zero.
    pub fn transaction_fee(&self) -> (d: Decimal)
        ensures
            d@ == TRANSACTION_FEE_RAW,
    {
        Decimal::from_raw(TRANSACTION_FEE_RAW)
    }

    /// `true`: no transaction fee is ever charged.
    pub fn is_fee_free(&self) -> (b: bool)
        ensures
            b,
    {
        self.transaction_fee().is_zero()
    }

    /// The consensus configuration.
    pub fn consensus_config(&self) -> (c: ConsensusConfig)
        ensures
            c == self.spec_consensus(),
    {
        self.consensus
    }

    /// The confirmed root.
    pub fn state_root(&self) -> (r: StateRoot)
        ensures
            r@ == self.spec_root(),
    {
        self.state_root
    }

    /// The number of settled transitions applied so far.
    pub fn version(&self) -> (v: u64)
        ensures
            v == self.spec_version(),
    {
        self.version
    }

    /// The chain registration stored under `chain_id`.
    pub fn chain_registration(&self, chain_id: &ChainId) -> (r: Option<&ChainRegistrationRecord>)
        requires
            self.wf(),
        ensures
            match lookup_by(self.spec_chain_regs(), chain_key(), chain_id@) {
                Some(x) => r matches Some(y) && *y == x,
                None => r is None,
            },
    {
        match find_chain(&self.chain_registrations, chain_id) {
            Some(i) => {
                proof {
                    lemma_index_by(self.chain_registrations@, chain_key(), i as int);
                }
                Some(&self.chain_registrations[i])
            },
            None => None,
        }
    }

    /// Number of stored chain registrations.
    pub fn chain_registration_count(&self) -> (n: usize)
        ensures
            n == self.spec_chain_regs().len(),
    {
        self.chain_registrations.len()
    }

    /// The identity registration stored under `fay_id`.
    pub fn identity_registration(&self, fay_id: &FayID) -> (r: Option<&IdentityRegistrationRecord>)
        requires
            self.wf(),
        ensures
            match lookup_by(self.spec_identity_regs(), identity_key(), fay_id@) {
                Some(x) => r matches Some(y) && *y == x,
                None => r is None,
            },
    {
        match find_identity(&self.identity_registrations, fay_id) {
            Some(i) => {
                proof {
                    lemma_index_by(self.identity_registrations@, identity_key(), i as int);
                }
                Some(&self.identity_registrations[i])
            },
            None => None,
        }
    }

    /// The vote result stored under `vote_id`.
    pub fn vote_result(&self, vote_id: &str) -> (r: Option<&VoteResultRecord>)
        requires
            self.wf(),
        ensures
            match lookup_by(self.spec_vote_results(), vote_key(), vote_id@) {
                Some(x) => r matches Some(y) && *y == x,
                None => r is None,
            },
    {
        match find_vote(&self.vote_results, vote_id) {
            Some(i) => {
                proof {
                    lemma_index_by(self.vote_results@, vote_key(), i as int);
                }
                Some(&self.vote_results[i])
            },
            None => None,
        }
    }

    /// All penalties, in recording order.
    pub fn penalties(&self) -> (r: &[PenaltyRecord])
        ensures
            r@ == self.spec_penalties(),
    {
        self.penalties.as_slice()
    }

    /// The anchor log, in order.
    pub fn anchor_log(&self) -> (r: &[AnchorEntry])
        ensures
            r@ == self.spec_log(),
    {
        self.anchor_log.as_slice()
    }

    /// Stores `record` under its chain id (replacing any earlier one) and advances the
    /// root with the chain-creation tag.
    pub fn anchor_chain_creation(&mut self, record: ChainRegistrationRecord) -> (r: StateRoot)
        requires
            old(self).wf(),
            old(self).spec_version() < u64::MAX,
        ensures
            final(self).wf(),
            final(self).spec_chain_regs() == upserted(
                old(self).spec_chain_regs(),
                chain_key(),
                record,
            ),
            advanced_by(*old(self), *final(self), AnchorKind::ChainCreation, Some(record.chain_id@)),
            final(self).spec_identity_regs() == old(self).spec_identity_regs(),
            final(self).spec_vote_results() == old(self).spec_vote_results(),
            final(self).spec_penalties() == old(self).spec_penalties(),
            r@ == final(self).spec_root(),
    {
        let chain_id = record.chain_id.clone();
        proof {
            lemma_upserted_unique(self.chain_registrations@, chain_key(), record);
        }
        let ghost target = upserted(self.chain_registrations@, chain_key(), record);
        match find_chain(&self.chain_registrations, &chain_id) {
            Some(i) => {
                proof {
                    lemma_index_by(self.chain_registrations@, chain_key(), i as int);
                }
                self.chain_registrations.set(i, record);
            },
            None => {
                self.chain_registrations.push(record);
            },
        }
        assert(self.chain_registrations@ == target);
        self.advance(AnchorKind::ChainCreation, Some(chain_id))
    }

    /// Anchors an evaluation-mechanism change for `chain_id`.
    pub fn anchor_mechanism_change(&mut self, chain_id: ChainId) -> (r: StateRoot)
        requires
            old(self).wf(),
            old(self).spec_version() < u64::MAX,
        ensures
            final(self).wf(),
            advanced_by(*old(self), *final(self), AnchorKind::MechanismChange, Some(chain_id@)),
            stores_unchanged(*old(self), *final(self)),
            r@ == final(self).spec_root(),
    {
        self.advance(AnchorKind::MechanismChange, Some(chain_id))
    }

    /// Anchors an inflation-index change for `chain_id`.
    pub fn anchor_inflation_index_change(&mut self, chain_id: ChainId) -> (r: StateRoot)
        requires
            old(self).wf(),
            old(self).spec_version() < u64::MAX,
        ensures
            final(self).wf(),
            advanced_by(*old(self), *final(self), AnchorKind::InflationIndexChange, Some(chain_id@)),
            stores_unchanged(*old(self), *final(self)),
            r@ == final(self).spec_root(),
    {
        self.advance(AnchorKind::InflationIndexChange, Some(chain_id))
    }

    fn store_vote(&mut self, result: VoteResultRecord)
        requires
            old(self).wf(),
        ensures
            final(self).wf(),
            final(self).spec_vote_results() == upserted(
                old(self).spec_vote_results(),
                vote_key(),
                result,
            ),
            final(self).spec_chain_regs() == old(self).spec_chain_regs(),
            final(self).spec_identity_regs() == old(self).spec_identity_regs(),
            final(self).spec_penalties() == old(self).spec_penalties(),
            final(self).spec_log() == old(self).spec_log(),
            final(self).spec_root() == old(self).spec_root(),
            final(self).spec_version() == old(self).spec_version(),
            final(self).spec_consensus() == old(self).spec_consensus(),
    {
        proof {
            lemma_upserted_unique(self.vote_results@, vote_key(), result);
        }
        let ghost target = upserted(self.vote_results@, vote_key(), result);
        match find_vote(&self.vote_results, result.vote_id.as_str()) {
            Some(i) => {
                proof {
                    lemma_index_by(self.vote_results@, vote_key(), i as int);
                }
                self.vote_results.set(i, result);
            },
            None => {
                self.vote_results.push(result);
            },
        }
        assert(self.vote_results@ == target);
    }

    /// Stores a retroactive outcome's vote result (replacing any with the same id) and
    /// advances the root with the retroactive-outcome tag.
    pub fn anchor_retroactive_outcome(&mut self, result: VoteResultRecord) -> (r: StateRoot)
        requires
            old(self).wf(),
            old(self).spec_version() < u64::MAX,
        ensures
            final(self).wf(),
            final(self).spec_vote_results() == upserted(
                old(self).spec_vote_results(),
                vote_key(),
                result,
            ),
            advanced_by(*old(self), *final(self), AnchorKind::RetroactiveOutcome, None),
            final(self).spec_chain_regs() == old(self).spec_chain_regs(),
            final(self).spec_identity_regs() == old(self).spec_identity_regs(),
            final(self).spec_penalties() == old(self).spec_penalties(),
            r@ == final(self).spec_root(),
    {
        self.store_vote(result);
        self.advance(AnchorKind::RetroactiveOutcome, None)
    }

    /// Stores an identity registration (replacing any for the same identity) and
    /// advances the root.
    pub fn store_identity_registration(&mut self, record: IdentityRegistrationRecord) -> (r:
        StateRoot)
        requires
            old(self).wf(),
            old(self).spec_version() < u64::MAX,
        ensures
            final(self).wf(),
            final(self).spec_identity_regs() == upserted(
                old(self).spec_identity_regs(),
                identity_key(),
                record,
            ),
            advanced_by(*old(self), *final(self), AnchorKind::IdentityRegistration, None),
            final(self).spec_chain_regs() == old(self).spec_chain_regs(),
            final(self).spec_vote_results() == old(self).spec_vote_results(),
            final(self).spec_penalties() == old(self).spec_penalties(),
            r@ == final(self).spec_root(),
    {
        proof {
            lemma_upserted_unique(self.identity_registrations@, identity_key(), record);
        }
        let ghost target = upserted(self.identity_registrations@, identity_key(), record);
        match find_identity(&self.identity_registrations, &record.fay_id) {
            Some(i) => {
                proof {
                    lemma_index_by(self.identity_registrations@, identity_key(), i as int);
                }
                self.identity_registrations.set(i, record);
            },
            None => {
                self.identity_registrations.push(record);
            },
        }
        assert(self.identity_registrations@ == target);
        self.advance(AnchorKind::IdentityRegistration, None)
    }

    /// Stores a governance vote result (replacing any with the same id) and advances
    /// the root with the retroactive-outcome tag.
    pub fn store_vote_result(&mut self, result: VoteResultRecord) -> (r: StateRoot)
        requires
            old(self).wf(),
            old(self).spec_version() < u64::MAX,
        ensures
            final(self).wf(),
            final(self).spec_vote_results() == upserted(
                old(self).spec_vote_results(),
                vote_key(),
                result,
            ),
            advanced_by(*old(self), *final(self), AnchorKind::RetroactiveOutcome, None),
            final(self).spec_chain_regs() == old(self).spec_chain_regs(),
            final(self).spec_identity_regs() == old(self).spec_identity_regs(),
            final(self).spec_penalties() == old(self).spec_penalties(),
            r@ == final(self).spec_root(),
    {
        self.store_vote(result);
        self.advance(AnchorKind::RetroactiveOutcome, None)
    }

    /// Appends a penalty and advances the root.
    pub fn record_penalty(&mut self, record: PenaltyRecord) -> (r: StateRoot)
        requires
            old(self).wf(),
            old(self).spec_version() < u64::MAX,
        ensures
            final(self).wf(),
            final(self).spec_penalties() == old(self).spec_penalties().push(record),
            advanced_by(*old(self), *final(self), AnchorKind::Penalty, None),
            final(self).spec_chain_regs() == old(self).spec_chain_regs(),
            final(self).spec_identity_regs() == old(self).spec_identity_regs(),
            final(self).spec_vote_results() == old(self).spec_vote_results(),
            r@ == final(self).spec_root(),
    {
        self.penalties.push(record);
        self.advance(AnchorKind::Penalty, None)
    }

    /// Sets the confirmed root to the registry's derivation root.
    pub fn anchor_derivation_state_root(&mut self, root: StateRoot) -> (r: StateRoot)
        requires
            old(self).spec_version() < u64::MAX,
        ensures
            old(self).wf() ==> final(self).wf(),
            root_set_to(*old(self), *final(self), AnchorKind::DerivationStateRoot, root@),
            stores_unchanged(*old(self), *final(self)),
            r@ == root@,
    {
        self.set_root(root, AnchorKind::DerivationStateRoot)
    }

    /// Sets the confirmed root to `root` unconditionally (no proof check).
    pub fn update_state_root(&mut self, root: StateRoot) -> (r: StateRoot)
        requires
            old(self).spec_version() < u64::MAX,
        ensures
            old(self).wf() ==> final(self).wf(),
            root_set_to(*old(self), *final(self), AnchorKind::StateRootUpdate, root@),
            stores_unchanged(*old(self), *final(self)),
            r@ == root@,
    {
        self.set_root(root, AnchorKind::StateRootUpdate)
    }

    /// Settles a batch when `proof` verifies for `batch_root`: the root becomes
    /// `batch_root` (as [`L1Settlement::update_state_root`]). Otherwise
    /// `ProofVerificationFailed`: root and version are unchanged and a rejection entry
    /// carrying the current version and root is logged.
    pub fn submit_batch_proof(&mut self, batch_root: StateRoot, proof: BatchProof) -> (r: GmcResult<
        StateRoot,
    >)
        requires
            old(self).spec_version() < u64::MAX,
        ensures
            old(self).wf() ==> final(self).wf(),
            stores_unchanged(*old(self), *final(self)),
            proof.spec_verifies(batch_root@) ==> (r matches Ok(root) && root@ == batch_root@
                && root_set_to(*old(self), *final(self), AnchorKind::StateRootUpdate, batch_root@)),
            !proof.spec_verifies(batch_root@) ==> {
                &&& r == Err::<StateRoot, GmcError>(GmcError::ProofVerificationFailed)
                &&& final(self).spec_root() == old(self).spec_root()
                &&& final(self).spec_version() == old(self).spec_version()
                &&& final(self).spec_log().len() == old(self).spec_log().len() + 1
                &&& final(self).spec_log().subrange(0, old(self).spec_log().len() as int)
                    == old(self).spec_log()
                &&& final(self).spec_log().last().kind == AnchorKind::BatchProofRejected
                &&& final(self).spec_log().last().chain_id is None
                &&& final(self).spec_log().last().version == old(self).spec_version()
                &&& final(self).spec_log().last().resulting_root@ == old(self).spec_root()
            },
    {
        if proof.verifies(batch_root) {
            Ok(self.update_state_root(batch_root))
        } else {
            let ghost old_log = self.anchor_log@;
            self.anchor_log.push(
                AnchorEntry {
                    kind: AnchorKind::BatchProofRejected,
                    chain_id: None,
                    version: self.version,
                    resulting_root: self.state_root,
                },
            );
            assert(self.anchor_log@.subrange(0, old_log.len() as int) == old_log);
            Err(GmcError::ProofVerificationFailed)
        }
    }

    fn advance(&mut self, kind: AnchorKind, chain_id: Option<ChainId>) -> (r: StateRoot)
        requires
            old(self).wf(),
            old(self).spec_version() < u64::MAX,
        ensures
            final(self).wf(),
            advanced_by(
                *old(self),
                *final(self),
                kind,
                match chain_id {
                    Some(c) => Some(c@),
                    None => None,
                },
            ),
            stores_unchanged(*old(self), *final(self)),
            r@ == final(self).spec_root(),
    {
        let ghost old_log = self.anchor_log@;
        self.version = self.version + 1;
        self.state_root = self.state_root.advanced(self.version, kind.tag());
        self.anchor_log.push(
            AnchorEntry { kind, chain_id, version: self.version, resulting_root: self.state_root },
        );
        assert(self.anchor_log@.subrange(0, old_log.len() as int) == old_log);
        self.state_root
    }

    fn set_root(&mut self, root: StateRoot, kind: AnchorKind) -> (r: StateRoot)
        requires
            old(self).spec_version() < u64::MAX,
        ensures
            old(self).wf() ==> final(self).wf(),
            root_set_to(*old(self), *final(self), kind, root@),
            stores_unchanged(*old(self), *final(self)),
            r@ == root@,
    {
        let ghost old_log = self.anchor_log@;
        self.version = self.version + 1;
        self.state_root = root;
        self.anchor_log.push(
            AnchorEntry { kind, chain_id: None, version: self.version, resulting_root: self.state_root },
        );
        assert(self.anchor_log@.subrange(0, old_log.len() as int) == old_log);
        self.state_root
    }
}

impl Default for L1Settlement {
    fn default() -> (l: Self)
        ensures
            l.wf(),
            l.spec_chain_regs().len() == 0,
            l.spec_identity_regs().len() == 0,
            l.spec_vote_results().len() == 0,
            l.spec_penalties().len() == 0,
            l.spec_log().len() == 0,
            l.spec_root() == Seq::new(32, |i: int| 0u8),
            l.spec_version() == 0,
            l.spec_consensus() == ConsensusConfig::GrandpaBabe,
    {
        L1Settlement::new()
    }
}

/// The record stores, the root-independent fields, are the same in `a` and `b`.
pub open spec fn stores_unchanged(a: L1Settlement, b: L1Settlement) -> bool {
    &&& b.spec_chain_regs() == a.spec_chain_regs()
    &&& b.spec_identity_regs() == a.spec_identity_regs()
    &&& b.spec_vote_results() == a.spec_vote_results()
    &&& b.spec_penalties() == a.spec_penalties()
    &&& b.spec_consensus() == a.spec_consensus()
}

/// `b` is `a` after one record-anchoring event of `kind`: the version is one higher,
/// the root is advanced with the kind's tag at the new version, and one log entry is
/// appended.
pub open spec fn advanced_by(
    a: L1Settlement,
    b: L1Settlement,
    kind: AnchorKind,
    chain: Option<Seq<char>>,
) -> bool {
    let v = (a.spec_version() + 1) as u64;
    &&& b.spec_version() == a.spec_version() + 1
    &&& b.spec_root() == advanced_root(a.spec_root(), v, anchor_tag(kind).spec_bytes())
    &&& b.spec_consensus() == a.spec_consensus()
    &&& b.spec_log().len() == a.spec_log().len() + 1
    &&& b.spec_log().subrange(0, a.spec_log().len() as int) == a.spec_log()
    &&& b.spec_log().last().kind == kind
    &&& match b.spec_log().last().chain_id {
        Some(c) => chain == Some(c@),
        None => chain is None,
    }
    &&& b.spec_log().last().version == v
    &&& b.spec_log().last().resulting_root@ == b.spec_root()
}

/// `b` is `a` after the root was set to `root` by an event of `kind`: the version is
/// one higher and one log entry is appended.
pub open spec fn root_set_to(a: L1Settlement, b: L1Settlement, kind: AnchorKind, root: Seq<u8>) -> bool {
    &&& b.spec_version() == a.spec_version() + 1
    &&& b.spec_root() == root
    &&& b.spec_log().len() == a.spec_log().len() + 1
    &&& b.spec_log().subrange(0, a.spec_log().len() as int) == a.spec_log()
    &&& b.spec_log().last().kind == kind
    &&& b.spec_log().last().chain_id is None
    &&& b.spec_log().last().version == b.spec_version()
    &&& b.spec_log().last().resulting_root@ == root
}

} // verus!

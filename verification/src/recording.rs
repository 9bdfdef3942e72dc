//! `Recording_Service`: contribution records.
//!
//! A contribution is recorded when the contributor holds a valid registration on the
//! chain (the record is then linked to it) or when it comes through the retroactive
//! path (the record may then be unlinked); otherwise `NotRegistered` and nothing is
//! created. New records are `Pending` with id `contrib-N`. An evaluation result marks
//! a stored record `Passed` or `Failed`; records are never removed and are kept in id
//! order.
use vstd::prelude::*;

use crate::error::{GmcError, GmcResult};
use crate::types::{
    decimal_text, lemma_lex_irreflexive, lemma_lex_total, lemma_lex_transitive, lex_lt, str_lex_lt,
    text_with_number, ChainId, DimensionWeights, FayID, Timestamp,
};

verus! {

/// Identifier of a contribution record.
#[derive(Debug, Eq, PartialOrd, Ord, Hash)]
pub struct ContributionId(String);

impl View for ContributionId {
    type V = Seq<char>;

    closed spec fn view(&self) -> Seq<char> {
        self.0@
    }
}

impl ContributionId {
    /// Builds an id from its text.
    pub fn new(id: &str) -> (r: ContributionId)
        ensures
            r@ == id@,
    {
        ContributionId(id.to_owned())
    }

    fn from_string(id: String) -> (r: ContributionId)
        ensures
            r@ == id@,
    {
        ContributionId(id)
    }

    /// The id's text.
    pub fn as_str(&self) -> (s: &str)
        ensures
            s@ == self@,
    {
        self.0.as_str()
    }

    /// The id rendered as text for display: the id itself.
    pub fn to_string(&self) -> (s: String)
        ensures
            s@ == self@,
    {
        self.0.clone()
    }
}

impl Clone for ContributionId {
    fn clone(&self) -> (c: Self)
        ensures
            c@ == self@,
    {
        ContributionId(self.0.clone())
    }
}

impl PartialEq for ContributionId {
    fn eq(&self, other: &Self) -> (b: bool) {
        self.0 == other.0
    }
}

impl vstd::std_specs::cmp::PartialEqSpecImpl for ContributionId {
    open spec fn obeys_eq_spec() -> bool {
        true
    }

    open spec fn eq_spec(&self, other: &ContributionId) -> bool {
        self@ == other@
    }
}

/// Evaluation state of a record.
#[derive(Debug, Clone, Copy, PartialEq, Eq, Hash, Structural)]
pub enum EvaluationStatus {
    /// Not evaluated yet.
    Pending,
    /// Evaluation passed.
    Passed,
    /// Evaluation failed; the record is kept.
    Failed,
}

/// A pointer to off-chain evidence and its content hash.
#[derive(Debug, Clone, PartialEq, Eq)]
pub struct EvidenceRef {
    uri: String,
    hash: String,
}

impl EvidenceRef {
    /// The evidence URI.
    pub closed spec fn spec_uri(&self) -> Seq<char> {
        self.uri@
    }

    /// The content hash.
    pub closed spec fn spec_hash(&self) -> Seq<char> {
        self.hash@
    }

    /// Builds a reference.
    pub fn new(uri: &str, hash: &str) -> (e: EvidenceRef)
        ensures
            e.spec_uri() == uri@,
            e.spec_hash() == hash@,
    {
        EvidenceRef { uri: uri.to_owned(), hash: hash.to_owned() }
    }

    /// The evidence URI.
    pub fn uri(&self) -> (s: &str)
        ensures
            s@ == self.spec_uri(),
    {
        self.uri.as_str()
    }

    /// The content hash.
    pub fn hash(&self) -> (s: &str)
        ensures
            s@ == self.spec_hash(),
    {
        self.hash.as_str()
    }
}

/// A stored contribution record.
#[derive(Debug, Clone, PartialEq, Eq)]
pub struct ContributionRecord {
    /// Its id.
    pub id: ContributionId,
    /// The linked registration's id, if linked.
    pub registration_id: Option<String>,
    /// The contributor.
    pub contributor_id: FayID,
    /// The chain.
    pub chain_id: ChainId,
    /// Evidence supplied with the contribution.
    pub evidence_refs: Vec<EvidenceRef>,
    /// Dimension weights, once scored.
    pub dimension_weights: Option<DimensionWeights>,
    /// Evaluation state.
    pub evaluation_status: EvaluationStatus,
    /// Recording time.
    pub recorded_at: Timestamp,
}

impl ContributionRecord {
    /// Its id.
    pub fn id(&self) -> (r: &ContributionId)
        ensures
            r@ == self.id@,
    {
        &self.id
    }

    /// The linked registration's id.
    pub fn registration_id(&self) -> (r: Option<&str>)
        ensures
            match self.registration_id {
                Some(s) => r matches Some(t) && t@ == s@,
                None => r is None,
            },
    {
        match &self.registration_id {
            Some(s) => Some(s.as_str()),
            None => None,
        }
    }

    /// `true` iff linked to a registration.
    pub fn is_linked(&self) -> (b: bool)
        ensures
            b == (self.registration_id is Some),
    {
        self.registration_id.is_some()
    }

    /// The contributor.
    pub fn contributor_id(&self) -> (r: &FayID)
        ensures
            *r == self.contributor_id,
    {
        &self.contributor_id
    }

    /// The chain.
    pub fn chain_id(&self) -> (r: &ChainId)
        ensures
            *r == self.chain_id,
    {
        &self.chain_id
    }

    /// The evidence.
    pub fn evidence_refs(&self) -> (r: &[EvidenceRef])
        ensures
            r@ == self.evidence_refs@,
    {
        self.evidence_refs.as_slice()
    }

    /// The dimension weights, once scored.
    pub fn dimension_weights(&self) -> (r: Option<&DimensionWeights>)
        ensures
            match self.dimension_weights {
                Some(w) => r matches Some(x) && *x == w,
                None => r is None,
            },
    {
        match &self.dimension_weights {
            Some(w) => Some(w),
            None => None,
        }
    }

    /// Evaluation state.
    pub fn evaluation_status(&self) -> (s: EvaluationStatus)
        ensures
            s == self.evaluation_status,
    {
        self.evaluation_status
    }

    /// Recording time.
    pub fn recorded_at(&self) -> (t: Timestamp)
        ensures
            t == self.recorded_at,
    {
        self.recorded_at
    }
}

/// A request to record a contribution.
#[derive(Debug, Clone, PartialEq, Eq)]
pub struct ContributionRequest {
    /// The contributor.
    pub contributor_id: FayID,
    /// The chain.
    pub chain_id: ChainId,
    /// Evidence.
    pub evidence_refs: Vec<EvidenceRef>,
    /// Recording time.
    pub recorded_at: Timestamp,
}

impl ContributionRequest {
    /// Builds a request.
    pub fn new(
        contributor_id: FayID,
        chain_id: ChainId,
        evidence_refs: Vec<EvidenceRef>,
        recorded_at: Timestamp,
    ) -> (r: ContributionRequest)
        ensures
            r.contributor_id == contributor_id,
            r.chain_id == chain_id,
            r.evidence_refs == evidence_refs,
            r.recorded_at == recorded_at,
    {
        ContributionRequest { contributor_id, chain_id, evidence_refs, recorded_at }
    }
}

/// Where the recording service learns of valid registrations.
pub trait RegistrationLookup {
    /// Whether this lookup's answers follow [`RegistrationLookup::spec_lookup`]; an
    /// implementation that defines neither makes no claim.
    open spec fn obeys_lookup_spec(&self) -> bool {
        false
    }

    /// The id text of the valid registration the lookup reports for `contributor` on
    /// `chain`, if any.
    open spec fn spec_lookup(&self, contributor: Seq<char>, chain: Seq<char>) -> Option<Seq<char>> {
        None
    }

    /// The id of a valid registration of `contributor_id` on `chain_id`, if any.
    fn find_valid_registration(&self, contributor_id: &FayID, chain_id: &ChainId) -> (r: Option<
        String,
    >)
        ensures
            self.obeys_lookup_spec() ==> opt_text(r) == self.spec_lookup(contributor_id@, chain_id@),
    ;

    /// `true` iff [`RegistrationLookup::find_valid_registration`] finds one.
    fn has_valid_registration(&self, contributor_id: &FayID, chain_id: &ChainId) -> (b: bool)
        ensures
            self.obeys_lookup_spec() ==> b == self.spec_lookup(contributor_id@, chain_id@) is Some,
    {
        self.find_valid_registration(contributor_id, chain_id).is_some()
    }
}

/// The text of an optional id.
pub open spec fn opt_text(o: Option<String>) -> Option<Seq<char>> {
    match o {
        Some(s) => Some(s@),
        None => None,
    }
}

/// The text of contribution id number `n`.
pub open spec fn contribution_id_text(n: u64) -> Seq<char> {
    "contrib-"@ + decimal_text(n as nat)
}

/// Records in strictly increasing id order (by text), so no id occurs twice.
pub open spec fn records_in_id_order(s: Seq<ContributionRecord>) -> bool {
    forall|i: int, j: int| 0 <= i < j < s.len() ==> lex_lt(#[trigger] s[i].id@, #[trigger] s[j].id@)
}

proof fn lemma_ordered_ids_distinct(s: Seq<ContributionRecord>)
    requires
        records_in_id_order(s),
    ensures
        forall|i: int, j: int|
            0 <= i < s.len() && 0 <= j < s.len() && i != j ==> #[trigger] s[i].id@ != #[trigger] s[j].id@,
{
    assert forall|i: int, j: int|
        0 <= i < s.len() && 0 <= j < s.len() && i != j implies #[trigger] s[i].id@
        != #[trigger] s[j].id@ by {
        lemma_lex_irreflexive(s[i].id@);
        if i < j {
            assert(lex_lt(s[i].id@, s[j].id@));
        } else {
            assert(lex_lt(s[j].id@, s[i].id@));
        }
    }
}

/// Stores contribution records in id order.
#[derive(Debug, Clone, Default)]
pub struct RecordingService {
    records: Vec<ContributionRecord>,
    next_seq: u64,
}

impl RecordingService {
    /// The stored records, in id order.
    pub closed spec fn spec_records(&self) -> Seq<ContributionRecord> {
        self.records@
    }

    /// Number of the next record id.
    pub closed spec fn spec_next_seq(&self) -> u64 {
        self.next_seq
    }

    /// The records are in strictly increasing id order, and none uses an id still to
    /// be allocated.
    pub closed spec fn wf(&self) -> bool {
        &&& records_in_id_order(self.records@)
        &&& forall|i: int, n: u64|
            0 <= i < self.records@.len() && n >= self.next_seq ==> (#[trigger] self.records@[i]).id@
                != #[trigger] contribution_id_text(n)
    }

    /// An empty service; ids start at `contrib-0`.
    pub fn new() -> (s: RecordingService)
        ensures
            s.wf(),
            s.spec_records().len() == 0,
            s.spec_next_seq() == 0,
    {
        RecordingService { records: Vec::new(), next_seq: 0 }
    }

    fn find_id(&self, id: &ContributionId) -> (r: Option<usize>)
        ensures
            r matches Some(i) ==> i < self.records@.len() && self.records@[i as int].id@ == id@,
            r is None ==> forall|j: int| 0 <= j < self.records@.len() ==> self.records@[j].id@ != id@,
    {
        let mut i: usize = 0;
        while i < self.records.len()
            invariant
                i <= self.records@.len(),
                forall|j: int| 0 <= j < i ==> self.records@[j].id@ != id@,
            decreases self.records@.len() - i,
        {
            if self.records[i].id == *id {
                return Some(i);
            }
            i = i + 1;
        }
        None
    }

    /// Records `req` given the outcome of the registration lookup: with no valid
    /// registration and outside the retroactive path, `NotRegistered` and nothing
    /// changes; otherwise a `Pending` record `contrib-N` linked to `registration_id`
    /// (if any) is stored at its place in id order.
    pub fn record_with_registration(
        &mut self,
        req: ContributionRequest,
        registration_id: Option<String>,
        is_retroactive: bool,
    ) -> (r: GmcResult<ContributionId>)
        requires
            old(self).wf(),
            old(self).spec_next_seq() < u64::MAX,
        ensures
            final(self).wf(),
            registration_id is None && !is_retroactive ==> r == Err::<ContributionId, GmcError>(
                GmcError::NotRegistered,
            ) && *final(self) == *old(self),
            !(registration_id is None && !is_retroactive) ==> {
                &&& r matches Ok(id) && id@ == contribution_id_text(old(self).spec_next_seq())
                &&& final(self).spec_next_seq() == old(self).spec_next_seq() + 1
                &&& exists|p: int|
                    0 <= p <= old(self).spec_records().len() && {
                        let rec = #[trigger] final(self).spec_records()[p];
                        &&& final(self).spec_records() == old(self).spec_records().insert(p, rec)
                        &&& rec.id@ == contribution_id_text(old(self).spec_next_seq())
                        &&& rec.registration_id == registration_id
                        &&& rec.contributor_id == req.contributor_id
                        &&& rec.chain_id == req.chain_id
                        &&& rec.evidence_refs == req.evidence_refs
                        &&& rec.dimension_weights is None
                        &&& rec.evaluation_status == EvaluationStatus::Pending
                        &&& rec.recorded_at == req.recorded_at
                    }
            },
    {
        if registration_id.is_none() && !is_retroactive {
            return Err(GmcError::NotRegistered);
        }
        let ghost old_records = self.records@;
        let ghost n0 = self.next_seq;
        let id = self.allocate_id();
        let record = ContributionRecord {
            id: id.clone(),
            registration_id,
            contributor_id: req.contributor_id,
            chain_id: req.chain_id,
            evidence_refs: req.evidence_refs,
            dimension_weights: None,
            evaluation_status: EvaluationStatus::Pending,
            recorded_at: req.recorded_at,
        };
        let mut p: usize = 0;
        while p < self.records.len() && str_lex_lt(self.records[p].id.as_str(), id.as_str())
            invariant
                p <= old_records.len(),
                old_records == self.records@,
                records_in_id_order(old_records),
                forall|j: int| 0 <= j < p ==> lex_lt(#[trigger] old_records[j].id@, id@),
            decreases old_records.len() - p,
        {
            p = p + 1;
        }
        proof {
            if p < old_records.len() {
                assert(old_records[p as int].id@ != contribution_id_text(n0));
                lemma_lex_total(old_records[p as int].id@, id@);
            }
        }
        self.records.insert(p, record);
        proof {
            let s = self.records@;
            assert(s == old_records.insert(p as int, record));
            assert forall|a: int, b: int| 0 <= a < b < s.len() implies lex_lt(
                #[trigger] s[a].id@,
                #[trigger] s[b].id@,
            ) by {
                if b < p {
                } else if b == p {
                } else if a < p {
                    if b - 1 > p {
                        lemma_lex_transitive(id@, old_records[p as int].id@, old_records[b - 1].id@);
                    }
                    lemma_lex_transitive(old_records[a].id@, id@, s[b].id@);
                } else if a == p {
                    if b - 1 > p {
                        lemma_lex_transitive(id@, old_records[p as int].id@, old_records[b - 1].id@);
                    }
                } else {
                }
            }
            assert forall|k: int, m: u64| 0 <= k < s.len() && m >= self.next_seq implies (#[trigger] s[k]).id@
                != #[trigger] contribution_id_text(m) by {
                if k < p {
                    assert(old_records[k].id@ != contribution_id_text(m));
                } else if k > p {
                    assert(s[k] == old_records[k - 1]);
                    assert(old_records[k - 1].id@ != contribution_id_text(m));
                } else {
                    lemma_contribution_ids_distinct(n0, m);
                }
            }
            assert(s[p as int] == record);
            assert(self.spec_records()[p as int] == record);
            assert(self.spec_records() == old(self).spec_records().insert(p as int, self.spec_records()[p as int]));
        }
        Ok(id)
    }

    /// Looks up a valid registration of the requester through `registrations` and
    /// records the contribution as [`RecordingService::record_with_registration`]
    /// does with what the lookup returned.
    pub fn record<L: RegistrationLookup>(
        &mut self,
        req: ContributionRequest,
        registrations: &L,
        is_retroactive: bool,
    ) -> (r: GmcResult<ContributionId>)
        requires
            old(self).wf(),
            old(self).spec_next_seq() < u64::MAX,
        ensures
            final(self).wf(),
            r is Err ==> r == Err::<ContributionId, GmcError>(GmcError::NotRegistered)
                && !is_retroactive && *final(self) == *old(self),
            is_retroactive ==> r is Ok,
            registrations.obeys_lookup_spec() ==> (r is Ok <==> (is_retroactive
                || registrations.spec_lookup(req.contributor_id@, req.chain_id@) is Some)),
            r matches Ok(id) ==> {
                &&& id@ == contribution_id_text(old(self).spec_next_seq())
                &&& final(self).spec_next_seq() == old(self).spec_next_seq() + 1
                &&& exists|p: int|
                    0 <= p <= old(self).spec_records().len() && {
                        let rec = #[trigger] final(self).spec_records()[p];
                        &&& final(self).spec_records() == old(self).spec_records().insert(p, rec)
                        &&& rec.id@ == id@
                        &&& (rec.registration_id is None ==> is_retroactive)
                        &&& (registrations.obeys_lookup_spec() ==> opt_text(rec.registration_id)
                            == registrations.spec_lookup(req.contributor_id@, req.chain_id@))
                        &&& rec.contributor_id == req.contributor_id
                        &&& rec.chain_id == req.chain_id
                        &&& rec.evidence_refs == req.evidence_refs
                        &&& rec.dimension_weights is None
                        &&& rec.evaluation_status == EvaluationStatus::Pending
                        &&& rec.recorded_at == req.recorded_at
                    }
            },
    {
        let registration_id = registrations.find_valid_registration(&req.contributor_id, &req.chain_id);
        self.record_with_registration(req, registration_id, is_retroactive)
    }

    /// Marks record `record_id` `Passed` or `Failed`; an unknown id is
    /// `FieldValidation` and nothing changes.
    pub fn mark_evaluation_result(&mut self, record_id: &ContributionId, passed: bool) -> (r:
        GmcResult<()>)
        requires
            old(self).wf(),
        ensures
            final(self).wf(),
            final(self).spec_next_seq() == old(self).spec_next_seq(),
            (forall|j: int|
                0 <= j < old(self).spec_records().len() ==> old(self).spec_records()[j].id@
                    != record_id@) ==> r == Err::<(), GmcError>(GmcError::FieldValidation)
                && *final(self) == *old(self),
            (exists|j: int|
                0 <= j < old(self).spec_records().len() && old(self).spec_records()[j].id@
                    == record_id@) ==> {
                &&& r is Ok
                &&& final(self).spec_records().len() == old(self).spec_records().len()
                &&& forall|j: int|
                    0 <= j < old(self).spec_records().len() ==> {
                        let a = old(self).spec_records()[j];
                        let b = #[trigger] final(self).spec_records()[j];
                        if a.id@ == record_id@ {
                            b == ContributionRecord {
                                evaluation_status: if passed {
                                    EvaluationStatus::Passed
                                } else {
                                    EvaluationStatus::Failed
                                },
                                ..a
                            }
                        } else {
                            b == a
                        }
                    }
            },
    {
        match self.find_id(record_id) {
            Some(i) => {
                let ghost old_records = self.records@;
                self.records[i].evaluation_status = if passed {
                    EvaluationStatus::Passed
                } else {
                    EvaluationStatus::Failed
                };
                proof {
                    lemma_ordered_ids_distinct(old_records);
                    assert forall|j: int| 0 <= j < old_records.len() && j != i implies old_records[j].id@
                        != record_id@ by {
                        assert(old_records[j].id@ != old_records[i as int].id@);
                    }
                }
                Ok(())
            },
            None => Err(GmcError::FieldValidation),
        }
    }

    /// The record with id `id`.
    pub fn get(&self, id: &ContributionId) -> (r: Option<&ContributionRecord>)
        ensures
            r matches Some(x) ==> exists|i: int|
                0 <= i < self.spec_records().len() && self.spec_records()[i] == *x && x.id@ == id@,
            r is None ==> forall|i: int|
                0 <= i < self.spec_records().len() ==> self.spec_records()[i].id@ != id@,
    {
        match self.find_id(id) {
            Some(i) => Some(&self.records[i]),
            None => None,
        }
    }

    /// Number of stored records.
    pub fn len(&self) -> (n: usize)
        ensures
            n == self.spec_records().len(),
    {
        self.records.len()
    }

    /// `true` iff nothing is stored.
    pub fn is_empty(&self) -> (b: bool)
        ensures
            b == (self.spec_records().len() == 0),
    {
        self.records.len() == 0
    }

    /// The stored records, in id order.
    pub fn iter(&self) -> (r: std::slice::Iter<'_, ContributionRecord>)
        ensures
            vstd::std_specs::slice::into_iter_elts(r) == self.spec_records(),
    {
        broadcast use vstd::std_specs::slice::axiom_spec_slice_iter;

        self.records.iter()
    }

    fn allocate_id(&mut self) -> (r: ContributionId)
        requires
            old(self).spec_next_seq() < u64::MAX,
        ensures
            r@ == contribution_id_text(old(self).spec_next_seq()),
            final(self).spec_next_seq() == old(self).spec_next_seq() + 1,
            final(self).spec_records() == old(self).spec_records(),
    {
        proof {
            reveal_strlit("contrib-");
        }
        let id = ContributionId::from_string(text_with_number("contrib-", self.next_seq));
        self.next_seq = self.next_seq + 1;
        id
    }
}

/// A well-formed service holds its records in strictly increasing id order, so at
/// most one record per id.
pub proof fn lemma_record_ids_unique(s: &RecordingService)
    requires
        s.wf(),
    ensures
        records_in_id_order(s.spec_records()),
        forall|i: int, j: int|
            0 <= i < s.spec_records().len() && 0 <= j < s.spec_records().len() && i != j
                ==> s.spec_records()[i].id@ != s.spec_records()[j].id@,
{
    lemma_ordered_ids_distinct(s.spec_records());
}

/// Distinct numbers give distinct contribution ids.
pub proof fn lemma_contribution_ids_distinct(a: u64, b: u64)
    requires
        a != b,
    ensures
        contribution_id_text(a) != contribution_id_text(b),
{
    crate::types::lemma_decimal_text_injective(a as nat, b as nat);
    let p = "contrib-"@;
    let x = contribution_id_text(a);
    let y = contribution_id_text(b);
    if x == y {
        assert(x.subrange(p.len() as int, x.len() as int) =~= decimal_text(a as nat));
        assert(y.subrange(p.len() as int, y.len() as int) =~= decimal_text(b as nat));
    }
}

} // verus!

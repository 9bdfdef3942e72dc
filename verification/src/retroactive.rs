//! `Retroactive_Review_Module`: recognition of contributions made before they were
//! registered.
//!
//! A declaration is accepted when contributor id, chain id and a non-blank
//! description are present (`FieldValidation` otherwise) and at least one evidence
//! reference is replayable: flagged replayable with a non-empty locator and hash
//! (`EvidenceInvalid` otherwise). It starts `Pending` with id `retro-N`. The review
//! vote is held to a stricter threshold than the chain's regular one: at least the
//! `2/3` floor and strictly above the regular threshold. A declaration is resolved
//! once; its outcome can then be anchored. Declarations are kept in id order.
use vstd::prelude::*;

use crate::error::{GmcError, GmcResult};
use crate::types::{
    decimal_text, is_blank, lemma_decimal_text_injective, lemma_lex_irreflexive, lemma_lex_total,
    lemma_lex_transitive, lex_lt, str_lex_lt, text_with_number, unicode_white_space, ChainId,
    Decimal, FayID, Ratio, Timestamp,
};

verus! {

/// A pointer to evidence, with whether it can be replayed for verification.
#[derive(Debug, PartialEq, Eq)]
pub struct EvidenceRef {
    uri: String,
    hash: String,
    replayable: bool,
}

impl EvidenceRef {
    /// The locator.
    pub closed spec fn spec_uri(&self) -> Seq<char> {
        self.uri@
    }

    /// The content hash.
    pub closed spec fn spec_hash(&self) -> Seq<char> {
        self.hash@
    }

    /// The replayable flag.
    pub closed spec fn spec_flag(&self) -> bool {
        self.replayable
    }

    /// Flagged replayable with a non-empty locator and hash.
    pub open spec fn spec_replayable(&self) -> bool {
        self.spec_flag() && self.spec_uri().len() > 0 && self.spec_hash().len() > 0
    }

    /// Builds a reference.
    pub fn new(uri: &str, hash: &str, replayable: bool) -> (e: EvidenceRef)
        ensures
            e.spec_uri() == uri@,
            e.spec_hash() == hash@,
            e.spec_flag() == replayable,
    {
        EvidenceRef { uri: uri.to_owned(), hash: hash.to_owned(), replayable }
    }

    /// The locator.
    pub fn uri(&self) -> (s: &str)
        ensures
            s@ == self.spec_uri(),
    {
        self.uri.as_str()
    }

    /// The content hash.
    pub fn hash(&self) -> (s: &str)
        ensures
            s@ == self.spec_hash(),
    {
        self.hash.as_str()
    }

    /// The replayable flag as given.
    pub fn replayable_flag(&self) -> (b: bool)
        ensures
            b == self.spec_flag(),
    {
        self.replayable
    }

    /// `true` iff flagged replayable with a non-empty locator and hash.
    pub fn is_replayable(&self) -> (b: bool)
        ensures
            b == self.spec_replayable(),
    {
        self.replayable && !self.uri.as_str().is_empty() && !self.hash.as_str().is_empty()
    }
}

impl Clone for EvidenceRef {
    fn clone(&self) -> (c: Self)
        ensures
            c == *self,
    {
        EvidenceRef { uri: self.uri.clone(), hash: self.hash.clone(), replayable: self.replayable }
    }
}

/// Review state of a declaration.
#[derive(Debug, Clone, Copy, PartialEq, Eq, Hash, Structural)]
pub enum ReviewStatus {
    /// Awaiting the review vote.
    Pending,
    /// The vote met the retroactive threshold.
    Approved,
    /// The vote fell short; nothing is minted.
    Rejected,
}

/// Identifier of a declaration.
#[derive(Debug, Eq, PartialOrd, Ord, Hash)]
pub struct DeclarationId(String);

impl View for DeclarationId {
    type V = Seq<char>;

    closed spec fn view(&self) -> Seq<char> {
        self.0@
    }
}

impl DeclarationId {
    /// Builds an id from its text.
    pub fn new(id: &str) -> (r: DeclarationId)
        ensures
            r@ == id@,
    {
        DeclarationId(id.to_owned())
    }

    fn from_string(id: String) -> (r: DeclarationId)
        ensures
            r@ == id@,
    {
        DeclarationId(id)
    }

    /// The id's text.
    pub fn as_str(&self) -> (s: &str)
        ensures
            s@ == self@,
    {
        self.0.as_str()
    }

    /// The id rendered as text for display: the id itself.
    pub fn to_string(&self) -> (s: String)
        ensures
            s@ == self@,
    {
        self.0.clone()
    }
}

impl Clone for DeclarationId {
    fn clone(&self) -> (c: Self)
        ensures
            c@ == self@,
    {
        DeclarationId(self.0.clone())
    }
}

impl PartialEq for DeclarationId {
    fn eq(&self, other: &Self) -> (b: bool) {
        self.0 == other.0
    }
}

impl vstd::std_specs::cmp::PartialEqSpecImpl for DeclarationId {
    open spec fn obeys_eq_spec() -> bool {
        true
    }

    open spec fn eq_spec(&self, other: &DeclarationId) -> bool {
        self@ == other@
    }
}

/// A retroactive declaration as submitted.
#[derive(Debug, Clone, PartialEq, Eq)]
pub struct RetroactiveApplication {
    /// The contributor.
    pub contributor_id: FayID,
    /// The chain.
    pub chain_id: ChainId,
    /// What was done.
    pub description: String,
    /// When it happened.
    pub occurred_at: Timestamp,
    /// Supporting evidence.
    pub evidence_refs: Vec<EvidenceRef>,
}

impl RetroactiveApplication {
    /// Builds an application.
    pub fn new(
        contributor_id: FayID,
        chain_id: ChainId,
        description: &str,
        occurred_at: Timestamp,
        evidence_refs: Vec<EvidenceRef>,
    ) -> (a: RetroactiveApplication)
        ensures
            a.contributor_id == contributor_id,
            a.chain_id == chain_id,
            a.description@ == description@,
            a.occurred_at == occurred_at,
            a.evidence_refs == evidence_refs,
    {
        RetroactiveApplication {
            contributor_id,
            chain_id,
            description: description.to_owned(),
            occurred_at,
            evidence_refs,
        }
    }
}

/// A stored declaration.
#[derive(Debug, Clone, PartialEq, Eq)]
pub struct RetroactiveDeclaration {
    /// Its id.
    pub id: DeclarationId,
    /// The contributor.
    pub contributor_id: FayID,
    /// The chain.
    pub chain_id: ChainId,
    /// What was done.
    pub description: String,
    /// When it happened.
    pub occurred_at: Timestamp,
    /// Supporting evidence.
    pub evidence_refs: Vec<EvidenceRef>,
    /// Review state.
    pub review_status: ReviewStatus,
    /// Handle of the review vote, once resolved.
    pub vote_id: Option<String>,
    /// Whether the outcome was anchored.
    pub anchored: bool,
}

impl RetroactiveDeclaration {
    /// Its id.
    pub fn id(&self) -> (r: &DeclarationId)
        ensures
            r@ == self.id@,
    {
        &self.id
    }

    /// The contributor.
    pub fn contributor_id(&self) -> (r: &FayID)
        ensures
            *r == self.contributor_id,
    {
        &self.contributor_id
    }

    /// The chain.
    pub fn chain_id(&self) -> (r: &ChainId)
        ensures
            *r == self.chain_id,
    {
        &self.chain_id
    }

    /// What was done.
    pub fn description(&self) -> (r: &str)
        ensures
            r@ == self.description@,
    {
        self.description.as_str()
    }

    /// When it happened.
    pub fn occurred_at(&self) -> (t: Timestamp)
        ensures
            t == self.occurred_at,
    {
        self.occurred_at
    }

    /// Supporting evidence.
    pub fn evidence_refs(&self) -> (r: &[EvidenceRef])
        ensures
            r@ == self.evidence_refs@,
    {
        self.evidence_refs.as_slice()
    }

    /// Review state.
    pub fn review_status(&self) -> (s: ReviewStatus)
        ensures
            s == self.review_status,
    {
        self.review_status
    }

    /// Handle of the review vote.
    pub fn vote_id(&self) -> (r: Option<&str>)
        ensures
            match self.vote_id {
                Some(s) => r matches Some(t) && t@ == s@,
                None => r is None,
            },
    {
        match &self.vote_id {
            Some(s) => Some(s.as_str()),
            None => None,
        }
    }

    /// Whether the outcome was anchored.
    pub fn anchored(&self) -> (b: bool)
        ensures
            b == self.anchored,
    {
        self.anchored
    }
}

/// The `2/3` floor (raw `0.666667`, rounded up so it is at least two thirds).
pub const RETRO_TWO_THIRDS_FLOOR_RAW: i128 = 666_667;

/// The retroactive threshold (raw) for a regular threshold `regular`: the `2/3` floor
/// when the regular one is below it, otherwise one unit above it, capped at `1`.
pub open spec fn retro_threshold_value(regular: int) -> int {
    if regular < RETRO_TWO_THIRDS_FLOOR_RAW {
        RETRO_TWO_THIRDS_FLOOR_RAW as int
    } else if regular + 1 <= 1_000_000 {
        regular + 1
    } else {
        1_000_000
    }
}

/// The stricter threshold a retroactive review must meet. It is at least the `2/3`
/// floor, and strictly above `regular` unless `regular` is already `1`.
pub fn retro_threshold(regular: Ratio) -> (r: Ratio)
    ensures
        r@ == retro_threshold_value(regular@),
        r@ >= RETRO_TWO_THIRDS_FLOOR_RAW,
        regular@ < 1_000_000 ==> r@ > regular@,
{
    let v = regular.value();
    if v.raw() < RETRO_TWO_THIRDS_FLOOR_RAW {
        match Ratio::new(Decimal::from_raw(RETRO_TWO_THIRDS_FLOOR_RAW)) {
            Some(r) => r,
            None => Ratio::one(),
        }
    } else {
        match v.checked_add(Decimal::from_raw(1)) {
            Some(bumped) => match Ratio::new(bumped) {
                Some(r) => r,
                None => Ratio::one(),
            },
            None => Ratio::one(),
        }
    }
}

/// Why a declaration with these parts is rejected at intake, if it is.
pub open spec fn intake_error(
    contributor: Seq<char>,
    chain: Seq<char>,
    description: Seq<char>,
    evidence: Seq<EvidenceRef>,
) -> Option<GmcError> {
    if contributor.len() == 0 || chain.len() == 0 || (forall|i: int|
        0 <= i < description.len() ==> unicode_white_space(#[trigger] description[i])) {
        Some(GmcError::FieldValidation)
    } else if !(exists|i: int| 0 <= i < evidence.len() && (#[trigger] evidence[i]).spec_replayable()) {
        Some(GmcError::EvidenceInvalid)
    } else {
        None
    }
}

/// Why a declaration is rejected at intake, if it is.
pub open spec fn submission_error(app: RetroactiveApplication) -> Option<GmcError> {
    intake_error(app.contributor_id@, app.chain_id@, app.description@, app.evidence_refs@)
}

/// The text of declaration id number `n`.
pub open spec fn declaration_id_text(n: u64) -> Seq<char> {
    "retro-"@ + decimal_text(n as nat)
}

/// Distinct numbers give distinct declaration ids.
pub proof fn lemma_declaration_ids_distinct(a: u64, b: u64)
    requires
        a != b,
    ensures
        declaration_id_text(a) != declaration_id_text(b),
{
    lemma_decimal_text_injective(a as nat, b as nat);
    let p = "retro-"@;
    let x = declaration_id_text(a);
    let y = declaration_id_text(b);
    if x == y {
        assert(x.subrange(p.len() as int, x.len() as int) =~= decimal_text(a as nat));
        assert(y.subrange(p.len() as int, y.len() as int) =~= decimal_text(b as nat));
    }
}

/// Declarations in strictly increasing id order (by text).
pub open spec fn decls_in_id_order(s: Seq<RetroactiveDeclaration>) -> bool {
    forall|i: int, j: int| 0 <= i < j < s.len() ==> lex_lt(#[trigger] s[i].id@, #[trigger] s[j].id@)
}

proof fn lemma_ordered_decls_distinct(s: Seq<RetroactiveDeclaration>)
    requires
        decls_in_id_order(s),
    ensures
        forall|i: int, j: int|
            0 <= i < s.len() && 0 <= j < s.len() && i != j ==> #[trigger] s[i].id@ != #[trigger] s[j].id@,
{
    assert forall|i: int, j: int|
        0 <= i < s.len() && 0 <= j < s.len() && i != j implies #[trigger] s[i].id@
        != #[trigger] s[j].id@ by {
        lemma_lex_irreflexive(s[i].id@);
        if i < j {
            assert(lex_lt(s[i].id@, s[j].id@));
        } else {
            assert(lex_lt(s[j].id@, s[i].id@));
        }
    }
}

/// A well-formed module holds its declarations in strictly increasing id order.
pub proof fn lemma_decls_in_id_order(m: &RetroactiveReviewModule)
    requires
        m.wf(),
    ensures
        decls_in_id_order(m.spec_decls()),
{
}

/// A well-formed module stores each declaration id once.
pub proof fn lemma_decl_ids_distinct(m: &RetroactiveReviewModule)
    requires
        m.wf(),
    ensures
        forall|i: int, j: int|
            0 <= i < m.spec_decls().len() && 0 <= j < m.spec_decls().len() && i != j
                ==> m.spec_decls()[i].id@ != m.spec_decls()[j].id@,
{
    lemma_ordered_decls_distinct(m.spec_decls());
}

/// In a well-formed module the declaration stored at `i` is the one found by its id.
pub proof fn lemma_position_of_stored(m: &RetroactiveReviewModule, i: int)
    requires
        m.wf(),
        0 <= i < m.spec_decls().len(),
    ensures
        m.position(m.spec_decls()[i].id@) == Some(i),
{
    lemma_ordered_decls_distinct(m.spec_decls());
    assert(0 <= i < m.spec_decls().len() && m.spec_decls()[i].id@ == m.spec_decls()[i].id@);
}

/// Stores retroactive declarations in id order.
#[derive(Debug, Clone, Default)]
pub struct RetroactiveReviewModule {
    declarations: Vec<RetroactiveDeclaration>,
    next_seq: u64,
}

impl RetroactiveReviewModule {
    /// The stored declarations.
    pub closed spec fn spec_decls(&self) -> Seq<RetroactiveDeclaration> {
        self.declarations@
    }

    /// Number of the next declaration id.
    pub closed spec fn spec_next_seq(&self) -> u64 {
        self.next_seq
    }

    /// The declarations are in strictly increasing id order, no two share an id, and
    /// none uses an id still to be allocated.
    pub closed spec fn wf(&self) -> bool {
        &&& decls_in_id_order(self.declarations@)
        &&& forall|i: int, j: int|
            0 <= i < self.declarations@.len() && 0 <= j < self.declarations@.len() && i != j
                ==> self.declarations@[i].id@ != self.declarations@[j].id@
        &&& forall|i: int, n: u64|
            0 <= i < self.declarations@.len() && n >= self.next_seq ==> (
            #[trigger] self.declarations@[i]).id@ != #[trigger] declaration_id_text(n)
    }

    /// The position of the declaration with id `id`, if stored.
    pub open spec fn position(&self, id: Seq<char>) -> Option<int> {
        if exists|i: int| 0 <= i < self.spec_decls().len() && self.spec_decls()[i].id@ == id {
            Some(choose|i: int| 0 <= i < self.spec_decls().len() && self.spec_decls()[i].id@ == id)
        } else {
            None
        }
    }

    /// An empty module; ids start at `retro-0`.
    pub fn new() -> (m: RetroactiveReviewModule)
        ensures
            m.wf(),
            m.spec_decls().len() == 0,
            m.spec_next_seq() == 0,
    {
        RetroactiveReviewModule { declarations: Vec::new(), next_seq: 0 }
    }

    fn find_id(&self, id: &DeclarationId) -> (r: Option<usize>)
        requires
            self.wf(),
        ensures
            r matches Some(i) ==> i < self.spec_decls().len() && self.spec_decls()[i as int].id@
                == id@ && self.position(id@) == Some(i as int),
            r is None ==> self.position(id@) is None,
    {
        let mut i: usize = 0;
        while i < self.declarations.len()
            invariant
                self.wf(),
                i <= self.declarations@.len(),
                forall|j: int| 0 <= j < i ==> self.declarations@[j].id@ != id@,
            decreases self.declarations@.len() - i,
        {
            if self.declarations[i].id == *id {
                proof {
                    let k = choose|k: int|
                        0 <= k < self.spec_decls().len() && self.spec_decls()[k].id@ == id@;
                    assert(k == i);
                }
                return Some(i);
            }
            i = i + 1;
        }
        None
    }

    /// Accepts a declaration (see [`submission_error`]): on success it is stored
    /// `Pending`, without vote, unanchored, under id `retro-N`; on rejection nothing
    /// changes.
    pub fn submit(&mut self, application: RetroactiveApplication) -> (r: GmcResult<DeclarationId>)
        requires
            old(self).wf(),
            old(self).spec_next_seq() < u64::MAX,
        ensures
            final(self).wf(),
            submission_error(application) matches Some(e) ==> r == Err::<DeclarationId, GmcError>(
                e,
            ) && *final(self) == *old(self),
            submission_error(application) is None ==> {
                &&& r matches Ok(id) && id@ == declaration_id_text(old(self).spec_next_seq())
                &&& final(self).spec_next_seq() == old(self).spec_next_seq() + 1
                &&& exists|p: int|
                    0 <= p <= old(self).spec_decls().len() && {
                        let d = #[trigger] final(self).spec_decls()[p];
                        &&& final(self).spec_decls() == old(self).spec_decls().insert(p, d)
                        &&& d.id@ == declaration_id_text(old(self).spec_next_seq())
                        &&& d.contributor_id == application.contributor_id
                        &&& d.chain_id == application.chain_id
                        &&& d.description@ == application.description@
                        &&& d.occurred_at == application.occurred_at
                        &&& d.evidence_refs == application.evidence_refs
                        &&& d.review_status == ReviewStatus::Pending
                        &&& d.vote_id is None
                        &&& !d.anchored
                    }
            },
    {
        if application.contributor_id.is_empty() || application.chain_id.is_empty() || is_blank(
            application.description.as_str(),
        ) {
            return Err(GmcError::FieldValidation);
        }
        let mut has_replayable = false;
        let mut k: usize = 0;
        while k < application.evidence_refs.len()
            invariant
                k <= application.evidence_refs@.len(),
                has_replayable == exists|j: int|
                    0 <= j < k && (#[trigger] application.evidence_refs@[j]).spec_replayable(),
            decreases application.evidence_refs@.len() - k,
        {
            if application.evidence_refs[k].is_replayable() {
                has_replayable = true;
            }
            k = k + 1;
        }
        if !has_replayable {
            return Err(GmcError::EvidenceInvalid);
        }
        let ghost old_decls = self.declarations@;
        let ghost n0 = self.next_seq;
        let id = self.allocate_id();
        let declaration = RetroactiveDeclaration {
            id: id.clone(),
            contributor_id: application.contributor_id,
            chain_id: application.chain_id,
            description: application.description,
            occurred_at: application.occurred_at,
            evidence_refs: application.evidence_refs,
            review_status: ReviewStatus::Pending,
            vote_id: None,
            anchored: false,
        };
        let mut p: usize = 0;
        while p < self.declarations.len() && str_lex_lt(
            self.declarations[p].id.as_str(),
            id.as_str(),
        )
            invariant
                p <= old_decls.len(),
                old_decls == self.declarations@,
                decls_in_id_order(old_decls),
                forall|j: int| 0 <= j < p ==> lex_lt(#[trigger] old_decls[j].id@, id@),
            decreases old_decls.len() - p,
        {
            p = p + 1;
        }
        proof {
            if p < old_decls.len() {
                assert(old_decls[p as int].id@ != declaration_id_text(n0));
                lemma_lex_total(old_decls[p as int].id@, id@);
            }
        }
        self.declarations.insert(p, declaration);
        proof {
            let s = self.declarations@;
            assert(s == old_decls.insert(p as int, declaration));
            assert forall|a: int, b: int| 0 <= a < b < s.len() implies lex_lt(
                #[trigger] s[a].id@,
                #[trigger] s[b].id@,
            ) by {
                if b < p {
                } else if b == p {
                } else if a < p {
                    if b - 1 > p {
                        lemma_lex_transitive(id@, old_decls[p as int].id@, old_decls[b - 1].id@);
                    }
                    lemma_lex_transitive(old_decls[a].id@, id@, s[b].id@);
                } else if a == p {
                    if b - 1 > p {
                        lemma_lex_transitive(id@, old_decls[p as int].id@, old_decls[b - 1].id@);
                    }
                } else {
                }
            }
            lemma_ordered_decls_distinct(s);
            assert forall|q: int, m: u64| 0 <= q < s.len() && m >= self.next_seq implies (
            #[trigger] s[q]).id@ != #[trigger] declaration_id_text(m) by {
                if q < p {
                    assert(old_decls[q].id@ != declaration_id_text(m));
                } else if q > p {
                    assert(s[q] == old_decls[q - 1]);
                    assert(old_decls[q - 1].id@ != declaration_id_text(m));
                } else {
                    lemma_declaration_ids_distinct(n0, m);
                }
            }
            assert(self.spec_decls()[p as int] == declaration);
            assert(self.spec_decls() == old(self).spec_decls().insert(
                p as int,
                self.spec_decls()[p as int],
            ));
        }
        Ok(id)
    }

    /// The declaration with id `id`.
    pub fn get(&self, id: &DeclarationId) -> (r: Option<&RetroactiveDeclaration>)
        requires
            self.wf(),
        ensures
            match self.position(id@) {
                Some(i) => r matches Some(x) && *x == self.spec_decls()[i],
                None => r is None,
            },
    {
        match self.find_id(id) {
            Some(i) => Some(&self.declarations[i]),
            None => None,
        }
    }

    /// Number of stored declarations.
    pub fn len(&self) -> (n: usize)
        ensures
            n == self.spec_decls().len(),
    {
        self.declarations.len()
    }

    /// `true` iff nothing is stored.
    pub fn is_empty(&self) -> (b: bool)
        ensures
            b == (self.spec_decls().len() == 0),
    {
        self.declarations.len() == 0
    }

    /// The stored declarations, in id order.
    pub fn iter(&self) -> (r: std::slice::Iter<'_, RetroactiveDeclaration>)
        ensures
            vstd::std_specs::slice::into_iter_elts(r) == self.spec_decls(),
    {
        broadcast use vstd::std_specs::slice::axiom_spec_slice_iter;

        self.declarations.iter()
    }

    /// Resolves the review vote of a `Pending` declaration: the vote handle is
    /// recorded and the declaration becomes `Approved` when `weighted_approval`
    /// reaches [`retro_threshold`] of `regular_threshold` (inclusive), `Rejected` (with
    /// `RetroThresholdNotMet`) otherwise. An unknown or already-resolved declaration
    /// is `FieldValidation` and nothing changes.
    pub fn resolve_vote(
        &mut self,
        id: &DeclarationId,
        weighted_approval: Ratio,
        regular_threshold: Ratio,
        vote_handle: &str,
    ) -> (r: GmcResult<ReviewStatus>)
        requires
            old(self).wf(),
        ensures
            final(self).wf(),
            final(self).spec_next_seq() == old(self).spec_next_seq(),
            match old(self).position(id@) {
                None => r == Err::<ReviewStatus, GmcError>(GmcError::FieldValidation) && *final(self)
                    == *old(self),
                Some(i) => if old(self).spec_decls()[i].review_status != ReviewStatus::Pending {
                    r == Err::<ReviewStatus, GmcError>(GmcError::FieldValidation) && *final(self)
                        == *old(self)
                } else {
                    let approved = weighted_approval@ >= retro_threshold_value(regular_threshold@);
                    let old_d = old(self).spec_decls()[i];
                    let new_d = final(self).spec_decls()[i];
                    &&& final(self).spec_decls().len() == old(self).spec_decls().len()
                    &&& forall|j: int|
                        0 <= j < old(self).spec_decls().len() && j != i ==> (#[trigger] final(self).spec_decls()[j]) == old(self).spec_decls()[j]
                    &&& new_d.vote_id matches Some(v) && v@ == vote_handle@
                    &&& new_d.review_status == if approved {
                        ReviewStatus::Approved
                    } else {
                        ReviewStatus::Rejected
                    }
                    &&& new_d.id == old_d.id && new_d.contributor_id == old_d.contributor_id
                        && new_d.chain_id == old_d.chain_id && new_d.description == old_d.description
                        && new_d.occurred_at == old_d.occurred_at && new_d.evidence_refs
                        == old_d.evidence_refs && new_d.anchored == old_d.anchored
                    &&& r == if approved {
                        Ok::<ReviewStatus, GmcError>(ReviewStatus::Approved)
                    } else {
                        Err::<ReviewStatus, GmcError>(GmcError::RetroThresholdNotMet)
                    }
                },
            },
    {
        let i = match self.find_id(id) {
            Some(i) => i,
            None => {
                return Err(GmcError::FieldValidation);
            },
        };
        if self.declarations[i].review_status != ReviewStatus::Pending {
            return Err(GmcError::FieldValidation);
        }
        let retro = retro_threshold(regular_threshold);
        let ghost old_decls = self.declarations@;
        self.declarations[i].vote_id = Some(vote_handle.to_owned());
        let approved = retro.value().at_most(&weighted_approval.value());
        if approved {
            self.declarations[i].review_status = ReviewStatus::Approved;
        } else {
            self.declarations[i].review_status = ReviewStatus::Rejected;
        }
        proof {
            assert forall|j: int| 0 <= j < self.declarations@.len() && j != i implies (#[trigger] self.declarations@[j])
                == old_decls[j] by {}
        }
        if approved {
            Ok(ReviewStatus::Approved)
        } else {
            Err(GmcError::RetroThresholdNotMet)
        }
    }

    /// Marks the declaration's outcome anchored; an unknown id is `FieldValidation`
    /// and nothing changes.
    pub fn anchor_outcome(&mut self, id: &DeclarationId) -> (r: GmcResult<()>)
        requires
            old(self).wf(),
        ensures
            final(self).wf(),
            final(self).spec_next_seq() == old(self).spec_next_seq(),
            match old(self).position(id@) {
                None => r == Err::<(), GmcError>(GmcError::FieldValidation) && *final(self) == *old(
                    self,
                ),
                Some(i) => {
                    &&& r is Ok
                    &&& final(self).spec_decls().len() == old(self).spec_decls().len()
                    &&& forall|j: int|
                        0 <= j < old(self).spec_decls().len() && j != i ==> (#[trigger] final(self).spec_decls()[j]) == old(self).spec_decls()[j]
                    &&& final(self).spec_decls()[i] == RetroactiveDeclaration {
                        anchored: true,
                        ..old(self).spec_decls()[i]
                    }
                },
            },
    {
        let i = match self.find_id(id) {
            Some(i) => i,
            None => {
                return Err(GmcError::FieldValidation);
            },
        };
        self.declarations[i].anchored = true;
        Ok(())
    }

    fn allocate_id(&mut self) -> (r: DeclarationId)
        requires
            old(self).spec_next_seq() < u64::MAX,
        ensures
            r@ == declaration_id_text(old(self).spec_next_seq()),
            final(self).spec_next_seq() == old(self).spec_next_seq() + 1,
            final(self).spec_decls() == old(self).spec_decls(),
    {
        proof {
            reveal_strlit("retro-");
        }
        let id = DeclarationId::from_string(text_with_number("retro-", self.next_seq));
        self.next_seq = self.next_seq + 1;
        id
    }
}

} // verus!

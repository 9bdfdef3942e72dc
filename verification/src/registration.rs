//! `Registration_Service`: prior registration of an intended contribution.
//!
//! A registration is accepted when the contributor and chain ids are non-empty and
//! the description has at most [`MAX_DESCRIPTION_CHARS`] characters (counted as
//! Unicode scalar values, not bytes); it then gets a fresh id `reg-N` and starts
//! `Valid`. A grant requires a valid registration, a linked contribution record, and
//! a passed evaluation, all three.
use vstd::prelude::*;
use vstd::string::StrSliceExecFns;

use crate::error::{GmcError, GmcResult};
use crate::types::{
    decimal_text, lemma_lex_irreflexive, lemma_lex_total, lemma_lex_transitive, lex_lt, str_lex_lt,
    text_with_number, ChainId, FayID, Timestamp,
};

verus! {

/// Maximum description length, in characters.
pub const MAX_DESCRIPTION_CHARS: usize = 2000;

/// Lifecycle of a registration.
#[derive(Debug, Clone, Copy, PartialEq, Eq, PartialOrd, Ord, Hash, Default, Structural)]
pub enum RegistrationStatus {
    /// Usable for a grant.
    #[default]
    Valid,
    /// Already used by a grant.
    Consumed,
    /// Withdrawn.
    Revoked,
}

impl RegistrationStatus {
    /// `true` for `Valid`.
    pub fn is_valid(self) -> (b: bool)
        ensures
            b == (self is Valid),
    {
        match self {
            RegistrationStatus::Valid => true,
            _ => false,
        }
    }
}

/// Identifier of a registration.
#[derive(Debug, Eq, PartialOrd, Ord, Hash, Default)]
pub struct RegistrationId(String);

impl View for RegistrationId {
    type V = Seq<char>;

    closed spec fn view(&self) -> Seq<char> {
        self.0@
    }
}

impl RegistrationId {
    /// Builds an id from its text.
    pub fn new(id: &str) -> (r: RegistrationId)
        ensures
            r@ == id@,
    {
        RegistrationId(id.to_owned())
    }

    fn from_string(id: String) -> (r: RegistrationId)
        ensures
            r@ == id@,
    {
        RegistrationId(id)
    }

    /// The id's text.
    pub fn as_str(&self) -> (s: &str)
        ensures
            s@ == self@,
    {
        self.0.as_str()
    }

    /// The id rendered as text for display: the id itself.
    pub fn to_string(&self) -> (s: String)
        ensures
            s@ == self@,
    {
        self.0.clone()
    }
}

impl Clone for RegistrationId {
    fn clone(&self) -> (c: Self)
        ensures
            c@ == self@,
    {
        RegistrationId(self.0.clone())
    }
}

impl PartialEq for RegistrationId {
    fn eq(&self, other: &Self) -> (b: bool) {
        self.0 == other.0
    }
}

impl vstd::std_specs::cmp::PartialEqSpecImpl for RegistrationId {
    open spec fn obeys_eq_spec() -> bool {
        true
    }

    open spec fn eq_spec(&self, other: &RegistrationId) -> bool {
        self@ == other@
    }
}

/// A stored registration.
#[derive(Debug, Clone, PartialEq, Eq)]
pub struct Registration {
    /// Its id.
    pub id: RegistrationId,
    /// The registering contributor.
    pub contributor_id: FayID,
    /// The target chain.
    pub chain_id: ChainId,
    /// The intended contribution.
    pub description: String,
    /// Registration time.
    pub registered_at: Timestamp,
    /// Lifecycle status.
    pub status: RegistrationStatus,
}

impl Registration {
    /// Its id.
    pub fn id(&self) -> (r: &RegistrationId)
        ensures
            r@ == self.id@,
    {
        &self.id
    }

    /// The contributor.
    pub fn contributor_id(&self) -> (r: &FayID)
        ensures
            *r == self.contributor_id,
    {
        &self.contributor_id
    }

    /// The chain.
    pub fn chain_id(&self) -> (r: &ChainId)
        ensures
            *r == self.chain_id,
    {
        &self.chain_id
    }

    /// The description.
    pub fn description(&self) -> (r: &str)
        ensures
            r@ == self.description@,
    {
        self.description.as_str()
    }

    /// Registration time.
    pub fn registered_at(&self) -> (t: Timestamp)
        ensures
            t == self.registered_at,
    {
        self.registered_at
    }

    /// Lifecycle status.
    pub fn status(&self) -> (s: RegistrationStatus)
        ensures
            s == self.status,
    {
        self.status
    }

    /// `true` iff the status is `Valid`.
    pub fn is_valid(&self) -> (b: bool)
        ensures
            b == (self.status is Valid),
    {
        self.status.is_valid()
    }
}

/// An application for registration.
#[derive(Debug, Clone, PartialEq, Eq)]
pub struct RegistrationApplication {
    /// The contributor.
    pub contributor_id: FayID,
    /// The target chain.
    pub chain_id: ChainId,
    /// The intended contribution.
    pub description: String,
    /// Application time.
    pub registered_at: Timestamp,
}

impl RegistrationApplication {
    /// Builds an application.
    pub fn new(
        contributor_id: FayID,
        chain_id: ChainId,
        description: &str,
        registered_at: Timestamp,
    ) -> (a: RegistrationApplication)
        ensures
            a.contributor_id == contributor_id,
            a.chain_id == chain_id,
            a.description@ == description@,
            a.registered_at == registered_at,
    {
        RegistrationApplication {
            contributor_id,
            chain_id,
            description: description.to_owned(),
            registered_at,
        }
    }
}

/// The facts a grant decision needs besides the registration, supplied by the caller.
pub trait GrantContext {
    /// Whether this context's answers follow [`GrantContext::spec_linked`] and
    /// [`GrantContext::spec_passed`]; an implementation that defines neither makes no
    /// claim.
    open spec fn obeys_grant_spec(&self) -> bool {
        false
    }

    /// The linked-record fact this context reports.
    open spec fn spec_linked(&self) -> bool {
        false
    }

    /// The evaluation fact this context reports.
    open spec fn spec_passed(&self) -> bool {
        false
    }

    /// Whether a contribution record is linked to the registration.
    fn has_linked_record(&self) -> (b: bool)
        ensures
            self.obeys_grant_spec() ==> b == self.spec_linked(),
    ;

    /// Whether the contribution's evaluation passed.
    fn evaluation_passed(&self) -> (b: bool)
        ensures
            self.obeys_grant_spec() ==> b == self.spec_passed(),
    ;
}

/// A grant is allowed iff there is a valid registration, a linked record and a passed
/// evaluation.
pub fn can_grant(
    registration: Option<&Registration>,
    has_linked_contribution_record: bool,
    evaluation_passed: bool,
) -> (b: bool)
    ensures
        b == ((registration matches Some(r) && r.status is Valid) && has_linked_contribution_record
            && evaluation_passed),
{
    let has_valid_registration = match registration {
        Some(r) => r.is_valid(),
        None => false,
    };
    has_valid_registration && has_linked_contribution_record && evaluation_passed
}

/// Why an application is rejected, if it is.
pub open spec fn application_error(app: RegistrationApplication) -> Option<GmcError> {
    if app.contributor_id@.len() == 0 || app.chain_id@.len() == 0 || app.description@.len()
        > MAX_DESCRIPTION_CHARS {
        Some(GmcError::FieldValidation)
    } else {
        None
    }
}

/// The text of registration id number `n`.
pub open spec fn registration_id_text(n: u64) -> Seq<char> {
    "reg-"@ + decimal_text(n as nat)
}

/// `r` is a valid registration of `contributor` on `chain`.
pub open spec fn valid_match(r: Registration, contributor: Seq<char>, chain: Seq<char>) -> bool {
    r.status is Valid && r.contributor_id@ == contributor && r.chain_id@ == chain
}

/// The id text of the first registration in `regs` that is a valid registration of
/// `contributor` on `chain`, if there is one.
pub open spec fn first_valid_id(regs: Seq<Registration>, contributor: Seq<char>, chain: Seq<char>) -> Option<
    Seq<char>,
> {
    if exists|i: int| 0 <= i < regs.len() && valid_match(regs[i], contributor, chain) {
        let i = choose|i: int|
            0 <= i < regs.len() && valid_match(regs[i], contributor, chain) && forall|j: int|
                0 <= j < i ==> !valid_match(#[trigger] regs[j], contributor, chain);
        Some(regs[i].id@)
    } else {
        None
    }
}

/// Registrations in strictly increasing id order (by text), so no id occurs twice.
pub open spec fn regs_in_id_order(s: Seq<Registration>) -> bool {
    forall|i: int, j: int| 0 <= i < j < s.len() ==> lex_lt(#[trigger] s[i].id@, #[trigger] s[j].id@)
}

/// A well-formed service holds its registrations in strictly increasing id order, so
/// no id occurs twice and "first in storage order" means "first in id order".
pub proof fn lemma_regs_in_id_order(svc: &RegistrationService)
    requires
        svc.wf(),
    ensures
        regs_in_id_order(svc.spec_regs()),
        forall|i: int, j: int|
            0 <= i < svc.spec_regs().len() && 0 <= j < svc.spec_regs().len() && i != j
                ==> #[trigger] svc.spec_regs()[i].id@ != #[trigger] svc.spec_regs()[j].id@,
{
    let s = svc.spec_regs();
    assert forall|i: int, j: int|
        0 <= i < s.len() && 0 <= j < s.len() && i != j implies #[trigger] s[i].id@
        != #[trigger] s[j].id@ by {
        lemma_lex_irreflexive(s[i].id@);
        if i < j {
            assert(lex_lt(s[i].id@, s[j].id@));
        } else {
            assert(lex_lt(s[j].id@, s[i].id@));
        }
    }
}

proof fn lemma_insert_keeps_id_order(s: Seq<Registration>, p: int, reg: Registration)
    requires
        regs_in_id_order(s),
        0 <= p <= s.len(),
        forall|j: int| 0 <= j < p ==> lex_lt(#[trigger] s[j].id@, reg.id@),
        p < s.len() ==> lex_lt(reg.id@, s[p].id@),
    ensures
        regs_in_id_order(s.insert(p, reg)),
{
    let n = s.insert(p, reg);
    assert forall|a: int, b: int| 0 <= a < b < n.len() implies lex_lt(
        #[trigger] n[a].id@,
        #[trigger] n[b].id@,
    ) by {
        if b < p {
            assert(n[a] == s[a] && n[b] == s[b]);
        } else if b == p {
            assert(n[a] == s[a]);
        } else if a < p {
            assert(n[a] == s[a] && n[b] == s[b - 1]);
            if b - 1 > p {
                lemma_lex_transitive(reg.id@, s[p].id@, s[b - 1].id@);
            }
            lemma_lex_transitive(s[a].id@, reg.id@, n[b].id@);
        } else if a == p {
            assert(n[b] == s[b - 1]);
            if b - 1 > p {
                lemma_lex_transitive(reg.id@, s[p].id@, s[b - 1].id@);
            }
        } else {
            assert(n[a] == s[a - 1] && n[b] == s[b - 1]);
        }
    }
}

/// Stores registrations in id order.
#[derive(Debug, Clone, Default)]
pub struct RegistrationService {
    /// The stored registrations, in increasing id order.
    pub registrations: Vec<Registration>,
    next_seq: u64,
}

impl RegistrationService {
    /// The stored registrations.
    pub closed spec fn spec_regs(&self) -> Seq<Registration> {
        self.registrations@
    }

    /// Number of the next registration id.
    pub closed spec fn spec_next_seq(&self) -> u64 {
        self.next_seq
    }

    /// The registrations are stored in strictly increasing id order.
    pub closed spec fn wf(&self) -> bool {
        regs_in_id_order(self.spec_regs())
    }

    /// An empty service; ids start at `reg-0`.
    pub fn new() -> (s: RegistrationService)
        ensures
            s.wf(),
            s.spec_regs().len() == 0,
            s.spec_next_seq() == 0,
    {
        RegistrationService { registrations: Vec::new(), next_seq: 0 }
    }

    fn find_id(&self, id: &RegistrationId) -> (r: Option<usize>)
        ensures
            r matches Some(i) ==> i < self.spec_regs().len() && self.spec_regs()[i as int].id@
                == id@,
            r is None ==> forall|j: int|
                0 <= j < self.spec_regs().len() ==> self.spec_regs()[j].id@ != id@,
    {
        let mut i: usize = 0;
        while i < self.registrations.len()
            invariant
                i <= self.spec_regs().len(),
                forall|j: int| 0 <= j < i ==> self.spec_regs()[j].id@ != id@,
            decreases self.spec_regs().len() - i,
        {
            if self.registrations[i].id == *id {
                return Some(i);
            }
            i = i + 1;
        }
        None
    }

    /// Registers `app` (see [`application_error`]): on success a `Valid` registration
    /// with id `reg-N` (`N` the next number) is stored, replacing any stored one with
    /// that id; on rejection nothing changes.
    #[verifier::spinoff_prover]
    #[verifier::rlimit(40)]
    pub fn register(&mut self, app: RegistrationApplication) -> (r: GmcResult<RegistrationId>)
        requires
            old(self).wf(),
            old(self).spec_next_seq() < u64::MAX,
        ensures
            final(self).wf(),
            application_error(app) matches Some(e) ==> r == Err::<RegistrationId, GmcError>(e)
                && final(self).spec_regs() == old(self).spec_regs()
                && final(self).spec_next_seq() == old(self).spec_next_seq(),
            application_error(app) is None ==> {
                let n = old(self).spec_regs().len();
                let idt = registration_id_text(old(self).spec_next_seq());
                &&& r matches Ok(id) && id@ == idt
                &&& final(self).spec_next_seq() == old(self).spec_next_seq() + 1
                &&& exists|k: int|
                    0 <= k < final(self).spec_regs().len() && {
                        let reg = #[trigger] final(self).spec_regs()[k];
                        &&& reg.id@ == idt
                        &&& reg.contributor_id == app.contributor_id
                        &&& reg.chain_id == app.chain_id
                        &&& reg.description@ == app.description@
                        &&& reg.registered_at == app.registered_at
                        &&& reg.status == RegistrationStatus::Valid
                    }
                &&& forall|j: int|
                    0 <= j < n && old(self).spec_regs()[j].id@ != idt ==> exists|k: int|
                        0 <= k < final(self).spec_regs().len()
                            && #[trigger] final(self).spec_regs()[k]
                            == old(self).spec_regs()[j]
                &&& forall|k: int|
                    0 <= k < final(self).spec_regs().len()
                        && (#[trigger] final(self).spec_regs()[k]).id@ != idt ==> exists|j: int|
                        0 <= j < n && old(self).spec_regs()[j] == final(self).spec_regs()[k]
            },
    {
        if app.contributor_id.is_empty() {
            return Err(GmcError::FieldValidation);
        }
        if app.chain_id.is_empty() {
            return Err(GmcError::FieldValidation);
        }
        if app.description.as_str().unicode_len() > MAX_DESCRIPTION_CHARS {
            return Err(GmcError::FieldValidation);
        }
        let id = self.allocate_id();
        let registration = Registration {
            id: id.clone(),
            contributor_id: app.contributor_id,
            chain_id: app.chain_id,
            description: app.description,
            registered_at: app.registered_at,
            status: RegistrationStatus::Valid,
        };
        let ghost old_regs = self.spec_regs();
        let mut p: usize = 0;
        while p < self.registrations.len() && str_lex_lt(
            self.registrations[p].id.as_str(),
            id.as_str(),
        )
            invariant
                p <= old_regs.len(),
                old_regs == self.spec_regs(),
                regs_in_id_order(old_regs),
                forall|j: int| 0 <= j < p ==> lex_lt(#[trigger] old_regs[j].id@, id@),
            decreases old_regs.len() - p,
        {
            p = p + 1;
        }
        proof {
            if p < old_regs.len() && old_regs[p as int].id@ != id@ {
                lemma_lex_total(old_regs[p as int].id@, id@);
            }
        }
        if p < self.registrations.len() && self.registrations[p].id == id {
            self.registrations.set(p, registration);
            proof {
                let s = self.spec_regs();
                assert(s == old_regs.update(p as int, registration));
                assert forall|a: int, b: int| 0 <= a < b < s.len() implies lex_lt(
                    #[trigger] s[a].id@,
                    #[trigger] s[b].id@,
                ) by {
                    assert(s[a].id@ == old_regs[a].id@);
                    assert(s[b].id@ == old_regs[b].id@);
                }
                assert(self.wf());
                assert forall|j: int|
                    0 <= j < old_regs.len() && old_regs[j].id@ != id@ implies exists|k: int|
                    0 <= k < s.len() && #[trigger] s[k] == old_regs[j] by {
                    assert(s[j] == old_regs[j]);
                }
                assert forall|k: int|
                    0 <= k < s.len() && (#[trigger] s[k]).id@ != id@ implies exists|j: int|
                    0 <= j < old_regs.len() && old_regs[j] == s[k] by {
                    assert(s[k] == old_regs[k]);
                }
                assert(s[p as int].id@ == id@);
            }
        } else {
            proof {
                if p < old_regs.len() {
                    assert(lex_lt(id@, old_regs[p as int].id@));
                }
            }
            self.registrations.insert(p, registration);
            proof {
                let s = self.spec_regs();
                assert(s == old_regs.insert(p as int, registration));
                lemma_insert_keeps_id_order(old_regs, p as int, registration);
                assert(self.wf());
                assert forall|j: int|
                    0 <= j < old_regs.len() && old_regs[j].id@ != id@ implies exists|k: int|
                    0 <= k < s.len() && #[trigger] s[k] == old_regs[j] by {
                    if j < p {
                        assert(s[j] == old_regs[j]);
                    } else {
                        assert(s[j + 1] == old_regs[j]);
                    }
                }
                assert forall|k: int|
                    0 <= k < s.len() && (#[trigger] s[k]).id@ != id@ implies exists|j: int|
                    0 <= j < old_regs.len() && old_regs[j] == s[k] by {
                    if k < p {
                        assert(s[k] == old_regs[k]);
                    } else {
                        assert(k != p);
                        assert(s[k] == old_regs[k - 1]);
                    }
                }
                assert(s[p as int].id@ == id@);
            }
        }
        Ok(id)
    }

    /// The first stored registration (in id order) that is valid and belongs to
    /// `contributor_id` on `chain_id`.
    pub fn find_valid_registration(&self, contributor_id: &FayID, chain_id: &ChainId) -> (r: Option<
        &Registration,
    >)
        ensures
            r matches Some(x) ==> exists|i: int|
                0 <= i < self.spec_regs().len() && self.spec_regs()[i] == *x && valid_match(
                    self.spec_regs()[i],
                    contributor_id@,
                    chain_id@,
                ) && forall|j: int|
                    0 <= j < i ==> !valid_match(
                        #[trigger] self.spec_regs()[j],
                        contributor_id@,
                        chain_id@,
                    ),
            r is None ==> forall|i: int|
                0 <= i < self.spec_regs().len() ==> !valid_match(
                    #[trigger] self.spec_regs()[i],
                    contributor_id@,
                    chain_id@,
                ),
    {
        let mut i: usize = 0;
        while i < self.registrations.len()
            invariant
                i <= self.spec_regs().len(),
                forall|j: int|
                    0 <= j < i ==> !valid_match(
                        #[trigger] self.spec_regs()[j],
                        contributor_id@,
                        chain_id@,
                    ),
            decreases self.spec_regs().len() - i,
        {
            let reg = &self.registrations[i];
            if reg.status.is_valid() && reg.contributor_id == *contributor_id && reg.chain_id
                == *chain_id {
                return Some(reg);
            }
            i = i + 1;
        }
        None
    }

    /// [`can_grant`] over the first matching valid registration and the facts the
    /// context reports: `true` only when a valid registration exists, and then exactly
    /// when the context reports both a linked record and a passed evaluation.
    pub fn can_grant<C: GrantContext>(&self, contributor_id: &FayID, chain_id: &ChainId, ctx: &C) -> (b:
        bool)
        ensures
            b ==> exists|i: int|
                0 <= i < self.spec_regs().len() && valid_match(
                    #[trigger] self.spec_regs()[i],
                    contributor_id@,
                    chain_id@,
                ),
            ctx.obeys_grant_spec() ==> b == ((exists|i: int|
                0 <= i < self.spec_regs().len() && valid_match(
                    #[trigger] self.spec_regs()[i],
                    contributor_id@,
                    chain_id@,
                )) && ctx.spec_linked() && ctx.spec_passed()),
    {
        let registration = self.find_valid_registration(contributor_id, chain_id);
        let linked = ctx.has_linked_record();
        let passed = ctx.evaluation_passed();
        can_grant(registration, linked, passed)
    }

    /// The registration with id `id`.
    pub fn get(&self, id: &RegistrationId) -> (r: Option<&Registration>)
        ensures
            r matches Some(x) ==> exists|i: int|
                0 <= i < self.spec_regs().len() && self.spec_regs()[i] == *x && x.id@ == id@,
            r is None ==> forall|i: int|
                0 <= i < self.spec_regs().len() ==> self.spec_regs()[i].id@ != id@,
    {
        match self.find_id(id) {
            Some(i) => Some(&self.registrations[i]),
            None => None,
        }
    }

    /// Number of stored registrations.
    pub fn len(&self) -> (n: usize)
        ensures
            n == self.spec_regs().len(),
    {
        self.registrations.len()
    }

    /// `true` iff nothing is stored.
    pub fn is_empty(&self) -> (b: bool)
        ensures
            b == (self.spec_regs().len() == 0),
    {
        self.registrations.len() == 0
    }

    /// The stored registrations, in id order.
    pub fn iter(&self) -> (r: std::slice::Iter<'_, Registration>)
        ensures
            vstd::std_specs::slice::into_iter_elts(r) == self.spec_regs(),
    {
        broadcast use vstd::std_specs::slice::axiom_spec_slice_iter;

        self.registrations.iter()
    }

    /// Seam for anchoring the registration state root; always succeeds.
    pub fn anchor_registration_root(&self) -> (r: GmcResult<()>)
        ensures
            r is Ok,
    {
        Ok(())
    }

    fn allocate_id(&mut self) -> (r: RegistrationId)
        requires
            old(self).spec_next_seq() < u64::MAX,
        ensures
            r@ == registration_id_text(old(self).spec_next_seq()),
            final(self).spec_next_seq() == old(self).spec_next_seq() + 1,
            final(self).registrations == old(self).registrations,
    {
        proof {
            reveal_strlit("reg-");
        }
        let id = RegistrationId::from_string(text_with_number("reg-", self.next_seq));
        self.next_seq = self.next_seq + 1;
        id
    }
}

} // verus!

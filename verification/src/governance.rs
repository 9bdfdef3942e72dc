//! `Governance_Module`: merit-weighted voting.
//!
//! A vote is opened over an electorate of voters, each weighted by its `curMerit`
//! share `curMerit_i / Σ curMerit`. Ballots are cast once per eligible voter, and
//! the tally's approval ratio is `Σ curMerit(approving) / Σ curMerit(electorate)`;
//! abstentions count against approval. A vote passes when the approval ratio is at
//! least its threshold (inclusive). A voter listed twice keeps the merit of its last
//! listing; the electorate is kept in id order.
use vstd::prelude::*;

use crate::types::{
    fits_i128, lemma_lex_irreflexive, lemma_lex_total, lemma_lex_transitive, lex_lt, spec_div,
    str_lex_lt, trunc_div, Decimal, FayID, Ratio, SCALE,
};

verus! {

/// A member of a vote's electorate, weighted by its current merit.
#[derive(Debug, Clone, PartialEq, Eq)]
pub struct Voter {
    /// The voter's identity.
    pub id: FayID,
    /// The voter's `curMerit` at the time the vote opens.
    pub cur_merit: Decimal,
}

impl Voter {
    /// Builds a voter.
    pub fn new(id: FayID, cur_merit: Decimal) -> (v: Voter)
        ensures
            v.id == id,
            v.cur_merit == cur_merit,
    {
        Voter { id, cur_merit }
    }
}

/// What a vote is about; opaque to the tally.
#[derive(Debug, Eq, PartialOrd, Ord, Hash, Default)]
pub struct VoteSubject(String);

impl View for VoteSubject {
    type V = Seq<char>;

    closed spec fn view(&self) -> Seq<char> {
        self.0@
    }
}

impl VoteSubject {
    /// Builds a subject from its text.
    pub fn new(subject: &str) -> (s: VoteSubject)
        ensures
            s@ == subject@,
    {
        VoteSubject(subject.to_owned())
    }

    /// The subject's text.
    pub fn as_str(&self) -> (s: &str)
        ensures
            s@ == self@,
    {
        self.0.as_str()
    }
}

impl Clone for VoteSubject {
    fn clone(&self) -> (c: Self)
        ensures
            c@ == self@,
    {
        VoteSubject(self.0.clone())
    }
}

impl PartialEq for VoteSubject {
    fn eq(&self, other: &Self) -> (b: bool) {
        self.0 == other.0
    }
}

impl vstd::std_specs::cmp::PartialEqSpecImpl for VoteSubject {
    open spec fn obeys_eq_spec() -> bool {
        true
    }

    open spec fn eq_spec(&self, other: &VoteSubject) -> bool {
        self@ == other@
    }
}

/// Handle of an opened vote; votes are numbered from `0` in opening order.
#[derive(Debug, Clone, Copy, PartialEq, Eq, PartialOrd, Ord, Hash, Structural)]
pub struct VoteId(pub u64);

impl VoteId {
    /// The raw vote number.
    pub fn raw(self) -> (r: u64)
        ensures
            r == self.0,
    {
        self.0
    }
}

/// Errors of the governance module.
#[derive(Debug, Clone, Copy, PartialEq, Eq, Hash, Structural)]
pub enum GovernanceError {
    /// No vote with that id was opened.
    UnknownVote,
    /// The voter is not in the vote's electorate.
    VoterNotEligible,
    /// The voter already cast a ballot in this vote.
    AlreadyVoted,
    /// The electorate is empty, has a negative merit, or has zero total merit.
    InvalidElectorate,
    /// A merit sum or ratio does not fit the fixed-point range.
    Overflow,
}

/// The result of a tally.
#[derive(Debug, Clone, PartialEq, Eq)]
pub struct VoteOutcome {
    /// The tallied vote.
    pub vote_id: VoteId,
    /// `Σ curMerit(approving) / Σ curMerit(electorate)`.
    pub approval_ratio: Ratio,
    /// The vote's pass threshold.
    pub threshold: Ratio,
    /// `approval_ratio >= threshold`.
    pub passed: bool,
}

/// The state of one opened vote.
#[derive(Debug)]
pub struct VoteState {
    subject: VoteSubject,
    threshold: Ratio,
    electorate: Vec<(FayID, Decimal)>,
    total_merit: Decimal,
    ballots: Vec<(FayID, bool)>,
    anchored: bool,
}

/// `(id, merit)` pairs by text and raw value.
pub open spec fn merit_entries(e: Seq<(FayID, Decimal)>) -> Seq<(Seq<char>, int)> {
    e.map_values(|p: (FayID, Decimal)| (p.0@, p.1@))
}

/// `(id, approve)` pairs by text.
pub open spec fn ballot_entries(b: Seq<(FayID, bool)>) -> Seq<(Seq<char>, bool)> {
    b.map_values(|p: (FayID, bool)| (p.0@, p.1))
}

/// The position of `id` among the keys of `e`, if present.
pub open spec fn key_index<V>(e: Seq<(Seq<char>, V)>, id: Seq<char>) -> Option<int> {
    if exists|i: int| 0 <= i < e.len() && e[i].0 == id {
        Some(choose|i: int| 0 <= i < e.len() && e[i].0 == id)
    } else {
        None
    }
}

/// No key occurs twice.
pub open spec fn keys_distinct<V>(e: Seq<(Seq<char>, V)>) -> bool {
    forall|i: int, j: int| 0 <= i < e.len() && 0 <= j < e.len() && i != j ==> e[i].0 != e[j].0
}

proof fn lemma_key_index<V>(e: Seq<(Seq<char>, V)>, i: int)
    requires
        keys_distinct(e),
        0 <= i < e.len(),
    ensures
        key_index(e, e[i].0) == Some(i),
{
    assert(exists|k: int| 0 <= k < e.len() && e[k].0 == e[i].0);
}

/// Keys in strictly increasing text order.
pub open spec fn keys_sorted<V>(e: Seq<(Seq<char>, V)>) -> bool {
    forall|i: int, j: int| 0 <= i < j < e.len() ==> lex_lt(#[trigger] e[i].0, #[trigger] e[j].0)
}

/// The number of the first `n` keys of `e` that precede `id`.
pub open spec fn key_rank<V>(e: Seq<(Seq<char>, V)>, id: Seq<char>, n: int) -> int
    decreases n,
{
    if n <= 0 {
        0
    } else {
        key_rank(e, id, n - 1) + if lex_lt(e[n - 1].0, id) {
            1int
        } else {
            0int
        }
    }
}

/// Replace the merit of `id`, or insert it at its place in key order when absent.
pub open spec fn upsert(e: Seq<(Seq<char>, int)>, id: Seq<char>, m: int) -> Seq<(Seq<char>, int)> {
    match key_index(e, id) {
        Some(j) => e.update(j, (id, m)),
        None => e.insert(key_rank(e, id, e.len() as int), (id, m)),
    }
}

proof fn lemma_key_rank<V>(e: Seq<(Seq<char>, V)>, id: Seq<char>, p: int, n: int)
    requires
        keys_sorted(e),
        0 <= p <= n <= e.len(),
        forall|i: int| 0 <= i < p ==> lex_lt(#[trigger] e[i].0, id),
        p < e.len() ==> !lex_lt(e[p].0, id),
    ensures
        key_rank(e, id, n) == p,
    decreases n,
{
    if n > 0 {
        if n - 1 >= p {
            lemma_key_rank(e, id, p, n - 1);
            if n - 1 > p && lex_lt(e[n - 1].0, id) {
                assert(lex_lt(e[p].0, e[n - 1].0));
                lemma_lex_transitive(e[p].0, e[n - 1].0, id);
            }
        } else {
            lemma_key_rank_prefix(e, id, n);
        }
    }
}

proof fn lemma_key_rank_prefix<V>(e: Seq<(Seq<char>, V)>, id: Seq<char>, n: int)
    requires
        0 <= n <= e.len(),
        forall|i: int| 0 <= i < n ==> lex_lt(#[trigger] e[i].0, id),
    ensures
        key_rank(e, id, n) == n,
    decreases n,
{
    if n > 0 {
        lemma_key_rank_prefix(e, id, n - 1);
    }
}

/// Sorted keys are distinct.
proof fn lemma_sorted_keys_distinct<V>(e: Seq<(Seq<char>, V)>)
    requires
        keys_sorted(e),
    ensures
        keys_distinct(e),
{
    assert forall|i: int, j: int| 0 <= i < e.len() && 0 <= j < e.len() && i != j implies e[i].0
        != e[j].0 by {
        lemma_lex_irreflexive(e[i].0);
        if i < j {
            assert(lex_lt(e[i].0, e[j].0));
        } else {
            assert(lex_lt(e[j].0, e[i].0));
        }
    }
}

/// The listed voters as `(id, merit)` entries, in listing order.
pub open spec fn entries_of(voters: Seq<Voter>) -> Seq<(Seq<char>, int)> {
    voters.map_values(|v: Voter| (v.id@, v.cur_merit@))
}

/// The electorate formed by the first `n` listed entries: in id order, each id with
/// its last listed merit.
pub open spec fn electorate_from(l: Seq<(Seq<char>, int)>, n: int) -> Seq<(Seq<char>, int)>
    decreases n,
{
    if n <= 0 {
        Seq::empty()
    } else {
        upsert(electorate_from(l, n - 1), l[n - 1].0, l[n - 1].1)
    }
}

/// The electorate formed by the first `n` listed voters.
pub open spec fn electorate_of(voters: Seq<Voter>, n: int) -> Seq<(Seq<char>, int)> {
    electorate_from(entries_of(voters), n)
}

/// The running merit sum of the first `n` entries, `None` once a step overflows.
pub open spec fn checked_total(e: Seq<(Seq<char>, int)>, n: int) -> Option<int>
    decreases n,
{
    if n <= 0 {
        Some(0)
    } else {
        match checked_total(e, n - 1) {
            None => None,
            Some(t) => if fits_i128(t + e[n - 1].1) {
                Some(t + e[n - 1].1)
            } else {
                None
            },
        }
    }
}

proof fn lemma_key_rank_bound<V>(e: Seq<(Seq<char>, V)>, id: Seq<char>, n: int)
    requires
        0 <= n,
    ensures
        0 <= key_rank(e, id, n) <= n,
    decreases n,
{
    if n > 0 {
        lemma_key_rank_bound(e, id, n - 1);
    }
}

/// Every listed id is a member of the electorate built from the list.
pub proof fn lemma_electorate_has_listed(l: Seq<(Seq<char>, int)>, n: int, i: int)
    requires
        0 <= i < n <= l.len(),
    ensures
        key_index(electorate_from(l, n), l[i].0) is Some,
    decreases n,
{
    let prev = electorate_from(l, n - 1);
    let en = electorate_from(l, n);
    let id = l[n - 1].0;
    let x = l[i].0;
    lemma_key_rank_bound(prev, id, prev.len() as int);
    if i == n - 1 {
        match key_index(prev, id) {
            Some(j) => {
                assert(en[j].0 == x);
            },
            None => {
                let r = key_rank(prev, id, prev.len() as int);
                assert(en[r].0 == x);
            },
        }
    } else {
        lemma_electorate_has_listed(l, n - 1, i);
        let k = key_index(prev, x).unwrap();
        match key_index(prev, id) {
            Some(j) => {
                assert(en[k].0 == x);
            },
            None => {
                let r = key_rank(prev, id, prev.len() as int);
                if k < r {
                    assert(en[k].0 == x);
                } else {
                    assert(en[k + 1].0 == x);
                }
            },
        }
    }
}

/// The first `n` listed entries deduplicated by id, a repeated id keeping its last
/// merit.
pub open spec fn dedup_map(l: Seq<(Seq<char>, int)>, n: int) -> Map<Seq<char>, int>
    decreases n,
{
    if n <= 0 {
        Map::empty()
    } else {
        dedup_map(l, n - 1).insert(l[n - 1].0, l[n - 1].1)
    }
}

/// The electorate built from a list is the list deduplicated by id, a repeated id
/// keeping its last merit: its ids are distinct, each entry carries the last listed
/// merit of its id, and every listed id has an entry.
pub proof fn lemma_electorate_is_dedup(l: Seq<(Seq<char>, int)>, n: int)
    requires
        0 <= n <= l.len(),
    ensures
        keys_distinct(electorate_from(l, n)),
        forall|j: int|
            0 <= j < electorate_from(l, n).len() ==> dedup_map(l, n).contains_key(
                (#[trigger] electorate_from(l, n)[j]).0,
            ) && dedup_map(l, n)[electorate_from(l, n)[j].0] == electorate_from(l, n)[j].1,
        forall|id: Seq<char>|
            #[trigger] dedup_map(l, n).contains_key(id) ==> key_index(electorate_from(l, n), id)
                is Some,
    decreases n,
{
    if n > 0 {
        lemma_electorate_is_dedup(l, n - 1);
        let prev = electorate_from(l, n - 1);
        let m = dedup_map(l, n - 1);
        let id = l[n - 1].0;
        let v = l[n - 1].1;
        let e = electorate_from(l, n);
        let m2 = dedup_map(l, n);
        assert(m2 == m.insert(id, v));
        lemma_key_rank_bound(prev, id, prev.len() as int);
        match key_index(prev, id) {
            Some(j) => {
                assert(e == prev.update(j, (id, v)));
                assert forall|a: int| 0 <= a < e.len() implies #[trigger] e[a].0 == prev[a].0 by {}
                assert forall|a: int|
                    0 <= a < e.len() implies m2.contains_key((#[trigger] e[a]).0) && m2[e[a].0]
                        == e[a].1 by {
                    if a != j {
                        assert(prev[a].0 != prev[j].0);
                        assert(m.contains_key(prev[a].0));
                    }
                }
                assert forall|x: Seq<char>| #[trigger] m2.contains_key(x) implies key_index(e, x)
                    is Some by {
                    if x == id {
                        assert(e[j].0 == x);
                    } else {
                        assert(m.contains_key(x));
                        let k = key_index(prev, x).unwrap();
                        assert(e[k].0 == x);
                    }
                }
            },
            None => {
                let r = key_rank(prev, id, prev.len() as int);
                assert(e == prev.insert(r, (id, v)));
                assert forall|a: int| 0 <= a < prev.len() implies prev[a].0 != id by {
                    if prev[a].0 == id {
                        assert(key_index(prev, id) is Some);
                    }
                }
                assert forall|a: int, b: int|
                    0 <= a < e.len() && 0 <= b < e.len() && a != b implies e[a].0 != e[b].0 by {
                    let pa = if a < r { a } else { a - 1 };
                    let pb = if b < r { b } else { b - 1 };
                    if a != r && b != r {
                        assert(e[a] == prev[pa]);
                        assert(e[b] == prev[pb]);
                    } else if a == r {
                        assert(e[b] == prev[pb]);
                    } else {
                        assert(e[a] == prev[pa]);
                    }
                }
                assert forall|a: int|
                    0 <= a < e.len() implies m2.contains_key((#[trigger] e[a]).0) && m2[e[a].0]
                        == e[a].1 by {
                    if a != r {
                        let pa = if a < r { a } else { a - 1 };
                        assert(e[a] == prev[pa]);
                        assert(m.contains_key(prev[pa].0));
                    }
                }
                assert forall|x: Seq<char>| #[trigger] m2.contains_key(x) implies key_index(e, x)
                    is Some by {
                    if x == id {
                        assert(e[r].0 == x);
                    } else {
                        assert(m.contains_key(x));
                        let k = key_index(prev, x).unwrap();
                        if k < r {
                            assert(e[k].0 == x);
                        } else {
                            assert(e[k + 1].0 == x);
                        }
                    }
                }
            },
        }
    }
}

/// Why an electorate cannot be voted on, in the order the checks run: it is empty,
/// holds a negative merit, its total overflows, or its total is zero.
pub open spec fn electorate_error(e: Seq<(Seq<char>, int)>) -> Option<GovernanceError> {
    if e.len() == 0 {
        Some(GovernanceError::InvalidElectorate)
    } else if exists|i: int| 0 <= i < e.len() && e[i].1 < 0 {
        Some(GovernanceError::InvalidElectorate)
    } else if checked_total(e, e.len() as int) is None {
        Some(GovernanceError::Overflow)
    } else if checked_total(e, e.len() as int).unwrap() <= 0 {
        Some(GovernanceError::InvalidElectorate)
    } else {
        None
    }
}

/// Why opening a vote over `voters` fails: the voters are first deduplicated by id
/// (a repeated id keeps its last merit), then the electorate is checked.
pub open spec fn open_vote_error(voters: Seq<Voter>) -> Option<GovernanceError> {
    electorate_error(electorate_of(voters, voters.len() as int))
}

/// The running approving-merit sum over the first `n` ballots, `None` once a step
/// overflows.
pub open spec fn approve_total(
    ballots: Seq<(Seq<char>, bool)>,
    e: Seq<(Seq<char>, int)>,
    n: int,
) -> Option<int>
    decreases n,
{
    if n <= 0 {
        Some(0)
    } else {
        match approve_total(ballots, e, n - 1) {
            None => None,
            Some(t) => if !ballots[n - 1].1 {
                Some(t)
            } else {
                match key_index(e, ballots[n - 1].0) {
                    None => Some(t),
                    Some(j) => if fits_i128(t + e[j].1) {
                        Some(t + e[j].1)
                    } else {
                        None
                    },
                }
            },
        }
    }
}

proof fn lemma_approve_total_push(
    b: Seq<(Seq<char>, bool)>,
    e: Seq<(Seq<char>, int)>,
    x: (Seq<char>, bool),
    n: int,
)
    requires
        0 <= n <= b.len(),
    ensures
        approve_total(b.push(x), e, n) == approve_total(b, e, n),
    decreases n,
{
    if n > 0 {
        lemma_approve_total_push(b, e, x, n - 1);
        assert(b.push(x)[n - 1] == b[n - 1]);
    }
}

/// A ballot cast after the ballots `b` is counted by the tally exactly when it
/// approves: the approving total grows by the caster's merit for an approving ballot
/// (when the sum fits) and is unchanged otherwise.
pub proof fn lemma_ballot_counted_iff_approves(
    b: Seq<(Seq<char>, bool)>,
    e: Seq<(Seq<char>, int)>,
    voter: Seq<char>,
    approve: bool,
)
    requires
        approve_total(b, e, b.len() as int) is Some,
        key_index(e, voter) is Some,
    ensures
        ({
            let t = approve_total(b, e, b.len() as int).unwrap();
            let m = e[key_index(e, voter).unwrap()].1;
            approve_total(b.push((voter, approve)), e, b.len() + 1int) == if !approve {
                Some(t)
            } else if fits_i128(t + m) {
                Some(t + m)
            } else {
                None
            }
        }),
{
    lemma_approve_total_push(b, e, (voter, approve), b.len() as int);
    assert(b.push((voter, approve))[b.len() as int] == (voter, approve));
}

/// The weight `merit / total` as a ratio, when it is representable and in `[0, 1]`.
pub open spec fn weight_of(merit: int, total: int) -> Option<int> {
    match spec_div(merit, total) {
        Some(w) => if Ratio::in_range(w) {
            Some(w)
        } else {
            None
        },
        None => None,
    }
}

impl VoteState {
    /// The pass threshold (raw).
    pub closed spec fn spec_threshold(&self) -> int {
        self.threshold@
    }

    /// The subject's text.
    pub closed spec fn spec_subject(&self) -> Seq<char> {
        self.subject@
    }

    /// The electorate as `(id, merit)` pairs.
    pub closed spec fn spec_electorate(&self) -> Seq<(Seq<char>, int)> {
        merit_entries(self.electorate@)
    }

    /// `Σ curMerit` of the electorate (raw).
    pub closed spec fn spec_total(&self) -> int {
        self.total_merit@
    }

    /// The cast ballots in casting order.
    pub closed spec fn spec_ballots(&self) -> Seq<(Seq<char>, bool)> {
        ballot_entries(self.ballots@)
    }

    /// Whether the outcome was anchored.
    pub closed spec fn spec_anchored(&self) -> bool {
        self.anchored
    }

    /// Electorate members in strictly increasing id order with non-negative merits
    /// summing to the positive total; at most one ballot per member, and only from
    /// members.
    pub closed spec fn wf(&self) -> bool {
        let e = self.spec_electorate();
        let b = self.spec_ballots();
        &&& keys_sorted(e)
        &&& keys_distinct(e)
        &&& forall|i: int| 0 <= i < e.len() ==> e[i].1 >= 0
        &&& checked_total(e, e.len() as int) == Some(self.total_merit@)
        &&& self.total_merit@ > 0
        &&& keys_distinct(b)
        &&& forall|i: int| 0 <= i < b.len() ==> key_index(e, #[trigger] b[i].0) is Some
    }
}

/// Merit-weighted vote bookkeeping.
#[derive(Debug, Default)]
pub struct GovernanceModule {
    votes: Vec<VoteState>,
}

impl GovernanceModule {
    /// The opened votes; vote `i` has id `i`.
    pub closed spec fn spec_votes(&self) -> Seq<VoteState> {
        self.votes@
    }

    /// Every vote is well formed.
    pub closed spec fn wf(&self) -> bool {
        forall|i: int| 0 <= i < self.votes@.len() ==> (#[trigger] self.votes@[i]).wf()
    }

    /// The state of vote `id`, if it was opened.
    pub open spec fn vote(&self, id: VoteId) -> Option<VoteState> {
        if id.0 < self.spec_votes().len() {
            Some(self.spec_votes()[id.0 as int])
        } else {
            None
        }
    }

    /// A module with no votes.
    pub fn new() -> (g: GovernanceModule)
        ensures
            g.wf(),
            g.spec_votes().len() == 0,
    {
        GovernanceModule { votes: Vec::new() }
    }

    fn find_key<T>(e: &Vec<(FayID, T)>, id: &FayID) -> (r: Option<usize>)
        ensures
            r matches Some(j) ==> j < e@.len() && e@[j as int].0@ == id@,
            r is None ==> forall|k: int| 0 <= k < e@.len() ==> e@[k].0@ != id@,
    {
        let mut j: usize = 0;
        while j < e.len()
            invariant
                j <= e@.len(),
                forall|k: int| 0 <= k < j ==> e@[k].0@ != id@,
            decreases e@.len() - j,
        {
            if e[j].0 == *id {
                return Some(j);
            }
            j = j + 1;
        }
        None
    }

    /// Opens a vote on `subject` over `voters` with pass `threshold`. The voters are
    /// deduplicated by id, a repeated id keeping its last merit; the electorate is
    /// then `InvalidElectorate` when it is empty, holds a negative merit or totals
    /// zero, and `Overflow` when its total does not fit. The new vote gets the next
    /// id.
    pub fn open_vote(&mut self, subject: &str, threshold: Ratio, voters: Vec<Voter>) -> (r: Result<
        VoteId,
        GovernanceError,
    >)
        requires
            old(self).wf(),
            old(self).spec_votes().len() < u64::MAX,
        ensures
            final(self).wf(),
            open_vote_error(voters@) matches Some(e) ==> r == Err::<VoteId, GovernanceError>(e)
                && final(self).spec_votes() == old(self).spec_votes(),
            open_vote_error(voters@) is None ==> {
                let n = old(self).spec_votes().len();
                let st = final(self).spec_votes()[n as int];
                let e = electorate_of(voters@, voters@.len() as int);
                &&& r == Ok::<VoteId, GovernanceError>(VoteId(n as u64))
                &&& final(self).spec_votes().len() == n + 1
                &&& final(self).spec_votes().subrange(0, n as int) == old(self).spec_votes()
                &&& st.spec_subject() == subject@
                &&& st.spec_threshold() == threshold@
                &&& st.spec_electorate() == e
                &&& Some(st.spec_total()) == checked_total(e, e.len() as int)
                &&& st.spec_ballots().len() == 0
                &&& !st.spec_anchored()
            },
    {
        let mut electorate: Vec<(FayID, Decimal)> = Vec::new();
        let mut i: usize = 0;
        while i < voters.len()
            invariant
                old(self).wf(),
                i <= voters@.len(),
                merit_entries(electorate@) == electorate_of(voters@, i as int),
                keys_sorted(merit_entries(electorate@)),
                keys_distinct(merit_entries(electorate@)),
            decreases voters@.len() - i,
        {
            let v = &voters[i];
            proof {
                assert(entries_of(voters@)[i as int] == (v.id@, v.cur_merit@));
            }
            let ghost old_e = merit_entries(electorate@);
            let ghost vid = v.id@;
            let mut p: usize = 0;
            while p < electorate.len() && str_lex_lt(electorate[p].0.as_str(), v.id.as_str())
                invariant
                    p <= electorate@.len(),
                    old_e == merit_entries(electorate@),
                    keys_sorted(old_e),
                    vid == v.id@,
                    forall|k: int| 0 <= k < p ==> lex_lt(#[trigger] old_e[k].0, vid),
                decreases electorate@.len() - p,
            {
                p = p + 1;
            }
            proof {
                lemma_sorted_keys_distinct(old_e);
            }
            if p < electorate.len() && electorate[p].0 == v.id {
                proof {
                    lemma_key_index(old_e, p as int);
                }
                electorate.set(p, (v.id.clone(), v.cur_merit));
                proof {
                    let ne = merit_entries(electorate@);
                    assert(ne =~= old_e.update(p as int, (vid, v.cur_merit@)));
                    assert forall|a: int, b: int| 0 <= a < b < ne.len() implies lex_lt(
                        #[trigger] ne[a].0,
                        #[trigger] ne[b].0,
                    ) by {
                        assert(ne[a].0 == old_e[a].0);
                        assert(ne[b].0 == old_e[b].0);
                    }
                }
            } else {
                proof {
                    if p < old_e.len() {
                        assert(old_e[p as int].0 != vid);
                        lemma_lex_total(old_e[p as int].0, vid);
                        assert(lex_lt(vid, old_e[p as int].0));
                    }
                    assert forall|k: int| 0 <= k < old_e.len() implies old_e[k].0 != vid by {
                        lemma_lex_irreflexive(vid);
                        if k > p {
                            assert(lex_lt(old_e[p as int].0, old_e[k].0));
                            lemma_lex_transitive(vid, old_e[p as int].0, old_e[k].0);
                        }
                    }
                    assert(!(exists|k: int| 0 <= k < old_e.len() && old_e[k].0 == vid));
                    if p < old_e.len() {
                        lemma_key_rank(old_e, vid, p as int, old_e.len() as int);
                    } else {
                        lemma_key_rank(old_e, vid, p as int, old_e.len() as int);
                    }
                }
                electorate.insert(p, (v.id.clone(), v.cur_merit));
                proof {
                    let ne = merit_entries(electorate@);
                    assert(ne =~= old_e.insert(p as int, (vid, v.cur_merit@)));
                    assert forall|a: int, b: int| 0 <= a < b < ne.len() implies lex_lt(
                        #[trigger] ne[a].0,
                        #[trigger] ne[b].0,
                    ) by {
                        if b < p {
                        } else if b == p {
                        } else if a < p {
                            if b - 1 > p {
                                lemma_lex_transitive(vid, old_e[p as int].0, old_e[b - 1].0);
                            }
                            lemma_lex_transitive(old_e[a].0, vid, ne[b].0);
                        } else if a == p {
                            if b - 1 > p {
                                lemma_lex_transitive(vid, old_e[p as int].0, old_e[b - 1].0);
                            }
                        } else {
                        }
                    }
                }
            }
            proof {
                lemma_sorted_keys_distinct(merit_entries(electorate@));
            }
            i = i + 1;
        }
        let ghost e = merit_entries(electorate@);
        if electorate.len() == 0 {
            return Err(GovernanceError::InvalidElectorate);
        }
        let mut q: usize = 0;
        while q < electorate.len()
            invariant
                old(self).wf(),
                q <= electorate@.len(),
                e == merit_entries(electorate@),
                e == electorate_of(voters@, voters@.len() as int),
                e.len() > 0,
                forall|k: int| 0 <= k < q ==> (#[trigger] e[k]).1 >= 0,
            decreases electorate@.len() - q,
        {
            if electorate[q].1.is_negative() {
                proof {
                    assert(e[q as int].1 < 0);
                }
                return Err(GovernanceError::InvalidElectorate);
            }
            q = q + 1;
        }
        let mut total = Decimal::zero();
        let mut j: usize = 0;
        while j < electorate.len()
            invariant
                old(self).wf(),
                j <= electorate@.len(),
                e == merit_entries(electorate@),
                e == electorate_of(voters@, voters@.len() as int),
                e.len() > 0,
                keys_distinct(e),
                forall|k: int| 0 <= k < e.len() ==> (#[trigger] e[k]).1 >= 0,
                checked_total(e, j as int) == Some(total@),
            decreases electorate@.len() - j,
        {
            total = match total.checked_add(electorate[j].1) {
                Some(t) => t,
                None => {
                    proof {
                        lemma_checked_total_none(e, j as int + 1, e.len() as int);
                    }
                    return Err(GovernanceError::Overflow);
                },
            };
            j = j + 1;
        }
        if !total.is_positive() {
            return Err(GovernanceError::InvalidElectorate);
        }
        let id = self.votes.len() as u64;
        let ghost old_votes = self.votes@;
        self.votes.push(
            VoteState {
                subject: VoteSubject::new(subject),
                threshold,
                electorate,
                total_merit: total,
                ballots: Vec::new(),
                anchored: false,
            },
        );
        proof {
            assert(self.votes@.subrange(0, old_votes.len() as int) == old_votes);
            assert forall|k: int| 0 <= k < self.votes@.len() implies (
            #[trigger] self.votes@[k]).wf() by {
                if k < old_votes.len() {
                    assert(self.votes@[k] == old_votes[k]);
                }
            }
        }
        Ok(VoteId(id))
    }

    /// Casts `voter`'s ballot in vote `vote_id`: `UnknownVote`, `VoterNotEligible` (not
    /// in the electorate) or `AlreadyVoted` change nothing; otherwise the ballot is
    /// appended.
    pub fn cast_vote(&mut self, vote_id: VoteId, voter: &FayID, approve: bool) -> (r: Result<
        (),
        GovernanceError,
    >)
        requires
            old(self).wf(),
        ensures
            final(self).wf(),
            match old(self).vote(vote_id) {
                None => r == Err::<(), GovernanceError>(GovernanceError::UnknownVote)
                    && final(self).spec_votes() == old(self).spec_votes(),
                Some(st) => if key_index(st.spec_electorate(), voter@) is None {
                    r == Err::<(), GovernanceError>(GovernanceError::VoterNotEligible)
                        && final(self).spec_votes() == old(self).spec_votes()
                } else if key_index(st.spec_ballots(), voter@) is Some {
                    r == Err::<(), GovernanceError>(GovernanceError::AlreadyVoted)
                        && final(self).spec_votes() == old(self).spec_votes()
                } else {
                    let nst = final(self).spec_votes()[vote_id.0 as int];
                    &&& r == Ok::<(), GovernanceError>(())
                    &&& final(self).spec_votes().len() == old(self).spec_votes().len()
                    &&& forall|k: int|
                        0 <= k < old(self).spec_votes().len() && k != vote_id.0 ==> (
                        #[trigger] final(self).spec_votes()[k]) == old(self).spec_votes()[k]
                    &&& nst.spec_ballots() == st.spec_ballots().push((voter@, approve))
                    &&& nst.spec_electorate() == st.spec_electorate()
                    &&& nst.spec_total() == st.spec_total()
                    &&& nst.spec_threshold() == st.spec_threshold()
                    &&& nst.spec_subject() == st.spec_subject()
                    &&& nst.spec_anchored() == st.spec_anchored()
                },
            },
    {
        if vote_id.0 >= self.votes.len() as u64 {
            return Err(GovernanceError::UnknownVote);
        }
        let i = vote_id.0 as usize;
        proof {
            assert(self.votes@[i as int].wf());
        }
        let ghost ej: int;
        match Self::find_key(&self.votes[i].electorate, voter) {
            None => {
                proof {
                    let e = self.votes@[i as int].spec_electorate();
                    assert(!(exists|k: int| 0 <= k < e.len() && e[k].0 == voter@));
                }
                return Err(GovernanceError::VoterNotEligible);
            },
            Some(j) => {
                proof {
                    ej = j as int;
                    let e = self.votes@[i as int].spec_electorate();
                    assert(e[ej].0 == voter@);
                }
            },
        }
        match Self::find_key(&self.votes[i].ballots, voter) {
            Some(k) => {
                proof {
                    let b = self.votes@[i as int].spec_ballots();
                    assert(b[k as int].0 == voter@);
                }
                return Err(GovernanceError::AlreadyVoted);
            },
            None => {},
        }
        let ghost old_votes = self.votes@;
        let ghost old_b = self.votes@[i as int].spec_ballots();
        proof {
            assert(!(exists|k: int| 0 <= k < old_b.len() && old_b[k].0 == voter@));
        }
        self.votes[i].ballots.push((voter.clone(), approve));
        proof {
            let nb = self.votes@[i as int].spec_ballots();
            assert(nb == old_b.push((voter@, approve)));
            assert(self.votes@[i as int].spec_electorate() == old_votes[i as int].spec_electorate());
            assert(self.votes@[i as int].spec_electorate()[ej].0 == voter@);
            assert(self.votes@.len() == old_votes.len());
            assert forall|k: int| 0 <= k < self.votes@.len() implies (
            #[trigger] self.votes@[k]).wf() by {
                if k != i {
                    assert(self.votes@[k] == old_votes[k]);
                } else {
                    let e = self.votes@[k].spec_electorate();
                    assert forall|m: int| 0 <= m < nb.len() implies key_index(
                        e,
                        #[trigger] nb[m].0,
                    ) is Some by {
                        if m < old_b.len() {
                            assert(nb[m] == old_b[m]);
                            assert(key_index(e, old_b[m].0) is Some);
                        } else {
                            assert(e[ej].0 == nb[m].0);
                        }
                    }
                }
            }
        }
        Ok(())
    }

    /// `voter`'s weight `curMerit / Σ curMerit` in vote `vote_id`, when the vote exists,
    /// the voter is in its electorate and the weight is representable.
    pub fn voter_weight(&self, vote_id: VoteId, voter: &FayID) -> (r: Option<Ratio>)
        requires
            self.wf(),
        ensures
            r matches Some(w) ==> self.vote(vote_id) matches Some(st) && key_index(
                st.spec_electorate(),
                voter@,
            ) matches Some(j) && weight_of(st.spec_electorate()[j].1, st.spec_total()) == Some(
                w@,
            ),
            r is None ==> match self.vote(vote_id) {
                None => true,
                Some(st) => match key_index(st.spec_electorate(), voter@) {
                    None => true,
                    Some(j) => weight_of(st.spec_electorate()[j].1, st.spec_total()) is None,
                },
            },
    {
        if vote_id.0 >= self.votes.len() as u64 {
            return None;
        }
        let i = vote_id.0 as usize;
        let st = &self.votes[i];
        proof {
            assert(self.votes@[i as int].wf());
        }
        match Self::find_key(&st.electorate, voter) {
            None => {
                proof {
                    let e = st.spec_electorate();
                    assert(!(exists|k: int| 0 <= k < e.len() && e[k].0 == voter@));
                }
                None
            },
            Some(j) => {
                proof {
                    lemma_key_index(st.spec_electorate(), j as int);
                }
                match st.electorate[j].1.checked_div(st.total_merit) {
                    Some(w) => Ratio::new(w),
                    None => None,
                }
            },
        }
    }

    /// Every electorate member's weight, in id order; `None` when the vote is unknown
    /// or some weight is not representable.
    pub fn voter_weights(&self, vote_id: VoteId) -> (r: Option<Vec<(FayID, Ratio)>>)
        requires
            self.wf(),
        ensures
            r matches Some(out) ==> forall|a: int, b: int|
                0 <= a < b < out@.len() ==> lex_lt(#[trigger] out@[a].0@, #[trigger] out@[b].0@),
            match self.vote(vote_id) {
                None => r is None,
                Some(st) => {
                    let e = st.spec_electorate();
                    if forall|k: int| 0 <= k < e.len() ==> (#[trigger] weight_of(e[k].1, st.spec_total())) is Some {
                        r matches Some(out) && out@.len() == e.len() && forall|k: int|
                            0 <= k < e.len() ==> (#[trigger] out@[k]).0@ == e[k].0 && weight_of(
                                e[k].1,
                                st.spec_total(),
                            ) == Some(out@[k].1@)
                    } else {
                        r is None
                    }
                },
            },
    {
        if vote_id.0 >= self.votes.len() as u64 {
            return None;
        }
        let st = &self.votes[vote_id.0 as usize];
        let ghost e = st.spec_electorate();
        let mut out: Vec<(FayID, Ratio)> = Vec::new();
        let mut j: usize = 0;
        while j < st.electorate.len()
            invariant
                self.vote(vote_id) == Some(*st),
                j <= st.electorate@.len(),
                e == st.spec_electorate(),
                out@.len() == j,
                forall|k: int|
                    0 <= k < j ==> (#[trigger] out@[k]).0@ == e[k].0 && weight_of(
                        e[k].1,
                        st.spec_total(),
                    ) == Some(out@[k].1@),
            decreases st.electorate@.len() - j,
        {
            let w = match st.electorate[j].1.checked_div(st.total_merit) {
                Some(w) => w,
                None => {
                    proof {
                        assert(weight_of(e[j as int].1, st.spec_total()) is None);
                    }
                    return None;
                },
            };
            let r = match Ratio::new(w) {
                Some(r) => r,
                None => {
                    proof {
                        assert(weight_of(e[j as int].1, st.spec_total()) is None);
                    }
                    return None;
                },
            };
            out.push((st.electorate[j].0.clone(), r));
            j = j + 1;
        }
        proof {
            assert forall|k: int| 0 <= k < e.len() implies (#[trigger] weight_of(
                e[k].1,
                st.spec_total(),
            )) is Some by {
                assert(weight_of(e[k].1, st.spec_total()) == Some(out@[k].1@));
            }
            assert(self.spec_votes()[vote_id.0 as int].wf());
            assert forall|a: int, b: int| 0 <= a < b < out@.len() implies lex_lt(
                #[trigger] out@[a].0@,
                #[trigger] out@[b].0@,
            ) by {
                assert(out@[a].0@ == e[a].0);
                assert(out@[b].0@ == e[b].0);
            }
        }
        Some(out)
    }

    /// `Σ curMerit` of vote `vote_id`'s electorate.
    pub fn total_merit(&self, vote_id: VoteId) -> (r: Option<Decimal>)
        ensures
            match self.vote(vote_id) {
                None => r is None,
                Some(st) => r matches Some(d) && d@ == st.spec_total(),
            },
    {
        if vote_id.0 >= self.votes.len() as u64 {
            return None;
        }
        Some(self.votes[vote_id.0 as usize].total_merit)
    }

    /// Tallies vote `vote_id`: the approval ratio is the approving merit over the
    /// total merit, and the vote passes when that ratio reaches the threshold.
    /// `UnknownVote` for an unknown id; `Overflow` when a sum or the ratio is not
    /// representable.
    pub fn tally(&self, vote_id: VoteId) -> (r: Result<VoteOutcome, GovernanceError>)
        requires
            self.wf(),
        ensures
            match self.vote(vote_id) {
                None => r == Err::<VoteOutcome, GovernanceError>(GovernanceError::UnknownVote),
                Some(st) => {
                    let b = st.spec_ballots();
                    let a = approve_total(b, st.spec_electorate(), b.len() as int);
                    match a {
                        Some(approve) => match weight_of(approve, st.spec_total()) {
                            Some(q) => r matches Ok(o) && o.vote_id == vote_id
                                && o.approval_ratio@ == q && o.threshold@ == st.spec_threshold()
                                && o.passed == (q >= st.spec_threshold()),
                            None => r == Err::<VoteOutcome, GovernanceError>(
                                GovernanceError::Overflow,
                            ),
                        },
                        None => r == Err::<VoteOutcome, GovernanceError>(
                            GovernanceError::Overflow,
                        ),
                    }
                },
            },
    {
        if vote_id.0 >= self.votes.len() as u64 {
            return Err(GovernanceError::UnknownVote);
        }
        let st = &self.votes[vote_id.0 as usize];
        let ghost b = st.spec_ballots();
        let ghost e = st.spec_electorate();
        let mut approve = Decimal::zero();
        let mut k: usize = 0;
        while k < st.ballots.len()
            invariant
                self.vote(vote_id) == Some(*st),
                k <= st.ballots@.len(),
                b == st.spec_ballots(),
                e == st.spec_electorate(),
                keys_distinct(e),
                approve_total(b, e, k as int) == Some(approve@),
            decreases st.ballots@.len() - k,
        {
            if st.ballots[k].1 {
                match Self::find_key(&st.electorate, &st.ballots[k].0) {
                    Some(j) => {
                        proof {
                            lemma_key_index(e, j as int);
                        }
                        approve = match approve.checked_add(st.electorate[j].1) {
                            Some(s) => s,
                            None => {
                                proof {
                                    lemma_approve_total_none(b, e, k as int + 1, b.len() as int);
                                }
                                return Err(GovernanceError::Overflow);
                            },
                        };
                    },
                    None => {
                        proof {
                            assert(!(exists|m: int| 0 <= m < e.len() && e[m].0 == b[k as int].0));
                        }
                    },
                }
            }
            k = k + 1;
        }
        let approval = match approve.checked_div(st.total_merit) {
            Some(q) => q,
            None => {
                return Err(GovernanceError::Overflow);
            },
        };
        let approval_ratio = match Ratio::new(approval) {
            Some(r) => r,
            None => {
                return Err(GovernanceError::Overflow);
            },
        };
        let threshold = st.threshold;
        let passed = threshold.value().at_most(&approval);
        Ok(VoteOutcome { vote_id, approval_ratio, threshold, passed })
    }

    /// Marks vote `vote_id`'s outcome as anchored; `UnknownVote` for an unknown id.
    pub fn anchor_outcome(&mut self, vote_id: VoteId) -> (r: Result<(), GovernanceError>)
        requires
            old(self).wf(),
        ensures
            final(self).wf(),
            match old(self).vote(vote_id) {
                None => r == Err::<(), GovernanceError>(GovernanceError::UnknownVote)
                    && final(self).spec_votes() == old(self).spec_votes(),
                Some(st) => {
                    let nst = final(self).spec_votes()[vote_id.0 as int];
                    &&& r == Ok::<(), GovernanceError>(())
                    &&& final(self).spec_votes().len() == old(self).spec_votes().len()
                    &&& forall|k: int|
                        0 <= k < old(self).spec_votes().len() && k != vote_id.0 ==> (
                        #[trigger] final(self).spec_votes()[k]) == old(self).spec_votes()[k]
                    &&& nst.spec_anchored()
                    &&& nst.spec_ballots() == st.spec_ballots()
                    &&& nst.spec_electorate() == st.spec_electorate()
                    &&& nst.spec_total() == st.spec_total()
                    &&& nst.spec_threshold() == st.spec_threshold()
                    &&& nst.spec_subject() == st.spec_subject()
                },
            },
    {
        if vote_id.0 >= self.votes.len() as u64 {
            return Err(GovernanceError::UnknownVote);
        }
        let i = vote_id.0 as usize;
        let ghost old_votes = self.votes@;
        self.votes[i].anchored = true;
        proof {
            assert forall|k: int| 0 <= k < self.votes@.len() implies (
            #[trigger] self.votes@[k]).wf() by {
                if k != i {
                    assert(self.votes@[k] == old_votes[k]);
                } else {
                    assert(old_votes[k].wf());
                }
            }
        }
        Ok(())
    }

    /// Whether vote `vote_id`'s outcome was anchored; `None` for an unknown id.
    pub fn is_anchored(&self, vote_id: VoteId) -> (r: Option<bool>)
        ensures
            match self.vote(vote_id) {
                None => r is None,
                Some(st) => r == Some(st.spec_anchored()),
            },
    {
        if vote_id.0 >= self.votes.len() as u64 {
            return None;
        }
        Some(self.votes[vote_id.0 as usize].anchored)
    }
}

/// Positions of the electorate credited by the approving ballots among the first `k`.
pub open spec fn approved_positions(
    b: Seq<(Seq<char>, bool)>,
    e: Seq<(Seq<char>, int)>,
    k: int,
) -> Set<int> {
    Set::new(
        |j: int|
            exists|m: int| 0 <= m < k && #[trigger] b[m].1 && key_index(e, b[m].0) == Some(j),
    )
}

/// `Σ e[j].1` over the positions `j < n` that lie in `sel`.
pub open spec fn selected_total(e: Seq<(Seq<char>, int)>, sel: Set<int>, n: int) -> int
    decreases n,
{
    if n <= 0 {
        0
    } else {
        selected_total(e, sel, n - 1) + if sel.contains(n - 1) {
            e[n - 1].1
        } else {
            0
        }
    }
}

proof fn lemma_selected_total_bounded(e: Seq<(Seq<char>, int)>, sel: Set<int>, n: int, t: int)
    requires
        0 <= n <= e.len(),
        forall|i: int| 0 <= i < e.len() ==> e[i].1 >= 0,
        checked_total(e, n) == Some(t),
    ensures
        0 <= selected_total(e, sel, n) <= t,
    decreases n,
{
    if n > 0 {
        let t0 = checked_total(e, n - 1).unwrap();
        lemma_selected_total_bounded(e, sel, n - 1, t0);
    }
}

proof fn lemma_selected_total_insert(e: Seq<(Seq<char>, int)>, sel: Set<int>, j: int, n: int)
    requires
        0 <= j,
        !sel.contains(j),
    ensures
        selected_total(e, sel.insert(j), n) == selected_total(e, sel, n) + if j < n {
            e[j].1
        } else {
            0
        },
    decreases n,
{
    if n > 0 {
        lemma_selected_total_insert(e, sel, j, n - 1);
    }
}

proof fn lemma_approve_total_selected(
    b: Seq<(Seq<char>, bool)>,
    e: Seq<(Seq<char>, int)>,
    t: int,
    k: int,
)
    requires
        0 <= k <= b.len(),
        keys_distinct(e),
        keys_distinct(b),
        forall|i: int| 0 <= i < e.len() ==> e[i].1 >= 0,
        forall|i: int| 0 <= i < b.len() ==> key_index(e, #[trigger] b[i].0) is Some,
        checked_total(e, e.len() as int) == Some(t),
        t <= i128::MAX,
    ensures
        approve_total(b, e, k) == Some(selected_total(e, approved_positions(b, e, k), e.len() as int)),
    decreases k,
{
    let n = e.len() as int;
    if k == 0 {
        assert(approved_positions(b, e, 0) =~= Set::<int>::empty());
        lemma_selected_total_empty(e, n);
    } else {
        lemma_approve_total_selected(b, e, t, k - 1);
        let prev = approved_positions(b, e, k - 1);
        let cur = approved_positions(b, e, k);
        let s0 = selected_total(e, prev, n);
        if !b[k - 1].1 {
            assert(cur =~= prev);
        } else {
            let j = key_index(e, b[k - 1].0).unwrap();
            assert(0 <= j < n && e[j].0 == b[k - 1].0);
            assert(!prev.contains(j)) by {
                if prev.contains(j) {
                    let m = choose|m: int|
                        0 <= m < k - 1 && #[trigger] b[m].1 && key_index(e, b[m].0) == Some(j);
                    assert(e[j].0 == b[m].0);
                    assert(b[m].0 != b[k - 1].0);
                }
            }
            assert(cur =~= prev.insert(j));
            lemma_selected_total_insert(e, prev, j, n);
            lemma_selected_total_bounded(e, cur, n, t);
        }
    }
}

proof fn lemma_selected_total_empty(e: Seq<(Seq<char>, int)>, n: int)
    ensures
        selected_total(e, Set::<int>::empty(), n) == 0,
    decreases n,
{
    if n > 0 {
        lemma_selected_total_empty(e, n - 1);
    }
}

/// A well-formed vote's approving merit never overflows and never exceeds its total
/// merit, so its approval ratio lies in `[0, 1]`; when `total × 10⁶` fits an `i128`,
/// that ratio is representable and the tally succeeds.
pub proof fn lemma_tally_in_range(g: &GovernanceModule, vote_id: VoteId)
    requires
        g.wf(),
        g.vote(vote_id) is Some,
    ensures
        ({
            let st = g.vote(vote_id).unwrap();
            let b = st.spec_ballots();
            &&& approve_total(b, st.spec_electorate(), b.len() as int) matches Some(a) && 0 <= a
                <= st.spec_total()
            &&& st.spec_total() * SCALE <= i128::MAX ==> weight_of(
                approve_total(b, st.spec_electorate(), b.len() as int).unwrap(),
                st.spec_total(),
            ) is Some
        }),
{
    let st = g.vote(vote_id).unwrap();
    assert(g.spec_votes()[vote_id.0 as int].wf());
    let e = st.spec_electorate();
    let b = st.spec_ballots();
    let t = st.spec_total();
    lemma_approve_total_selected(b, e, t, b.len() as int);
    let a = approve_total(b, e, b.len() as int).unwrap();
    lemma_selected_total_bounded(e, approved_positions(b, e, b.len() as int), e.len() as int, t);
    if t * SCALE <= i128::MAX {
        assert(0 <= a * SCALE <= t * SCALE) by (nonlinear_arith)
            requires
                0 <= a <= t,
        ;
        let q = trunc_div(a * SCALE, t);
        assert(q == (a * SCALE) / t);
        assert(0 <= (a * SCALE) / t <= SCALE) by (nonlinear_arith)
            requires
                0 <= a <= t,
                t > 0,
        {
            vstd::arithmetic::div_mod::lemma_div_pos_is_pos(a * SCALE, t);
            vstd::arithmetic::div_mod::lemma_div_is_ordered(a * SCALE, t * SCALE, t);
            vstd::arithmetic::div_mod::lemma_div_multiples_vanish(SCALE as int, t);
        }
    }
}

/// `Σ weight_of(e[k].1, total)` over the first `n` entries.
pub open spec fn weight_total(e: Seq<(Seq<char>, int)>, total: int, n: int) -> int
    decreases n,
{
    if n <= 0 {
        0
    } else {
        weight_total(e, total, n - 1) + weight_of(e[n - 1].1, total).unwrap()
    }
}

proof fn lemma_checked_total_prefix(e: Seq<(Seq<char>, int)>, k: int, m: int)
    requires
        0 <= k <= m,
        checked_total(e, m) is Some,
    ensures
        checked_total(e, k) is Some,
{
    if checked_total(e, k) is None {
        lemma_checked_total_none(e, k, m);
    }
}

proof fn lemma_weight_total_bounds(e: Seq<(Seq<char>, int)>, total: int, n: int)
    requires
        0 <= n <= e.len(),
        total > 0,
        total * SCALE <= i128::MAX,
        forall|i: int| 0 <= i < e.len() ==> e[i].1 >= 0,
        checked_total(e, n) matches Some(m) && m <= total,
    ensures
        forall|k: int| 0 <= k < n ==> (#[trigger] weight_of(e[k].1, total)) is Some,
        weight_total(e, total, n) * total <= checked_total(e, n).unwrap() * SCALE,
        checked_total(e, n).unwrap() * SCALE < weight_total(e, total, n) * total + n * total
            || n == 0,
    decreases n,
{
    if n > 0 {
        lemma_checked_total_prefix(e, n - 1, n);
        let prev = checked_total(e, n - 1).unwrap();
        let mi = e[n - 1].1;
        let mn = checked_total(e, n).unwrap();
        assert(mn == prev + mi);
        assert(prev >= 0) by {
            lemma_selected_total_bounded(e, Set::<int>::empty(), n - 1, prev);
        }
        lemma_weight_total_bounds(e, total, n - 1);
        assert(0 <= mi <= total);
        let x = mi * SCALE;
        assert(0 <= x <= total * SCALE) by (nonlinear_arith)
            requires
                0 <= mi <= total,
                x == mi * SCALE,
        ;
        lemma_floor_div_gov(x, total);
        let w = x / total;
        assert(w <= SCALE) by (nonlinear_arith)
            requires
                w * total <= x,
                x <= total * SCALE,
                total > 0,
        ;
        assert(trunc_div(x, total) == w);
        assert(weight_of(mi, total) == Some(w));
        let wp = weight_total(e, total, n - 1);
        assert(weight_total(e, total, n) == wp + w);
        assert((wp + w) * total <= mn * SCALE) by (nonlinear_arith)
            requires
                wp * total <= prev * SCALE,
                w * total <= x,
                x == mi * SCALE,
                mn == prev + mi,
        ;
        assert(mn * SCALE < (wp + w) * total + n * total) by (nonlinear_arith)
            requires
                prev * SCALE < wp * total + (n - 1) * total || n - 1 == 0,
                n - 1 == 0 ==> prev == 0 && wp == 0,
                x < w * total + total,
                x == mi * SCALE,
                mn == prev + mi,
                total > 0,
        ;
    }
}

proof fn lemma_floor_div_gov(x: int, d: int)
    requires
        x >= 0,
        d > 0,
    ensures
        x / d >= 0,
        (x / d) * d <= x < (x / d) * d + d,
{
    vstd::arithmetic::div_mod::lemma_fundamental_div_mod(x, d);
    vstd::arithmetic::div_mod::lemma_mod_pos_bound(x, d);
    vstd::arithmetic::div_mod::lemma_div_pos_is_pos(x, d);
    vstd::arithmetic::mul::lemma_mul_is_commutative(d, x / d);
}

/// In a well-formed vote whose total merit scaled by one fits an `i128`, every
/// member's weight `curMerit / Σ curMerit` is representable, and the weights sum to
/// `1` up to truncation: to at most `1` and at least `1` minus `n − 1` units of the
/// last place for `n` members.
pub proof fn lemma_weights_sum_to_one(g: &GovernanceModule, vote_id: VoteId)
    requires
        g.wf(),
        g.vote(vote_id) matches Some(st) && st.spec_total() * SCALE <= i128::MAX,
    ensures
        ({
            let st = g.vote(vote_id).unwrap();
            let e = st.spec_electorate();
            let t = st.spec_total();
            &&& forall|k: int| 0 <= k < e.len() ==> (#[trigger] weight_of(e[k].1, t)) is Some
            &&& SCALE - (e.len() - 1) <= weight_total(e, t, e.len() as int) <= SCALE
        }),
{
    let st = g.vote(vote_id).unwrap();
    assert(g.spec_votes()[vote_id.0 as int].wf());
    let e = st.spec_electorate();
    let t = st.spec_total();
    let n = e.len() as int;
    lemma_weight_total_bounds(e, t, n);
    let w = weight_total(e, t, n);
    if n == 0 {
        assert(checked_total(e, 0) == Some(0int));
    }
    assert(n > 0);
    assert(w <= SCALE) by (nonlinear_arith)
        requires
            w * t <= t * SCALE,
            t > 0,
    ;
    assert(w >= SCALE - (n - 1)) by (nonlinear_arith)
        requires
            t * SCALE < w * t + n * t,
            t > 0,
    ;
}

proof fn lemma_checked_total_none(e: Seq<(Seq<char>, int)>, k: int, m: int)
    requires
        0 <= k <= m,
        checked_total(e, k) is None,
    ensures
        checked_total(e, m) is None,
    decreases m - k,
{
    if k < m {
        lemma_checked_total_none(e, k, m - 1);
    }
}

proof fn lemma_approve_total_none(
    b: Seq<(Seq<char>, bool)>,
    e: Seq<(Seq<char>, int)>,
    k: int,
    m: int,
)
    requires
        0 <= k <= m,
        approve_total(b, e, k) is None,
    ensures
        approve_total(b, e, m) is None,
    decreases m - k,
{
    if k < m {
        lemma_approve_total_none(b, e, k, m - 1);
    }
}

} // verus!

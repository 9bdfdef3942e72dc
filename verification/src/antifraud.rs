//! `Anti_Fraud_Engine`: voter selection and anomalous-voting detection.
//!
//! Voter selection excludes every stakeholder whose intimacy with the contributor is
//! strictly above `0.9`, refuses with `StakeholderInsufficient` when fewer than seven
//! remain, and otherwise samples `clamp(sample_size, 7, remaining)` distinct voters by
//! a partial Fisher–Yates shuffle driven by a seeded SplitMix64 generator, so the
//! selection is reproducible from the seed.
//!
//! Anomaly detection flags a `(voter, target)` pair when, among that voter's votes on
//! that target within the last 30 days, there are at least five approvals and the
//! approval ratio is strictly above `0.8`.
use vstd::prelude::*;

use crate::error::{GmcError, GmcResult};
use crate::types::{spec_mul, str_eq, Decimal, FayID, Ratio, Timestamp, SCALE};

verus! {

/// Intimacy (raw, `0.9`) strictly above which a stakeholder is excluded.
pub const INTIMACY_EXCLUSION_THRESHOLD_RAW: i128 = 900_000;

/// Minimum voter-set size.
pub const MIN_VOTER_SET_SIZE: usize = 7;

/// Length of the anomaly window, in days.
pub const ANOMALY_WINDOW_DAYS: u64 = 30;

/// Length of the anomaly window, in seconds.
pub const ANOMALY_WINDOW_SECS: u64 = ANOMALY_WINDOW_DAYS * 86_400;

/// Minimum number of approvals before behaviour can be anomalous.
pub const ANOMALY_MIN_APPROVALS: u64 = 5;

/// Approval ratio (raw, `0.8`) that must be strictly exceeded.
pub const ANOMALY_APPROVAL_RATIO_THRESHOLD_RAW: i128 = 800_000;

/// The SplitMix64 increment.
pub const SPLITMIX_GAMMA: u64 = 0x9E37_79B9_7F4A_7C15;

/// A stakeholder with its normalized intimacy to the contributor.
#[derive(Debug, PartialEq, Eq)]
pub struct Stakeholder {
    /// The stakeholder's identity.
    pub id: FayID,
    /// Normalized intimacy with the contributor, in `[0, 1]`.
    pub intimacy: Ratio,
}

impl Clone for Stakeholder {
    fn clone(&self) -> (c: Self)
        ensures
            c == *self,
    {
        Stakeholder { id: self.id.clone(), intimacy: self.intimacy }
    }
}

impl Stakeholder {
    /// `true` when the stakeholder is excluded for intimacy above `0.9`.
    pub open spec fn spec_high_intimacy(&self) -> bool {
        self.intimacy@ > INTIMACY_EXCLUSION_THRESHOLD_RAW
    }

    /// Builds a stakeholder.
    pub fn new(id: FayID, intimacy: Ratio) -> (s: Stakeholder)
        ensures
            s.id == id,
            s.intimacy == intimacy,
    {
        Stakeholder { id, intimacy }
    }

    /// `true` iff intimacy is strictly greater than `0.9` (exactly `0.9` is kept).
    pub fn is_high_intimacy(&self) -> (b: bool)
        ensures
            b == self.spec_high_intimacy(),
    {
        self.intimacy.value().raw() > INTIMACY_EXCLUSION_THRESHOLD_RAW
    }
}

/// The SplitMix64 output function applied to an advanced state.
pub open spec fn splitmix_output(s: u64) -> u64 {
    let z1 = (s ^ (s >> 30u64)).wrapping_mul(0xBF58_476D_1CE4_E5B9u64);
    let z2 = (z1 ^ (z1 >> 27u64)).wrapping_mul(0x94D0_49BB_1331_11EBu64);
    z2 ^ (z2 >> 31u64)
}

/// Lemire's reduction of a 64-bit draw `r` into `0..bound`.
pub open spec fn reduce_below(r: u64, bound: int) -> int {
    (r as int * bound) / 0x1_0000_0000_0000_0000int
}

/// A seeded SplitMix64 generator.
#[derive(Debug, Clone)]
struct SplitMix64 {
    state: u64,
}

impl SplitMix64 {
    fn new(seed: u64) -> (g: SplitMix64)
        ensures
            g.state == seed,
    {
        SplitMix64 { state: seed }
    }

    fn next_u64(&mut self) -> (r: u64)
        ensures
            final(self).state == old(self).state.wrapping_add(SPLITMIX_GAMMA),
            r == splitmix_output(final(self).state),
    {
        self.state = self.state.wrapping_add(SPLITMIX_GAMMA);
        let mut z = self.state;
        z = (z ^ (z >> 30)).wrapping_mul(0xBF58_476D_1CE4_E5B9);
        z = (z ^ (z >> 27)).wrapping_mul(0x94D0_49BB_1331_11EB);
        z ^ (z >> 31)
    }

    fn below(&mut self, bound: usize) -> (r: usize)
        requires
            bound > 0,
        ensures
            final(self).state == old(self).state.wrapping_add(SPLITMIX_GAMMA),
            r == reduce_below(splitmix_output(final(self).state), bound as int),
            r < bound,
    {
        let x = self.next_u64();
        assert(x as int * bound as int <= u128::MAX) by (nonlinear_arith)
            requires
                x <= u64::MAX,
                bound <= u64::MAX,
        ;
        let product: u128 = (x as u128) * (bound as u128);
        let q = product >> 64;
        assert(q == product / 0x1_0000_0000_0000_0000u128) by (bit_vector)
            requires
                q == product >> 64,
        ;
        proof {
            vstd::arithmetic::div_mod::lemma_div_multiples_vanish(
                bound as int,
                0x1_0000_0000_0000_0000int,
            );
            vstd::arithmetic::mul::lemma_mul_strict_inequality(
                x as int,
                0x1_0000_0000_0000_0000int,
                bound as int,
            );
            vstd::arithmetic::mul::lemma_mul_is_commutative(
                bound as int,
                0x1_0000_0000_0000_0000int,
            );
            vstd::arithmetic::div_mod::lemma_div_is_ordered(
                x as int * bound as int,
                0x1_0000_0000_0000_0000int * bound as int - 1,
                0x1_0000_0000_0000_0000int,
            );
            assert((0x1_0000_0000_0000_0000int * bound as int - 1) / 0x1_0000_0000_0000_0000int
                < bound) by (nonlinear_arith)
                requires
                    bound > 0,
            ;
        }
        q as usize
    }
}

/// The ids of the stakeholders among the first `n` that are not excluded, in order.
pub open spec fn eligible_ids(s: Seq<Stakeholder>, n: int) -> Seq<Seq<char>>
    decreases n,
{
    if n <= 0 {
        Seq::empty()
    } else if s[n - 1].spec_high_intimacy() {
        eligible_ids(s, n - 1)
    } else {
        eligible_ids(s, n - 1).push(s[n - 1].id@)
    }
}

/// Every eligible id is the id of a listed stakeholder that is not excluded.
pub proof fn lemma_eligible_ids_listed(s: Seq<Stakeholder>, n: int)
    requires
        0 <= n <= s.len(),
    ensures
        forall|k: int|
            0 <= k < eligible_ids(s, n).len() ==> exists|i: int|
                0 <= i < n && s[i].id@ == #[trigger] eligible_ids(s, n)[k]
                    && !s[i].spec_high_intimacy(),
    decreases n,
{
    if n > 0 {
        lemma_eligible_ids_listed(s, n - 1);
        let prev = eligible_ids(s, n - 1);
        let cur = eligible_ids(s, n);
        assert forall|k: int| 0 <= k < cur.len() implies exists|i: int|
            0 <= i < n && s[i].id@ == #[trigger] cur[k] && !s[i].spec_high_intimacy() by {
            if k < prev.len() {
                assert(cur[k] == prev[k]);
                let i = choose|i: int| 0 <= i < n - 1 && s[i].id@ == prev[k] && !s[i].spec_high_intimacy();
                assert(0 <= i < n && s[i].id@ == cur[k]);
            } else {
                assert(s[n - 1].id@ == cur[k]);
            }
        }
    }
}

/// The identity permutation `0, 1, ..., n - 1`.
pub open spec fn identity_indices(n: int) -> Seq<usize> {
    Seq::new(n as nat, |a: int| a as usize)
}

/// One Fisher–Yates step at position `i`: draw `j` in `i..remaining` and swap.
pub open spec fn shuffle_step(idx: Seq<usize>, i: int, state: u64, remaining: int) -> (
    Seq<usize>,
    u64,
) {
    let st = state.wrapping_add(SPLITMIX_GAMMA);
    let j = i + reduce_below(splitmix_output(st), remaining - i);
    (idx.update(i, idx[j]).update(j, idx[i]), st)
}

/// The index sequence after shuffling positions `i..k` starting from generator state
/// `state`.
pub open spec fn partial_shuffle(idx: Seq<usize>, i: int, k: int, state: u64, remaining: int) -> Seq<
    usize,
>
    decreases k - i,
{
    if i >= k {
        idx
    } else {
        let (n, st) = shuffle_step(idx, i, state, remaining);
        partial_shuffle(n, i + 1, k, st, remaining)
    }
}

/// `sample_size` clamped to `[7, remaining]`.
pub open spec fn clamp_sample(sample_size: usize, remaining: int) -> int {
    if sample_size < MIN_VOTER_SET_SIZE {
        MIN_VOTER_SET_SIZE as int
    } else if sample_size > remaining {
        remaining
    } else {
        sample_size as int
    }
}

/// The selected positions (into the eligible list) for a pool of `remaining` eligible
/// stakeholders.
pub open spec fn selected_positions(remaining: int, sample_size: usize, seed: u64) -> Seq<usize> {
    partial_shuffle(
        identity_indices(remaining),
        0,
        clamp_sample(sample_size, remaining),
        seed,
        remaining,
    )
}

/// A sequence of distinct indices below `n`, of length `n`.
pub open spec fn is_permutation(idx: Seq<usize>, n: int) -> bool {
    &&& idx.len() == n
    &&& forall|a: int| 0 <= a < n ==> idx[a] < n
    &&& forall|a: int, b: int| 0 <= a < n && 0 <= b < n && a != b ==> idx[a] != idx[b]
}

proof fn lemma_partial_shuffle_permutation(idx: Seq<usize>, i: int, k: int, state: u64, remaining: int)
    requires
        is_permutation(idx, remaining),
        0 <= i,
        k <= remaining,
    ensures
        is_permutation(partial_shuffle(idx, i, k, state, remaining), remaining),
    decreases k - i,
{
    if i < k {
        let st = state.wrapping_add(SPLITMIX_GAMMA);
        let r = splitmix_output(st);
        let bound = remaining - i;
        vstd::arithmetic::div_mod::lemma_div_pos_is_pos(r as int * bound, 0x1_0000_0000_0000_0000int);
        vstd::arithmetic::mul::lemma_mul_nonnegative(r as int, bound);
        vstd::arithmetic::mul::lemma_mul_strict_inequality(r as int, 0x1_0000_0000_0000_0000int, bound);
        vstd::arithmetic::mul::lemma_mul_is_commutative(bound, 0x1_0000_0000_0000_0000int);
        vstd::arithmetic::div_mod::lemma_div_is_ordered(
            r as int * bound,
            0x1_0000_0000_0000_0000int * bound - 1,
            0x1_0000_0000_0000_0000int,
        );
        assert((0x1_0000_0000_0000_0000int * bound - 1) / 0x1_0000_0000_0000_0000int < bound)
            by (nonlinear_arith)
            requires
                bound > 0,
        ;
        let j = i + reduce_below(r, bound);
        assert(i <= j < remaining);
        let (n, st2) = shuffle_step(idx, i, state, remaining);
        assert forall|a: int, b: int| 0 <= a < remaining && 0 <= b < remaining && a != b implies n[a]
            != n[b] by {
            let pa = if a == i {
                j
            } else if a == j {
                i
            } else {
                a
            };
            let pb = if b == i {
                j
            } else if b == j {
                i
            } else {
                b
            };
            assert(n[a] == idx[pa]);
            assert(n[b] == idx[pb]);
        }
        lemma_partial_shuffle_permutation(n, i + 1, k, st2, remaining);
    }
}

/// Selects voters: excludes intimacy above `0.9`, refuses with
/// `StakeholderInsufficient` when fewer than seven remain, and otherwise returns the
/// eligible stakeholders at [`selected_positions`] (a seeded partial Fisher–Yates
/// shuffle), `clamp(sample_size, 7, remaining)` of them. The selected positions are
/// distinct, so no stakeholder is picked twice, and every voter is eligible.
pub fn select_voters(stakeholders: &[Stakeholder], sample_size: usize, seed: u64) -> (r: GmcResult<
    Vec<FayID>,
>)
    ensures
        ({
            let elig = eligible_ids(stakeholders@, stakeholders@.len() as int);
            let remaining = elig.len() as int;
            let pos = selected_positions(remaining, sample_size, seed);
            let k = clamp_sample(sample_size, remaining);
            &&& remaining < MIN_VOTER_SET_SIZE ==> r == Err::<Vec<FayID>, GmcError>(
                GmcError::StakeholderInsufficient,
            )
            &&& remaining >= MIN_VOTER_SET_SIZE ==> {
                &&& r matches Ok(v) && v@.len() == k && forall|a: int|
                    0 <= a < k ==> (#[trigger] v@[a])@ == elig[pos[a] as int]
                &&& MIN_VOTER_SET_SIZE <= k <= remaining
                &&& forall|a: int| 0 <= a < k ==> (#[trigger] pos[a]) < remaining
                &&& forall|a: int, b: int| 0 <= a < k && 0 <= b < k && a != b ==> pos[a] != pos[b]
            }
        }),
{
    let mut eligible: Vec<FayID> = Vec::new();
    let mut i: usize = 0;
    while i < stakeholders.len()
        invariant
            i <= stakeholders@.len(),
            eligible@.len() == eligible_ids(stakeholders@, i as int).len(),
            forall|a: int|
                0 <= a < eligible@.len() ==> (#[trigger] eligible@[a])@ == eligible_ids(
                    stakeholders@,
                    i as int,
                )[a],
        decreases stakeholders@.len() - i,
    {
        if !stakeholders[i].is_high_intimacy() {
            eligible.push(stakeholders[i].id.clone());
        }
        i = i + 1;
    }
    let ghost elig = eligible_ids(stakeholders@, stakeholders@.len() as int);
    let remaining = eligible.len();
    if remaining < MIN_VOTER_SET_SIZE {
        return Err(GmcError::StakeholderInsufficient);
    }
    let k = if sample_size < MIN_VOTER_SET_SIZE {
        MIN_VOTER_SET_SIZE
    } else if sample_size > remaining {
        remaining
    } else {
        sample_size
    };
    let mut indices: Vec<usize> = Vec::new();
    let mut a: usize = 0;
    while a < remaining
        invariant
            a <= remaining,
            indices@ == identity_indices(a as int),
        decreases remaining - a,
    {
        indices.push(a);
        a = a + 1;
    }
    let mut rng = SplitMix64::new(seed);
    let mut s: usize = 0;
    proof {
        assert(is_permutation(indices@, remaining as int));
    }
    while s < k
        invariant
            k <= remaining,
            s <= k,
            is_permutation(indices@, remaining as int),
            partial_shuffle(indices@, s as int, k as int, rng.state, remaining as int)
                == partial_shuffle(
                identity_indices(remaining as int),
                0,
                k as int,
                seed,
                remaining as int,
            ),
        decreases k - s,
    {
        let ghost before = indices@;
        let ghost st0 = rng.state;
        let j = s + rng.below(remaining - s);
        let vi = indices[s];
        let vj = indices[j];
        indices.set(s, vj);
        indices.set(j, vi);
        proof {
            let (n, st) = shuffle_step(before, s as int, st0, remaining as int);
            assert(indices@ == n);
            assert(st == rng.state);
            assert forall|x: int, y: int|
                0 <= x < remaining && 0 <= y < remaining && x != y implies indices@[x]
                != indices@[y] by {
                let px = if x == s {
                    j as int
                } else if x == j {
                    s as int
                } else {
                    x
                };
                let py = if y == s {
                    j as int
                } else if y == j {
                    s as int
                } else {
                    y
                };
                assert(indices@[x] == before[px]);
                assert(indices@[y] == before[py]);
            }
        }
        s = s + 1;
    }
    let ghost pos = indices@;
    proof {
        assert(pos == selected_positions(remaining as int, sample_size, seed));
    }
    let mut voters: Vec<FayID> = Vec::new();
    let mut b: usize = 0;
    while b < k
        invariant
            k <= remaining,
            remaining == eligible@.len(),
            b <= k,
            pos == indices@,
            is_permutation(pos, remaining as int),
            voters@.len() == b,
            eligible@.len() == elig.len(),
            forall|x: int| 0 <= x < eligible@.len() ==> (#[trigger] eligible@[x])@ == elig[x],
            forall|x: int| 0 <= x < b ==> (#[trigger] voters@[x])@ == elig[pos[x] as int],
        decreases k - b,
    {
        let p = indices[b];
        voters.push(eligible[p].clone());
        b = b + 1;
    }
    Ok(voters)
}

/// A single vote cast by `voter` on `target` at time `at`.
#[derive(Debug, Clone, PartialEq, Eq)]
pub struct VoteEvent {
    /// Who voted.
    pub voter: FayID,
    /// Opaque identifier of the object voted on.
    pub target: String,
    /// `true` for an approval.
    pub approve: bool,
    /// When the vote was cast.
    pub at: Timestamp,
}

impl VoteEvent {
    /// Builds a vote event.
    pub fn new(voter: FayID, target: &str, approve: bool, at: Timestamp) -> (e: VoteEvent)
        ensures
            e.voter == voter,
            e.target@ == target@,
            e.approve == approve,
            e.at == at,
    {
        VoteEvent { voter, target: target.to_owned(), approve, at }
    }
}

/// A flagged `(voter, target)` pair awaiting audit.
#[derive(Debug, Clone, PartialEq, Eq)]
pub struct AuditEntry {
    /// The flagged voter.
    pub voter: FayID,
    /// The object the approvals targeted.
    pub target: String,
    /// Approvals within the window.
    pub approval_count: u64,
    /// All of the voter's votes on the target within the window.
    pub total_count: u64,
    /// The window end the judgement was made against.
    pub window_end: Timestamp,
}

/// `true` when `e` is `voter`'s vote on `target` within the 30 days up to `now`
/// (inclusive at both ends).
pub open spec fn in_window(e: VoteEvent, voter: Seq<char>, target: Seq<char>, now: u64) -> bool {
    &&& e.voter@ == voter
    &&& e.target@ == target
    &&& e.at.secs <= now
    &&& now - e.at.secs <= ANOMALY_WINDOW_SECS
}

/// How many of the first `n` events are in the window, and how many of those approve.
pub open spec fn window_counts(
    h: Seq<VoteEvent>,
    voter: Seq<char>,
    target: Seq<char>,
    now: u64,
    n: int,
) -> (int, int)
    decreases n,
{
    if n <= 0 {
        (0, 0)
    } else {
        let (t, a) = window_counts(h, voter, target, now, n - 1);
        if in_window(h[n - 1], voter, target, now) {
            (
                t + 1,
                if h[n - 1].approve {
                    a + 1
                } else {
                    a
                },
            )
        } else {
            (t, a)
        }
    }
}

/// The anomaly rule: at least five approvals and `approvals / total > 0.8`, compared
/// exactly in fixed point.
pub open spec fn anomalous_tally(approvals: u64, total: u64) -> bool {
    &&& approvals >= ANOMALY_MIN_APPROVALS
    &&& total != 0
    &&& match spec_mul((total as i64) * SCALE, ANOMALY_APPROVAL_RATIO_THRESHOLD_RAW as int) {
        Some(th) => (approvals as i64) * SCALE > th,
        None => false,
    }
}

proof fn lemma_window_counts_bounded(
    h: Seq<VoteEvent>,
    voter: Seq<char>,
    target: Seq<char>,
    now: u64,
    n: int,
)
    requires
        0 <= n,
    ensures
        0 <= window_counts(h, voter, target, now, n).1 <= window_counts(h, voter, target, now, n).0
            <= n,
    decreases n,
{
    if n > 0 {
        lemma_window_counts_bounded(h, voter, target, now, n - 1);
    }
}

fn is_anomalous_tally(approvals: u64, total: u64) -> (b: bool)
    ensures
        b == anomalous_tally(approvals, total),
{
    if approvals < ANOMALY_MIN_APPROVALS || total == 0 {
        return false;
    }
    let approvals_dec = Decimal::from_int(approvals as i64);
    let total_dec = Decimal::from_int(total as i64);
    match total_dec.checked_mul(Decimal::from_raw(ANOMALY_APPROVAL_RATIO_THRESHOLD_RAW)) {
        Some(threshold_count) => threshold_count.less_than(&approvals_dec),
        None => false,
    }
}

/// Counts `voter`'s votes on `target` within the 30-day window ending at `now`
/// (future-dated votes excluded) and returns an audit entry when the counts are
/// anomalous (see [`anomalous_tally`]).
pub fn detect_anomaly(voter: &FayID, target: &str, history: &[VoteEvent], now: Timestamp) -> (r:
    Option<AuditEntry>)
    ensures
        ({
            let (t, a) = window_counts(
                history@,
                voter@,
                target@,
                now.secs,
                history@.len() as int,
            );
            &&& r is Some <==> anomalous_tally(a as u64, t as u64)
            &&& r matches Some(e) ==> e.voter == *voter && e.target@ == target@
                && e.approval_count == a && e.total_count == t && e.window_end == now
        }),
{
    let mut approval_count: u64 = 0;
    let mut total_count: u64 = 0;
    let mut i: usize = 0;
    while i < history.len()
        invariant
            i <= history@.len(),
            window_counts(history@, voter@, target@, now.secs, i as int) == (
                total_count as int,
                approval_count as int,
            ),
        decreases history@.len() - i,
    {
        proof {
            lemma_window_counts_bounded(history@, voter@, target@, now.secs, i as int);
        }
        let event = &history[i];
        if event.voter == *voter && str_eq(event.target.as_str(), target) && event.at.secs
            <= now.secs && now.saturating_elapsed_since(event.at) <= ANOMALY_WINDOW_SECS {
            total_count = total_count + 1;
            if event.approve {
                approval_count = approval_count + 1;
            }
        }
        i = i + 1;
    }
    if is_anomalous_tally(approval_count, total_count) {
        Some(
            AuditEntry {
                voter: voter.clone(),
                target: target.to_owned(),
                approval_count,
                total_count,
                window_end: now,
            },
        )
    } else {
        None
    }
}

/// Accumulates flagged audit entries in flagging order.
#[derive(Debug, Clone, Default)]
pub struct AntiFraudEngine {
    pending_audit: Vec<AuditEntry>,
}

impl AntiFraudEngine {
    /// The recorded entries.
    pub closed spec fn spec_pending(&self) -> Seq<AuditEntry> {
        self.pending_audit@
    }

    /// An engine with no entries.
    pub fn new() -> (e: AntiFraudEngine)
        ensures
            e.spec_pending().len() == 0,
    {
        AntiFraudEngine { pending_audit: Vec::new() }
    }

    /// Runs [`detect_anomaly`] and appends its entry when anomalous, returning it;
    /// otherwise records nothing.
    pub fn record_if_anomalous(
        &mut self,
        voter: &FayID,
        target: &str,
        history: &[VoteEvent],
        now: Timestamp,
    ) -> (r: Option<&AuditEntry>)
        ensures
            ({
                let (t, a) = window_counts(
                    history@,
                    voter@,
                    target@,
                    now.secs,
                    history@.len() as int,
                );
                &&& r is Some <==> anomalous_tally(a as u64, t as u64)
                &&& r is None ==> final(self).spec_pending() == old(self).spec_pending()
                &&& r matches Some(e) ==> {
                    &&& final(self).spec_pending() == old(self).spec_pending().push(*e)
                    &&& e.voter == *voter && e.target@ == target@ && e.approval_count == a
                        && e.total_count == t && e.window_end == now
                }
            }),
    {
        match detect_anomaly(voter, target, history, now) {
            Some(entry) => {
                self.pending_audit.push(entry);
                let n = self.pending_audit.len();
                Some(&self.pending_audit[n - 1])
            },
            None => None,
        }
    }

    /// The recorded entries, in flagging order.
    pub fn pending_audit(&self) -> (r: &[AuditEntry])
        ensures
            r@ == self.spec_pending(),
    {
        self.pending_audit.as_slice()
    }
}

} // verus!

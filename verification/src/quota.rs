//! Per-chain minting quota: validated configuration, per-period accounting, and
//! refresh-period rollover.
//!
//! A mint of `amount` is allowed iff the ledger is not exhausted and
//! `minted_this_period + amount <= quota`. A rejected request changes nothing; a
//! one-time chain that reaches its cap is exhausted for good; a periodic chain starts
//! a fresh period once a full refresh period has elapsed.
use vstd::prelude::*;

use crate::error::{GmcError, GmcResult};
use crate::types::{elapsed, fits_i128, ChainId, Decimal, Timestamp, SCALE};

verus! {

/// Explicit time unit of a periodic refresh cadence.
#[derive(Debug, Clone, Copy, PartialEq, Eq, PartialOrd, Ord, Hash, Structural)]
pub enum TimeUnit {
    /// One second.
    Second,
    /// One hour (3,600 seconds).
    Hour,
    /// One day (86,400 seconds).
    Day,
}

/// Seconds in one `unit`.
pub open spec fn unit_seconds(unit: TimeUnit) -> u64 {
    match unit {
        TimeUnit::Second => 1,
        TimeUnit::Hour => 3_600,
        TimeUnit::Day => 86_400,
    }
}

impl TimeUnit {
    /// Number of whole seconds in one of this unit.
    pub fn seconds(self) -> (s: u64)
        ensures
            s == unit_seconds(self),
    {
        match self {
            TimeUnit::Second => 1,
            TimeUnit::Hour => 3_600,
            TimeUnit::Day => 86_400,
        }
    }
}

/// How a chain's minting allowance refreshes.
#[derive(Debug, Clone, Copy, PartialEq, Eq, Hash, Structural)]
pub enum RefreshPeriod {
    /// A single non-renewing allowance.
    OneTime,
    /// An allowance that refreshes every `value` × `unit`.
    Periodic {
        /// The time unit of the interval.
        unit: TimeUnit,
        /// The interval magnitude; must be `> 0`.
        value: Decimal,
    },
}

/// A refresh period is valid when it is one-time or has a positive interval.
pub open spec fn period_valid(p: RefreshPeriod) -> bool {
    match p {
        RefreshPeriod::OneTime => true,
        RefreshPeriod::Periodic { value, .. } => value@ > 0,
    }
}

/// The length of one period in whole seconds: `unit seconds × whole units of value`
/// (the fractional part of `value` truncated, the whole-unit count taken modulo
/// 2^64), or `None` for one-time, a value below one unit, or a `u64` overflow.
pub open spec fn period_length(p: RefreshPeriod) -> Option<u64> {
    match p {
        RefreshPeriod::OneTime => None,
        RefreshPeriod::Periodic { unit, value } => {
            if value@ <= 0 {
                None
            } else {
                let whole = ((value@ / SCALE as int) as i128) as u64;
                if whole == 0 {
                    None
                } else if unit_seconds(unit) * whole <= u64::MAX {
                    Some((unit_seconds(unit) * whole) as u64)
                } else {
                    None
                }
            }
        },
    }
}

impl RefreshPeriod {
    /// `true` when the period is one-time, or periodic with a positive value.
    pub fn is_valid(&self) -> (b: bool)
        ensures
            b == period_valid(*self),
    {
        match self {
            RefreshPeriod::OneTime => true,
            RefreshPeriod::Periodic { value, .. } => value.is_positive(),
        }
    }

    /// `true` for the non-renewing variant.
    pub fn is_one_time(&self) -> (b: bool)
        ensures
            b == (*self is OneTime),
    {
        match self {
            RefreshPeriod::OneTime => true,
            _ => false,
        }
    }

    /// Length of one refresh period in whole seconds (see [`period_length`]).
    pub fn period_length_secs(&self) -> (r: Option<u64>)
        ensures
            r == period_length(*self),
    {
        match self {
            RefreshPeriod::OneTime => None,
            RefreshPeriod::Periodic { unit, value } => {
                let raw = value.raw();
                if raw <= 0 {
                    return None;
                }
                let whole_units = (raw / SCALE) as u64;
                if whole_units == 0 {
                    return None;
                }
                unit.seconds().checked_mul(whole_units)
            },
        }
    }
}

/// A validated quota configuration: a positive cap per period and a valid refresh
/// period.
#[derive(Debug, Clone, Copy, PartialEq, Eq, Structural)]
pub struct QuotaConfig {
    quota: Decimal,
    refresh_period: RefreshPeriod,
}

impl QuotaConfig {
    /// The cap per period.
    pub closed spec fn spec_quota(&self) -> int {
        self.quota@
    }

    /// The refresh period.
    pub closed spec fn spec_period(&self) -> RefreshPeriod {
        self.refresh_period
    }

    /// A config is well formed when its cap is positive and its period valid.
    pub closed spec fn wf(&self) -> bool {
        self.quota@ > 0 && period_valid(self.refresh_period)
    }

    /// Accepts the config iff `quota > 0` and `refresh_period` is valid; otherwise
    /// `QuotaConfigInvalid`.
    pub fn new(quota: Decimal, refresh_period: RefreshPeriod) -> (r: GmcResult<QuotaConfig>)
        ensures
            (quota@ > 0 && period_valid(refresh_period)) <==> r is Ok,
            r is Err ==> r == Err::<QuotaConfig, GmcError>(GmcError::QuotaConfigInvalid),
            r matches Ok(c) ==> c.wf() && c.spec_quota() == quota@ && c.spec_period()
                == refresh_period,
    {
        if !quota.is_positive() {
            return Err(GmcError::QuotaConfigInvalid);
        }
        if !refresh_period.is_valid() {
            return Err(GmcError::QuotaConfigInvalid);
        }
        Ok(QuotaConfig { quota, refresh_period })
    }

    /// The cap per period.
    pub fn quota(&self) -> (d: Decimal)
        ensures
            d@ == self.spec_quota(),
    {
        self.quota
    }

    /// The refresh period.
    pub fn refresh_period(&self) -> (p: RefreshPeriod)
        ensures
            p == self.spec_period(),
    {
        self.refresh_period
    }

    /// `true` for a one-time allowance.
    pub fn is_one_time(&self) -> (b: bool)
        ensures
            b == (self.spec_period() is OneTime),
    {
        self.refresh_period.is_one_time()
    }
}

/// Whether a mint of `amount` is allowed: not exhausted, and the new running total
/// stays within the cap (and within `i128`).
pub open spec fn quota_allows(exhausted: bool, minted: int, quota: int, amount: int) -> bool {
    !exhausted && fits_i128(minted + amount) && minted + amount <= quota
}

/// An exhausted ledger refuses every amount: a one-time allowance, once used up, never
/// comes back (no operation clears the exhausted flag).
pub proof fn lemma_exhausted_refuses_all(minted: int, quota: int, amount: int)
    ensures
        !quota_allows(true, minted, quota, amount),
{
}

/// An allowed mint keeps the period's running total within the quota, so consuming
/// only allowed amounts from a ledger within its quota keeps it within its quota.
pub proof fn lemma_allowed_mint_stays_within_quota(
    exhausted: bool,
    minted: int,
    quota: int,
    amount: int,
)
    requires
        quota_allows(exhausted, minted, quota, amount),
    ensures
        minted + amount <= quota,
{
}

/// Per-chain, per-period accounting record.
#[derive(Debug, Clone, PartialEq, Eq)]
pub struct QuotaLedger {
    chain_id: ChainId,
    minted_this_period: Decimal,
    period_start: Timestamp,
    exhausted: bool,
}

impl QuotaLedger {
    /// The chain this ledger accounts for.
    pub closed spec fn spec_chain_id(&self) -> Seq<char> {
        self.chain_id@
    }

    /// Amount minted in the current period.
    pub closed spec fn spec_minted(&self) -> int {
        self.minted_this_period@
    }

    /// Start of the current period, in seconds.
    pub closed spec fn spec_period_start(&self) -> u64 {
        self.period_start.secs
    }

    /// Whether a one-time allowance has been fully consumed.
    pub closed spec fn spec_exhausted(&self) -> bool {
        self.exhausted
    }

    /// A fresh ledger: nothing minted, not exhausted, the period starting at
    /// `period_start`.
    pub fn new(chain_id: ChainId, period_start: Timestamp) -> (l: QuotaLedger)
        ensures
            l.spec_chain_id() == chain_id@,
            l.spec_minted() == 0,
            l.spec_period_start() == period_start.secs,
            !l.spec_exhausted(),
    {
        QuotaLedger {
            chain_id,
            minted_this_period: Decimal::zero(),
            period_start,
            exhausted: false,
        }
    }

    /// The chain this ledger accounts for.
    pub fn chain_id(&self) -> (c: &ChainId)
        ensures
            c@ == self.spec_chain_id(),
    {
        &self.chain_id
    }

    /// Amount minted in the current period.
    pub fn minted_this_period(&self) -> (d: Decimal)
        ensures
            d@ == self.spec_minted(),
    {
        self.minted_this_period
    }

    /// Start of the current period.
    pub fn period_start(&self) -> (t: Timestamp)
        ensures
            t.secs == self.spec_period_start(),
    {
        self.period_start
    }

    /// Whether a one-time allowance is exhausted (it never recovers).
    pub fn is_exhausted(&self) -> (b: bool)
        ensures
            b == self.spec_exhausted(),
    {
        self.exhausted
    }

    /// `Ok` iff minting `amount` is allowed (see [`quota_allows`]); otherwise
    /// `QuotaExceeded`. Reads only.
    pub fn check_quota(&self, config: &QuotaConfig, amount: Decimal) -> (r: GmcResult<()>)
        ensures
            r is Ok <==> quota_allows(
                self.spec_exhausted(),
                self.spec_minted(),
                config.spec_quota(),
                amount@,
            ),
            r is Err ==> r == Err::<(), GmcError>(GmcError::QuotaExceeded),
    {
        if self.exhausted {
            return Err(GmcError::QuotaExceeded);
        }
        match self.minted_this_period.checked_add(amount) {
            Some(prospective) => {
                if prospective.raw <= config.quota().raw {
                    Ok(())
                } else {
                    Err(GmcError::QuotaExceeded)
                }
            },
            None => Err(GmcError::QuotaExceeded),
        }
    }

    /// Consumes `amount` of the current period's allowance. When the mint is allowed
    /// the running total grows by `amount`, and a one-time chain that reaches its cap
    /// becomes exhausted; otherwise `QuotaExceeded` and the ledger is unchanged.
    pub fn consume_quota(&mut self, config: &QuotaConfig, amount: Decimal) -> (r: GmcResult<()>)
        ensures
            r is Ok <==> quota_allows(
                old(self).spec_exhausted(),
                old(self).spec_minted(),
                config.spec_quota(),
                amount@,
            ),
            r is Err ==> r == Err::<(), GmcError>(GmcError::QuotaExceeded) && *final(self) == *old(
                self,
            ),
            r is Ok ==> {
                &&& final(self).spec_minted() == old(self).spec_minted() + amount@
                &&& final(self).spec_exhausted() == (config.spec_period() is OneTime
                    && final(self).spec_minted() >= config.spec_quota())
                &&& final(self).spec_chain_id() == old(self).spec_chain_id()
                &&& final(self).spec_period_start() == old(self).spec_period_start()
            },
    {
        match self.check_quota(config, amount) {
            Ok(()) => {},
            Err(e) => {
                return Err(e);
            },
        }
        let new_total = match self.minted_this_period.checked_add(amount) {
            Some(t) => t,
            None => {
                return Err(GmcError::QuotaExceeded);
            },
        };
        self.minted_this_period = new_total;
        if config.is_one_time() && config.quota().raw <= self.minted_this_period.raw {
            self.exhausted = true;
        }
        Ok(())
    }

    /// Starts a fresh period at `now`: the running total becomes `0`; the exhausted
    /// flag is kept.
    pub fn reset(&mut self, now: Timestamp)
        ensures
            final(self).spec_minted() == 0,
            final(self).spec_period_start() == now.secs,
            final(self).spec_exhausted() == old(self).spec_exhausted(),
            final(self).spec_chain_id() == old(self).spec_chain_id(),
    {
        self.minted_this_period = Decimal::zero();
        self.period_start = now;
    }

    /// Rolls over to the period containing `now` when a full refresh period has
    /// elapsed (periodic chains only): the running total becomes `0` and the period
    /// start advances by a whole number of periods. Returns whether it rolled over;
    /// otherwise the ledger is unchanged.
    pub fn reset_if_elapsed(&mut self, config: &QuotaConfig, now: Timestamp) -> (b: bool)
        ensures
            b == rollover_due(config.spec_period(), old(self).spec_period_start(), now.secs),
            !b ==> *final(self) == *old(self),
            b ==> {
                &&& final(self).spec_minted() == 0
                &&& final(self).spec_period_start() == rolled_start(
                    config.spec_period(),
                    old(self).spec_period_start(),
                    now.secs,
                )
                &&& final(self).spec_exhausted() == old(self).spec_exhausted()
                &&& final(self).spec_chain_id() == old(self).spec_chain_id()
            },
    {
        if config.is_one_time() {
            return false;
        }
        let len = match config.refresh_period().period_length_secs() {
            Some(len) => {
                if len > 0 {
                    len
                } else {
                    return false;
                }
            },
            None => {
                return false;
            },
        };
        let elapsed_secs = now.saturating_elapsed_since(self.period_start);
        if elapsed_secs < len {
            return false;
        }
        let periods_elapsed = elapsed_secs / len;
        let advance = match periods_elapsed.checked_mul(len) {
            Some(a) => a,
            None => u64::MAX,
        };
        let new_start = Timestamp::from_secs(self.period_start.as_secs().saturating_add(advance));
        self.reset(new_start);
        true
    }
}

/// `true` when a periodic chain whose period started at `start` has completed at
/// least one full period by `now`.
pub open spec fn rollover_due(p: RefreshPeriod, start: u64, now: u64) -> bool {
    !(p is OneTime) && (period_length(p) matches Some(len) && len > 0 && elapsed(start, now)
        >= len)
}

/// The start of the period containing `now`: `start + (elapsed / len) × len`
/// (saturating at `u64::MAX`).
pub open spec fn rolled_start(p: RefreshPeriod, start: u64, now: u64) -> u64 {
    let len = period_length(p).unwrap();
    let advance = (elapsed(start, now) / (len as int)) * len;
    if start + advance <= u64::MAX {
        (start + advance) as u64
    } else {
        u64::MAX
    }
}

/// A registry of independent `(QuotaConfig, QuotaLedger)` pairs, one per chain.
#[derive(Debug, Clone, Default)]
pub struct QuotaLedgerSet {
    entries: Vec<(ChainId, QuotaConfig, QuotaLedger)>,
}

/// The entry registered for the chain `id` in `s`, if any.
pub open spec fn entry_of(s: Seq<(ChainId, QuotaConfig, QuotaLedger)>, id: Seq<char>) -> Option<
    (QuotaConfig, QuotaLedger),
> {
    if exists|i: int| 0 <= i < s.len() && s[i].0@ == id {
        let i = choose|i: int| 0 <= i < s.len() && s[i].0@ == id;
        Some((s[i].1, s[i].2))
    } else {
        None
    }
}

/// No chain is registered twice.
pub open spec fn entry_ids_unique(s: Seq<(ChainId, QuotaConfig, QuotaLedger)>) -> bool {
    forall|i: int, j: int| 0 <= i < s.len() && 0 <= j < s.len() && i != j ==> s[i].0@ != s[j].0@
}

proof fn lemma_entry_of(s: Seq<(ChainId, QuotaConfig, QuotaLedger)>, i: int)
    requires
        entry_ids_unique(s),
        0 <= i < s.len(),
    ensures
        entry_of(s, s[i].0@) == Some((s[i].1, s[i].2)),
{
    assert(exists|k: int| 0 <= k < s.len() && s[k].0@ == s[i].0@);
}

impl QuotaLedgerSet {
    /// The registered entries.
    pub closed spec fn spec_entries(&self) -> Seq<(ChainId, QuotaConfig, QuotaLedger)> {
        self.entries@
    }

    /// Every chain is registered at most once.
    pub closed spec fn wf(&self) -> bool {
        entry_ids_unique(self.entries@)
    }

    /// The entry for chain `id`, by text.
    pub open spec fn spec_entry(&self, id: Seq<char>) -> Option<(QuotaConfig, QuotaLedger)> {
        entry_of(self.spec_entries(), id)
    }

    /// An empty registry.
    pub fn new() -> (s: QuotaLedgerSet)
        ensures
            s.wf(),
            s.spec_entries().len() == 0,
    {
        QuotaLedgerSet { entries: Vec::new() }
    }

    fn position(&self, chain_id: &ChainId) -> (r: Option<usize>)
        requires
            self.wf(),
        ensures
            r is Some <==> self.spec_entry(chain_id@) is Some,
            r matches Some(i) ==> i < self.entries@.len() && self.entries@[i as int].0@
                == chain_id@ && self.spec_entry(chain_id@) == Some(
                (self.entries@[i as int].1, self.entries@[i as int].2),
            ),
    {
        let mut i: usize = 0;
        while i < self.entries.len()
            invariant
                self.wf(),
                i <= self.entries@.len(),
                forall|j: int| 0 <= j < i ==> self.entries@[j].0@ != chain_id@,
            decreases self.entries@.len() - i,
        {
            if self.entries[i].0 == *chain_id {
                proof {
                    lemma_entry_of(self.entries@, i as int);
                }
                return Some(i);
            }
            i = i + 1;
        }
        None
    }

    /// Registers `chain_id` with `config` and a fresh ledger starting at
    /// `period_start`, replacing (and returning) any earlier entry for that chain;
    /// every other chain is untouched.
    pub fn register(&mut self, chain_id: ChainId, config: QuotaConfig, period_start: Timestamp) -> (r:
        Option<(QuotaConfig, QuotaLedger)>)
        requires
            old(self).wf(),
        ensures
            final(self).wf(),
            r == old(self).spec_entry(chain_id@),
            final(self).spec_entry(chain_id@) matches Some((c, l)) && c == config
                && l.spec_chain_id() == chain_id@ && l.spec_minted() == 0
                && l.spec_period_start() == period_start.secs && !l.spec_exhausted(),
            forall|id: Seq<char>|
                id != chain_id@ ==> final(self).spec_entry(id) == old(self).spec_entry(id),
    {
        let ledger = QuotaLedger::new(chain_id.clone(), period_start);
        let ghost old_entries = self.entries@;
        match self.position(&chain_id) {
            Some(i) => {
                let prev = (self.entries[i].1, self.entries[i].2.clone_ledger());
                self.entries.set(i, (chain_id, config, ledger));
                proof {
                    let s = self.entries@;
                    assert forall|a: int, b: int|
                        0 <= a < s.len() && 0 <= b < s.len() && a != b implies s[a].0@
                        != s[b].0@ by {
                        if a != i && b != i {
                            assert(s[a] == old_entries[a]);
                            assert(s[b] == old_entries[b]);
                        } else if a == i {
                            assert(s[b] == old_entries[b]);
                        } else {
                            assert(s[a] == old_entries[a]);
                        }
                    }
                    lemma_entry_of(s, i as int);
                    assert forall|id: Seq<char>| id != chain_id@ implies entry_of(s, id) == entry_of(
                        old_entries,
                        id,
                    ) by {
                        if exists|k: int| 0 <= k < s.len() && s[k].0@ == id {
                            let k = choose|k: int| 0 <= k < s.len() && s[k].0@ == id;
                            assert(k != i);
                            assert(s[k] == old_entries[k]);
                            lemma_entry_of(s, k);
                            lemma_entry_of(old_entries, k);
                        } else {
                            assert forall|k: int| 0 <= k < old_entries.len() implies old_entries[k].0@
                                != id by {
                                if k != i {
                                    assert(s[k] == old_entries[k]);
                                }
                            }
                        }
                    }
                }
                Some(prev)
            },
            None => {
                self.entries.push((chain_id, config, ledger));
                proof {
                    let s = self.entries@;
                    let n = old_entries.len() as int;
                    assert forall|a: int, b: int|
                        0 <= a < s.len() && 0 <= b < s.len() && a != b implies s[a].0@
                        != s[b].0@ by {
                        if a < n && b < n {
                            assert(s[a] == old_entries[a]);
                            assert(s[b] == old_entries[b]);
                        } else if a < n {
                            assert(s[a] == old_entries[a]);
                        } else {
                            assert(s[b] == old_entries[b]);
                        }
                    }
                    lemma_entry_of(s, n);
                    assert forall|id: Seq<char>| id != chain_id@ implies entry_of(s, id) == entry_of(
                        old_entries,
                        id,
                    ) by {
                        if exists|k: int| 0 <= k < s.len() && s[k].0@ == id {
                            let k = choose|k: int| 0 <= k < s.len() && s[k].0@ == id;
                            assert(k != n);
                            assert(s[k] == old_entries[k]);
                            lemma_entry_of(s, k);
                            lemma_entry_of(old_entries, k);
                        } else {
                            assert forall|k: int| 0 <= k < old_entries.len() implies old_entries[k].0@
                                != id by {
                                assert(s[k] == old_entries[k]);
                            }
                        }
                    }
                }
                None
            },
        }
    }

    /// `true` iff `chain_id` is registered.
    pub fn contains(&self, chain_id: &ChainId) -> (b: bool)
        requires
            self.wf(),
        ensures
            b == (self.spec_entry(chain_id@) is Some),
    {
        self.position(chain_id).is_some()
    }

    /// The ledger of `chain_id`, if registered.
    pub fn ledger(&self, chain_id: &ChainId) -> (r: Option<&QuotaLedger>)
        requires
            self.wf(),
        ensures
            r is Some <==> self.spec_entry(chain_id@) is Some,
            r matches Some(l) ==> self.spec_entry(chain_id@).unwrap().1 == *l,
    {
        match self.position(chain_id) {
            Some(i) => Some(&self.entries[i].2),
            None => None,
        }
    }

    /// The config of `chain_id`, if registered.
    pub fn config(&self, chain_id: &ChainId) -> (r: Option<&QuotaConfig>)
        requires
            self.wf(),
        ensures
            r is Some <==> self.spec_entry(chain_id@) is Some,
            r matches Some(c) ==> self.spec_entry(chain_id@).unwrap().0 == *c,
    {
        match self.position(chain_id) {
            Some(i) => Some(&self.entries[i].1),
            None => None,
        }
    }

    /// Amount minted this period on `chain_id`, if registered.
    pub fn minted_this_period(&self, chain_id: &ChainId) -> (r: Option<Decimal>)
        requires
            self.wf(),
        ensures
            r is Some <==> self.spec_entry(chain_id@) is Some,
            r matches Some(d) ==> d@ == self.spec_entry(chain_id@).unwrap().1.spec_minted(),
    {
        match self.ledger(chain_id) {
            Some(l) => Some(l.minted_this_period()),
            None => None,
        }
    }

    /// Whether minting `amount` on `chain_id` is allowed; an unknown chain is
    /// `QuotaConfigInvalid`. Reads only.
    pub fn check(&self, chain_id: &ChainId, amount: Decimal) -> (r: GmcResult<()>)
        requires
            self.wf(),
        ensures
            self.spec_entry(chain_id@) is None ==> r == Err::<(), GmcError>(
                GmcError::QuotaConfigInvalid,
            ),
            self.spec_entry(chain_id@) matches Some((c, l)) ==> {
                &&& r is Ok <==> quota_allows(
                    l.spec_exhausted(),
                    l.spec_minted(),
                    c.spec_quota(),
                    amount@,
                )
                &&& r is Err ==> r == Err::<(), GmcError>(GmcError::QuotaExceeded)
            },
    {
        match self.position(chain_id) {
            Some(i) => self.entries[i].2.check_quota(&self.entries[i].1, amount),
            None => Err(GmcError::QuotaConfigInvalid),
        }
    }

    /// Consumes `amount` on `chain_id` only; an unknown chain is `QuotaConfigInvalid`.
    /// Every other chain's entry is untouched, and a failure changes nothing.
    pub fn consume(&mut self, chain_id: &ChainId, amount: Decimal) -> (r: GmcResult<()>)
        requires
            old(self).wf(),
        ensures
            final(self).wf(),
            forall|id: Seq<char>|
                id != chain_id@ ==> final(self).spec_entry(id) == old(self).spec_entry(id),
            old(self).spec_entry(chain_id@) is None ==> r == Err::<(), GmcError>(
                GmcError::QuotaConfigInvalid,
            ) && final(self).spec_entries() == old(self).spec_entries(),
            old(self).spec_entry(chain_id@) matches Some((c, l)) ==> {
                &&& r is Ok <==> quota_allows(
                    l.spec_exhausted(),
                    l.spec_minted(),
                    c.spec_quota(),
                    amount@,
                )
                &&& r is Err ==> r == Err::<(), GmcError>(GmcError::QuotaExceeded)
                    && final(self).spec_entries() == old(self).spec_entries()
                &&& r is Ok ==> (final(self).spec_entry(chain_id@) matches Some((c2, l2)) && c2
                    == c && l2.spec_minted() == l.spec_minted() + amount@
                    && l2.spec_exhausted() == (c.spec_period() is OneTime && l2.spec_minted()
                    >= c.spec_quota()) && l2.spec_period_start() == l.spec_period_start()
                    && l2.spec_chain_id() == l.spec_chain_id())
            },
    {
        match self.position(chain_id) {
            Some(i) => {
                let ghost old_entries = self.entries@;
                let config = self.entries[i].1;
                let mut ledger = self.entries[i].2.clone_ledger();
                let r = ledger.consume_quota(&config, amount);
                match r {
                    Ok(()) => {
                        let id = self.entries[i].0.clone();
                        self.entries.set(i, (id, config, ledger));
                        proof {
                            self.lemma_updated(old_entries, i as int);
                        }
                        Ok(())
                    },
                    Err(e) => Err(e),
                }
            },
            None => Err(GmcError::QuotaConfigInvalid),
        }
    }

    /// Rolls `chain_id`'s ledger over when its refresh period has elapsed, returning
    /// whether it did; an unknown chain is `QuotaConfigInvalid`. Every other chain's
    /// entry is untouched.
    pub fn reset_if_elapsed(&mut self, chain_id: &ChainId, now: Timestamp) -> (r: GmcResult<bool>)
        requires
            old(self).wf(),
        ensures
            final(self).wf(),
            forall|id: Seq<char>|
                id != chain_id@ ==> final(self).spec_entry(id) == old(self).spec_entry(id),
            old(self).spec_entry(chain_id@) is None ==> r == Err::<bool, GmcError>(
                GmcError::QuotaConfigInvalid,
            ) && final(self).spec_entries() == old(self).spec_entries(),
            old(self).spec_entry(chain_id@) matches Some((c, l)) ==> {
                &&& r == Ok::<bool, GmcError>(
                    rollover_due(c.spec_period(), l.spec_period_start(), now.secs),
                )
                &&& final(self).spec_entry(chain_id@) matches Some((c2, l2)) && c2 == c && (
                rollover_due(c.spec_period(), l.spec_period_start(), now.secs) ==> {
                    &&& l2.spec_minted() == 0
                    &&& l2.spec_period_start() == rolled_start(
                        c.spec_period(),
                        l.spec_period_start(),
                        now.secs,
                    )
                    &&& l2.spec_exhausted() == l.spec_exhausted()
                    &&& l2.spec_chain_id() == l.spec_chain_id()
                }) && (!rollover_due(c.spec_period(), l.spec_period_start(), now.secs) ==> l2
                    == l)
            },
    {
        match self.position(chain_id) {
            Some(i) => {
                let ghost old_entries = self.entries@;
                let config = self.entries[i].1;
                let mut ledger = self.entries[i].2.clone_ledger();
                let b = ledger.reset_if_elapsed(&config, now);
                let id = self.entries[i].0.clone();
                self.entries.set(i, (id, config, ledger));
                proof {
                    self.lemma_updated(old_entries, i as int);
                }
                Ok(b)
            },
            None => Err(GmcError::QuotaConfigInvalid),
        }
    }

    proof fn lemma_updated(&self, old_entries: Seq<(ChainId, QuotaConfig, QuotaLedger)>, i: int)
        requires
            entry_ids_unique(old_entries),
            0 <= i < old_entries.len(),
            self.entries@.len() == old_entries.len(),
            self.entries@[i].0@ == old_entries[i].0@,
            forall|k: int| 0 <= k < old_entries.len() && k != i ==> self.entries@[k] == old_entries[k],
        ensures
            self.wf(),
            forall|id: Seq<char>| id != old_entries[i].0@ ==> self.spec_entry(id) == entry_of(old_entries, id),
            self.spec_entry(old_entries[i].0@) == Some((self.entries@[i].1, self.entries@[i].2)),
    {
        let s = self.entries@;
        assert forall|a: int, b: int|
            0 <= a < s.len() && 0 <= b < s.len() && a != b implies s[a].0@ != s[b].0@ by {
            if a != i {
                assert(s[a] == old_entries[a]);
            }
            if b != i {
                assert(s[b] == old_entries[b]);
            }
        }
        lemma_entry_of(s, i);
        assert forall|id: Seq<char>| id != old_entries[i].0@ implies entry_of(s, id) == entry_of(
            old_entries,
            id,
        ) by {
            if exists|k: int| 0 <= k < s.len() && s[k].0@ == id {
                let k = choose|k: int| 0 <= k < s.len() && s[k].0@ == id;
                assert(k != i);
                assert(s[k] == old_entries[k]);
                lemma_entry_of(s, k);
                lemma_entry_of(old_entries, k);
            } else {
                assert forall|k: int| 0 <= k < old_entries.len() implies old_entries[k].0@ != id by {
                    if k != i {
                        assert(s[k] == old_entries[k]);
                    }
                }
            }
        }
    }
}

impl QuotaLedger {
    /// A copy of this ledger.
    pub fn clone_ledger(&self) -> (c: QuotaLedger)
        ensures
            c == *self,
    {
        QuotaLedger {
            chain_id: self.chain_id.clone(),
            minted_this_period: self.minted_this_period,
            period_start: self.period_start,
            exhausted: self.exhausted,
        }
    }
}

} // verus!

//! Evaluation mechanisms: how a chain recognises contributions.
//!
//! A mechanism combines a non-empty set of acquisition modes, a consensus threshold
//! in `(0, 1]`, and whether high-intimacy voters are excluded (by default they are).
//! An [`EvaluationMechanismSlot`] holds a chain's mechanism: a rejected update never
//! disturbs the current one, and a governance-proposed change takes effect only when
//! the decision reached its threshold.
use vstd::prelude::*;

use crate::error::{GmcError, GmcResult};
use crate::types::{Decimal, Ratio};

verus! {

/// High-intimacy exclusion is on unless configured otherwise.
pub const DEFAULT_EXCLUDE_HIGH_INTIMACY: bool = true;

/// How contributions can be acquired on a chain.
#[derive(Debug, Clone, Copy, PartialEq, Eq, PartialOrd, Ord, Hash, Structural)]
pub enum AcquisitionMode {
    /// Objectively metered contributions.
    ObjectiveMetering,
    /// Bounty tasks.
    BountyTask,
}

/// `true` when `mode` occurs in `modes`.
pub open spec fn lists_mode(modes: Seq<AcquisitionMode>, mode: AcquisitionMode) -> bool {
    exists|i: int| 0 <= i < modes.len() && modes[i] == mode
}

/// A validated evaluation mechanism.
#[derive(Debug, Clone, Copy, PartialEq, Eq)]
pub struct EvaluationMechanism {
    objective_metering: bool,
    bounty_task: bool,
    consensus_threshold: Ratio,
    exclude_high_intimacy: bool,
}

/// Why a mechanism with these parts is rejected, if it is.
pub open spec fn mechanism_error(modes: Seq<AcquisitionMode>, threshold: int) -> Option<GmcError> {
    if modes.len() == 0 || threshold == 0 {
        Some(GmcError::MechanismConfigInvalid)
    } else {
        None
    }
}

impl EvaluationMechanism {
    /// Whether `mode` is enabled.
    pub closed spec fn spec_has_mode(&self, mode: AcquisitionMode) -> bool {
        match mode {
            AcquisitionMode::ObjectiveMetering => self.objective_metering,
            AcquisitionMode::BountyTask => self.bounty_task,
        }
    }

    /// The consensus threshold (raw).
    pub closed spec fn spec_threshold(&self) -> int {
        self.consensus_threshold@
    }

    /// Whether high-intimacy voters are excluded.
    pub closed spec fn spec_exclude(&self) -> bool {
        self.exclude_high_intimacy
    }

    /// At least one mode and a positive threshold.
    pub closed spec fn wf(&self) -> bool {
        (self.objective_metering || self.bounty_task) && self.consensus_threshold@ > 0
    }

    /// `true` when `m` has exactly the listed modes, this threshold and this flag.
    pub open spec fn built_from(
        &self,
        modes: Seq<AcquisitionMode>,
        threshold: int,
        exclude: bool,
    ) -> bool {
        &&& self.wf()
        &&& forall|m: AcquisitionMode| #[trigger] self.spec_has_mode(m) == lists_mode(modes, m)
        &&& self.spec_threshold() == threshold
        &&& self.spec_exclude() == exclude
    }

    /// Builds a mechanism from the listed modes (duplicates collapse). Rejects an empty
    /// list or a zero threshold with `MechanismConfigInvalid`.
    pub fn new(
        acquisition_modes: &[AcquisitionMode],
        consensus_threshold: Ratio,
        exclude_high_intimacy: bool,
    ) -> (r: GmcResult<EvaluationMechanism>)
        ensures
            match mechanism_error(acquisition_modes@, consensus_threshold@) {
                Some(e) => r == Err::<EvaluationMechanism, GmcError>(e),
                None => r matches Ok(m) && m.built_from(
                    acquisition_modes@,
                    consensus_threshold@,
                    exclude_high_intimacy,
                ),
            },
    {
        let mut objective_metering = false;
        let mut bounty_task = false;
        let mut i: usize = 0;
        while i < acquisition_modes.len()
            invariant
                i <= acquisition_modes@.len(),
                objective_metering == lists_mode(
                    acquisition_modes@.take(i as int),
                    AcquisitionMode::ObjectiveMetering,
                ),
                bounty_task == lists_mode(
                    acquisition_modes@.take(i as int),
                    AcquisitionMode::BountyTask,
                ),
            decreases acquisition_modes@.len() - i,
        {
            let ghost prefix = acquisition_modes@.take(i as int);
            let ghost next = acquisition_modes@.take(i as int + 1);
            proof {
                assert(next == prefix.push(acquisition_modes@[i as int]));
                assert forall|m: AcquisitionMode| lists_mode(next, m) == (lists_mode(prefix, m) || m
                    == acquisition_modes@[i as int]) by {
                    if lists_mode(prefix, m) {
                        let k = choose|k: int| 0 <= k < prefix.len() && prefix[k] == m;
                        assert(next[k] == m);
                    }
                    if m == acquisition_modes@[i as int] {
                        assert(next[i as int] == m);
                    }
                    if lists_mode(next, m) {
                        let k = choose|k: int| 0 <= k < next.len() && next[k] == m;
                        if k < i {
                            assert(prefix[k] == m);
                        }
                    }
                }
            }
            match acquisition_modes[i] {
                AcquisitionMode::ObjectiveMetering => {
                    objective_metering = true;
                },
                AcquisitionMode::BountyTask => {
                    bounty_task = true;
                },
            }
            i = i + 1;
        }
        proof {
            assert(acquisition_modes@.take(acquisition_modes@.len() as int) == acquisition_modes@);
        }
        if !objective_metering && !bounty_task {
            proof {
                if acquisition_modes@.len() > 0 {
                    let m = acquisition_modes@[0];
                    assert(lists_mode(acquisition_modes@, m));
                }
            }
            return Err(GmcError::MechanismConfigInvalid);
        }
        if consensus_threshold.value().is_zero() {
            return Err(GmcError::MechanismConfigInvalid);
        }
        let r = EvaluationMechanism {
            objective_metering,
            bounty_task,
            consensus_threshold,
            exclude_high_intimacy,
        };
        proof {
            assert forall|m: AcquisitionMode| #[trigger] r.spec_has_mode(m) == lists_mode(
                acquisition_modes@,
                m,
            ) by {
                match m {
                    AcquisitionMode::ObjectiveMetering => {},
                    AcquisitionMode::BountyTask => {},
                }
            }
        }
        Ok(r)
    }

    /// [`EvaluationMechanism::new`] with high-intimacy exclusion on.
    pub fn with_default_exclusion(acquisition_modes: &[AcquisitionMode], consensus_threshold: Ratio) -> (r:
        GmcResult<EvaluationMechanism>)
        ensures
            match mechanism_error(acquisition_modes@, consensus_threshold@) {
                Some(e) => r == Err::<EvaluationMechanism, GmcError>(e),
                None => r matches Ok(m) && m.built_from(
                    acquisition_modes@,
                    consensus_threshold@,
                    DEFAULT_EXCLUDE_HIGH_INTIMACY,
                ),
            },
    {
        Self::new(acquisition_modes, consensus_threshold, DEFAULT_EXCLUDE_HIGH_INTIMACY)
    }

    /// [`EvaluationMechanism::new`] with a decimal threshold, which must lie in
    /// `[0, 1]` (otherwise `MechanismConfigInvalid`).
    pub fn from_threshold_decimal(
        acquisition_modes: &[AcquisitionMode],
        consensus_threshold: Decimal,
        exclude_high_intimacy: bool,
    ) -> (r: GmcResult<EvaluationMechanism>)
        ensures
            !Ratio::in_range(consensus_threshold@) ==> r == Err::<EvaluationMechanism, GmcError>(
                GmcError::MechanismConfigInvalid,
            ),
            Ratio::in_range(consensus_threshold@) ==> match mechanism_error(
                acquisition_modes@,
                consensus_threshold@,
            ) {
                Some(e) => r == Err::<EvaluationMechanism, GmcError>(e),
                None => r matches Ok(m) && m.built_from(
                    acquisition_modes@,
                    consensus_threshold@,
                    exclude_high_intimacy,
                ),
            },
    {
        let threshold = match Ratio::new(consensus_threshold) {
            Some(t) => t,
            None => {
                return Err(GmcError::MechanismConfigInvalid);
            },
        };
        Self::new(acquisition_modes, threshold, exclude_high_intimacy)
    }

    /// Whether `mode` is enabled.
    pub fn has_acquisition_mode(&self, mode: AcquisitionMode) -> (b: bool)
        ensures
            b == self.spec_has_mode(mode),
    {
        match mode {
            AcquisitionMode::ObjectiveMetering => self.objective_metering,
            AcquisitionMode::BountyTask => self.bounty_task,
        }
    }

    /// The enabled modes, each once, `ObjectiveMetering` before `BountyTask`.
    pub fn acquisition_modes(&self) -> (r: std::vec::IntoIter<AcquisitionMode>)
        ensures
            vstd::std_specs::vec::into_iter_elts(r) == if self.spec_has_mode(AcquisitionMode::ObjectiveMetering) {
                seq![AcquisitionMode::ObjectiveMetering]
            } else {
                Seq::empty()
            } + if self.spec_has_mode(AcquisitionMode::BountyTask) {
                seq![AcquisitionMode::BountyTask]
            } else {
                Seq::empty()
            },
    {
        broadcast use vstd::std_specs::vec::axiom_spec_into_iter;

        let mut v: Vec<AcquisitionMode> = Vec::new();
        if self.objective_metering {
            v.push(AcquisitionMode::ObjectiveMetering);
        }
        if self.bounty_task {
            v.push(AcquisitionMode::BountyTask);
        }
        proof {
            let a = if self.objective_metering {
                seq![AcquisitionMode::ObjectiveMetering]
            } else {
                Seq::<AcquisitionMode>::empty()
            };
            let b = if self.bounty_task {
                seq![AcquisitionMode::BountyTask]
            } else {
                Seq::<AcquisitionMode>::empty()
            };
            assert(v@ =~= a + b);
        }
        v.into_iter()
    }

    /// Number of enabled modes.
    pub fn acquisition_mode_count(&self) -> (n: usize)
        ensures
            n == (if self.spec_has_mode(AcquisitionMode::ObjectiveMetering) {
                1int
            } else {
                0int
            }) + (if self.spec_has_mode(AcquisitionMode::BountyTask) {
                1int
            } else {
                0int
            }),
    {
        let mut n: usize = 0;
        if self.objective_metering {
            n = n + 1;
        }
        if self.bounty_task {
            n = n + 1;
        }
        n
    }

    /// The consensus threshold.
    pub fn consensus_threshold(&self) -> (r: Ratio)
        ensures
            r@ == self.spec_threshold(),
    {
        self.consensus_threshold
    }

    /// Whether high-intimacy voters are excluded.
    pub fn exclude_high_intimacy(&self) -> (b: bool)
        ensures
            b == self.spec_exclude(),
    {
        self.exclude_high_intimacy
    }
}

/// Whether a governance vote reached its threshold.
#[derive(Debug, Clone, Copy, PartialEq, Eq, Hash, Structural)]
pub enum GovernanceDecision {
    /// The threshold was reached.
    ThresholdReached,
    /// The threshold was not reached.
    ThresholdNotReached,
}

impl GovernanceDecision {
    /// `ThresholdReached` iff `passed`.
    pub fn from_passed(passed: bool) -> (d: GovernanceDecision)
        ensures
            d == if passed {
                GovernanceDecision::ThresholdReached
            } else {
                GovernanceDecision::ThresholdNotReached
            },
    {
        if passed {
            GovernanceDecision::ThresholdReached
        } else {
            GovernanceDecision::ThresholdNotReached
        }
    }

    /// `true` for `ThresholdReached`.
    pub fn threshold_reached(self) -> (b: bool)
        ensures
            b == (self is ThresholdReached),
    {
        match self {
            GovernanceDecision::ThresholdReached => true,
            GovernanceDecision::ThresholdNotReached => false,
        }
    }
}

/// Evidence that a mechanism change took effect and must be anchored.
#[derive(Debug, Clone, PartialEq, Eq)]
pub struct MechanismChangeReceipt {
    anchor_required: bool,
    applied: EvaluationMechanism,
}

impl MechanismChangeReceipt {
    /// Whether the change must be anchored.
    pub closed spec fn spec_anchor_required(&self) -> bool {
        self.anchor_required
    }

    /// The mechanism now in effect.
    pub closed spec fn spec_applied(&self) -> EvaluationMechanism {
        self.applied
    }

    fn for_applied(applied: EvaluationMechanism) -> (r: MechanismChangeReceipt)
        ensures
            r.spec_anchor_required(),
            r.spec_applied() == applied,
    {
        MechanismChangeReceipt { anchor_required: true, applied }
    }

    /// Whether the change must be anchored (always `true`).
    pub fn anchor_required(&self) -> (b: bool)
        ensures
            b == self.spec_anchor_required(),
    {
        self.anchor_required
    }

    /// The mechanism now in effect.
    pub fn applied(&self) -> (m: &EvaluationMechanism)
        ensures
            *m == self.spec_applied(),
    {
        &self.applied
    }
}

/// A chain's current evaluation mechanism, if defined.
#[derive(Debug, Clone, Default, PartialEq, Eq)]
pub struct EvaluationMechanismSlot {
    current: Option<EvaluationMechanism>,
}

impl EvaluationMechanismSlot {
    /// The current mechanism.
    pub closed spec fn spec_current(&self) -> Option<EvaluationMechanism> {
        self.current
    }

    /// An undefined slot.
    pub fn empty() -> (s: EvaluationMechanismSlot)
        ensures
            s.spec_current() is None,
    {
        EvaluationMechanismSlot { current: None }
    }

    /// A slot holding `config`.
    pub fn with_config(config: EvaluationMechanism) -> (s: EvaluationMechanismSlot)
        ensures
            s.spec_current() == Some(config),
    {
        EvaluationMechanismSlot { current: Some(config) }
    }

    /// The current mechanism.
    pub fn current(&self) -> (r: Option<&EvaluationMechanism>)
        ensures
            match self.spec_current() {
                Some(m) => r matches Some(x) && *x == m,
                None => r is None,
            },
    {
        match &self.current {
            Some(m) => Some(m),
            None => None,
        }
    }

    /// Whether a mechanism is defined.
    pub fn is_defined(&self) -> (b: bool)
        ensures
            b == (self.spec_current() is Some),
    {
        self.current.is_some()
    }

    /// Replaces the mechanism with one built from the parts; on rejection the slot is
    /// unchanged.
    pub fn try_set(
        &mut self,
        acquisition_modes: &[AcquisitionMode],
        consensus_threshold: Ratio,
        exclude_high_intimacy: bool,
    ) -> (r: GmcResult<()>)
        ensures
            match mechanism_error(acquisition_modes@, consensus_threshold@) {
                Some(e) => r == Err::<(), GmcError>(e) && *final(self) == *old(self),
                None => r is Ok && (final(self).spec_current() matches Some(m) && m.built_from(
                    acquisition_modes@,
                    consensus_threshold@,
                    exclude_high_intimacy,
                )),
            },
    {
        let next = match EvaluationMechanism::new(
            acquisition_modes,
            consensus_threshold,
            exclude_high_intimacy,
        ) {
            Ok(m) => m,
            Err(e) => {
                return Err(e);
            },
        };
        self.current = Some(next);
        Ok(())
    }

    /// Sets the mechanism directly.
    pub fn set_config(&mut self, config: EvaluationMechanism)
        ensures
            final(self).spec_current() == Some(config),
    {
        self.current = Some(config);
    }

    /// Applies `new_config` only when `decision` reached its threshold, returning a
    /// receipt that requires anchoring; otherwise `GovernanceThresholdNotMet` and the
    /// slot is unchanged.
    pub fn propose_change(&mut self, new_config: EvaluationMechanism, decision: GovernanceDecision) -> (r:
        GmcResult<MechanismChangeReceipt>)
        ensures
            !(decision is ThresholdReached) ==> r == Err::<MechanismChangeReceipt, GmcError>(
                GmcError::GovernanceThresholdNotMet,
            ) && *final(self) == *old(self),
            decision is ThresholdReached ==> (r matches Ok(rc) && rc.spec_anchor_required()
                && rc.spec_applied() == new_config) && final(self).spec_current() == Some(
                new_config,
            ),
    {
        if !decision.threshold_reached() {
            return Err(GmcError::GovernanceThresholdNotMet);
        }
        self.current = Some(new_config);
        Ok(MechanismChangeReceipt::for_applied(new_config))
    }

    /// Builds a mechanism from the parts and proposes it. A rejected configuration is
    /// reported before the decision is consulted; either failure leaves the slot
    /// unchanged.
    pub fn propose_change_from_parts(
        &mut self,
        acquisition_modes: &[AcquisitionMode],
        consensus_threshold: Ratio,
        exclude_high_intimacy: bool,
        decision: GovernanceDecision,
    ) -> (r: GmcResult<MechanismChangeReceipt>)
        ensures
            match mechanism_error(acquisition_modes@, consensus_threshold@) {
                Some(e) => r == Err::<MechanismChangeReceipt, GmcError>(e) && *final(self) == *old(
                    self,
                ),
                None => if decision is ThresholdReached {
                    r matches Ok(rc) && rc.spec_anchor_required() && rc.spec_applied().built_from(
                        acquisition_modes@,
                        consensus_threshold@,
                        exclude_high_intimacy,
                    ) && final(self).spec_current() == Some(rc.spec_applied())
                } else {
                    r == Err::<MechanismChangeReceipt, GmcError>(
                        GmcError::GovernanceThresholdNotMet,
                    ) && *final(self) == *old(self)
                },
            },
    {
        let next = match EvaluationMechanism::new(
            acquisition_modes,
            consensus_threshold,
            exclude_high_intimacy,
        ) {
            Ok(m) => m,
            Err(e) => {
                return Err(e);
            },
        };
        self.propose_change(next, decision)
    }
}

} // verus!

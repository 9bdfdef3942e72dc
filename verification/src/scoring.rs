//! `Scoring_Engine`: the mint amount of an evaluated contribution.
//!
//! A contribution carries per-dimension weights (which must sum to exactly `1`) and
//! per-dimension base scores; each chain has per-dimension inflation indices. The
//! mint amount is `Σ_d weight_d · base_d · index_d` in fixed point, over the
//! dimensions with a non-zero weight. A weighted dimension without a base score cannot
//! be classified (`DimensionUnmatched`).
use vstd::prelude::*;

use crate::error::{GmcError, GmcResult};
use crate::types::{
    fits_i128, last_entry, spec_mul, trunc_div, Decimal, Dimension, DimensionWeights, Ratio,
    SCALE,
};

verus! {

/// Default Thought index `2.00` (raw).
pub const DEFAULT_THOUGHT_INDEX_RAW: i128 = 2_000_000;

/// Default Training index `1.00` (raw).
pub const DEFAULT_TRAINING_INDEX_RAW: i128 = 1_000_000;

/// Default Technique index `1.00` (raw).
pub const DEFAULT_TECHNIQUE_INDEX_RAW: i128 = 1_000_000;

/// Per-dimension base scores; an absent dimension has no score.
#[derive(Debug, Clone, Copy, PartialEq, Eq, Default)]
pub struct BaseScores {
    /// Base score for [`Dimension::Thought`].
    pub thought: Option<Decimal>,
    /// Base score for [`Dimension::Training`].
    pub training: Option<Decimal>,
    /// Base score for [`Dimension::Technique`].
    pub technique: Option<Decimal>,
}

impl BaseScores {
    /// The base score of `d`, if set.
    pub open spec fn spec_score(&self, d: Dimension) -> Option<Decimal> {
        match d {
            Dimension::Thought => self.thought,
            Dimension::Training => self.training,
            Dimension::Technique => self.technique,
        }
    }

    /// Scores from `(dimension, score)` entries; a later entry for the same dimension
    /// replaces an earlier one.
    pub fn from_entries(entries: &[(Dimension, Decimal)]) -> (s: BaseScores)
        ensures
            forall|d: Dimension| #[trigger] s.spec_score(d) == last_entry(entries@, d),
    {
        let mut s = BaseScores { thought: None, training: None, technique: None };
        let mut i: usize = 0;
        while i < entries.len()
            invariant
                i <= entries@.len(),
                forall|d: Dimension| #[trigger] s.spec_score(d) == last_entry(entries@.take(i as int), d),
            decreases entries@.len() - i,
        {
            let ghost old_s = s;
            let (d, v) = entries[i];
            match d {
                Dimension::Thought => {
                    s.thought = Some(v);
                },
                Dimension::Training => {
                    s.training = Some(v);
                },
                Dimension::Technique => {
                    s.technique = Some(v);
                },
            }
            proof {
                let next = entries@.take(i as int + 1);
                assert(next.drop_last() == entries@.take(i as int));
                assert(next.last() == entries@[i as int]);
                assert forall|e: Dimension| #[trigger] s.spec_score(e) == last_entry(next, e) by {
                    if e != d {
                        assert(s.spec_score(e) == old_s.spec_score(e));
                    }
                }
            }
            i = i + 1;
        }
        proof {
            assert(entries@.take(entries@.len() as int) == entries@);
        }
        s
    }

    /// The base score of `d`, if set.
    pub fn get(&self, d: Dimension) -> (r: Option<Decimal>)
        ensures
            r == self.spec_score(d),
    {
        match d {
            Dimension::Thought => self.thought,
            Dimension::Training => self.training,
            Dimension::Technique => self.technique,
        }
    }
}

/// The allowed range of each dimension's inflation index (raw): Thought `(1, 10]`,
/// Training `[0.95, 1.05]`, Technique `[0.01, 1]`.
pub open spec fn index_in_range(d: Dimension, v: int) -> bool {
    match d {
        Dimension::Thought => 1_000_000 < v <= 10_000_000,
        Dimension::Training => 950_000 <= v <= 1_050_000,
        Dimension::Technique => 10_000 <= v <= 1_000_000,
    }
}

/// A chain's per-dimension inflation indices.
#[derive(Debug, Clone, Copy, PartialEq, Eq)]
pub struct InflationIndexConfig {
    thought: Decimal,
    training: Decimal,
    technique: Decimal,
}

impl InflationIndexConfig {
    /// The index of `d` (raw).
    pub closed spec fn spec_index(&self, d: Dimension) -> int {
        match d {
            Dimension::Thought => self.thought@,
            Dimension::Training => self.training@,
            Dimension::Technique => self.technique@,
        }
    }

    /// The index of `d`.
    pub fn index(&self, d: Dimension) -> (r: Decimal)
        ensures
            r@ == self.spec_index(d),
    {
        match d {
            Dimension::Thought => self.thought,
            Dimension::Training => self.training,
            Dimension::Technique => self.technique,
        }
    }

    /// Sets the index of `d` when `value` lies in the dimension's range; otherwise
    /// `InflationIndexOutOfRange` and the previous value is kept.
    pub fn set_index(&mut self, d: Dimension, value: Decimal) -> (r: GmcResult<()>)
        ensures
            index_in_range(d, value@) ==> r is Ok && final(self).spec_index(d) == value@ && forall|
                e: Dimension,
            | e != d ==> #[trigger] final(self).spec_index(e) == old(self).spec_index(e),
            !index_in_range(d, value@) ==> r == Err::<(), GmcError>(
                GmcError::InflationIndexOutOfRange,
            ) && *final(self) == *old(self),
    {
        let v = value.raw();
        match d {
            Dimension::Thought => {
                if 1_000_000 < v && v <= 10_000_000 {
                    self.thought = value;
                    Ok(())
                } else {
                    Err(GmcError::InflationIndexOutOfRange)
                }
            },
            Dimension::Training => {
                if 950_000 <= v && v <= 1_050_000 {
                    self.training = value;
                    Ok(())
                } else {
                    Err(GmcError::InflationIndexOutOfRange)
                }
            },
            Dimension::Technique => {
                if 10_000 <= v && v <= 1_000_000 {
                    self.technique = value;
                    Ok(())
                } else {
                    Err(GmcError::InflationIndexOutOfRange)
                }
            },
        }
    }
}

impl Default for InflationIndexConfig {
    fn default() -> (c: Self)
        ensures
            c.spec_index(Dimension::Thought) == DEFAULT_THOUGHT_INDEX_RAW,
            c.spec_index(Dimension::Training) == DEFAULT_TRAINING_INDEX_RAW,
            c.spec_index(Dimension::Technique) == DEFAULT_TECHNIQUE_INDEX_RAW,
    {
        InflationIndexConfig {
            thought: Decimal::from_raw(DEFAULT_THOUGHT_INDEX_RAW),
            training: Decimal::from_raw(DEFAULT_TRAINING_INDEX_RAW),
            technique: Decimal::from_raw(DEFAULT_TECHNIQUE_INDEX_RAW),
        }
    }
}

/// The raw weight of an optional ratio (`0` when absent).
pub open spec fn weight_raw(w: Option<Ratio>) -> int {
    match w {
        Some(r) => r@,
        None => 0,
    }
}

/// One dimension's contribution `weight · base · index` (raw), or the error it
/// raises.
pub open spec fn dimension_term(w: Option<Ratio>, base: Option<Decimal>, index: int) -> Result<
    int,
    GmcError,
> {
    if weight_raw(w) == 0 {
        Ok(0)
    } else {
        match base {
            None => Err(GmcError::DimensionUnmatched),
            Some(b) => match spec_mul(weight_raw(w), b@) {
                None => Err(GmcError::InvalidMintAmount),
                Some(p) => match spec_mul(p, index) {
                    None => Err(GmcError::InvalidMintAmount),
                    Some(q) => Ok(q),
                },
            },
        }
    }
}

/// The mint amount (raw) for the given weights, scores and indices, or the error.
pub open spec fn mint_amount(
    weights: DimensionWeights,
    base: BaseScores,
    indices: InflationIndexConfig,
) -> Result<int, GmcError> {
    let wt = weight_raw(weights.thought);
    let wr = weight_raw(weights.training);
    let wq = weight_raw(weights.technique);
    if wt + wr + wq != 1_000_000 {
        Err(GmcError::WeightSumInvalid)
    } else {
        match dimension_term(weights.thought, base.thought, indices.spec_index(Dimension::Thought)) {
            Err(e) => Err(e),
            Ok(a) => match dimension_term(
                weights.training,
                base.training,
                indices.spec_index(Dimension::Training),
            ) {
                Err(e) => Err(e),
                Ok(b) => match dimension_term(
                    weights.technique,
                    base.technique,
                    indices.spec_index(Dimension::Technique),
                ) {
                    Err(e) => Err(e),
                    Ok(c) => if fits_i128(a + b) && fits_i128(a + b + c) {
                        Ok(a + b + c)
                    } else {
                        Err(GmcError::InvalidMintAmount)
                    },
                },
            },
        }
    }
}

/// One dimension's share of the mint amount, `weight · base · index` in fixed point
/// (each product truncated to millionths); a dimension without weight adds nothing.
pub open spec fn weighted_share(w: Option<Ratio>, base: Option<Decimal>, index: int) -> int {
    if w is None || base is None {
        0
    } else if w->0@ == 0 {
        0
    } else {
        trunc_div(trunc_div(w->0@ * base->0@, SCALE as int) * index, SCALE as int)
    }
}

/// A computed mint amount is the sum of every dimension's `weight · base · index`:
/// the weights sum to exactly `1`, every weighted dimension has a base score, and the
/// amount adds the Thought, Training and Technique shares.
pub proof fn lemma_mint_amount_is_weighted_sum(
    weights: DimensionWeights,
    base: BaseScores,
    indices: InflationIndexConfig,
)
    requires
        mint_amount(weights, base, indices) is Ok,
    ensures
        weight_raw(weights.thought) + weight_raw(weights.training) + weight_raw(weights.technique)
            == SCALE,
        weight_raw(weights.thought) != 0 ==> base.thought is Some,
        weight_raw(weights.training) != 0 ==> base.training is Some,
        weight_raw(weights.technique) != 0 ==> base.technique is Some,
        mint_amount(weights, base, indices)->Ok_0 == weighted_share(
            weights.thought,
            base.thought,
            indices.spec_index(Dimension::Thought),
        ) + weighted_share(weights.training, base.training, indices.spec_index(Dimension::Training))
            + weighted_share(
            weights.technique,
            base.technique,
            indices.spec_index(Dimension::Technique),
        ),
{
}

/// Whether one dimension's share can be computed without overflow.
pub open spec fn share_fits(w: Option<Ratio>, base: Option<Decimal>, index: int) -> bool {
    w is Some && w->0@ != 0 ==> base is Some && fits_i128(w->0@ * base->0@) && fits_i128(
        trunc_div(w->0@ * base->0@, SCALE as int) * index,
    )
}

/// When the weights sum to exactly `1`, every weighted dimension has a base score and
/// nothing overflows, the mint amount is computed and is the sum of the Thought,
/// Training and Technique shares `weight · base · index`.
pub proof fn lemma_mint_amount_defined(
    weights: DimensionWeights,
    base: BaseScores,
    indices: InflationIndexConfig,
)
    requires
        weight_raw(weights.thought) + weight_raw(weights.training) + weight_raw(weights.technique)
            == SCALE,
        share_fits(weights.thought, base.thought, indices.spec_index(Dimension::Thought)),
        share_fits(weights.training, base.training, indices.spec_index(Dimension::Training)),
        share_fits(weights.technique, base.technique, indices.spec_index(Dimension::Technique)),
        fits_i128(
            weighted_share(weights.thought, base.thought, indices.spec_index(Dimension::Thought))
                + weighted_share(
                weights.training,
                base.training,
                indices.spec_index(Dimension::Training),
            ),
        ),
        fits_i128(
            weighted_share(weights.thought, base.thought, indices.spec_index(Dimension::Thought))
                + weighted_share(
                weights.training,
                base.training,
                indices.spec_index(Dimension::Training),
            ) + weighted_share(
                weights.technique,
                base.technique,
                indices.spec_index(Dimension::Technique),
            ),
        ),
    ensures
        mint_amount(weights, base, indices) == Ok::<int, GmcError>(
            weighted_share(weights.thought, base.thought, indices.spec_index(Dimension::Thought))
                + weighted_share(
                weights.training,
                base.training,
                indices.spec_index(Dimension::Training),
            ) + weighted_share(
                weights.technique,
                base.technique,
                indices.spec_index(Dimension::Technique),
            ),
        ),
{
}

/// The weights must sum to exactly `1`, and a weighted dimension must have a base
/// score: otherwise no mint amount is computed, with `WeightSumInvalid` for a wrong
/// sum and `DimensionUnmatched` for an unscored weighted dimension (when the
/// dimensions before it are computed without overflow).
pub proof fn lemma_mint_amount_refusals(
    weights: DimensionWeights,
    base: BaseScores,
    indices: InflationIndexConfig,
)
    ensures
        weight_raw(weights.thought) + weight_raw(weights.training) + weight_raw(weights.technique)
            != SCALE ==> mint_amount(weights, base, indices) == Err::<int, GmcError>(
            GmcError::WeightSumInvalid,
        ),
        weight_raw(weights.thought) + weight_raw(weights.training) + weight_raw(weights.technique)
            == SCALE && weight_raw(weights.thought) != 0 && base.thought is None ==> mint_amount(
            weights,
            base,
            indices,
        ) == Err::<int, GmcError>(GmcError::DimensionUnmatched),
        weight_raw(weights.thought) + weight_raw(weights.training) + weight_raw(weights.technique)
            == SCALE && share_fits(weights.thought, base.thought, indices.spec_index(Dimension::Thought))
            && weight_raw(weights.training) != 0 && base.training is None ==> mint_amount(
            weights,
            base,
            indices,
        ) == Err::<int, GmcError>(GmcError::DimensionUnmatched),
        weight_raw(weights.thought) + weight_raw(weights.training) + weight_raw(weights.technique)
            == SCALE && share_fits(weights.thought, base.thought, indices.spec_index(Dimension::Thought))
            && share_fits(weights.training, base.training, indices.spec_index(Dimension::Training))
            && weight_raw(weights.technique) != 0 && base.technique is None ==> mint_amount(
            weights,
            base,
            indices,
        ) == Err::<int, GmcError>(GmcError::DimensionUnmatched),
{
}

/// Raising one weighted dimension's base score raises the mint amount by that
/// dimension's share of the difference and by nothing else: two computations that
/// differ only in the Training base score differ by exactly the change in the
/// Training share `weight · base · index`.
pub proof fn lemma_mint_amount_tracks_training_score(
    weights: DimensionWeights,
    base: BaseScores,
    other: Decimal,
    indices: InflationIndexConfig,
)
    requires
        mint_amount(weights, base, indices) is Ok,
        mint_amount(weights, BaseScores { training: Some(other), ..base }, indices) is Ok,
    ensures
        mint_amount(weights, BaseScores { training: Some(other), ..base }, indices)->Ok_0
            - mint_amount(weights, base, indices)->Ok_0 == weighted_share(
            weights.training,
            Some(other),
            indices.spec_index(Dimension::Training),
        ) - weighted_share(
            weights.training,
            base.training,
            indices.spec_index(Dimension::Training),
        ),
{
    lemma_mint_amount_is_weighted_sum(weights, base, indices);
    lemma_mint_amount_is_weighted_sum(weights, BaseScores { training: Some(other), ..base }, indices);
}

/// The stateless scoring engine.
#[derive(Debug, Clone, Copy, Default)]
pub struct ScoringEngine;

impl ScoringEngine {
    /// The engine.
    pub fn new() -> (s: ScoringEngine)
        ensures
            s == ScoringEngine,
    {
        ScoringEngine
    }

    fn term(w: Option<Ratio>, base: Option<Decimal>, index: Decimal) -> (r: GmcResult<Decimal>)
        ensures
            match dimension_term(w, base, index@) {
                Ok(v) => r matches Ok(d) && d@ == v,
                Err(e) => r == Err::<Decimal, GmcError>(e),
            },
    {
        let wv = match w {
            Some(r) => r.value(),
            None => Decimal::zero(),
        };
        if wv.is_zero() {
            return Ok(Decimal::zero());
        }
        let b = match base {
            Some(b) => b,
            None => {
                return Err(GmcError::DimensionUnmatched);
            },
        };
        let p = match wv.checked_mul(b) {
            Some(p) => p,
            None => {
                return Err(GmcError::InvalidMintAmount);
            },
        };
        match p.checked_mul(index) {
            Some(q) => Ok(q),
            None => Err(GmcError::InvalidMintAmount),
        }
    }

    /// `Σ_d weight_d · base_d · index_d` (see [`mint_amount`]): `WeightSumInvalid`
    /// unless the weights sum to exactly `1`, `DimensionUnmatched` for a weighted
    /// dimension without a base score, `InvalidMintAmount` on overflow.
    pub fn compute_mint_amount(
        &self,
        weights: &DimensionWeights,
        base_scores: &BaseScores,
        indices: &InflationIndexConfig,
    ) -> (r: GmcResult<Decimal>)
        ensures
            match mint_amount(*weights, *base_scores, *indices) {
                Ok(v) => r matches Ok(d) && d@ == v,
                Err(e) => r == Err::<Decimal, GmcError>(e),
            },
    {
        let wt = match weights.thought {
            Some(r) => r.value(),
            None => Decimal::zero(),
        };
        let wr = match weights.training {
            Some(r) => r.value(),
            None => Decimal::zero(),
        };
        let wq = match weights.technique {
            Some(r) => r.value(),
            None => Decimal::zero(),
        };
        if wt.raw() + wr.raw() + wq.raw() != 1_000_000 {
            return Err(GmcError::WeightSumInvalid);
        }
        let a = match Self::term(weights.thought, base_scores.thought, indices.index(Dimension::Thought)) {
            Ok(v) => v,
            Err(e) => {
                return Err(e);
            },
        };
        let b = match Self::term(
            weights.training,
            base_scores.training,
            indices.index(Dimension::Training),
        ) {
            Ok(v) => v,
            Err(e) => {
                return Err(e);
            },
        };
        let c = match Self::term(
            weights.technique,
            base_scores.technique,
            indices.index(Dimension::Technique),
        ) {
            Ok(v) => v,
            Err(e) => {
                return Err(e);
            },
        };
        let ab = match a.checked_add(b) {
            Some(s) => s,
            None => {
                return Err(GmcError::InvalidMintAmount);
            },
        };
        match ab.checked_add(c) {
            Some(s) => Ok(s),
            None => Err(GmcError::InvalidMintAmount),
        }
    }
}

} // verus!

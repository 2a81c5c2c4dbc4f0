//! Acceptance of low-rank factors for a compiled dense tensor delta.
//!
//! The engine decomposes, factors and reconstructs. Here stand the admission of
//! the delta, the bounds on the work, the order in which ranks are tried and the
//! test that a reconstruction has to pass.

use crate::error::{BrainError, BrainResult, ErrorView};
use crate::order::{awaited, outcome, plain, views};
use crate::scalar::{
    all_finite, finite_row, lemma_magnitude_zero, lemma_one, row_copy, units_per_one, Scalar,
    ONE_BITS,
};
use crate::text::text_eq;
use vstd::prelude::*;

verus! {

/// The most elements that a delta may have.
pub const MAX_FACTOR_INPUT_ELEMENTS: usize = 16_777_216;

/// The most elements that a square matrix over the columns may have.
pub const MAX_FACTOR_IDENTITY_ELEMENTS: usize = 16_777_216;

/// The highest rank that is ever tried.
pub const MAX_SHADOW_RANK: usize = 64;

/// What a factorisation is held to.
#[derive(Debug)]
pub struct LowRankShadowPolicy {
    pub schema: String,
    pub maximum_rank: usize,
    pub relative_reconstruction_tolerance: Scalar,
    pub absolute_reconstruction_tolerance: Scalar,
    pub minimum_parameter_reduction_ratio: Scalar,
    pub maximum_svd_sweeps: usize,
}

/// The model of a [`LowRankShadowPolicy`].
pub struct LowRankPolicyModel {
    pub schema: Seq<char>,
    pub maximum_rank: usize,
    pub relative_reconstruction_tolerance: Scalar,
    pub absolute_reconstruction_tolerance: Scalar,
    pub minimum_parameter_reduction_ratio: Scalar,
    pub maximum_svd_sweeps: usize,
}

impl View for LowRankShadowPolicy {
    type V = LowRankPolicyModel;

    open spec fn view(&self) -> LowRankPolicyModel {
        LowRankPolicyModel {
            schema: self.schema@,
            maximum_rank: self.maximum_rank,
            relative_reconstruction_tolerance: self.relative_reconstruction_tolerance,
            absolute_reconstruction_tolerance: self.absolute_reconstruction_tolerance,
            minimum_parameter_reduction_ratio: self.minimum_parameter_reduction_ratio,
            maximum_svd_sweeps: self.maximum_svd_sweeps,
        }
    }
}

impl LowRankPolicyModel {
    /// The rank is bounded, at least one tolerance is positive, and the demanded
    /// reduction is a proper fraction.
    pub open spec fn acceptable(self) -> bool {
        let relative = self.relative_reconstruction_tolerance;
        let absolute = self.absolute_reconstruction_tolerance;
        let reduction = self.minimum_parameter_reduction_ratio;
        &&& self.schema == "cerebro.tidex.low_rank_shadow_policy/v1"@
        &&& 0 < self.maximum_rank <= MAX_SHADOW_RANK
        &&& relative.finite() && relative.units() >= 0
        &&& absolute.finite() && absolute.units() >= 0
        &&& relative.units() > 0 || absolute.units() > 0
        &&& reduction.finite() && 0 <= reduction.units() < units_per_one()
        &&& self.maximum_svd_sweeps > 0
    }
}

impl LowRankShadowPolicy {
    /// Accepts exactly the policies that make sense.
    pub fn validate(&self) -> (checked: BrainResult<()>)
        ensures
            plain(checked) == (if self@.acceptable() {
                Ok(())
            } else {
                Err(ErrorView::Invalid("low_rank_shadow_policy_invalid"@))
            }),
    {
        proof {
            lemma_one();
            lemma_magnitude_zero(0);
        }
        if !text_eq(self.schema.as_str(), "cerebro.tidex.low_rank_shadow_policy/v1")
            || self.maximum_rank == 0 || self.maximum_rank > MAX_SHADOW_RANK
            || !self.relative_reconstruction_tolerance.is_finite()
            || !self.relative_reconstruction_tolerance.is_at_least_zero()
            || !self.absolute_reconstruction_tolerance.is_finite()
            || !self.absolute_reconstruction_tolerance.is_at_least_zero() || (
        !self.relative_reconstruction_tolerance.is_positive()
            && !self.absolute_reconstruction_tolerance.is_positive())
            || !self.minimum_parameter_reduction_ratio.is_finite()
            || !self.minimum_parameter_reduction_ratio.is_at_least_zero()
            || !self.minimum_parameter_reduction_ratio.lt(Scalar { bits: ONE_BITS })
            || self.maximum_svd_sweeps == 0 {
            return Err(BrainError::invalid("low_rank_shadow_policy_invalid"));
        }
        Ok(())
    }
}

/// Factors that reconstruct a dense delta within the policy.
#[derive(Debug)]
pub struct VerifiedLowRankFactors {
    pub schema: String,
    pub rows: usize,
    pub columns: usize,
    pub rank: usize,
    pub left: Vec<Scalar>,
    pub right: Vec<Scalar>,
    pub absolute_reconstruction_error: Scalar,
    pub relative_reconstruction_error: Scalar,
    pub dense_parameter_count: usize,
    pub factor_parameter_count: usize,
    pub parameter_reduction_ratio: Scalar,
}

/// The model of [`VerifiedLowRankFactors`].
pub struct FactorsModel {
    pub schema: Seq<char>,
    pub rows: usize,
    pub columns: usize,
    pub rank: usize,
    pub left: Seq<Scalar>,
    pub right: Seq<Scalar>,
    pub absolute_reconstruction_error: Scalar,
    pub relative_reconstruction_error: Scalar,
    pub dense_parameter_count: usize,
    pub factor_parameter_count: usize,
    pub parameter_reduction_ratio: Scalar,
}

impl View for VerifiedLowRankFactors {
    type V = FactorsModel;

    open spec fn view(&self) -> FactorsModel {
        FactorsModel {
            schema: self.schema@,
            rows: self.rows,
            columns: self.columns,
            rank: self.rank,
            left: self.left@,
            right: self.right@,
            absolute_reconstruction_error: self.absolute_reconstruction_error,
            relative_reconstruction_error: self.relative_reconstruction_error,
            dense_parameter_count: self.dense_parameter_count,
            factor_parameter_count: self.factor_parameter_count,
            parameter_reduction_ratio: self.parameter_reduction_ratio,
        }
    }
}

/// A singular value of the scaled delta, and the scale of its two vectors.
#[derive(Debug, Clone, Copy, PartialEq, Eq, Structural)]
pub struct SpectralComponent {
    pub scaled_sigma: Scalar,
    pub balanced_scale: Scalar,
}

/// How far a reconstruction is from the delta.
#[derive(Debug, Clone, Copy, PartialEq, Eq, Structural)]
pub struct ReconstructionErrors {
    pub absolute: Scalar,
    pub relative: Scalar,
}

impl View for ReconstructionErrors {
    type V = ReconstructionErrors;

    open spec fn view(&self) -> ReconstructionErrors {
        *self
    }
}

/// Factors of one rank, and the outcome of reconstructing the delta from them.
#[derive(Debug)]
pub struct FactorTrial {
    pub left: Vec<Scalar>,
    pub right: Vec<Scalar>,
    pub reconstruction: BrainResult<ReconstructionErrors>,
}

/// What the engine has reported for one rank: the share of parameters it saves,
/// and the trial once it was made.
#[derive(Debug)]
pub struct RankProgress {
    pub reduction_ratio: Scalar,
    pub trial: Option<FactorTrial>,
}

/// The model of a [`FactorTrial`].
pub struct TrialModel {
    pub left: Seq<Scalar>,
    pub right: Seq<Scalar>,
    pub reconstruction: Result<ReconstructionErrors, ErrorView>,
}

/// The model of a [`RankProgress`].
pub struct RankModel {
    pub reduction_ratio: Scalar,
    pub trial: Option<TrialModel>,
}

impl View for RankProgress {
    type V = RankModel;

    open spec fn view(&self) -> RankModel {
        RankModel {
            reduction_ratio: self.reduction_ratio,
            trial: match self.trial {
                Some(trial) => Some(
                    TrialModel {
                        left: trial.left@,
                        right: trial.right@,
                        reconstruction: outcome(trial.reconstruction),
                    },
                ),
                None => None,
            },
        }
    }
}

/// What the engine has reported for a factorisation so far.
#[derive(Debug)]
pub struct FactorProgress {
    pub target_norm: Option<BrainResult<Scalar>>,
    /// The spectrum of the scaled Gram matrix, largest value first.
    pub spectrum: Option<BrainResult<Vec<SpectralComponent>>>,
    /// The ranks tried so far, beginning with rank one.
    pub ranks: Vec<RankProgress>,
}

/// The model of a [`FactorProgress`].
pub struct FactorProgressModel {
    pub target_norm: Option<Result<Scalar, ErrorView>>,
    pub spectrum: Option<Result<Seq<SpectralComponent>, ErrorView>>,
    pub ranks: Seq<RankModel>,
}

impl View for FactorProgress {
    type V = FactorProgressModel;

    open spec fn view(&self) -> FactorProgressModel {
        FactorProgressModel {
            target_norm: awaited(self.target_norm),
            spectrum: awaited(self.spectrum),
            ranks: views(self.ranks@),
        }
    }
}

/// What a factorisation needs next, or how it ended.
#[derive(Debug)]
pub enum FactorStep {
    Failed(BrainError),
    /// Take the norm of the delta.
    MeasureTarget,
    /// Divide the delta by the scale, form the Gram matrix of its rows or of its
    /// columns, and decompose it to this tolerance within this many rotations.
    Decompose {
        scale: Scalar,
        of_rows: bool,
        dimension: usize,
        tolerance: Scalar,
        rotations: usize,
    },
    /// Take one less the quotient of the two counts.
    Reduce { factor_count: usize, dense_count: usize },
    /// Factor the delta at this rank, and reconstruct it.
    Factor { rank: usize, scale: Scalar },
    Done(VerifiedLowRankFactors),
}

/// The model of a [`FactorStep`].
pub enum FactorStepModel {
    Failed(ErrorView),
    MeasureTarget,
    Decompose {
        scale: Scalar,
        of_rows: bool,
        dimension: usize,
        tolerance: Scalar,
        rotations: usize,
    },
    Reduce { factor_count: usize, dense_count: usize },
    Factor { rank: usize, scale: Scalar },
    Done(FactorsModel),
}

impl View for FactorStep {
    type V = FactorStepModel;

    open spec fn view(&self) -> FactorStepModel {
        match self {
            FactorStep::Failed(error) => FactorStepModel::Failed(error@),
            FactorStep::MeasureTarget => FactorStepModel::MeasureTarget,
            FactorStep::Decompose { scale, of_rows, dimension, tolerance, rotations } =>
                FactorStepModel::Decompose {
                    scale: *scale,
                    of_rows: *of_rows,
                    dimension: *dimension,
                    tolerance: *tolerance,
                    rotations: *rotations,
                },
            FactorStep::Reduce { factor_count, dense_count } => FactorStepModel::Reduce {
                factor_count: *factor_count,
                dense_count: *dense_count,
            },
            FactorStep::Factor { rank, scale } => FactorStepModel::Factor {
                rank: *rank,
                scale: *scale,
            },
            FactorStep::Done(factors) => FactorStepModel::Done(factors@),
        }
    }
}

/// The pattern of ten to the power of minus twelve: how far a decomposition may be
/// from diagonal.
pub const SPECTRAL_TOLERANCE: u64 = 0x3D71_9799_812D_EA11;

/// The largest absolute value of a delta, starting from zero.
pub open spec fn largest_magnitude(dense: Seq<Scalar>) -> Scalar
    decreases dense.len(),
{
    if dense.len() == 0 {
        Scalar { bits: 0 }
    } else {
        largest_magnitude(dense.drop_last()).greatest(
            Scalar { bits: dense.last().magnitude() as u64 },
        )
    }
}

/// The largest absolute value of a delta.
pub fn scale_of(dense: &Vec<Scalar>) -> (scale: Scalar)
    ensures
        scale == largest_magnitude(dense@),
{
    let mut scale = Scalar { bits: 0 };
    assert(dense@.take(0) == Seq::<Scalar>::empty());
    for i in 0..dense.len()
        invariant
            scale == largest_magnitude(dense@.take(i as int)),
    {
        assert(dense@.take(i + 1).drop_last() == dense@.take(i as int));
        scale = scale.max(dense[i].abs());
    }
    assert(dense@.take(dense@.len() as int) == dense@);
    scale
}

/// The scale of a finite delta bounds every element of it.
pub proof fn scale_bounds_every_element(dense: Seq<Scalar>, i: int)
    requires
        all_finite(dense),
        0 <= i < dense.len(),
    ensures
        -largest_magnitude(dense).units() <= dense[i].units() <= largest_magnitude(dense).units(),
    decreases dense.len(),
{
    let front = dense.drop_last();
    assert(all_finite(front)) by {
        assert forall|j: int| 0 <= j < front.len() implies (#[trigger] front[j]).finite() by {
            assert(front[j] == dense[j]);
        }
    }
    lemma_scale_is_finite(front);
    assert(dense[dense.len() - 1].finite());
    lemma_magnitude_zero(dense.last().magnitude());
    if i < front.len() {
        scale_bounds_every_element(front, i);
    }
}

proof fn lemma_scale_is_finite(dense: Seq<Scalar>)
    requires
        all_finite(dense),
    ensures
        largest_magnitude(dense).finite(),
        largest_magnitude(dense).units() >= 0,
        !largest_magnitude(dense).is_negative(),
    decreases dense.len(),
{
    lemma_magnitude_zero(0);
    if dense.len() > 0 {
        let front = dense.drop_last();
        assert(all_finite(front)) by {
            assert forall|j: int| 0 <= j < front.len() implies (#[trigger] front[j]).finite() by {
                assert(front[j] == dense[j]);
            }
        }
        assert(dense[dense.len() - 1].finite());
        lemma_scale_is_finite(front);
        lemma_magnitude_zero(dense.last().magnitude());
    }
}

/// A delta and what its factors are held to.
pub struct DeltaModel {
    pub rows: usize,
    pub columns: usize,
    pub dense: Seq<Scalar>,
    pub policy: LowRankPolicyModel,
}

/// How many numbers the factors of a rank hold.
pub open spec fn factor_count(rows: int, columns: int, rank: int) -> int {
    rows * rank + rank * columns
}

/// Both numbers of a spectral component are finite and positive.
pub open spec fn sound_component(component: SpectralComponent) -> bool {
    &&& component.scaled_sigma.finite() && component.scaled_sigma.units() > 0
    &&& component.balanced_scale.finite() && component.balanced_scale.units() > 0
}

/// The first components of a spectrum are sound.
pub open spec fn sound_components(spectrum: Seq<SpectralComponent>, rank: int) -> bool {
    forall|i: int| 0 <= i < rank ==> sound_component(#[trigger] spectrum[i])
}

/// Whether a reconstruction is close enough.
pub open spec fn close_enough(policy: LowRankPolicyModel, errors: ReconstructionErrors) -> bool {
    &&& errors.absolute.finite()
    &&& errors.relative.finite()
    &&& errors.absolute.at_most(policy.absolute_reconstruction_tolerance)
        || errors.relative.at_most(policy.relative_reconstruction_tolerance)
}

/// Where the ranks tried so far leave a factorisation.
pub enum RanksModel {
    /// None of them is admissible.
    Open,
    Stopped(FactorStepModel),
}

/// The factors of a trial have the shapes of their rank.
pub open spec fn factors_fit(delta: DeltaModel, rank: int, trial: TrialModel) -> bool {
    &&& trial.left.len() == delta.rows * rank
    &&& trial.right.len() == rank * delta.columns
}

/// What one rank comes to. A rank whose factors hold more numbers than the delta
/// saves nothing, and is passed over.
pub open spec fn rank_tried(
    delta: DeltaModel,
    spectrum: Seq<SpectralComponent>,
    ranks: Seq<RankModel>,
    rank: int,
) -> RanksModel {
    let count = factor_count(delta.rows as int, delta.columns as int, rank);
    let dense_count = (delta.rows * delta.columns) as usize;
    if count > usize::MAX {
        RanksModel::Stopped(
            FactorStepModel::Failed(ErrorView::Invalid("low_rank_factor_shape_overflow"@)),
        )
    } else if count > delta.rows * delta.columns {
        RanksModel::Open
    } else if rank - 1 >= ranks.len() {
        RanksModel::Stopped(FactorStepModel::Reduce { factor_count: count as usize, dense_count })
    } else {
        let tried = ranks[rank - 1];
        if tried.reduction_ratio.nan() {
            RanksModel::Stopped(
                FactorStepModel::Failed(ErrorView::Numerical("low_rank_reduction_ratio_invalid"@)),
            )
        } else if tried.reduction_ratio.less(delta.policy.minimum_parameter_reduction_ratio) {
            RanksModel::Open
        } else if !sound_components(spectrum, rank) {
            RanksModel::Stopped(
                FactorStepModel::Failed(ErrorView::Numerical("low_rank_singular_value_invalid"@)),
            )
        } else {
            match tried.trial {
                None => RanksModel::Stopped(
                    FactorStepModel::Factor {
                        rank: rank as usize,
                        scale: largest_magnitude(delta.dense),
                    },
                ),
                Some(trial) => match trial.reconstruction {
                    Err(error) => RanksModel::Stopped(FactorStepModel::Failed(error)),
                    Ok(errors) => if !factors_fit(delta, rank, trial) {
                        RanksModel::Stopped(
                            FactorStepModel::Failed(
                                ErrorView::Invalid("low_rank_factor_shape_invalid"@),
                            ),
                        )
                    } else if close_enough(delta.policy, errors) {
                        RanksModel::Stopped(
                            FactorStepModel::Done(
                                FactorsModel {
                                    schema: "cerebro.tidex.verified_low_rank_factors/v1"@,
                                    rows: delta.rows,
                                    columns: delta.columns,
                                    rank: rank as usize,
                                    left: trial.left,
                                    right: trial.right,
                                    absolute_reconstruction_error: errors.absolute,
                                    relative_reconstruction_error: errors.relative,
                                    dense_parameter_count: dense_count,
                                    factor_parameter_count: count as usize,
                                    parameter_reduction_ratio: tried.reduction_ratio,
                                },
                            ),
                        )
                    } else {
                        RanksModel::Open
                    },
                },
            }
        }
    }
}

/// What the first `n` ranks come to.
pub open spec fn ranks_tried(
    delta: DeltaModel,
    spectrum: Seq<SpectralComponent>,
    ranks: Seq<RankModel>,
    n: int,
) -> RanksModel
    decreases n,
{
    if n <= 0 {
        RanksModel::Open
    } else {
        match ranks_tried(delta, spectrum, ranks, n - 1) {
            RanksModel::Open => rank_tried(delta, spectrum, ranks, n),
            stopped => stopped,
        }
    }
}

/// The shape of a delta is bounded and its elements are finite.
pub open spec fn delta_acceptable(delta: DeltaModel) -> bool {
    &&& delta.rows > 0
    &&& delta.columns > 0
    &&& delta.dense.len() == delta.rows * delta.columns
    &&& delta.rows * delta.columns <= MAX_FACTOR_INPUT_ELEMENTS
    &&& delta.columns * delta.columns <= MAX_FACTOR_IDENTITY_ELEMENTS
    &&& all_finite(delta.dense)
}

/// The smaller of the two dimensions of a delta.
pub open spec fn spectral_dimension(delta: DeltaModel) -> int {
    if delta.rows <= delta.columns {
        delta.rows as int
    } else {
        delta.columns as int
    }
}

/// The highest rank that is tried.
pub open spec fn highest_rank(
    policy: LowRankPolicyModel,
    spectrum: Seq<SpectralComponent>,
) -> int {
    if policy.maximum_rank <= spectrum.len() {
        policy.maximum_rank as int
    } else {
        spectrum.len() as int
    }
}

/// The next step of a factorisation once the delta is admitted.
pub open spec fn step_of_delta(delta: DeltaModel, progress: FactorProgressModel) -> FactorStepModel {
    let dimension = spectral_dimension(delta);
    let rotations = dimension * dimension * delta.policy.maximum_svd_sweeps;
    let scale = largest_magnitude(delta.dense);
    match progress.target_norm {
        None => FactorStepModel::MeasureTarget,
        Some(Err(error)) => FactorStepModel::Failed(error),
        Some(Ok(_)) => if scale.units() == 0 {
            FactorStepModel::Failed(ErrorView::Numerical("low_rank_zero_delta_has_no_factors"@))
        } else if rotations > usize::MAX {
            FactorStepModel::Failed(ErrorView::Invalid("low_rank_svd_work_overflow"@))
        } else {
            match progress.spectrum {
                None => FactorStepModel::Decompose {
                    scale,
                    of_rows: delta.rows <= delta.columns,
                    dimension: dimension as usize,
                    tolerance: Scalar { bits: SPECTRAL_TOLERANCE },
                    rotations: rotations as usize,
                },
                Some(Err(error)) => FactorStepModel::Failed(error),
                Some(Ok(spectrum)) => match ranks_tried(
                    delta,
                    spectrum,
                    progress.ranks,
                    highest_rank(delta.policy, spectrum),
                ) {
                    RanksModel::Stopped(step) => step,
                    RanksModel::Open => FactorStepModel::Failed(
                        ErrorView::Numerical("low_rank_factorization_not_admissible"@),
                    ),
                },
            }
        },
    }
}

/// The next step of a factorisation.
pub open spec fn factor_step(delta: DeltaModel, progress: FactorProgressModel) -> FactorStepModel {
    if !delta.policy.acceptable() {
        FactorStepModel::Failed(ErrorView::Invalid("low_rank_shadow_policy_invalid"@))
    } else if delta.rows * delta.columns > usize::MAX {
        FactorStepModel::Failed(ErrorView::Invalid("low_rank_dense_shape_overflow"@))
    } else if delta.columns * delta.columns > usize::MAX {
        FactorStepModel::Failed(ErrorView::Invalid("low_rank_identity_shape_overflow"@))
    } else if !delta_acceptable(delta) {
        FactorStepModel::Failed(ErrorView::Invalid("low_rank_dense_input_invalid"@))
    } else {
        step_of_delta(delta, progress)
    }
}

/// Whether the first components of a spectrum are sound.
fn are_sound(spectrum: &Vec<SpectralComponent>, rank: usize) -> (sound: bool)
    requires
        rank <= spectrum@.len(),
    ensures
        sound == sound_components(spectrum@, rank as int),
{
    for i in 0..rank
        invariant
            rank <= spectrum@.len(),
            forall|j: int| 0 <= j < i ==> sound_component(#[trigger] spectrum@[j]),
    {
        let component = spectrum[i];
        if !component.scaled_sigma.is_finite() || !component.scaled_sigma.is_positive()
            || !component.balanced_scale.is_finite() || !component.balanced_scale.is_positive() {
            assert(!sound_component(spectrum@[i as int]));
            return false;
        }
    }
    true
}

proof fn lemma_stopped_rank_persists(
    delta: DeltaModel,
    spectrum: Seq<SpectralComponent>,
    ranks: Seq<RankModel>,
    n: int,
    all: int,
)
    requires
        0 <= n <= all,
        ranks_tried(delta, spectrum, ranks, n) is Stopped,
    ensures
        ranks_tried(delta, spectrum, ranks, all) == ranks_tried(delta, spectrum, ranks, n),
    decreases all - n,
{
    if n < all {
        lemma_stopped_rank_persists(delta, spectrum, ranks, n + 1, all);
    }
}

/// How many numbers each factor of a rank holds, where both can be counted.
fn count_factors(rows: usize, columns: usize, rank: usize) -> (counts: Option<(usize, usize)>)
    ensures
        match counts {
            Some((left, right)) => {
                &&& left == rows * rank
                &&& right == rank * columns
                &&& left + right == factor_count(rows as int, columns as int, rank as int)
                &&& left + right <= usize::MAX
            },
            None => factor_count(rows as int, columns as int, rank as int) > usize::MAX,
        },
{
    assert(rank * columns >= 0) by (nonlinear_arith)
        requires
            rank >= 0,
            columns >= 0,
    ;
    assert(rows * rank >= 0) by (nonlinear_arith)
        requires
            rank >= 0,
            rows >= 0,
    ;
    match (rows.checked_mul(rank), rank.checked_mul(columns)) {
        (Some(left), Some(right)) => match left.checked_add(right) {
            Some(_) => Some((left, right)),
            None => None,
        },
        _ => None,
    }
}

fn try_ranks(
    rows: usize,
    columns: usize,
    dense: &Vec<Scalar>,
    policy: &LowRankShadowPolicy,
    scale: Scalar,
    dense_count: usize,
    spectrum: &Vec<SpectralComponent>,
    ranks: &Vec<RankProgress>,
) -> (step: FactorStep)
    requires
        scale == largest_magnitude(dense@),
        dense_count == rows * columns,
    ensures
        ({
            let delta = DeltaModel { rows, columns, dense: dense@, policy: policy@ };
            step@ == (match ranks_tried(
                delta,
                spectrum@,
                views(ranks@),
                highest_rank(policy@, spectrum@),
            ) {
                RanksModel::Stopped(step) => step,
                RanksModel::Open => FactorStepModel::Failed(
                    ErrorView::Numerical("low_rank_factorization_not_admissible"@),
                ),
            })
        }),
{
    let ghost delta = DeltaModel { rows, columns, dense: dense@, policy: policy@ };
    let ghost models = views(ranks@);
    let maximum_rank: usize = if policy.maximum_rank <= spectrum.len() {
        policy.maximum_rank
    } else {
        spectrum.len()
    };
    for index in 0..maximum_rank
        invariant
            scale == largest_magnitude(dense@),
            dense_count == rows * columns,
            delta == (DeltaModel { rows, columns, dense: dense@, policy: policy@ }),
            models == views(ranks@),
            maximum_rank == highest_rank(policy@, spectrum@),
            maximum_rank <= spectrum@.len(),
            ranks_tried(delta, spectrum@, models, index as int) is Open,
    {
        let rank: usize = index + 1;
        proof {
            if ranks_tried(delta, spectrum@, models, rank as int) is Stopped {
                lemma_stopped_rank_persists(
                    delta,
                    spectrum@,
                    models,
                    rank as int,
                    maximum_rank as int,
                );
            }
            assert(ranks_tried(delta, spectrum@, models, rank as int) == rank_tried(
                delta,
                spectrum@,
                models,
                rank as int,
            ));
        }
        let (left_count, right_count) = match count_factors(rows, columns, rank) {
            Some(counts) => counts,
            None => {
                return FactorStep::Failed(BrainError::invalid("low_rank_factor_shape_overflow"));
            },
        };
        let factor_parameter_count: usize = left_count + right_count;
        if factor_parameter_count <= dense_count {
            if index >= ranks.len() {
                return FactorStep::Reduce { factor_count: factor_parameter_count, dense_count };
            }
            assert(models[index as int] == ranks@[index as int]@);
            let tried = &ranks[index];
            if tried.reduction_ratio.is_nan() {
                return FactorStep::Failed(BrainError::numerical("low_rank_reduction_ratio_invalid"));
            }
            if !tried.reduction_ratio.lt(policy.minimum_parameter_reduction_ratio) {
                if !are_sound(spectrum, rank) {
                    return FactorStep::Failed(BrainError::numerical("low_rank_singular_value_invalid"));
                }
                let trial = match &tried.trial {
                    None => {
                        return FactorStep::Factor { rank, scale };
                    },
                    Some(trial) => trial,
                };
                let errors = match &trial.reconstruction {
                    Err(error) => {
                        return FactorStep::Failed(error.duplicate());
                    },
                    Ok(errors) => *errors,
                };
                if trial.left.len() != left_count || trial.right.len() != right_count {
                    return FactorStep::Failed(BrainError::invalid("low_rank_factor_shape_invalid"));
                }
                if errors.absolute.is_finite() && errors.relative.is_finite() && (errors.absolute.le(
                    policy.absolute_reconstruction_tolerance,
                ) || errors.relative.le(policy.relative_reconstruction_tolerance)) {
                    return FactorStep::Done(
                        VerifiedLowRankFactors {
                            schema: "cerebro.tidex.verified_low_rank_factors/v1".to_owned(),
                            rows,
                            columns,
                            rank,
                            left: row_copy(&trial.left),
                            right: row_copy(&trial.right),
                            absolute_reconstruction_error: errors.absolute,
                            relative_reconstruction_error: errors.relative,
                            dense_parameter_count: dense_count,
                            factor_parameter_count,
                            parameter_reduction_ratio: tried.reduction_ratio,
                        },
                    );
                }
            }
        }
    }
    FactorStep::Failed(BrainError::numerical("low_rank_factorization_not_admissible"))
}

/// Decides what the factorisation of a dense delta needs next, or how it ends.
pub fn factor_dense_delta_verified(
    rows: usize,
    columns: usize,
    dense: &Vec<Scalar>,
    policy: &LowRankShadowPolicy,
    progress: &FactorProgress,
) -> (step: FactorStep)
    ensures
        step@ == factor_step(
            DeltaModel { rows, columns, dense: dense@, policy: policy@ },
            progress@,
        ),
{
    let ghost delta = DeltaModel { rows, columns, dense: dense@, policy: policy@ };
    if let Err(error) = policy.validate() {
        return FactorStep::Failed(error);
    }
    let dense_count: usize = match rows.checked_mul(columns) {
        Some(count) => count,
        None => {
            return FactorStep::Failed(BrainError::invalid("low_rank_dense_shape_overflow"));
        },
    };
    let identity_count: usize = match columns.checked_mul(columns) {
        Some(count) => count,
        None => {
            return FactorStep::Failed(BrainError::invalid("low_rank_identity_shape_overflow"));
        },
    };
    if rows == 0 || columns == 0 || dense.len() != dense_count || dense_count
        > MAX_FACTOR_INPUT_ELEMENTS || identity_count > MAX_FACTOR_IDENTITY_ELEMENTS
        || !finite_row(dense) {
        return FactorStep::Failed(BrainError::invalid("low_rank_dense_input_invalid"));
    }
    match &progress.target_norm {
        None => {
            return FactorStep::MeasureTarget;
        },
        Some(Err(error)) => {
            return FactorStep::Failed(error.duplicate());
        },
        Some(Ok(_)) => {},
    }
    let scale = scale_of(dense);
    proof {
        lemma_scale_is_finite(dense@);
        lemma_magnitude_zero(0);
    }
    if !scale.is_positive() {
        return FactorStep::Failed(BrainError::numerical("low_rank_zero_delta_has_no_factors"));
    }
    let of_rows = rows <= columns;
    let dimension: usize = if of_rows {
        rows
    } else {
        columns
    };
    proof {
        assert(dimension * dimension <= columns * columns) by (nonlinear_arith)
            requires
                0 <= dimension <= columns,
        ;
    }
    let squared: usize = dimension * dimension;
    let rotations: usize = match squared.checked_mul(policy.maximum_svd_sweeps) {
        Some(rotations) => rotations,
        None => {
            return FactorStep::Failed(BrainError::invalid("low_rank_svd_work_overflow"));
        },
    };
    match &progress.spectrum {
        None => FactorStep::Decompose {
            scale,
            of_rows,
            dimension,
            tolerance: Scalar { bits: SPECTRAL_TOLERANCE },
            rotations,
        },
        Some(Err(error)) => FactorStep::Failed(error.duplicate()),
        Some(Ok(spectrum)) => try_ranks(
            rows,
            columns,
            dense,
            policy,
            scale,
            dense_count,
            spectrum,
            &progress.ranks,
        ),
    }
}

/// Whether a rank was found admissible: it saves enough parameters, its
/// components are sound, its factors have their shapes and its reconstruction is
/// close enough.
pub open spec fn admissible(
    delta: DeltaModel,
    spectrum: Seq<SpectralComponent>,
    ranks: Seq<RankModel>,
    rank: int,
) -> bool {
    let tried = ranks[rank - 1];
    &&& 0 < rank <= ranks.len()
    &&& factor_count(delta.rows as int, delta.columns as int, rank) <= delta.rows * delta.columns
    &&& !tried.reduction_ratio.nan()
    &&& !tried.reduction_ratio.less(delta.policy.minimum_parameter_reduction_ratio)
    &&& sound_components(spectrum, rank)
    &&& tried.trial is Some
    &&& tried.trial->0.reconstruction is Ok
    &&& factors_fit(delta, rank, tried.trial->0)
    &&& close_enough(delta.policy, tried.trial->0.reconstruction->Ok_0)
}

proof fn lemma_accepted_rank(
    delta: DeltaModel,
    spectrum: Seq<SpectralComponent>,
    ranks: Seq<RankModel>,
    n: int,
)
    requires
        n <= usize::MAX,
    ensures
        ranks_tried(delta, spectrum, ranks, n) is Open ==> forall|r: int|
            0 < r <= n ==> !#[trigger] admissible(delta, spectrum, ranks, r),
        ranks_tried(delta, spectrum, ranks, n) matches RanksModel::Stopped(
            FactorStepModel::Done(factors),
        ) ==> {
            &&& 0 < factors.rank <= n
            &&& admissible(delta, spectrum, ranks, factors.rank as int)
            &&& forall|r: int|
                0 < r < factors.rank ==> !#[trigger] admissible(delta, spectrum, ranks, r)
            &&& factors.factor_parameter_count == factor_count(
                delta.rows as int,
                delta.columns as int,
                factors.rank as int,
            )
            &&& factors.dense_parameter_count == (delta.rows * delta.columns) as usize
            &&& factors.left == ranks[factors.rank - 1].trial->0.left
            &&& factors.right == ranks[factors.rank - 1].trial->0.right
            &&& factors.parameter_reduction_ratio == ranks[factors.rank - 1].reduction_ratio
        },
    decreases n,
{
    if n > 0 {
        lemma_accepted_rank(delta, spectrum, ranks, n - 1);
        assert(factor_count(delta.rows as int, delta.columns as int, n) >= 0) by (nonlinear_arith)
            requires
                n > 0,
                delta.rows >= 0,
                delta.columns >= 0,
        ;
    }
}

/// The factors that are returned are those of the least admissible rank. That rank
/// is less than the smaller dimension of the delta, at most what the policy allows
/// and at most the length of the spectrum; the
/// factors have the shapes of the rank, and together they hold no more numbers
/// than the delta.
pub proof fn accepted_rank_is_the_least_admissible_one(
    delta: DeltaModel,
    progress: FactorProgressModel,
)
    requires
        factor_step(delta, progress) is Done,
    ensures
        ({
            let factors = factor_step(delta, progress)->Done_0;
            let spectrum = progress.spectrum->0->Ok_0;
            &&& 0 < factors.rank <= delta.policy.maximum_rank
            &&& factors.rank < spectral_dimension(delta)
            &&& factors.rank <= spectrum.len()
            &&& admissible(delta, spectrum, progress.ranks, factors.rank as int)
            &&& forall|r: int|
                0 < r < factors.rank ==> !#[trigger] admissible(delta, spectrum, progress.ranks, r)
            &&& factors.left.len() == delta.rows * factors.rank
            &&& factors.right.len() == factors.rank * delta.columns
            &&& factors.factor_parameter_count == factor_count(
                delta.rows as int,
                delta.columns as int,
                factors.rank as int,
            )
            &&& factors.dense_parameter_count == delta.rows * delta.columns
            &&& factors.factor_parameter_count <= factors.dense_parameter_count
            &&& !factors.parameter_reduction_ratio.nan()
            &&& !factors.parameter_reduction_ratio.less(
                delta.policy.minimum_parameter_reduction_ratio,
            )
        }),
{
    let spectrum = progress.spectrum->0->Ok_0;
    assert(delta.rows * delta.columns >= 0) by (nonlinear_arith)
        requires
            delta.rows >= 0,
            delta.columns >= 0,
    ;
    lemma_accepted_rank(
        delta,
        spectrum,
        progress.ranks,
        highest_rank(delta.policy, spectrum),
    );
    let rank = factor_step(delta, progress)->Done_0.rank as int;
    let (rows, columns) = (delta.rows as int, delta.columns as int);
    assert(rank < rows && rank < columns) by (nonlinear_arith)
        requires
            rows * rank + rank * columns <= rows * columns,
            rank > 0,
            rows > 0,
            columns > 0,
    ;
}

/// A single row or a single column has no factors, whatever the policy and
/// whatever was reported: they would hold more numbers than the delta itself.
pub proof fn single_rows_and_columns_have_no_factors(
    delta: DeltaModel,
    progress: FactorProgressModel,
)
    requires
        delta.rows == 1 || delta.columns == 1,
    ensures
        !(factor_step(delta, progress) is Done),
{
    if factor_step(delta, progress) is Done {
        accepted_rank_is_the_least_admissible_one(delta, progress);
        let rank = factor_step(delta, progress)->Done_0.rank as int;
        assert(delta.rows * rank + rank * delta.columns > delta.rows * delta.columns)
            by (nonlinear_arith)
            requires
                rank >= 1,
                delta.rows >= 1,
                delta.columns >= 1,
                delta.rows == 1 || delta.columns == 1,
        ;
    }
}

/// Whether the errors of a reconstruction are finite and one of them stays within
/// its own tolerance: the absolute error within the absolute one, or the relative
/// error within the relative one.
pub open spec fn within_a_tolerance(
    policy: LowRankPolicyModel,
    absolute: Scalar,
    relative: Scalar,
) -> bool {
    &&& absolute.finite() && relative.finite()
    &&& absolute.units() <= policy.absolute_reconstruction_tolerance.units() || relative.units()
        <= policy.relative_reconstruction_tolerance.units()
}

/// Factors are returned only where they were verified: the reported errors are
/// those of the reconstruction from these very factors, and the absolute one is
/// within the absolute tolerance of the policy or the relative one within the
/// relative tolerance.
pub proof fn returned_factors_meet_a_tolerance(delta: DeltaModel, progress: FactorProgressModel)
    requires
        factor_step(delta, progress) is Done,
    ensures
        ({
            let factors = factor_step(delta, progress)->Done_0;
            let tried = progress.ranks[factors.rank - 1];
            let trial = tried.trial->0;
            &&& within_a_tolerance(
                delta.policy,
                factors.absolute_reconstruction_error,
                factors.relative_reconstruction_error,
            )
            &&& 0 < factors.rank <= progress.ranks.len()
            &&& tried.trial is Some
            &&& trial.reconstruction == Ok::<_, ErrorView>(
                ReconstructionErrors {
                    absolute: factors.absolute_reconstruction_error,
                    relative: factors.relative_reconstruction_error,
                },
            )
            &&& factors.left == trial.left
            &&& factors.right == trial.right
            &&& factors.parameter_reduction_ratio == tried.reduction_ratio
            &&& factors.rows == delta.rows
            &&& factors.columns == delta.columns
            &&& factors.schema == "cerebro.tidex.verified_low_rank_factors/v1"@
        }),
{
    lemma_course_of_ranks(
        delta,
        progress.spectrum->0->Ok_0,
        progress.ranks,
        highest_rank(delta.policy, progress.spectrum->0->Ok_0),
    );
}

/// Whether a rank was tried or weighed and left behind: its factors would hold more
/// numbers than the delta, save too little, or reconstruct it too badly by either
/// measure.
pub open spec fn left_behind(delta: DeltaModel, ranks: Seq<RankModel>, rank: int) -> bool {
    let tried = ranks[rank - 1];
    ||| (delta.rows + delta.columns) * rank > delta.rows * delta.columns
    ||| rank <= ranks.len() && !tried.reduction_ratio.nan() && tried.reduction_ratio.units()
        < delta.policy.minimum_parameter_reduction_ratio.units()
    ||| rank <= ranks.len() && tried.trial is Some && tried.trial->0.reconstruction is Ok
        && !within_a_tolerance(
        delta.policy,
        tried.trial->0.reconstruction->Ok_0.absolute,
        tried.trial->0.reconstruction->Ok_0.relative,
    )
}

/// Whether a rank is one to return: it saves enough, its components are positive
/// numbers, and its factors have its shape and reconstruct the delta well.
pub open spec fn to_be_returned(
    delta: DeltaModel,
    spectrum: Seq<SpectralComponent>,
    ranks: Seq<RankModel>,
    rank: int,
) -> bool {
    let tried = ranks[rank - 1];
    let trial = tried.trial->0;
    &&& 0 < rank <= ranks.len()
    &&& (delta.rows + delta.columns) * rank <= delta.rows * delta.columns
    &&& !tried.reduction_ratio.nan()
    &&& tried.reduction_ratio.units() >= delta.policy.minimum_parameter_reduction_ratio.units()
    &&& forall|i: int|
        0 <= i < rank ==> {
            &&& (#[trigger] spectrum[i]).scaled_sigma.finite()
            &&& spectrum[i].scaled_sigma.units() > 0
            &&& spectrum[i].balanced_scale.finite()
            &&& spectrum[i].balanced_scale.units() > 0
        }
    &&& tried.trial is Some && trial.reconstruction is Ok
    &&& trial.left.len() == delta.rows * rank
    &&& trial.right.len() == rank * delta.columns
    &&& within_a_tolerance(
        delta.policy,
        trial.reconstruction->Ok_0.absolute,
        trial.reconstruction->Ok_0.relative,
    )
}

proof fn lemma_count_of_factors(delta: DeltaModel, rank: int)
    ensures
        factor_count(delta.rows as int, delta.columns as int, rank) == (delta.rows + delta.columns)
            * rank,
{
    assert(delta.rows * rank + rank * delta.columns == (delta.rows + delta.columns) * rank)
        by (nonlinear_arith);
}

proof fn lemma_course_of_ranks(
    delta: DeltaModel,
    spectrum: Seq<SpectralComponent>,
    ranks: Seq<RankModel>,
    n: int,
)
    requires
        delta.policy.acceptable(),
        delta_acceptable(delta),
        0 <= n <= usize::MAX,
    ensures
        ranks_tried(delta, spectrum, ranks, n) is Open ==> forall|r: int|
            0 < r <= n ==> #[trigger] left_behind(delta, ranks, r),
        ranks_tried(delta, spectrum, ranks, n) matches RanksModel::Stopped(step) ==> exists|r: int|
            0 < r <= n && (forall|q: int| 0 < q < r ==> #[trigger] left_behind(delta, ranks, q))
                && #[trigger] stopped_at(delta, spectrum, ranks, r, step),
    decreases n,
{
    if n > 0 {
        lemma_course_of_ranks(delta, spectrum, ranks, n - 1);
        lemma_count_of_factors(delta, n);
        if ranks_tried(delta, spectrum, ranks, n - 1) is Open {
            if ranks_tried(delta, spectrum, ranks, n) is Stopped {
                let step = ranks_tried(delta, spectrum, ranks, n)->Stopped_0;
                assert(stopped_at(delta, spectrum, ranks, n, step));
            }
        } else {
            let step = ranks_tried(delta, spectrum, ranks, n - 1)->Stopped_0;
            let r = choose|r: int|
                0 < r <= n - 1 && (forall|q: int|
                    0 < q < r ==> #[trigger] left_behind(delta, ranks, q)) && #[trigger] stopped_at(
                    delta,
                    spectrum,
                    ranks,
                    r,
                    step,
                );
            assert(stopped_at(delta, spectrum, ranks, r, step));
        }
    }
}

/// What can be said of a step that a rank gives rise to.
spec fn stopped_at(
    delta: DeltaModel,
    spectrum: Seq<SpectralComponent>,
    ranks: Seq<RankModel>,
    rank: int,
    step: FactorStepModel,
) -> bool {
    let tried = ranks[rank - 1];
    let trial = tried.trial->0;
    &&& !(step is MeasureTarget) && !(step is Decompose)
    &&& !(step is Failed) ==> (delta.rows + delta.columns) * rank <= delta.rows * delta.columns
    &&& step matches FactorStepModel::Reduce { factor_count, dense_count } ==> {
        &&& rank > ranks.len()
        &&& factor_count == (delta.rows + delta.columns) * rank
        &&& dense_count == delta.rows * delta.columns
    }
    &&& step matches FactorStepModel::Factor { rank: r, scale } ==> {
        &&& r == rank
        &&& rank <= ranks.len() && tried.trial is None
        &&& scale == largest_magnitude(delta.dense)
    }
    &&& step matches FactorStepModel::Done(factors) ==> {
        &&& factors.rank == rank
        &&& to_be_returned(delta, spectrum, ranks, rank)
        &&& factors.schema == "cerebro.tidex.verified_low_rank_factors/v1"@
        &&& factors.rows == delta.rows
        &&& factors.columns == delta.columns
        &&& factors.left == trial.left
        &&& factors.right == trial.right
        &&& factors.absolute_reconstruction_error == trial.reconstruction->Ok_0.absolute
        &&& factors.relative_reconstruction_error == trial.reconstruction->Ok_0.relative
        &&& factors.parameter_reduction_ratio == tried.reduction_ratio
    }
}

/// Ranks are tried from the lowest up, and the first one that is good enough is
/// returned: with everything below it left behind, a rank that saves enough and
/// reconstructs the delta is returned, and where every rank that the policy and the
/// spectrum allow is left behind, no other is tried and the delta is not factored.
pub proof fn first_good_rank_is_returned(
    delta: DeltaModel,
    progress: FactorProgressModel,
    rank: int,
)
    requires
        delta.policy.acceptable(),
        delta_acceptable(delta),
        progress.target_norm is Some && progress.target_norm->0 is Ok,
        progress.spectrum is Some && progress.spectrum->0 is Ok,
        exists|i: int| 0 <= i < delta.dense.len() && (#[trigger] delta.dense[i]).units() != 0,
        spectral_dimension(delta) * spectral_dimension(delta) * delta.policy.maximum_svd_sweeps
            <= usize::MAX,
        0 < rank,
        forall|q: int| 0 < q < rank ==> #[trigger] left_soundly(delta, progress, q),
    ensures
        ({
            let spectrum = progress.spectrum->0->Ok_0;
            let allowed = rank <= delta.policy.maximum_rank && rank <= spectrum.len();
            &&& allowed && to_be_returned(delta, spectrum, progress.ranks, rank) ==> {
                &&& factor_step(delta, progress) is Done
                &&& factor_step(delta, progress)->Done_0.rank == rank
            }
            &&& !allowed ==> factor_step(delta, progress) == FactorStepModel::Failed(
                ErrorView::Numerical("low_rank_factorization_not_admissible"@),
            )
            &&& allowed && rank == progress.ranks.len() + 1 && (delta.rows + delta.columns) * rank
                <= delta.rows * delta.columns ==> factor_step(delta, progress)
                == FactorStepModel::Reduce {
                factor_count: ((delta.rows + delta.columns) * rank) as usize,
                dense_count: (delta.rows * delta.columns) as usize,
            }
        }),
{
    let spectrum = progress.spectrum->0->Ok_0;
    let top = highest_rank(delta.policy, spectrum);
    let last = if rank - 1 < top {
        rank - 1
    } else {
        top
    };
    lemma_nonzero_scale(delta.dense);
    lemma_small_counts(delta);
    assert forall|q: int| 0 < q <= last implies #[trigger] rank_tried(
        delta,
        spectrum,
        progress.ranks,
        q,
    ) is Open by {
        assert(left_soundly(delta, progress, q));
        lemma_count_of_factors(delta, q);
        lemma_count_is_small(delta, q);
    }
    lemma_open_ranks(delta, spectrum, progress.ranks, last);
    lemma_count_of_factors(delta, rank);
    lemma_count_is_small(delta, rank);
    if rank <= top {
        assert(ranks_tried(delta, spectrum, progress.ranks, rank) == rank_tried(
            delta,
            spectrum,
            progress.ranks,
            rank,
        ));
        if ranks_tried(delta, spectrum, progress.ranks, rank) is Stopped {
            lemma_stopped_rank_persists(delta, spectrum, progress.ranks, rank, top);
        }
    }
}

/// Whether a rank was left behind with a reduction that is a number, positive
/// components and factors of its shape, as far as it came to them.
pub open spec fn left_soundly(
    delta: DeltaModel,
    progress: FactorProgressModel,
    rank: int,
) -> bool {
    let tried = progress.ranks[rank - 1];
    ||| (delta.rows + delta.columns) * rank > delta.rows * delta.columns
    ||| {
        &&& rank <= progress.ranks.len() && !tried.reduction_ratio.nan()
        &&& tried.reduction_ratio.units() < delta.policy.minimum_parameter_reduction_ratio.units()
    }
    ||| {
        &&& rank <= progress.ranks.len() && !tried.reduction_ratio.nan()
        &&& sound_components(progress.spectrum->0->Ok_0, rank)
        &&& tried.trial is Some && tried.trial->0.reconstruction is Ok
        &&& factors_fit(delta, rank, tried.trial->0)
        &&& !within_a_tolerance(
            delta.policy,
            tried.trial->0.reconstruction->Ok_0.absolute,
            tried.trial->0.reconstruction->Ok_0.relative,
        )
    }
}

proof fn lemma_open_ranks(
    delta: DeltaModel,
    spectrum: Seq<SpectralComponent>,
    ranks: Seq<RankModel>,
    n: int,
)
    requires
        forall|q: int| 0 < q <= n ==> #[trigger] rank_tried(delta, spectrum, ranks, q) is Open,
    ensures
        ranks_tried(delta, spectrum, ranks, n) is Open,
    decreases n,
{
    if n > 0 {
        lemma_open_ranks(delta, spectrum, ranks, n - 1);
        assert(rank_tried(delta, spectrum, ranks, n) is Open);
    }
}

proof fn lemma_small_counts(delta: DeltaModel)
    requires
        delta_acceptable(delta),
    ensures
        delta.rows <= 16_777_216,
        delta.columns <= 16_777_216,
        delta.rows * delta.columns <= usize::MAX,
        delta.columns * delta.columns <= usize::MAX,
{
    assert(delta.rows <= delta.rows * delta.columns) by (nonlinear_arith)
        requires
            delta.columns >= 1,
            delta.rows >= 1,
    ;
    assert(delta.columns <= delta.rows * delta.columns) by (nonlinear_arith)
        requires
            delta.columns >= 1,
            delta.rows >= 1,
    ;
}

proof fn lemma_count_is_small(delta: DeltaModel, rank: int)
    requires
        delta_acceptable(delta),
        0 < rank,
    ensures
        (delta.rows + delta.columns) * rank <= delta.rows * delta.columns ==> (delta.rows
            + delta.columns) * rank <= usize::MAX,
        rank <= 64 ==> (delta.rows + delta.columns) * rank <= usize::MAX,
{
    lemma_small_counts(delta);
    assert(rank <= 64 ==> (delta.rows + delta.columns) * rank <= 2_147_483_648)
        by (nonlinear_arith)
        requires
            delta.rows <= 16_777_216,
            delta.columns <= 16_777_216,
            delta.rows >= 0,
            delta.columns >= 0,
            rank > 0,
    ;
}

proof fn lemma_nonzero_scale(dense: Seq<Scalar>)
    requires
        all_finite(dense),
        exists|i: int| 0 <= i < dense.len() && (#[trigger] dense[i]).units() != 0,
    ensures
        largest_magnitude(dense).units() != 0,
{
    let i = choose|i: int| 0 <= i < dense.len() && (#[trigger] dense[i]).units() != 0;
    scale_bounds_every_element(dense, i);
}

/// The spectrum is asked of the smaller side, with the greatest magnitude of the
/// delta as scale and a tolerance of ten to the power of minus twelve; every later
/// factorisation is asked with the same scale.
pub proof fn spectra_are_taken_of_the_smaller_side(
    delta: DeltaModel,
    progress: FactorProgressModel,
)
    ensures
        ({
            let step = factor_step(delta, progress);
            &&& step matches FactorStepModel::Decompose {
                scale,
                of_rows,
                dimension,
                tolerance,
                rotations,
            } ==> {
                &&& is_scale_of(delta.dense, scale)
                &&& of_rows <==> delta.rows <= delta.columns
                &&& dimension <= delta.rows && dimension <= delta.columns
                &&& dimension == delta.rows || dimension == delta.columns
                &&& tolerance.bits == 0x3D71_9799_812D_EA11
                &&& rotations == dimension * dimension * delta.policy.maximum_svd_sweeps
                &&& progress.target_norm is Some && progress.target_norm->0 is Ok
            }
            &&& step matches FactorStepModel::Factor { rank, scale } ==> {
                &&& is_scale_of(delta.dense, scale)
                &&& 0 < rank <= progress.ranks.len() && progress.ranks[rank - 1].trial is None
                &&& forall|q: int| 0 < q < rank ==> #[trigger] left_behind(delta, progress.ranks, q)
            }
        }),
{
    let step = factor_step(delta, progress);
    let (side, sweeps) = (spectral_dimension(delta), delta.policy.maximum_svd_sweeps as int);
    assert(side * side * sweeps >= 0) by (nonlinear_arith)
        requires
            side >= 0,
            sweeps >= 0,
    ;
    if step is Decompose || step is Factor {
        lemma_scale_is_of_an_element(delta.dense);
        assert forall|i: int| 0 <= i < delta.dense.len() implies -largest_magnitude(
            delta.dense,
        ).units() <= (#[trigger] delta.dense[i]).units() <= largest_magnitude(
            delta.dense,
        ).units() by {
            scale_bounds_every_element(delta.dense, i);
        }
    }
    if (step is Decompose || step is Factor) && progress.spectrum is Some
        && progress.spectrum->0 is Ok {
        let spectrum = progress.spectrum->0->Ok_0;
        lemma_course_of_ranks(
            delta,
            spectrum,
            progress.ranks,
            highest_rank(delta.policy, spectrum),
        );
    }
}

/// A positive number that bounds every element in magnitude and is the magnitude of
/// one of them.
pub open spec fn is_scale_of(dense: Seq<Scalar>, scale: Scalar) -> bool {
    &&& scale.units() > 0
    &&& forall|i: int|
        0 <= i < dense.len() ==> -scale.units() <= (#[trigger] dense[i]).units() <= scale.units()
    &&& exists|i: int|
        0 <= i < dense.len() && ((#[trigger] dense[i]).units() == scale.units() || dense[i].units()
            == -scale.units())
}

proof fn lemma_scale_is_of_an_element(dense: Seq<Scalar>)
    requires
        all_finite(dense),
    ensures
        largest_magnitude(dense).units() >= 0,
        largest_magnitude(dense).units() != 0 ==> exists|i: int|
            0 <= i < dense.len() && ((#[trigger] dense[i]).units() == largest_magnitude(
                dense,
            ).units() || dense[i].units() == -largest_magnitude(dense).units()),
    decreases dense.len(),
{
    lemma_scale_is_finite(dense);
    lemma_magnitude_zero(0);
    if dense.len() > 0 {
        let front = dense.drop_last();
        assert(all_finite(front)) by {
            assert forall|j: int| 0 <= j < front.len() implies (#[trigger] front[j]).finite() by {
                assert(front[j] == dense[j]);
            }
        }
        lemma_scale_is_of_an_element(front);
        lemma_scale_is_finite(front);
        let last = dense.len() - 1;
        assert(dense[last].finite());
        lemma_magnitude_zero(dense[last].magnitude());
        if largest_magnitude(dense).units() != 0 {
            if largest_magnitude(dense) == largest_magnitude(front) {
                let k = choose|i: int|
                    0 <= i < front.len() && ((#[trigger] front[i]).units() == largest_magnitude(
                        front,
                    ).units() || front[i].units() == -largest_magnitude(front).units());
                assert(dense[k] == front[k]);
            } else {
                assert(dense[last].units() == largest_magnitude(dense).units() || dense[last].units()
                    == -largest_magnitude(dense).units());
            }
        }
    }
}

/// A delta is factored only under a policy with sensible bounds and where it is a
/// finite matrix of at most sixteen million numbers, not all of them zero; the
/// refusals name what is wrong.
pub proof fn refused_deltas_name_their_cause(delta: DeltaModel, progress: FactorProgressModel)
    ensures
        ({
            let step = factor_step(delta, progress);
            let whole = {
                &&& delta.rows > 0 && delta.columns > 0
                &&& delta.dense.len() == delta.rows * delta.columns
                &&& delta.rows * delta.columns <= 16_777_216
                &&& delta.columns * delta.columns <= 16_777_216
                &&& forall|i: int|
                    0 <= i < delta.dense.len() ==> (#[trigger] delta.dense[i]).finite()
            };
            let judged = delta.policy.acceptable() && delta.rows * delta.columns <= usize::MAX
                && delta.columns * delta.columns <= usize::MAX;
            &&& !delta.policy.acceptable() ==> step == FactorStepModel::Failed(
                ErrorView::Invalid("low_rank_shadow_policy_invalid"@),
            )
            &&& judged && !whole ==> step == FactorStepModel::Failed(
                ErrorView::Invalid("low_rank_dense_input_invalid"@),
            )
            &&& judged && whole && progress.target_norm is None ==> step is MeasureTarget
            &&& judged && whole && progress.target_norm is Some && progress.target_norm->0 is Ok && (
            forall|i: int| 0 <= i < delta.dense.len() ==> (#[trigger] delta.dense[i]).units() == 0)
                ==> step == FactorStepModel::Failed(
                ErrorView::Numerical("low_rank_zero_delta_has_no_factors"@),
            )
            &&& !(step is Failed) ==> judged && whole
        }),
{
    if delta_acceptable(delta) {
        lemma_scale_is_of_an_element(delta.dense);
    }
}

/// The first rank that was not left behind ends the search for the reason that it
/// shows: a reduction that is no number, components that are not positive, an error of
/// its reconstruction, or factors of another shape. Where nothing is wrong yet, its
/// factors are asked for.
pub proof fn ranks_fail_for_the_reasons_they_show(
    delta: DeltaModel,
    progress: FactorProgressModel,
    rank: int,
)
    requires
        delta.policy.acceptable(),
        delta_acceptable(delta),
        progress.target_norm is Some && progress.target_norm->0 is Ok,
        progress.spectrum is Some && progress.spectrum->0 is Ok,
        exists|i: int| 0 <= i < delta.dense.len() && (#[trigger] delta.dense[i]).units() != 0,
        spectral_dimension(delta) * spectral_dimension(delta) * delta.policy.maximum_svd_sweeps
            <= usize::MAX,
        0 < rank <= progress.ranks.len(),
        rank <= delta.policy.maximum_rank && rank <= progress.spectrum->0->Ok_0.len(),
        (delta.rows + delta.columns) * rank <= delta.rows * delta.columns,
        forall|q: int| 0 < q < rank ==> #[trigger] left_soundly(delta, progress, q),
    ensures
        ({
            let step = factor_step(delta, progress);
            let spectrum = progress.spectrum->0->Ok_0;
            let tried = progress.ranks[rank - 1];
            let trial = tried.trial->0;
            let reduced = !tried.reduction_ratio.nan() && tried.reduction_ratio.units()
                >= delta.policy.minimum_parameter_reduction_ratio.units();
            let positive = forall|i: int|
                0 <= i < rank ==> {
                    &&& (#[trigger] spectrum[i]).scaled_sigma.finite()
                    &&& spectrum[i].scaled_sigma.units() > 0
                    &&& spectrum[i].balanced_scale.finite()
                    &&& spectrum[i].balanced_scale.units() > 0
                };
            &&& tried.reduction_ratio.nan() ==> step == FactorStepModel::Failed(
                ErrorView::Numerical("low_rank_reduction_ratio_invalid"@),
            )
            &&& reduced && !positive ==> step == FactorStepModel::Failed(
                ErrorView::Numerical("low_rank_singular_value_invalid"@),
            )
            &&& reduced && positive && tried.trial is None ==> step is Factor
                && step->Factor_rank == rank && is_scale_of(delta.dense, step->Factor_scale)
            &&& reduced && positive && tried.trial is Some && trial.reconstruction is Err ==> step
                == FactorStepModel::Failed(trial.reconstruction->Err_0)
            &&& reduced && positive && tried.trial is Some && trial.reconstruction is Ok && (
            trial.left.len() != delta.rows * rank || trial.right.len() != rank * delta.columns)
                ==> step == FactorStepModel::Failed(
                ErrorView::Invalid("low_rank_factor_shape_invalid"@),
            )
        }),
{
    let spectrum = progress.spectrum->0->Ok_0;
    let top = highest_rank(delta.policy, spectrum);
    lemma_nonzero_scale(delta.dense);
    lemma_small_counts(delta);
    assert forall|q: int| 0 < q <= rank - 1 implies #[trigger] rank_tried(
        delta,
        spectrum,
        progress.ranks,
        q,
    ) is Open by {
        assert(left_soundly(delta, progress, q));
        lemma_count_of_factors(delta, q);
        lemma_count_is_small(delta, q);
    }
    lemma_open_ranks(delta, spectrum, progress.ranks, rank - 1);
    lemma_count_of_factors(delta, rank);
    lemma_count_is_small(delta, rank);
    assert(ranks_tried(delta, spectrum, progress.ranks, rank) == rank_tried(
        delta,
        spectrum,
        progress.ranks,
        rank,
    ));
    if ranks_tried(delta, spectrum, progress.ranks, rank) is Stopped {
        lemma_stopped_rank_persists(delta, spectrum, progress.ranks, rank, top);
    }
    spectra_are_taken_of_the_smaller_side(delta, progress);
}

/// The norm of a delta and its spectrum are asked for in this order, and an error in
/// answer to either ends the search with it.
pub proof fn errors_end_a_factorization(
    delta: DeltaModel,
    progress: FactorProgressModel,
    error: ErrorView,
)
    ensures
        factor_step(delta, progress) is MeasureTarget ==> progress.target_norm is None
            && factor_step(
            delta,
            (FactorProgressModel { target_norm: Some(Err::<Scalar, _>(error)), ..progress }),
        ) == FactorStepModel::Failed(error),
        progress.spectrum is None && factor_step(delta, progress) is Decompose ==> factor_step(
            delta,
            (FactorProgressModel {
                spectrum: Some(Err::<Seq<SpectralComponent>, _>(error)),
                ..progress
            }),
        ) == FactorStepModel::Failed(error),
{
    if factor_step(delta, progress) is MeasureTarget {
        if progress.spectrum is Some && progress.spectrum->0 is Ok && delta.policy.acceptable()
            && delta_acceptable(delta) {
            let spectrum = progress.spectrum->0->Ok_0;
            lemma_course_of_ranks(
                delta,
                spectrum,
                progress.ranks,
                highest_rank(delta.policy, spectrum),
            );
        }
    }
}

/// A policy is acceptable exactly where it allows from one to sixty-four ranks and some
/// sweeps, where neither tolerance is negative and one of them is above zero, and where
/// the reduction that it asks for is at least zero and below one; and where all of
/// these are finite.
pub proof fn acceptable_policies_leave_room_for_factors(policy: LowRankPolicyModel)
    ensures
        policy.acceptable() <==> {
            let zero = Scalar { bits: 0 };
            let one = Scalar { bits: 0x3FF0_0000_0000_0000 };
            &&& policy.schema == "cerebro.tidex.low_rank_shadow_policy/v1"@
            &&& 1 <= policy.maximum_rank <= 64
            &&& policy.relative_reconstruction_tolerance.finite()
            &&& policy.absolute_reconstruction_tolerance.finite()
            &&& policy.minimum_parameter_reduction_ratio.finite()
            &&& zero.at_most(policy.relative_reconstruction_tolerance)
            &&& zero.at_most(policy.absolute_reconstruction_tolerance)
            &&& zero.less(policy.relative_reconstruction_tolerance) || zero.less(
                policy.absolute_reconstruction_tolerance,
            )
            &&& zero.at_most(policy.minimum_parameter_reduction_ratio)
            &&& policy.minimum_parameter_reduction_ratio.less(one)
            &&& policy.maximum_svd_sweeps >= 1
        },
{
    crate::scalar::lemma_magnitude_zero(0);
    crate::scalar::lemma_one();
}

/// Shapes and work beyond what can be counted are refused, each in its own way.
pub proof fn uncountable_work_is_refused(delta: DeltaModel, progress: FactorProgressModel)
    requires
        delta.policy.acceptable(),
    ensures
        ({
            let step = factor_step(delta, progress);
            let side = if delta.rows <= delta.columns {
                delta.rows
            } else {
                delta.columns
            };
            &&& delta.rows * delta.columns > usize::MAX ==> step == FactorStepModel::Failed(
                ErrorView::Invalid("low_rank_dense_shape_overflow"@),
            )
            &&& delta.rows * delta.columns <= usize::MAX && delta.columns * delta.columns
                > usize::MAX ==> step == FactorStepModel::Failed(
                ErrorView::Invalid("low_rank_identity_shape_overflow"@),
            )
            &&& delta_acceptable(delta) && progress.target_norm is Some
                && progress.target_norm->0 is Ok && (exists|i: int|
                0 <= i < delta.dense.len() && (#[trigger] delta.dense[i]).units() != 0) && side
                * side * delta.policy.maximum_svd_sweeps > usize::MAX ==> step
                == FactorStepModel::Failed(ErrorView::Invalid("low_rank_svd_work_overflow"@))
        }),
{
    if delta_acceptable(delta) {
        lemma_small_counts(delta);
        if exists|i: int| 0 <= i < delta.dense.len() && (#[trigger] delta.dense[i]).units() != 0 {
            lemma_nonzero_scale(delta.dense);
        }
    }
}

} // verus!

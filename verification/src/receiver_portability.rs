//! Held-out evaluation of receiver compilation.
//!
//! Recovery is scored in functional space against an untouched receiver, a
//! direct oracle and a wrong capability. The benchmark holds out one skill at a
//! time: the direct solution of the held-out skill reaches neither learned map.

use crate::error::{BrainError, BrainResult, ErrorView};
use crate::order::{awaited, outcome, outcomes, take_one_more, views, views_push};
use crate::receiver_compiler::{degenerate, is_degenerate, LearnedMap};
use crate::scalar::{
    all_finite, finite_row, lemma_magnitude_zero, row_copy, Scalar, INFINITY_BITS, ONE_BITS,
};
use crate::text::{byte_length, text_eq};
use vstd::prelude::*;

verus! {

broadcast use views_push;

/// The pattern of ten to the power of minus twelve: an oracle that gains no more
/// than this gains nothing.
pub const NO_GAIN_BITS: u64 = 0x3D71_9799_812D_EA11;

/// The fewest skills that a benchmark can hold out from.
pub const MINIMUM_CASES: usize = 6;

/// The longest skill identity, in bytes.
pub const MAX_SKILL_ID_BYTES: usize = 256;

/// How much of a direct solution a compiled one recovers.
#[derive(Debug)]
pub struct ReceiverPortabilityMetrics {
    pub schema: String,
    pub virgin_score: Scalar,
    pub direct_score: Scalar,
    pub transferred_score: Scalar,
    pub wrong_score: Scalar,
    pub recovered_gain: Scalar,
    pub correct_wrong_advantage: Scalar,
}

/// The model of [`ReceiverPortabilityMetrics`].
pub struct MetricsModel {
    pub schema: Seq<char>,
    pub virgin_score: Scalar,
    pub direct_score: Scalar,
    pub transferred_score: Scalar,
    pub wrong_score: Scalar,
    pub recovered_gain: Scalar,
    pub correct_wrong_advantage: Scalar,
}

impl View for ReceiverPortabilityMetrics {
    type V = MetricsModel;

    open spec fn view(&self) -> MetricsModel {
        MetricsModel {
            schema: self.schema@,
            virgin_score: self.virgin_score,
            direct_score: self.direct_score,
            transferred_score: self.transferred_score,
            wrong_score: self.wrong_score,
            recovered_gain: self.recovered_gain,
            correct_wrong_advantage: self.correct_wrong_advantage,
        }
    }
}

/// The scores of the four behaviours: one less the relative error against the
/// expected one.
#[derive(Debug)]
pub struct PortabilityScores {
    pub virgin: BrainResult<Scalar>,
    pub direct: BrainResult<Scalar>,
    pub transferred: BrainResult<Scalar>,
    pub wrong: BrainResult<Scalar>,
}

/// The model of [`PortabilityScores`].
pub struct ScoresModel {
    pub virgin: Result<Scalar, ErrorView>,
    pub direct: Result<Scalar, ErrorView>,
    pub transferred: Result<Scalar, ErrorView>,
    pub wrong: Result<Scalar, ErrorView>,
}

impl View for PortabilityScores {
    type V = ScoresModel;

    open spec fn view(&self) -> ScoresModel {
        ScoresModel {
            virgin: outcome(self.virgin),
            direct: outcome(self.direct),
            transferred: outcome(self.transferred),
            wrong: outcome(self.wrong),
        }
    }
}

/// What the scores come to.
#[derive(Debug, Clone, Copy, PartialEq, Eq, Structural)]
pub struct PortabilityGains {
    pub recovered_gain: Scalar,
    pub correct_wrong_advantage: Scalar,
}

/// What the engine has reported for an evaluation so far.
#[derive(Debug)]
pub struct PortabilityProgress {
    pub expected_norm: Option<BrainResult<Scalar>>,
    pub scores: Option<PortabilityScores>,
    pub direct_gain: Option<Scalar>,
    pub gains: Option<PortabilityGains>,
}

/// The model of a [`PortabilityProgress`].
pub struct PortabilityProgressModel {
    pub expected_norm: Option<Result<Scalar, ErrorView>>,
    pub scores: Option<ScoresModel>,
    pub direct_gain: Option<Scalar>,
    pub gains: Option<PortabilityGains>,
}

impl View for PortabilityProgress {
    type V = PortabilityProgressModel;

    open spec fn view(&self) -> PortabilityProgressModel {
        PortabilityProgressModel {
            expected_norm: awaited(self.expected_norm),
            scores: match self.scores {
                Some(scores) => Some(scores@),
                None => None,
            },
            direct_gain: self.direct_gain,
            gains: self.gains,
        }
    }
}

/// The functional behaviours that are scored against each other.
pub struct BehavioursModel {
    pub expected: Seq<Scalar>,
    pub virgin: Seq<Scalar>,
    pub direct: Seq<Scalar>,
    pub transferred: Seq<Scalar>,
    pub wrong: Seq<Scalar>,
}

/// The functional behaviours that are scored against each other.
#[derive(Debug, Clone, Copy)]
pub struct Behaviours<'a> {
    pub expected: &'a Vec<Scalar>,
    pub virgin: &'a Vec<Scalar>,
    pub direct: &'a Vec<Scalar>,
    pub transferred: &'a Vec<Scalar>,
    pub wrong: &'a Vec<Scalar>,
}

impl<'a> View for Behaviours<'a> {
    type V = BehavioursModel;

    open spec fn view(&self) -> BehavioursModel {
        BehavioursModel {
            expected: self.expected@,
            virgin: self.virgin@,
            direct: self.direct@,
            transferred: self.transferred@,
            wrong: self.wrong@,
        }
    }
}

/// What an evaluation needs next, or how it ended.
#[derive(Debug)]
pub enum PortabilityStep<'a> {
    Failed(BrainError),
    /// Take the norm of this vector.
    MeasureExpected(&'a Vec<Scalar>),
    /// Score each behaviour against the expected one.
    Score(Behaviours<'a>),
    /// Subtract the second number from the first.
    Subtract(Scalar, Scalar),
    /// Take the recovered share of the direct gain, and the advantage over the
    /// wrong capability.
    Recover { transferred: Scalar, virgin: Scalar, direct_gain: Scalar, wrong: Scalar },
    Done(ReceiverPortabilityMetrics),
}

/// The model of a [`PortabilityStep`].
pub enum PortabilityStepModel {
    Failed(ErrorView),
    MeasureExpected(Seq<Scalar>),
    Score(BehavioursModel),
    Subtract(Scalar, Scalar),
    Recover { transferred: Scalar, virgin: Scalar, direct_gain: Scalar, wrong: Scalar },
    Done(MetricsModel),
}

impl<'a> View for PortabilityStep<'a> {
    type V = PortabilityStepModel;

    open spec fn view(&self) -> PortabilityStepModel {
        match self {
            PortabilityStep::Failed(error) => PortabilityStepModel::Failed(error@),
            PortabilityStep::MeasureExpected(row) => PortabilityStepModel::MeasureExpected(row@),
            PortabilityStep::Score(behaviours) => PortabilityStepModel::Score(behaviours@),
            PortabilityStep::Subtract(a, b) => PortabilityStepModel::Subtract(*a, *b),
            PortabilityStep::Recover { transferred, virgin, direct_gain, wrong } =>
                PortabilityStepModel::Recover {
                    transferred: *transferred,
                    virgin: *virgin,
                    direct_gain: *direct_gain,
                    wrong: *wrong,
                },
            PortabilityStep::Done(metrics) => PortabilityStepModel::Done(metrics@),
        }
    }
}

/// A behaviour of the given dimension with only finite numbers.
pub open spec fn regular(row: Seq<Scalar>, dimension: int) -> bool {
    row.len() == dimension && all_finite(row)
}

/// The next step of an evaluation.
pub open spec fn portability_step(
    behaviours: BehavioursModel,
    progress: PortabilityProgressModel,
) -> PortabilityStepModel {
    let invalid = PortabilityStepModel::Failed(
        ErrorView::Invalid("receiver_portability_signature_invalid"@),
    );
    let dimension = behaviours.expected.len() as int;
    if dimension == 0 || !all_finite(behaviours.expected) {
        invalid
    } else {
        match progress.expected_norm {
            None => PortabilityStepModel::MeasureExpected(behaviours.expected),
            Some(Err(error)) => PortabilityStepModel::Failed(error),
            Some(Ok(norm)) => if degenerate(norm) || !regular(behaviours.virgin, dimension)
                || !regular(behaviours.direct, dimension) || !regular(
                behaviours.transferred,
                dimension,
            ) || !regular(behaviours.wrong, dimension) {
                invalid
            } else {
                match progress.scores {
                    None => PortabilityStepModel::Score(behaviours),
                    Some(scores) => step_of_scores(scores, progress),
                }
            },
        }
    }
}

/// The next step of an evaluation once the scores are known.
pub open spec fn step_of_scores(
    scores: ScoresModel,
    progress: PortabilityProgressModel,
) -> PortabilityStepModel {
    match (scores.virgin, scores.direct, scores.transferred, scores.wrong) {
        (Err(error), _, _, _) => PortabilityStepModel::Failed(error),
        (_, Err(error), _, _) => PortabilityStepModel::Failed(error),
        (_, _, Err(error), _) => PortabilityStepModel::Failed(error),
        (_, _, _, Err(error)) => PortabilityStepModel::Failed(error),
        (Ok(virgin), Ok(direct), Ok(transferred), Ok(wrong)) => match progress.direct_gain {
            None => PortabilityStepModel::Subtract(direct, virgin),
            Some(direct_gain) => if direct_gain.at_most(Scalar { bits: NO_GAIN_BITS }) {
                PortabilityStepModel::Failed(
                    ErrorView::Invalid("receiver_portability_direct_oracle_has_no_gain"@),
                )
            } else {
                match progress.gains {
                    None => PortabilityStepModel::Recover {
                        transferred,
                        virgin,
                        direct_gain,
                        wrong,
                    },
                    Some(gains) => PortabilityStepModel::Done(
                        MetricsModel {
                            schema: "cerebro.tidex.receiver_portability_metrics/v1"@,
                            virgin_score: virgin,
                            direct_score: direct,
                            transferred_score: transferred,
                            wrong_score: wrong,
                            recovered_gain: gains.recovered_gain,
                            correct_wrong_advantage: gains.correct_wrong_advantage,
                        },
                    ),
                }
            },
        },
    }
}

/// Whether a row has the given length and only finite numbers.
fn is_regular(row: &Vec<Scalar>, dimension: usize) -> (yes: bool)
    ensures
        yes == regular(row@, dimension as int),
{
    row.len() == dimension && finite_row(row)
}

fn after_scores<'a>(scores: &PortabilityScores, progress: &PortabilityProgress) -> (step:
    PortabilityStep<'a>)
    ensures
        step@ == step_of_scores(scores@, progress@),
{
    let virgin = match &scores.virgin {
        Ok(score) => *score,
        Err(error) => {
            return PortabilityStep::Failed(error.duplicate());
        },
    };
    let direct = match &scores.direct {
        Ok(score) => *score,
        Err(error) => {
            return PortabilityStep::Failed(error.duplicate());
        },
    };
    let transferred = match &scores.transferred {
        Ok(score) => *score,
        Err(error) => {
            return PortabilityStep::Failed(error.duplicate());
        },
    };
    let wrong = match &scores.wrong {
        Ok(score) => *score,
        Err(error) => {
            return PortabilityStep::Failed(error.duplicate());
        },
    };
    let direct_gain = match progress.direct_gain {
        None => {
            return PortabilityStep::Subtract(direct, virgin);
        },
        Some(gain) => gain,
    };
    if direct_gain.le(Scalar { bits: NO_GAIN_BITS }) {
        return PortabilityStep::Failed(
            BrainError::invalid("receiver_portability_direct_oracle_has_no_gain"),
        );
    }
    match progress.gains {
        None => PortabilityStep::Recover { transferred, virgin, direct_gain, wrong },
        Some(gains) => PortabilityStep::Done(
            ReceiverPortabilityMetrics {
                schema: "cerebro.tidex.receiver_portability_metrics/v1".to_owned(),
                virgin_score: virgin,
                direct_score: direct,
                transferred_score: transferred,
                wrong_score: wrong,
                recovered_gain: gains.recovered_gain,
                correct_wrong_advantage: gains.correct_wrong_advantage,
            },
        ),
    }
}

/// Decides what the comparison of a compiled result with an untouched receiver,
/// a direct oracle and a wrong capability needs next, or how it ends.
pub fn evaluate_portability<'a>(
    behaviours: Behaviours<'a>,
    progress: &PortabilityProgress,
) -> (step: PortabilityStep<'a>)
    ensures
        step@ == portability_step(behaviours@, progress@),
{
    let dimension: usize = behaviours.expected.len();
    if dimension == 0 || !finite_row(behaviours.expected) {
        return PortabilityStep::Failed(
            BrainError::invalid("receiver_portability_signature_invalid"),
        );
    }
    let norm = match &progress.expected_norm {
        None => {
            return PortabilityStep::MeasureExpected(behaviours.expected);
        },
        Some(Err(error)) => {
            return PortabilityStep::Failed(error.duplicate());
        },
        Some(Ok(norm)) => *norm,
    };
    if is_degenerate(norm) || !is_regular(behaviours.virgin, dimension) || !is_regular(
        behaviours.direct,
        dimension,
    ) || !is_regular(behaviours.transferred, dimension) || !is_regular(
        behaviours.wrong,
        dimension,
    ) {
        return PortabilityStep::Failed(
            BrainError::invalid("receiver_portability_signature_invalid"),
        );
    }
    match &progress.scores {
        None => PortabilityStep::Score(behaviours),
        Some(scores) => after_scores(scores, progress),
    }
}

/// Recovery is reported only against an oracle that gains something.
pub proof fn recovery_presupposes_a_gain(
    behaviours: BehavioursModel,
    progress: PortabilityProgressModel,
)
    requires
        portability_step(behaviours, progress) is Done,
    ensures
        progress.direct_gain is Some,
        !progress.direct_gain->0.at_most(Scalar { bits: NO_GAIN_BITS }),
        regular(behaviours.transferred, behaviours.expected.len() as int),
{
}

/// Floating-point arithmetic and a score, as far as the comparison of behaviours
/// asks for them.
pub struct Arithmetic {
    /// The score of a behaviour against the expected one.
    pub score: spec_fn(Seq<Scalar>, Seq<Scalar>) -> Result<Scalar, ErrorView>,
    pub difference: spec_fn(Scalar, Scalar) -> Scalar,
    pub quotient: spec_fn(Scalar, Scalar) -> Scalar,
}

impl Arithmetic {
    /// A finite number less itself is zero, a positive finite number over itself is
    /// one, and zero over a positive number is zero.
    pub open spec fn sound(self) -> bool {
        &&& forall|x: Scalar|
            x.finite() ==> #[trigger] (self.difference)(x, x) == (Scalar { bits: 0 })
        &&& forall|x: Scalar|
            x.finite() && x.units() > 0 ==> #[trigger] (self.quotient)(x, x) == (Scalar {
                bits: ONE_BITS,
            })
        &&& forall|x: Scalar|
            !x.nan() && x.units() > 0 ==> #[trigger] (self.quotient)(Scalar { bits: 0 }, x) == (
            Scalar { bits: 0 })
    }

    /// The answers that an evaluation was given are those of this arithmetic.
    pub open spec fn answered(
        self,
        behaviours: BehavioursModel,
        progress: PortabilityProgressModel,
    ) -> bool {
        let scores = ScoresModel {
            virgin: (self.score)(behaviours.virgin, behaviours.expected),
            direct: (self.score)(behaviours.direct, behaviours.expected),
            transferred: (self.score)(behaviours.transferred, behaviours.expected),
            wrong: (self.score)(behaviours.wrong, behaviours.expected),
        };
        let direct_gain = (self.difference)(scores.direct->Ok_0, scores.virgin->Ok_0);
        &&& progress.scores == Some(scores)
        &&& progress.direct_gain == Some(direct_gain)
        &&& progress.gains == Some(
            PortabilityGains {
                recovered_gain: (self.quotient)(
                    (self.difference)(scores.transferred->Ok_0, scores.virgin->Ok_0),
                    direct_gain,
                ),
                correct_wrong_advantage: (self.difference)(
                    scores.transferred->Ok_0,
                    scores.wrong->Ok_0,
                ),
            },
        )
    }
}

/// A compiled result that behaves as the direct oracle recovers all of its gain,
/// one that behaves as the untouched receiver recovers none of it, and an oracle
/// that behaves as the untouched receiver is refused. Each is left out only where
/// floating point denies it: an infinite gain over itself is no number, and neither
/// is an infinite score less itself or anything with a NaN.
pub proof fn recovery_is_whole_or_nothing_at_the_ends(
    arithmetic: Arithmetic,
    behaviours: BehavioursModel,
    progress: PortabilityProgressModel,
)
    requires
        arithmetic.sound(),
        arithmetic.answered(behaviours, progress),
    ensures
        portability_step(behaviours, progress) matches PortabilityStepModel::Done(metrics) ==> {
            &&& behaviours.transferred == behaviours.direct && progress.direct_gain->0.finite()
                ==> metrics.recovered_gain == (Scalar { bits: ONE_BITS })
            &&& behaviours.transferred == behaviours.virgin && metrics.virgin_score.finite()
                && !progress.direct_gain->0.nan() ==> metrics.recovered_gain == (Scalar { bits: 0 })
            &&& behaviours.direct == behaviours.virgin ==> !metrics.virgin_score.finite()
        },
{
    lemma_magnitude_zero(NO_GAIN_BITS as int);
    let none = Scalar { bits: NO_GAIN_BITS };
    assert(!none.nan() && none.units() >= 0);
    let zero = Scalar { bits: 0 };
    assert(zero.at_most(none));
}

/// A skill with its functional signature and its direct receiver solution.
#[derive(Debug)]
pub struct ReceiverPortabilityCase {
    pub skill_id: String,
    pub functional_signature: Vec<Scalar>,
    pub direct_receiver_solution: Vec<Scalar>,
}

/// The model of a [`ReceiverPortabilityCase`].
pub struct CaseModel {
    pub skill_id: Seq<char>,
    pub functional_signature: Seq<Scalar>,
    pub direct_receiver_solution: Seq<Scalar>,
}

impl View for ReceiverPortabilityCase {
    type V = CaseModel;

    open spec fn view(&self) -> CaseModel {
        CaseModel {
            skill_id: self.skill_id@,
            functional_signature: self.functional_signature@,
            direct_receiver_solution: self.direct_receiver_solution@,
        }
    }
}

/// The skills of a benchmark.
#[derive(Debug)]
pub struct ReceiverPortabilityBenchmarkInput {
    pub schema: String,
    pub ridge: Scalar,
    pub cases: Vec<ReceiverPortabilityCase>,
}

/// The model of a [`ReceiverPortabilityBenchmarkInput`].
pub struct BenchmarkModel {
    pub schema: Seq<char>,
    pub ridge: Scalar,
    pub cases: Seq<CaseModel>,
}

impl View for ReceiverPortabilityBenchmarkInput {
    type V = BenchmarkModel;

    open spec fn view(&self) -> BenchmarkModel {
        BenchmarkModel { schema: self.schema@, ridge: self.ridge, cases: views(self.cases@) }
    }
}

/// What was found for one held-out skill.
#[derive(Debug)]
pub struct ReceiverPortabilityCaseReport {
    pub skill_id: String,
    pub decoder_loo_r2: Scalar,
    pub encoder_loo_r2: Scalar,
    pub decoder_min_loo_cosine: Scalar,
    pub encoder_min_loo_cosine: Scalar,
    pub compiled_receiver_solution: Vec<Scalar>,
    pub wrong_receiver_solution: Vec<Scalar>,
    pub metrics: ReceiverPortabilityMetrics,
    pub resolved: bool,
}

/// The model of a [`ReceiverPortabilityCaseReport`].
pub struct CaseReportModel {
    pub skill_id: Seq<char>,
    pub decoder_loo_r2: Scalar,
    pub encoder_loo_r2: Scalar,
    pub decoder_min_loo_cosine: Scalar,
    pub encoder_min_loo_cosine: Scalar,
    pub compiled_receiver_solution: Seq<Scalar>,
    pub wrong_receiver_solution: Seq<Scalar>,
    pub metrics: MetricsModel,
    pub resolved: bool,
}

impl View for ReceiverPortabilityCaseReport {
    type V = CaseReportModel;

    open spec fn view(&self) -> CaseReportModel {
        CaseReportModel {
            skill_id: self.skill_id@,
            decoder_loo_r2: self.decoder_loo_r2,
            encoder_loo_r2: self.encoder_loo_r2,
            decoder_min_loo_cosine: self.decoder_min_loo_cosine,
            encoder_min_loo_cosine: self.encoder_min_loo_cosine,
            compiled_receiver_solution: self.compiled_receiver_solution@,
            wrong_receiver_solution: self.wrong_receiver_solution@,
            metrics: self.metrics@,
            resolved: self.resolved,
        }
    }
}

/// What a benchmark found.
#[derive(Debug)]
pub struct ReceiverPortabilityBenchmarkReport {
    pub schema: String,
    pub case_count: usize,
    pub functional_dimension: usize,
    pub receiver_parameter_dimension: usize,
    pub mean_recovered_gain: Scalar,
    pub minimum_recovered_gain: Scalar,
    pub mean_correct_wrong_advantage: Scalar,
    pub minimum_correct_wrong_advantage: Scalar,
    pub all_resolved: bool,
    pub cases: Vec<ReceiverPortabilityCaseReport>,
}

/// The model of a [`ReceiverPortabilityBenchmarkReport`].
pub struct ReportModel {
    pub schema: Seq<char>,
    pub case_count: usize,
    pub functional_dimension: usize,
    pub receiver_parameter_dimension: usize,
    pub mean_recovered_gain: Scalar,
    pub minimum_recovered_gain: Scalar,
    pub mean_correct_wrong_advantage: Scalar,
    pub minimum_correct_wrong_advantage: Scalar,
    pub all_resolved: bool,
    pub cases: Seq<CaseReportModel>,
}

impl View for ReceiverPortabilityBenchmarkReport {
    type V = ReportModel;

    open spec fn view(&self) -> ReportModel {
        ReportModel {
            schema: self.schema@,
            case_count: self.case_count,
            functional_dimension: self.functional_dimension,
            receiver_parameter_dimension: self.receiver_parameter_dimension,
            mean_recovered_gain: self.mean_recovered_gain,
            minimum_recovered_gain: self.minimum_recovered_gain,
            mean_correct_wrong_advantage: self.mean_correct_wrong_advantage,
            minimum_correct_wrong_advantage: self.minimum_correct_wrong_advantage,
            all_resolved: self.all_resolved,
            cases: views(self.cases@),
        }
    }
}

/// What the engine has reported for one held-out skill so far.
#[derive(Debug)]
pub struct HoldoutProgress {
    pub decoder: Option<BrainResult<LearnedMap>>,
    pub encoder: Option<BrainResult<LearnedMap>>,
    pub transferred_delta: Option<BrainResult<Vec<Scalar>>>,
    pub transferred_behavior: Option<BrainResult<Vec<Scalar>>>,
    pub direct_behavior: Option<BrainResult<Vec<Scalar>>>,
    pub virgin_behavior: Option<BrainResult<Vec<Scalar>>>,
    pub wrong_delta: Option<BrainResult<Vec<Scalar>>>,
    pub wrong_behavior: Option<BrainResult<Vec<Scalar>>>,
    pub portability: PortabilityProgress,
}

/// The model of a [`HoldoutProgress`].
pub struct HoldoutModel {
    pub decoder: Option<Result<LearnedMap, ErrorView>>,
    pub encoder: Option<Result<LearnedMap, ErrorView>>,
    pub transferred_delta: Option<Result<Seq<Scalar>, ErrorView>>,
    pub transferred_behavior: Option<Result<Seq<Scalar>, ErrorView>>,
    pub direct_behavior: Option<Result<Seq<Scalar>, ErrorView>>,
    pub virgin_behavior: Option<Result<Seq<Scalar>, ErrorView>>,
    pub wrong_delta: Option<Result<Seq<Scalar>, ErrorView>>,
    pub wrong_behavior: Option<Result<Seq<Scalar>, ErrorView>>,
    pub portability: PortabilityProgressModel,
}

impl View for HoldoutProgress {
    type V = HoldoutModel;

    open spec fn view(&self) -> HoldoutModel {
        HoldoutModel {
            decoder: awaited(self.decoder),
            encoder: awaited(self.encoder),
            transferred_delta: awaited(self.transferred_delta),
            transferred_behavior: awaited(self.transferred_behavior),
            direct_behavior: awaited(self.direct_behavior),
            virgin_behavior: awaited(self.virgin_behavior),
            wrong_delta: awaited(self.wrong_delta),
            wrong_behavior: awaited(self.wrong_behavior),
            portability: self.portability@,
        }
    }
}

/// What a held-out skill needs next, or what was found for it.
#[derive(Debug)]
pub enum HoldoutStep<'a> {
    Failed(BrainError),
    /// Learn the map from the signatures to the solutions of the other skills.
    LearnDecoder { from: Vec<Vec<Scalar>>, to: Vec<Vec<Scalar>>, ridge: Scalar },
    /// Learn the map from the solutions to the signatures of the other skills.
    LearnEncoder { from: Vec<Vec<Scalar>>, to: Vec<Vec<Scalar>>, ridge: Scalar },
    /// Send the signature of the held-out skill through the decoder.
    Transplant(&'a Vec<Scalar>),
    /// Send the compiled solution through the encoder.
    ApplyTransferred(&'a Vec<Scalar>),
    /// Send the direct solution of the held-out skill through the encoder.
    ApplyDirect(&'a Vec<Scalar>),
    /// Send the zero vector of this dimension through the encoder.
    ApplyVirgin(usize),
    /// Send the signature of a wrong skill through the decoder.
    TransplantWrong(&'a Vec<Scalar>),
    /// Send the solution of the wrong skill through the encoder.
    ApplyWrong(&'a Vec<Scalar>),
    /// Go on with the comparison of the behaviours.
    Compare(PortabilityStep<'a>),
    Done(ReceiverPortabilityCaseReport),
}

/// The model of a [`HoldoutStep`].
pub enum HoldoutStepModel {
    Failed(ErrorView),
    LearnDecoder { from: Seq<Seq<Scalar>>, to: Seq<Seq<Scalar>>, ridge: Scalar },
    LearnEncoder { from: Seq<Seq<Scalar>>, to: Seq<Seq<Scalar>>, ridge: Scalar },
    Transplant(Seq<Scalar>),
    ApplyTransferred(Seq<Scalar>),
    ApplyDirect(Seq<Scalar>),
    ApplyVirgin(usize),
    TransplantWrong(Seq<Scalar>),
    ApplyWrong(Seq<Scalar>),
    Compare(PortabilityStepModel),
    Done(CaseReportModel),
}

impl<'a> View for HoldoutStep<'a> {
    type V = HoldoutStepModel;

    open spec fn view(&self) -> HoldoutStepModel {
        match self {
            HoldoutStep::Failed(error) => HoldoutStepModel::Failed(error@),
            HoldoutStep::LearnDecoder { from, to, ridge } => HoldoutStepModel::LearnDecoder {
                from: views(from@),
                to: views(to@),
                ridge: *ridge,
            },
            HoldoutStep::LearnEncoder { from, to, ridge } => HoldoutStepModel::LearnEncoder {
                from: views(from@),
                to: views(to@),
                ridge: *ridge,
            },
            HoldoutStep::Transplant(row) => HoldoutStepModel::Transplant(row@),
            HoldoutStep::ApplyTransferred(row) => HoldoutStepModel::ApplyTransferred(row@),
            HoldoutStep::ApplyDirect(row) => HoldoutStepModel::ApplyDirect(row@),
            HoldoutStep::ApplyVirgin(dimension) => HoldoutStepModel::ApplyVirgin(*dimension),
            HoldoutStep::TransplantWrong(row) => HoldoutStepModel::TransplantWrong(row@),
            HoldoutStep::ApplyWrong(row) => HoldoutStepModel::ApplyWrong(row@),
            HoldoutStep::Compare(step) => HoldoutStepModel::Compare(step@),
            HoldoutStep::Done(report) => HoldoutStepModel::Done(report@),
        }
    }
}

/// The signatures of every skill but one.
pub open spec fn training_signatures(cases: Seq<CaseModel>, holdout: int) -> Seq<Seq<Scalar>> {
    Seq::new(
        (cases.len() - 1) as nat,
        |i: int| cases[if i < holdout { i } else { i + 1 }].functional_signature,
    )
}

/// The direct solutions of every skill but one.
pub open spec fn training_solutions(cases: Seq<CaseModel>, holdout: int) -> Seq<Seq<Scalar>> {
    Seq::new(
        (cases.len() - 1) as nat,
        |i: int| cases[if i < holdout { i } else { i + 1 }].direct_receiver_solution,
    )
}

/// The skill that serves as the wrong one: the first that is not held out.
pub open spec fn wrong_skill(holdout: int) -> int {
    if holdout == 0 {
        1
    } else {
        0
    }
}

/// The next step for a held-out skill.
pub open spec fn holdout_step(
    input: BenchmarkModel,
    receiver_dimension: usize,
    holdout: int,
    progress: HoldoutModel,
) -> HoldoutStepModel {
    let cases = input.cases;
    match progress.decoder {
        None => HoldoutStepModel::LearnDecoder {
            from: training_signatures(cases, holdout),
            to: training_solutions(cases, holdout),
            ridge: input.ridge,
        },
        Some(Err(error)) => HoldoutStepModel::Failed(error),
        Some(Ok(decoder)) => match progress.encoder {
            None => HoldoutStepModel::LearnEncoder {
                from: training_solutions(cases, holdout),
                to: training_signatures(cases, holdout),
                ridge: input.ridge,
            },
            Some(Err(error)) => HoldoutStepModel::Failed(error),
            Some(Ok(encoder)) => match progress.transferred_delta {
                None => HoldoutStepModel::Transplant(cases[holdout].functional_signature),
                Some(Err(error)) => HoldoutStepModel::Failed(error),
                Some(Ok(transferred_delta)) => match progress.transferred_behavior {
                    None => HoldoutStepModel::ApplyTransferred(transferred_delta),
                    Some(Err(error)) => HoldoutStepModel::Failed(error),
                    Some(Ok(transferred)) => step_of_transferred(
                        input,
                        receiver_dimension,
                        holdout,
                        progress,
                        decoder,
                        encoder,
                        transferred_delta,
                        transferred,
                    ),
                },
            },
        },
    }
}

/// The next step for a held-out skill once its compiled behaviour is known. Only
/// here its direct solution is opened.
pub open spec fn step_of_transferred(
    input: BenchmarkModel,
    receiver_dimension: usize,
    holdout: int,
    progress: HoldoutModel,
    decoder: LearnedMap,
    encoder: LearnedMap,
    transferred_delta: Seq<Scalar>,
    transferred: Seq<Scalar>,
) -> HoldoutStepModel {
    let cases = input.cases;
    match progress.direct_behavior {
        None => HoldoutStepModel::ApplyDirect(cases[holdout].direct_receiver_solution),
        Some(Err(error)) => HoldoutStepModel::Failed(error),
        Some(Ok(direct)) => match progress.virgin_behavior {
            None => HoldoutStepModel::ApplyVirgin(receiver_dimension),
            Some(Err(error)) => HoldoutStepModel::Failed(error),
            Some(Ok(virgin)) => match progress.wrong_delta {
                None => HoldoutStepModel::TransplantWrong(
                    cases[wrong_skill(holdout)].functional_signature,
                ),
                Some(Err(error)) => HoldoutStepModel::Failed(error),
                Some(Ok(wrong_delta)) => match progress.wrong_behavior {
                    None => HoldoutStepModel::ApplyWrong(wrong_delta),
                    Some(Err(error)) => HoldoutStepModel::Failed(error),
                    Some(Ok(wrong)) => match portability_step(
                        BehavioursModel {
                            expected: cases[holdout].functional_signature,
                            virgin,
                            direct,
                            transferred,
                            wrong,
                        },
                        progress.portability,
                    ) {
                        PortabilityStepModel::Failed(error) => HoldoutStepModel::Failed(error),
                        PortabilityStepModel::Done(metrics) => HoldoutStepModel::Done(
                            CaseReportModel {
                                skill_id: cases[holdout].skill_id,
                                decoder_loo_r2: decoder.loo_cv_r2,
                                encoder_loo_r2: encoder.loo_cv_r2,
                                decoder_min_loo_cosine: decoder.min_loo_cosine,
                                encoder_min_loo_cosine: encoder.min_loo_cosine,
                                compiled_receiver_solution: transferred_delta,
                                wrong_receiver_solution: wrong_delta,
                                metrics,
                                resolved: decoder.resolved && encoder.resolved,
                            },
                        ),
                        step => HoldoutStepModel::Compare(step),
                    },
                },
            },
        },
    }
}

/// The signatures of every skill but one.
fn signatures_without(cases: &Vec<ReceiverPortabilityCase>, holdout: usize) -> (rows: Vec<
    Vec<Scalar>,
>)
    requires
        holdout < cases@.len(),
    ensures
        views(rows@) == training_signatures(views(cases@), holdout as int),
{
    let ghost wanted = training_signatures(views(cases@), holdout as int);
    let mut rows: Vec<Vec<Scalar>> = Vec::new();
    assert(wanted.take(0) =~= views(rows@));
    for i in 0..cases.len()
        invariant
            holdout < cases@.len(),
            wanted == training_signatures(views(cases@), holdout as int),
            views(rows@) == wanted.take(if i <= holdout { i as int } else { i - 1 }),
    {
        if i != holdout {
            let ghost at = if i < holdout { i as int } else { i - 1 };
            assert(wanted[at] == cases@[i as int].functional_signature@);
            rows.push(row_copy(&cases[i].functional_signature));
            proof {
                take_one_more(wanted, at);
            }
        }
    }
    assert(wanted.take(wanted.len() as int) == wanted);
    rows
}

/// The direct solutions of every skill but one.
fn solutions_without(cases: &Vec<ReceiverPortabilityCase>, holdout: usize) -> (rows: Vec<
    Vec<Scalar>,
>)
    requires
        holdout < cases@.len(),
    ensures
        views(rows@) == training_solutions(views(cases@), holdout as int),
{
    let ghost wanted = training_solutions(views(cases@), holdout as int);
    let mut rows: Vec<Vec<Scalar>> = Vec::new();
    assert(wanted.take(0) =~= views(rows@));
    for i in 0..cases.len()
        invariant
            holdout < cases@.len(),
            wanted == training_solutions(views(cases@), holdout as int),
            views(rows@) == wanted.take(if i <= holdout { i as int } else { i - 1 }),
    {
        if i != holdout {
            let ghost at = if i < holdout { i as int } else { i - 1 };
            assert(wanted[at] == cases@[i as int].direct_receiver_solution@);
            rows.push(row_copy(&cases[i].direct_receiver_solution));
            proof {
                take_one_more(wanted, at);
            }
        }
    }
    assert(wanted.take(wanted.len() as int) == wanted);
    rows
}

/// What a comparison of behaviours rests on, borrowed from the progress.
struct Held<'a> {
    decoder: LearnedMap,
    encoder: LearnedMap,
    transferred_delta: &'a Vec<Scalar>,
    transferred: &'a Vec<Scalar>,
}

fn after_transferred<'a>(
    input: &'a ReceiverPortabilityBenchmarkInput,
    receiver_dimension: usize,
    holdout: usize,
    progress: &'a HoldoutProgress,
    held: Held<'a>,
) -> (step: HoldoutStep<'a>)
    requires
        holdout < input.cases@.len(),
        input.cases@.len() >= 2,
    ensures
        step@ == step_of_transferred(
            input@,
            receiver_dimension,
            holdout as int,
            progress@,
            held.decoder,
            held.encoder,
            held.transferred_delta@,
            held.transferred@,
        ),
{
    let query = &input.cases[holdout];
    assert(input@.cases[holdout as int] == query@);
    let direct = match &progress.direct_behavior {
        None => {
            return HoldoutStep::ApplyDirect(&query.direct_receiver_solution);
        },
        Some(Err(error)) => {
            return HoldoutStep::Failed(error.duplicate());
        },
        Some(Ok(direct)) => direct,
    };
    let virgin = match &progress.virgin_behavior {
        None => {
            return HoldoutStep::ApplyVirgin(receiver_dimension);
        },
        Some(Err(error)) => {
            return HoldoutStep::Failed(error.duplicate());
        },
        Some(Ok(virgin)) => virgin,
    };
    let wrong_delta = match &progress.wrong_delta {
        None => {
            let wrong_index: usize = if holdout == 0 { 1 } else { 0 };
            assert(input@.cases[wrong_index as int] == input.cases@[wrong_index as int]@);
            return HoldoutStep::TransplantWrong(&input.cases[wrong_index].functional_signature);
        },
        Some(Err(error)) => {
            return HoldoutStep::Failed(error.duplicate());
        },
        Some(Ok(wrong_delta)) => wrong_delta,
    };
    let wrong = match &progress.wrong_behavior {
        None => {
            return HoldoutStep::ApplyWrong(wrong_delta);
        },
        Some(Err(error)) => {
            return HoldoutStep::Failed(error.duplicate());
        },
        Some(Ok(wrong)) => wrong,
    };
    let behaviours = Behaviours {
        expected: &query.functional_signature,
        virgin,
        direct,
        transferred: held.transferred,
        wrong,
    };
    match evaluate_portability(behaviours, &progress.portability) {
        PortabilityStep::Failed(error) => HoldoutStep::Failed(error),
        PortabilityStep::Done(metrics) => HoldoutStep::Done(
            ReceiverPortabilityCaseReport {
                skill_id: query.skill_id.clone(),
                decoder_loo_r2: held.decoder.loo_cv_r2,
                encoder_loo_r2: held.encoder.loo_cv_r2,
                decoder_min_loo_cosine: held.decoder.min_loo_cosine,
                encoder_min_loo_cosine: held.encoder.min_loo_cosine,
                compiled_receiver_solution: row_copy(held.transferred_delta),
                wrong_receiver_solution: row_copy(wrong_delta),
                metrics,
                resolved: held.decoder.resolved && held.encoder.resolved,
            },
        ),
        step => HoldoutStep::Compare(step),
    }
}

/// Decides what a held-out skill needs next, or reports on it.
pub fn hold_out<'a>(
    input: &'a ReceiverPortabilityBenchmarkInput,
    receiver_dimension: usize,
    holdout: usize,
    progress: &'a HoldoutProgress,
) -> (step: HoldoutStep<'a>)
    requires
        holdout < input@.cases.len(),
        input@.cases.len() >= 2,
    ensures
        step@ == holdout_step(input@, receiver_dimension, holdout as int, progress@),
{
    assert(input@.cases[holdout as int] == input.cases@[holdout as int]@);
    let decoder = match &progress.decoder {
        None => {
            return HoldoutStep::LearnDecoder {
                from: signatures_without(&input.cases, holdout),
                to: solutions_without(&input.cases, holdout),
                ridge: input.ridge,
            };
        },
        Some(Err(error)) => {
            return HoldoutStep::Failed(error.duplicate());
        },
        Some(Ok(decoder)) => *decoder,
    };
    let encoder = match &progress.encoder {
        None => {
            return HoldoutStep::LearnEncoder {
                from: solutions_without(&input.cases, holdout),
                to: signatures_without(&input.cases, holdout),
                ridge: input.ridge,
            };
        },
        Some(Err(error)) => {
            return HoldoutStep::Failed(error.duplicate());
        },
        Some(Ok(encoder)) => *encoder,
    };
    let transferred_delta = match &progress.transferred_delta {
        None => {
            return HoldoutStep::Transplant(&input.cases[holdout].functional_signature);
        },
        Some(Err(error)) => {
            return HoldoutStep::Failed(error.duplicate());
        },
        Some(Ok(transferred_delta)) => transferred_delta,
    };
    let transferred = match &progress.transferred_behavior {
        None => {
            return HoldoutStep::ApplyTransferred(transferred_delta);
        },
        Some(Err(error)) => {
            return HoldoutStep::Failed(error.duplicate());
        },
        Some(Ok(transferred)) => transferred,
    };
    after_transferred(
        input,
        receiver_dimension,
        holdout,
        progress,
        Held { decoder, encoder, transferred_delta, transferred },
    )
}

/// The direct solution of a held-out skill has no influence on how it is
/// compiled: changing that solution alone changes neither what the two maps are
/// learned from, nor what is sent through them to compile the skill, nor the
/// compiled solution that is reported. It is opened once the skill is compiled,
/// and not before.
pub proof fn held_out_solution_never_enters_training(
    input: BenchmarkModel,
    receiver_dimension: usize,
    holdout: int,
    other_solution: Seq<Scalar>,
    progress: HoldoutModel,
)
    requires
        0 <= holdout < input.cases.len(),
        input.cases.len() >= 2,
    ensures
        ({
            let changed = BenchmarkModel {
                cases: input.cases.update(
                    holdout,
                    CaseModel {
                        direct_receiver_solution: other_solution,
                        ..input.cases[holdout]
                    },
                ),
                ..input
            };
            let step = holdout_step(input, receiver_dimension, holdout, progress);
            let other = holdout_step(changed, receiver_dimension, holdout, progress);
            &&& !(step is ApplyDirect) ==> other == step
            &&& step is ApplyDirect ==> other is ApplyDirect
            &&& step is ApplyDirect ==> progress.transferred_delta is Some
                && progress.transferred_delta->0 is Ok && progress.transferred_behavior is Some
                && progress.transferred_behavior->0 is Ok
            &&& training_signatures(changed.cases, holdout) == training_signatures(
                input.cases,
                holdout,
            )
            &&& training_solutions(changed.cases, holdout) == training_solutions(
                input.cases,
                holdout,
            )
        }),
{
    let changed = input.cases.update(
        holdout,
        CaseModel { direct_receiver_solution: other_solution, ..input.cases[holdout] },
    );
    assert(training_signatures(changed, holdout) =~= training_signatures(input.cases, holdout));
    assert(training_solutions(changed, holdout) =~= training_solutions(input.cases, holdout));
}

/// The wrong skill is never the held-out one.
pub proof fn wrong_skill_is_another_one(holdout: int)
    ensures
        wrong_skill(holdout) != holdout,
{
}

/// Where the check of the skills stands.
pub enum CheckModel {
    Failed(ErrorView),
    /// The norm of the signature of this skill is needed.
    Measure(int),
    Passed,
}

/// Whether a skill has an identity of its own, and vectors of the common
/// dimensions with only finite numbers.
pub open spec fn case_regular(
    cases: Seq<CaseModel>,
    i: int,
    functional_dimension: int,
    receiver_dimension: int,
) -> bool {
    &&& 0 < cases[i].skill_id.len()
    &&& vstd::utf8::encode_utf8(cases[i].skill_id).len() <= MAX_SKILL_ID_BYTES
    &&& forall|j: int| 0 <= j < i ==> (#[trigger] cases[j]).skill_id != cases[i].skill_id
    &&& regular(cases[i].functional_signature, functional_dimension)
    &&& regular(cases[i].direct_receiver_solution, receiver_dimension)
}

/// The check of the first `n` skills.
pub open spec fn cases_checked(
    cases: Seq<CaseModel>,
    functional_dimension: int,
    receiver_dimension: int,
    norms: Seq<Result<Scalar, ErrorView>>,
    n: int,
) -> CheckModel
    decreases n,
{
    let invalid = CheckModel::Failed(
        ErrorView::Invalid("receiver_portability_benchmark_case_invalid"@),
    );
    if n <= 0 {
        CheckModel::Passed
    } else {
        match cases_checked(cases, functional_dimension, receiver_dimension, norms, n - 1) {
            CheckModel::Passed => if !case_regular(
                cases,
                n - 1,
                functional_dimension,
                receiver_dimension,
            ) {
                invalid
            } else if n - 1 >= norms.len() {
                CheckModel::Measure(n - 1)
            } else {
                match norms[n - 1] {
                    Err(error) => CheckModel::Failed(error),
                    Ok(norm) => if degenerate(norm) {
                        invalid
                    } else {
                        CheckModel::Passed
                    },
                }
            },
            stopped => stopped,
        }
    }
}

proof fn lemma_stopped_check_persists(
    cases: Seq<CaseModel>,
    functional_dimension: int,
    receiver_dimension: int,
    norms: Seq<Result<Scalar, ErrorView>>,
    n: int,
    all: int,
)
    requires
        0 <= n <= all,
        !(cases_checked(cases, functional_dimension, receiver_dimension, norms, n) is Passed),
    ensures
        cases_checked(cases, functional_dimension, receiver_dimension, norms, all) == cases_checked(
            cases,
            functional_dimension,
            receiver_dimension,
            norms,
            n,
        ),
    decreases all - n,
{
    if n < all {
        lemma_stopped_check_persists(
            cases,
            functional_dimension,
            receiver_dimension,
            norms,
            n + 1,
            all,
        );
    }
}

/// Where the check of the skills stands, in memory.
enum Check {
    Failed(BrainError),
    Measure(usize),
    Passed,
}

impl Check {
    spec fn model(self) -> CheckModel {
        match self {
            Check::Failed(error) => CheckModel::Failed(error@),
            Check::Measure(position) => CheckModel::Measure(position as int),
            Check::Passed => CheckModel::Passed,
        }
    }
}

/// Whether an earlier skill has the identity of this one.
fn skill_repeated(cases: &Vec<ReceiverPortabilityCase>, at: usize) -> (repeated: bool)
    requires
        at < cases@.len(),
    ensures
        repeated == exists|j: int|
            0 <= j < at && (#[trigger] views(cases@)[j]).skill_id == views(
                cases@,
            )[at as int].skill_id,
{
    let ghost models = views(cases@);
    for j in 0..at
        invariant
            at < cases@.len(),
            models == views(cases@),
            forall|k: int| 0 <= k < j ==> (#[trigger] models[k]).skill_id != models[at as int].skill_id,
    {
        assert(models[j as int] == cases@[j as int]@);
        if text_eq(cases[j].skill_id.as_str(), cases[at].skill_id.as_str()) {
            return true;
        }
    }
    false
}

fn check_cases(
    cases: &Vec<ReceiverPortabilityCase>,
    functional_dimension: usize,
    receiver_dimension: usize,
    norms: &Vec<BrainResult<Scalar>>,
) -> (check: Check)
    ensures
        check.model() == cases_checked(
            views(cases@),
            functional_dimension as int,
            receiver_dimension as int,
            outcomes(norms@),
            cases@.len() as int,
        ),
{
    let ghost models = views(cases@);
    let ghost measured = outcomes(norms@);
    for i in 0..cases.len()
        invariant
            models == views(cases@),
            measured == outcomes(norms@),
            cases_checked(
                models,
                functional_dimension as int,
                receiver_dimension as int,
                measured,
                i as int,
            ) is Passed,
    {
        assert(models[i as int] == cases@[i as int]@);
        let case = &cases[i];
        proof {
            if !(cases_checked(
                models,
                functional_dimension as int,
                receiver_dimension as int,
                measured,
                i + 1,
            ) is Passed) {
                lemma_stopped_check_persists(
                    models,
                    functional_dimension as int,
                    receiver_dimension as int,
                    measured,
                    i + 1,
                    models.len() as int,
                );
            }
            if i < measured.len() {
                assert(measured[i as int] == outcome(norms@[i as int]));
            }
        }
        let length: usize = byte_length(case.skill_id.as_str());
        proof {
            lemma_empty_text(case.skill_id@);
        }
        if length == 0 || length > MAX_SKILL_ID_BYTES || skill_repeated(cases, i) || !is_regular(
            &case.functional_signature,
            functional_dimension,
        ) || !is_regular(&case.direct_receiver_solution, receiver_dimension) {
            return Check::Failed(
                BrainError::invalid("receiver_portability_benchmark_case_invalid"),
            );
        }
        if i >= norms.len() {
            return Check::Measure(i);
        }
        match &norms[i] {
            Err(error) => {
                return Check::Failed(error.duplicate());
            },
            Ok(norm) => {
                if is_degenerate(*norm) {
                    return Check::Failed(
                        BrainError::invalid("receiver_portability_benchmark_case_invalid"),
                    );
                }
            },
        }
    }
    Check::Passed
}

/// A text has no bytes exactly when it has no characters.
proof fn lemma_empty_text(text: Seq<char>)
    ensures
        vstd::utf8::encode_utf8(text).len() == 0 <==> text.len() == 0,
{
    reveal_with_fuel(vstd::utf8::encode_utf8, 2);
}

/// The means over the held-out skills.
#[derive(Debug, Clone, Copy, PartialEq, Eq, Structural)]
pub struct BenchmarkMeans {
    pub recovered_gain: Scalar,
    pub correct_wrong_advantage: Scalar,
}

/// What the engine has reported for a benchmark so far.
#[derive(Debug)]
pub struct BenchmarkProgress {
    /// The norms of the first signatures.
    pub norms: Vec<BrainResult<Scalar>>,
    /// The first held-out skills.
    pub holdouts: Vec<HoldoutProgress>,
    pub means: Option<BenchmarkMeans>,
}

/// The model of a [`BenchmarkProgress`].
pub struct BenchmarkProgressModel {
    pub norms: Seq<Result<Scalar, ErrorView>>,
    pub holdouts: Seq<HoldoutModel>,
    pub means: Option<BenchmarkMeans>,
}

impl View for BenchmarkProgress {
    type V = BenchmarkProgressModel;

    open spec fn view(&self) -> BenchmarkProgressModel {
        BenchmarkProgressModel {
            norms: outcomes(self.norms@),
            holdouts: views(self.holdouts@),
            means: self.means,
        }
    }
}

/// What a benchmark needs next, or what it found.
#[derive(Debug)]
pub enum BenchmarkStep<'a> {
    Failed(BrainError),
    /// Take the norm of the signature of the next skill.
    MeasureCase(&'a Vec<Scalar>),
    /// Begin with the next held-out skill.
    BeginHoldout(usize),
    /// Go on with this held-out skill.
    Holdout(usize, HoldoutStep<'a>),
    /// Take the mean of each list.
    Average { recovered_gains: Vec<Scalar>, correct_wrong_advantages: Vec<Scalar> },
    Done(ReceiverPortabilityBenchmarkReport),
}

/// The model of a [`BenchmarkStep`].
pub enum BenchmarkStepModel {
    Failed(ErrorView),
    MeasureCase(Seq<Scalar>),
    BeginHoldout(int),
    Holdout(int, HoldoutStepModel),
    Average { recovered_gains: Seq<Scalar>, correct_wrong_advantages: Seq<Scalar> },
    Done(ReportModel),
}

impl<'a> View for BenchmarkStep<'a> {
    type V = BenchmarkStepModel;

    open spec fn view(&self) -> BenchmarkStepModel {
        match self {
            BenchmarkStep::Failed(error) => BenchmarkStepModel::Failed(error@),
            BenchmarkStep::MeasureCase(row) => BenchmarkStepModel::MeasureCase(row@),
            BenchmarkStep::BeginHoldout(holdout) => BenchmarkStepModel::BeginHoldout(
                *holdout as int,
            ),
            BenchmarkStep::Holdout(holdout, step) => BenchmarkStepModel::Holdout(
                *holdout as int,
                step@,
            ),
            BenchmarkStep::Average { recovered_gains, correct_wrong_advantages } =>
                BenchmarkStepModel::Average {
                    recovered_gains: recovered_gains@,
                    correct_wrong_advantages: correct_wrong_advantages@,
                },
            BenchmarkStep::Done(report) => BenchmarkStepModel::Done(report@),
        }
    }
}

/// Where the held-out skills stand.
pub enum HoldoutsModel {
    Failed(ErrorView),
    Begin(int),
    Pending(int, HoldoutStepModel),
    Reported(Seq<CaseReportModel>),
}

/// Where the first `n` held-out skills stand.
pub open spec fn holdouts_reported(
    input: BenchmarkModel,
    receiver_dimension: usize,
    holdouts: Seq<HoldoutModel>,
    n: int,
) -> HoldoutsModel
    decreases n,
{
    if n <= 0 {
        HoldoutsModel::Reported(Seq::empty())
    } else {
        match holdouts_reported(input, receiver_dimension, holdouts, n - 1) {
            HoldoutsModel::Reported(reports) => if n - 1 >= holdouts.len() {
                HoldoutsModel::Begin(n - 1)
            } else {
                match holdout_step(input, receiver_dimension, n - 1, holdouts[n - 1]) {
                    HoldoutStepModel::Failed(error) => HoldoutsModel::Failed(error),
                    HoldoutStepModel::Done(report) => HoldoutsModel::Reported(reports.push(report)),
                    step => HoldoutsModel::Pending(n - 1, step),
                }
            },
            stopped => stopped,
        }
    }
}

/// The least of the numbers, starting from infinity.
pub open spec fn least_of(numbers: Seq<Scalar>) -> Scalar
    decreases numbers.len(),
{
    if numbers.len() == 0 {
        Scalar { bits: INFINITY_BITS }
    } else {
        least_of(numbers.drop_last()).least(numbers.last())
    }
}

/// The recovered gains of the reports.
pub open spec fn recovered_gains(reports: Seq<CaseReportModel>) -> Seq<Scalar> {
    Seq::new(reports.len(), |i: int| reports[i].metrics.recovered_gain)
}

/// The advantages over the wrong skill in the reports.
pub open spec fn wrong_advantages(reports: Seq<CaseReportModel>) -> Seq<Scalar> {
    Seq::new(reports.len(), |i: int| reports[i].metrics.correct_wrong_advantage)
}

/// The report of a benchmark.
pub open spec fn report_of(
    functional_dimension: usize,
    receiver_dimension: usize,
    reports: Seq<CaseReportModel>,
    means: BenchmarkMeans,
) -> ReportModel {
    ReportModel {
        schema: "cerebro.tidex.receiver_portability_benchmark/v1"@,
        case_count: reports.len() as usize,
        functional_dimension,
        receiver_parameter_dimension: receiver_dimension,
        mean_recovered_gain: means.recovered_gain,
        minimum_recovered_gain: least_of(recovered_gains(reports)),
        mean_correct_wrong_advantage: means.correct_wrong_advantage,
        minimum_correct_wrong_advantage: least_of(wrong_advantages(reports)),
        all_resolved: forall|i: int| 0 <= i < reports.len() ==> (#[trigger] reports[i]).resolved,
        cases: reports,
    }
}

/// The next step of a benchmark.
pub open spec fn benchmark_step(
    input: BenchmarkModel,
    progress: BenchmarkProgressModel,
) -> BenchmarkStepModel {
    if input.schema != "cerebro.tidex.receiver_portability_benchmark_input/v1"@
        || !input.ridge.finite() || input.ridge.units() <= 0 || input.cases.len()
        < MINIMUM_CASES {
        BenchmarkStepModel::Failed(
            ErrorView::Invalid("receiver_portability_benchmark_input_invalid"@),
        )
    } else {
        let functional_dimension = input.cases[0].functional_signature.len() as usize;
        let receiver_dimension = input.cases[0].direct_receiver_solution.len() as usize;
        if functional_dimension == 0 || receiver_dimension == 0 {
            BenchmarkStepModel::Failed(
                ErrorView::Invalid("receiver_portability_benchmark_dimension_invalid"@),
            )
        } else {
            match cases_checked(
                input.cases,
                functional_dimension as int,
                receiver_dimension as int,
                progress.norms,
                input.cases.len() as int,
            ) {
                CheckModel::Failed(error) => BenchmarkStepModel::Failed(error),
                CheckModel::Measure(position) => BenchmarkStepModel::MeasureCase(
                    input.cases[position].functional_signature,
                ),
                CheckModel::Passed => match holdouts_reported(
                    input,
                    receiver_dimension,
                    progress.holdouts,
                    input.cases.len() as int,
                ) {
                    HoldoutsModel::Failed(error) => BenchmarkStepModel::Failed(error),
                    HoldoutsModel::Begin(holdout) => BenchmarkStepModel::BeginHoldout(holdout),
                    HoldoutsModel::Pending(holdout, step) => BenchmarkStepModel::Holdout(
                        holdout,
                        step,
                    ),
                    HoldoutsModel::Reported(reports) => match progress.means {
                        None => BenchmarkStepModel::Average {
                            recovered_gains: recovered_gains(reports),
                            correct_wrong_advantages: wrong_advantages(reports),
                        },
                        Some(means) => BenchmarkStepModel::Done(
                            report_of(functional_dimension, receiver_dimension, reports, means),
                        ),
                    },
                },
            }
        }
    }
}

/// The least of the numbers.
pub fn minimum_of(numbers: &Vec<Scalar>) -> (least: Scalar)
    ensures
        least == least_of(numbers@),
{
    let mut least = Scalar { bits: INFINITY_BITS };
    assert(numbers@.take(0) == Seq::<Scalar>::empty());
    for i in 0..numbers.len()
        invariant
            least == least_of(numbers@.take(i as int)),
    {
        assert(numbers@.take(i + 1).drop_last() == numbers@.take(i as int));
        least = least.min(numbers[i]);
    }
    assert(numbers@.take(numbers@.len() as int) == numbers@);
    least
}

proof fn lemma_stopped_holdouts_persist(
    input: BenchmarkModel,
    receiver_dimension: usize,
    holdouts: Seq<HoldoutModel>,
    n: int,
    all: int,
)
    requires
        0 <= n <= all,
        !(holdouts_reported(input, receiver_dimension, holdouts, n) is Reported),
    ensures
        holdouts_reported(input, receiver_dimension, holdouts, all) == holdouts_reported(
            input,
            receiver_dimension,
            holdouts,
            n,
        ),
    decreases all - n,
{
    if n < all {
        lemma_stopped_holdouts_persist(input, receiver_dimension, holdouts, n + 1, all);
    }
}

/// The gains and advantages of the reports.
fn collect_gains(reports: &Vec<ReceiverPortabilityCaseReport>) -> (lists: (
    Vec<Scalar>,
    Vec<Scalar>,
    bool,
))
    ensures
        lists.0@ == recovered_gains(views(reports@)),
        lists.1@ == wrong_advantages(views(reports@)),
        lists.2 == forall|i: int|
            0 <= i < reports@.len() ==> (#[trigger] views(reports@)[i]).resolved,
{
    let ghost models = views(reports@);
    let mut gains: Vec<Scalar> = Vec::new();
    let mut advantages: Vec<Scalar> = Vec::new();
    let mut resolved = true;
    for i in 0..reports.len()
        invariant
            models == views(reports@),
            gains@ == recovered_gains(models).take(i as int),
            advantages@ == wrong_advantages(models).take(i as int),
            resolved == forall|j: int| 0 <= j < i ==> (#[trigger] models[j]).resolved,
    {
        assert(models[i as int] == reports@[i as int]@);
        gains.push(reports[i].metrics.recovered_gain);
        advantages.push(reports[i].metrics.correct_wrong_advantage);
        resolved = resolved && reports[i].resolved;
        proof {
            take_one_more(recovered_gains(models), i as int);
            take_one_more(wrong_advantages(models), i as int);
        }
    }
    assert(recovered_gains(models).take(models.len() as int) == recovered_gains(models));
    assert(wrong_advantages(models).take(models.len() as int) == wrong_advantages(models));
    (gains, advantages, resolved)
}

fn after_check<'a>(
    input: &'a ReceiverPortabilityBenchmarkInput,
    progress: &'a BenchmarkProgress,
    functional_dimension: usize,
    receiver_dimension: usize,
) -> (step: BenchmarkStep<'a>)
    requires
        input.cases@.len() >= MINIMUM_CASES,
    ensures
        step@ == (match holdouts_reported(
            input@,
            receiver_dimension,
            progress@.holdouts,
            input@.cases.len() as int,
        ) {
            HoldoutsModel::Failed(error) => BenchmarkStepModel::Failed(error),
            HoldoutsModel::Begin(holdout) => BenchmarkStepModel::BeginHoldout(holdout),
            HoldoutsModel::Pending(holdout, step) => BenchmarkStepModel::Holdout(holdout, step),
            HoldoutsModel::Reported(reports) => match progress@.means {
                None => BenchmarkStepModel::Average {
                    recovered_gains: recovered_gains(reports),
                    correct_wrong_advantages: wrong_advantages(reports),
                },
                Some(means) => BenchmarkStepModel::Done(
                    report_of(functional_dimension, receiver_dimension, reports, means),
                ),
            },
        }),
{
    let ghost models = progress@.holdouts;
    let ghost all = input@.cases.len() as int;
    let mut reports: Vec<ReceiverPortabilityCaseReport> = Vec::new();
    assert(views(reports@) =~= Seq::empty());
    for holdout in 0..input.cases.len()
        invariant
            input.cases@.len() >= MINIMUM_CASES,
            models == views(progress.holdouts@),
            models == progress@.holdouts,
            all == input@.cases.len(),
            holdouts_reported(input@, receiver_dimension, models, holdout as int) == (
            HoldoutsModel::Reported(views(reports@))),
    {
        proof {
            if !(holdouts_reported(input@, receiver_dimension, models, holdout + 1) is Reported) {
                lemma_stopped_holdouts_persist(
                    input@,
                    receiver_dimension,
                    models,
                    holdout + 1,
                    all,
                );
            }
        }
        if holdout >= progress.holdouts.len() {
            return BenchmarkStep::BeginHoldout(holdout);
        }
        assert(models[holdout as int] == progress.holdouts@[holdout as int]@);
        match hold_out(input, receiver_dimension, holdout, &progress.holdouts[holdout]) {
            HoldoutStep::Failed(error) => {
                return BenchmarkStep::Failed(error);
            },
            HoldoutStep::Done(report) => {
                reports.push(report);
            },
            step => {
                return BenchmarkStep::Holdout(holdout, step);
            },
        }
    }
    let (gains, advantages, all_resolved) = collect_gains(&reports);
    match progress.means {
        None => BenchmarkStep::Average {
            recovered_gains: gains,
            correct_wrong_advantages: advantages,
        },
        Some(means) => BenchmarkStep::Done(
            ReceiverPortabilityBenchmarkReport {
                schema: "cerebro.tidex.receiver_portability_benchmark/v1".to_owned(),
                case_count: reports.len(),
                functional_dimension,
                receiver_parameter_dimension: receiver_dimension,
                mean_recovered_gain: means.recovered_gain,
                minimum_recovered_gain: minimum_of(&gains),
                mean_correct_wrong_advantage: means.correct_wrong_advantage,
                minimum_correct_wrong_advantage: minimum_of(&advantages),
                all_resolved,
                cases: reports,
            },
        ),
    }
}

/// Decides what the leave-one-skill-out benchmark needs next, or reports what it
/// found.
///
/// The benchmark measures held-out recovery within the given skills; it says
/// nothing about other skills or other models.
pub fn benchmark_receiver_portability_leave_one_out<'a>(
    input: &'a ReceiverPortabilityBenchmarkInput,
    progress: &'a BenchmarkProgress,
) -> (step: BenchmarkStep<'a>)
    ensures
        step@ == benchmark_step(input@, progress@),
{
    if !text_eq(
        input.schema.as_str(),
        "cerebro.tidex.receiver_portability_benchmark_input/v1",
    ) || !input.ridge.is_finite() || !input.ridge.is_positive() || input.cases.len()
        < MINIMUM_CASES {
        return BenchmarkStep::Failed(
            BrainError::invalid("receiver_portability_benchmark_input_invalid"),
        );
    }
    assert(input@.cases[0] == input.cases@[0]@);
    let functional_dimension: usize = input.cases[0].functional_signature.len();
    let receiver_dimension: usize = input.cases[0].direct_receiver_solution.len();
    if functional_dimension == 0 || receiver_dimension == 0 {
        return BenchmarkStep::Failed(
            BrainError::invalid("receiver_portability_benchmark_dimension_invalid"),
        );
    }
    match check_cases(&input.cases, functional_dimension, receiver_dimension, &progress.norms) {
        Check::Failed(error) => BenchmarkStep::Failed(error),
        Check::Measure(position) => {
            proof {
                lemma_check_position(
                    input@.cases,
                    functional_dimension as int,
                    receiver_dimension as int,
                    progress@.norms,
                    input@.cases.len() as int,
                );
                assert(input@.cases[position as int] == input.cases@[position as int]@);
            }
            BenchmarkStep::MeasureCase(&input.cases[position].functional_signature)
        },
        Check::Passed => after_check(input, progress, functional_dimension, receiver_dimension),
    }
}

proof fn lemma_check_position(
    cases: Seq<CaseModel>,
    functional_dimension: int,
    receiver_dimension: int,
    norms: Seq<Result<Scalar, ErrorView>>,
    n: int,
)
    requires
        0 <= n <= cases.len(),
    ensures
        cases_checked(cases, functional_dimension, receiver_dimension, norms, n) matches
            CheckModel::Measure(position) ==> 0 <= position < n,
    decreases n,
{
    if n > 0 {
        lemma_check_position(cases, functional_dimension, receiver_dimension, norms, n - 1);
    }
}

/// The reported minimum bounds the gain of every held-out skill from below.
pub proof fn least_bounds_every_number(numbers: Seq<Scalar>, i: int)
    requires
        0 <= i < numbers.len(),
    ensures
        !least_of(numbers).nan(),
        !numbers[i].less(least_of(numbers)),
    decreases numbers.len(),
{
    lemma_least_is_a_number(numbers.drop_last());
    if i < numbers.len() - 1 {
        least_bounds_every_number(numbers.drop_last(), i);
    }
}

proof fn lemma_least_is_a_number(numbers: Seq<Scalar>)
    ensures
        !least_of(numbers).nan(),
    decreases numbers.len(),
{
    if numbers.len() > 0 {
        lemma_least_is_a_number(numbers.drop_last());
    }
}

proof fn lemma_reports_follow_cases(
    input: BenchmarkModel,
    receiver_dimension: usize,
    holdouts: Seq<HoldoutModel>,
    n: int,
)
    requires
        0 <= n,
        holdouts_reported(input, receiver_dimension, holdouts, n) is Reported,
    ensures
        ({
            let reports = holdouts_reported(input, receiver_dimension, holdouts, n)->Reported_0;
            &&& reports.len() == n
            &&& n <= holdouts.len()
            &&& forall|i: int|
                0 <= i < n ==> holdout_step(input, receiver_dimension, i, holdouts[i])
                    == HoldoutStepModel::Done(#[trigger] reports[i])
        }),
    decreases n,
{
    if n > 0 {
        lemma_reports_follow_cases(input, receiver_dimension, holdouts, n - 1);
    }
}

/// A benchmark reports on every skill once, in the order of the skills, with the
/// solutions that the decoder gave for it and for the wrong skill.
pub proof fn benchmark_reports_every_skill_once(
    input: BenchmarkModel,
    progress: BenchmarkProgressModel,
)
    requires
        benchmark_step(input, progress) is Done,
    ensures
        ({
            let report = benchmark_step(input, progress)->Done_0;
            &&& report.cases.len() == input.cases.len()
            &&& forall|i: int|
                0 <= i < input.cases.len() ==> {
                    &&& (#[trigger] report.cases[i]).skill_id == input.cases[i].skill_id
                    &&& progress.holdouts[i].transferred_delta == Some(
                        Ok::<_, ErrorView>(report.cases[i].compiled_receiver_solution),
                    )
                    &&& progress.holdouts[i].wrong_delta == Some(
                        Ok::<_, ErrorView>(report.cases[i].wrong_receiver_solution),
                    )
                }
        }),
{
    let receiver_dimension = input.cases[0].direct_receiver_solution.len() as usize;
    lemma_reports_follow_cases(
        input,
        receiver_dimension,
        progress.holdouts,
        input.cases.len() as int,
    );
}

/// What a map is learned from.
pub struct TrainingModel {
    pub from: Seq<Seq<Scalar>>,
    pub to: Seq<Seq<Scalar>>,
    pub ridge: Scalar,
}

/// An engine that learns maps and applies them: what it answers depends on what it
/// is asked and on nothing else.
pub struct MapEngine {
    pub learn_decoder: spec_fn(TrainingModel) -> Result<LearnedMap, ErrorView>,
    pub learn_encoder: spec_fn(TrainingModel) -> Result<LearnedMap, ErrorView>,
    /// A vector sent through the decoder that was learned from the given rows.
    pub decode: spec_fn(TrainingModel, Seq<Scalar>) -> Result<Seq<Scalar>, ErrorView>,
}

impl MapEngine {
    /// The maps of a held-out skill, and what was sent through its decoder, are the
    /// answers of this engine.
    pub open spec fn answered(
        self,
        input: BenchmarkModel,
        holdout: int,
        progress: HoldoutModel,
    ) -> bool {
        let cases = input.cases;
        let forth = TrainingModel {
            from: training_signatures(cases, holdout),
            to: training_solutions(cases, holdout),
            ridge: input.ridge,
        };
        let back = TrainingModel { from: forth.to, to: forth.from, ridge: input.ridge };
        &&& progress.decoder == Some((self.learn_decoder)(forth))
        &&& progress.encoder == Some((self.learn_encoder)(back))
        &&& progress.transferred_delta == Some(
            (self.decode)(forth, cases[holdout].functional_signature),
        )
        &&& progress.wrong_delta == Some(
            (self.decode)(forth, cases[wrong_skill(holdout)].functional_signature),
        )
    }
}

/// The input with another direct solution for one skill.
pub open spec fn with_solution(input: BenchmarkModel, i: int, solution: Seq<Scalar>) -> BenchmarkModel {
    BenchmarkModel {
        cases: input.cases.update(
            i,
            CaseModel { direct_receiver_solution: solution, ..input.cases[i] },
        ),
        ..input
    }
}

/// The direct solution of a skill never reaches what is learned or compiled for
/// it. Take two finished benchmarks on the same engine whose inputs differ in
/// nothing but the direct solution of one skill: for that skill both report the
/// same compiled solution, the same wrong solution, and the same quality of the two
/// maps. Only its metrics may differ.
pub proof fn held_out_solution_changes_metrics_only(
    engine: MapEngine,
    input: BenchmarkModel,
    i: int,
    solution: Seq<Scalar>,
    progress: BenchmarkProgressModel,
    other: BenchmarkProgressModel,
)
    requires
        0 <= i < input.cases.len(),
        benchmark_step(input, progress) is Done,
        benchmark_step(with_solution(input, i, solution), other) is Done,
        engine.answered(input, i, progress.holdouts[i]),
        engine.answered(with_solution(input, i, solution), i, other.holdouts[i]),
    ensures
        ({
            let a = benchmark_step(input, progress)->Done_0.cases[i];
            let b = benchmark_step(with_solution(input, i, solution), other)->Done_0.cases[i];
            &&& a.skill_id == b.skill_id
            &&& a.compiled_receiver_solution == b.compiled_receiver_solution
            &&& a.wrong_receiver_solution == b.wrong_receiver_solution
            &&& a.decoder_loo_r2 == b.decoder_loo_r2
            &&& a.encoder_loo_r2 == b.encoder_loo_r2
            &&& a.decoder_min_loo_cosine == b.decoder_min_loo_cosine
            &&& a.encoder_min_loo_cosine == b.encoder_min_loo_cosine
            &&& a.resolved == b.resolved
        }),
{
    let changed = with_solution(input, i, solution);
    let n = input.cases.len() as int;
    assert(training_signatures(changed.cases, i) =~= training_signatures(input.cases, i));
    assert(training_solutions(changed.cases, i) =~= training_solutions(input.cases, i));
    wrong_skill_is_another_one(i);
    assert(changed.cases[wrong_skill(i)] == input.cases[wrong_skill(i)]);
    lemma_reports_follow_cases(
        input,
        input.cases[0].direct_receiver_solution.len() as usize,
        progress.holdouts,
        n,
    );
    lemma_reports_follow_cases(
        changed,
        changed.cases[0].direct_receiver_solution.len() as usize,
        other.holdouts,
        n,
    );
    let a = benchmark_step(input, progress)->Done_0.cases[i];
    let b = benchmark_step(changed, other)->Done_0.cases[i];
    assert(a.compiled_receiver_solution == progress.holdouts[i].transferred_delta->0->Ok_0);
    assert(b.compiled_receiver_solution == other.holdouts[i].transferred_delta->0->Ok_0);
}

/// Whether a behaviour has the given number of entries, all of them finite.
pub open spec fn finite_behaviour(row: Seq<Scalar>, length: nat) -> bool {
    row.len() == length && forall|i: int| 0 <= i < row.len() ==> (#[trigger] row[i]).finite()
}

/// Whether five behaviours can be compared: they have one positive length and only
/// finite entries.
pub open spec fn comparable(behaviours: BehavioursModel) -> bool {
    let length = behaviours.expected.len();
    &&& length > 0
    &&& finite_behaviour(behaviours.expected, length)
    &&& finite_behaviour(behaviours.virgin, length)
    &&& finite_behaviour(behaviours.direct, length)
    &&& finite_behaviour(behaviours.transferred, length)
    &&& finite_behaviour(behaviours.wrong, length)
}

/// An evaluation scores the five behaviours that it was given, each in its own
/// place: the wrong score is that of the wrong behaviour, and none of the others is
/// scored for it. It scores them exactly when they can be compared and the expected
/// one has a direction.
pub proof fn every_behaviour_is_scored_in_its_place(
    behaviours: BehavioursModel,
    progress: PortabilityProgressModel,
)
    ensures
        portability_step(behaviours, progress) matches PortabilityStepModel::MeasureExpected(row)
            ==> row == behaviours.expected && progress.expected_norm is None,
        portability_step(behaviours, progress) matches PortabilityStepModel::Score(scored) ==> {
            &&& scored.expected == behaviours.expected
            &&& scored.virgin == behaviours.virgin
            &&& scored.direct == behaviours.direct
            &&& scored.transferred == behaviours.transferred
            &&& scored.wrong == behaviours.wrong
        },
        portability_step(behaviours, progress) is Score <==> {
            &&& comparable(behaviours)
            &&& progress.expected_norm is Some && progress.expected_norm->0 is Ok
            &&& !progress.expected_norm->0->Ok_0.at_most(Scalar { bits: 0x3CD2_03AF_9EE7_5616 })
            &&& progress.scores is None
        },
        portability_step(behaviours, progress) is Done ==> comparable(behaviours),
{
}

/// What is computed from the scores is computed from the right ones: the gain of
/// the oracle is what it has over the untouched receiver, the recovered gain is
/// that of the compiled result over the same, and the advantage is over the wrong
/// skill. The metrics repeat the scores under their names.
pub proof fn every_score_is_used_under_its_name(
    behaviours: BehavioursModel,
    progress: PortabilityProgressModel,
)
    ensures
        ({
            let step = portability_step(behaviours, progress);
            let scores = progress.scores->0;
            &&& step matches PortabilityStepModel::Subtract(a, b) ==> progress.scores is Some
                && scores.direct == Ok::<_, ErrorView>(a) && scores.virgin == Ok::<_, ErrorView>(b)
            &&& step matches PortabilityStepModel::Recover {
                transferred,
                virgin,
                direct_gain,
                wrong,
            } ==> progress.scores is Some && scores.transferred == Ok::<_, ErrorView>(transferred)
                && scores.virgin == Ok::<_, ErrorView>(virgin) && scores.wrong == Ok::<
                _,
                ErrorView,
            >(wrong) && progress.direct_gain == Some(direct_gain)
            &&& step matches PortabilityStepModel::Done(metrics) ==> {
                &&& metrics.schema == "cerebro.tidex.receiver_portability_metrics/v1"@
                &&& progress.scores is Some && scores.virgin == Ok::<_, ErrorView>(
                    metrics.virgin_score,
                )
                &&& scores.direct == Ok::<_, ErrorView>(metrics.direct_score)
                &&& scores.transferred == Ok::<_, ErrorView>(metrics.transferred_score)
                &&& scores.wrong == Ok::<_, ErrorView>(metrics.wrong_score)
                &&& progress.gains == Some(
                    PortabilityGains {
                        recovered_gain: metrics.recovered_gain,
                        correct_wrong_advantage: metrics.correct_wrong_advantage,
                    },
                )
            }
        }),
{
}

/// An evaluation fails for the reasons it states: behaviours that cannot be
/// compared, an oracle without a gain above ten to the power of minus twelve, or
/// the first norm or score that could not be taken. Otherwise it ends with metrics
/// as soon as everything was computed.
pub proof fn evaluations_fail_for_the_reasons_they_state(
    behaviours: BehavioursModel,
    progress: PortabilityProgressModel,
)
    ensures
        ({
            let step = portability_step(behaviours, progress);
            let scores = progress.scores->0;
            let expected = finite_behaviour(behaviours.expected, behaviours.expected.len())
                && behaviours.expected.len() > 0;
            let compared = {
                &&& comparable(behaviours)
                &&& progress.expected_norm is Some && progress.expected_norm->0 is Ok
                &&& !progress.expected_norm->0->Ok_0.at_most(
                    Scalar { bits: 0x3CD2_03AF_9EE7_5616 },
                )
            };
            let scored = compared && progress.scores is Some;
            let measured = scored && scores.virgin is Ok && scores.direct is Ok
                && scores.transferred is Ok && scores.wrong is Ok;
            let gained = measured && progress.direct_gain is Some
                && !progress.direct_gain->0.at_most(Scalar { bits: 0x3D71_9799_812D_EA11 });
            &&& !expected || (progress.expected_norm is Some && progress.expected_norm->0 is Ok
                && !compared) ==> step == PortabilityStepModel::Failed(
                ErrorView::Invalid("receiver_portability_signature_invalid"@),
            )
            &&& expected && progress.expected_norm is Some && progress.expected_norm->0 is Err
                ==> step == PortabilityStepModel::Failed(progress.expected_norm->0->Err_0)
            &&& scored && scores.virgin is Err ==> step == PortabilityStepModel::Failed(
                scores.virgin->Err_0,
            )
            &&& scored && scores.virgin is Ok && scores.direct is Err ==> step
                == PortabilityStepModel::Failed(scores.direct->Err_0)
            &&& scored && scores.virgin is Ok && scores.direct is Ok && scores.transferred is Err
                ==> step == PortabilityStepModel::Failed(scores.transferred->Err_0)
            &&& scored && scores.virgin is Ok && scores.direct is Ok && scores.transferred is Ok
                && scores.wrong is Err ==> step == PortabilityStepModel::Failed(
                scores.wrong->Err_0,
            )
            &&& measured && progress.direct_gain is Some && !gained ==> step
                == PortabilityStepModel::Failed(
                ErrorView::Invalid("receiver_portability_direct_oracle_has_no_gain"@),
            )
            &&& measured && progress.direct_gain is None ==> step is Subtract
            &&& gained && progress.gains is None ==> step is Recover
            &&& gained && progress.gains is Some <==> step is Done
        }),
{
}

/// The maps of a held-out skill are learned on every other skill and on no part of
/// the skill itself: row by row the signatures and the solutions of the others, in
/// their order, the decoder from the first to the second and the encoder back.
pub proof fn held_out_maps_are_learned_on_the_others(
    input: BenchmarkModel,
    receiver_dimension: usize,
    holdout: int,
    progress: HoldoutModel,
)
    requires
        0 <= holdout < input.cases.len(),
    ensures
        ({
            let step = holdout_step(input, receiver_dimension, holdout, progress);
            let (signatures, solutions, ridge) = match step {
                HoldoutStepModel::LearnDecoder { from, to, ridge } => (from, to, ridge),
                HoldoutStepModel::LearnEncoder { from, to, ridge } => (to, from, ridge),
                _ => (Seq::empty(), Seq::empty(), input.ridge),
            };
            step is LearnDecoder || step is LearnEncoder ==> {
                &&& ridge == input.ridge
                &&& signatures.len() + 1 == input.cases.len()
                &&& solutions.len() + 1 == input.cases.len()
                &&& forall|i: int|
                    0 <= i < holdout ==> #[trigger] signatures[i]
                        == input.cases[i].functional_signature && solutions[i]
                        == input.cases[i].direct_receiver_solution
                &&& forall|i: int|
                    holdout <= i < signatures.len() ==> #[trigger] signatures[i]
                        == input.cases[i + 1].functional_signature && solutions[i]
                        == input.cases[i + 1].direct_receiver_solution
            }
        }),
{
}

/// A held-out skill is compiled from its own signature and compared with its own
/// solution, with an untouched receiver of the right dimension, and with the first
/// other skill; every vector that is applied is the one that the decoder gave.
pub proof fn held_out_skills_are_compared_with_their_own_solution(
    input: BenchmarkModel,
    receiver_dimension: usize,
    holdout: int,
    progress: HoldoutModel,
)
    requires
        0 <= holdout < input.cases.len(),
        input.cases.len() >= 2,
    ensures
        ({
            let step = holdout_step(input, receiver_dimension, holdout, progress);
            let other = if holdout == 0 {
                1int
            } else {
                0
            };
            &&& step matches HoldoutStepModel::Transplant(row) ==> row
                == input.cases[holdout].functional_signature
            &&& step matches HoldoutStepModel::ApplyTransferred(row) ==> progress.transferred_delta
                == Some(Ok::<_, ErrorView>(row))
            &&& step matches HoldoutStepModel::ApplyDirect(row) ==> row
                == input.cases[holdout].direct_receiver_solution
            &&& step matches HoldoutStepModel::ApplyVirgin(dimension) ==> dimension
                == receiver_dimension
            &&& step matches HoldoutStepModel::TransplantWrong(row) ==> row
                == input.cases[other].functional_signature
            &&& step matches HoldoutStepModel::ApplyWrong(row) ==> progress.wrong_delta == Some(
                Ok::<_, ErrorView>(row),
            )
            &&& step is Compare || step is Done ==> {
                &&& progress.virgin_behavior is Some && progress.virgin_behavior->0 is Ok
                &&& progress.direct_behavior is Some && progress.direct_behavior->0 is Ok
                &&& progress.transferred_behavior is Some && progress.transferred_behavior->0 is Ok
                &&& progress.wrong_behavior is Some && progress.wrong_behavior->0 is Ok
            }
            &&& step matches HoldoutStepModel::Compare(PortabilityStepModel::MeasureExpected(row))
                ==> row == input.cases[holdout].functional_signature
            &&& step matches HoldoutStepModel::Compare(PortabilityStepModel::Score(scored)) ==> {
                &&& scored.expected == input.cases[holdout].functional_signature
                &&& progress.virgin_behavior == Some(Ok::<_, ErrorView>(scored.virgin))
                &&& progress.direct_behavior == Some(Ok::<_, ErrorView>(scored.direct))
                &&& progress.transferred_behavior == Some(Ok::<_, ErrorView>(scored.transferred))
                &&& progress.wrong_behavior == Some(Ok::<_, ErrorView>(scored.wrong))
            }
            &&& step matches HoldoutStepModel::Compare(inner) ==> !(inner is Done)
                && !(inner is Failed)
        }),
{
}

/// The report on a held-out skill repeats what was learned and measured for it, and
/// calls it resolved exactly when both of its maps are.
pub proof fn case_reports_repeat_what_was_measured(
    input: BenchmarkModel,
    receiver_dimension: usize,
    holdout: int,
    progress: HoldoutModel,
)
    requires
        0 <= holdout < input.cases.len(),
        holdout_step(input, receiver_dimension, holdout, progress) is Done,
    ensures
        ({
            let report = holdout_step(input, receiver_dimension, holdout, progress)->Done_0;
            let decoder = progress.decoder->0->Ok_0;
            let encoder = progress.encoder->0->Ok_0;
            let scores = progress.portability.scores->0;
            &&& progress.decoder is Some && progress.decoder->0 is Ok
            &&& progress.encoder is Some && progress.encoder->0 is Ok
            &&& report.skill_id == input.cases[holdout].skill_id
            &&& report.decoder_loo_r2 == decoder.loo_cv_r2
            &&& report.encoder_loo_r2 == encoder.loo_cv_r2
            &&& report.decoder_min_loo_cosine == decoder.min_loo_cosine
            &&& report.encoder_min_loo_cosine == encoder.min_loo_cosine
            &&& progress.transferred_delta == Some(
                Ok::<_, ErrorView>(report.compiled_receiver_solution),
            )
            &&& progress.wrong_delta == Some(Ok::<_, ErrorView>(report.wrong_receiver_solution))
            &&& report.resolved <==> decoder.resolved && encoder.resolved
            &&& progress.portability.scores is Some
            &&& scores.virgin == Ok::<_, ErrorView>(report.metrics.virgin_score)
            &&& scores.direct == Ok::<_, ErrorView>(report.metrics.direct_score)
            &&& scores.transferred == Ok::<_, ErrorView>(report.metrics.transferred_score)
            &&& scores.wrong == Ok::<_, ErrorView>(report.metrics.wrong_score)
            &&& progress.portability.gains == Some(
                PortabilityGains {
                    recovered_gain: report.metrics.recovered_gain,
                    correct_wrong_advantage: report.metrics.correct_wrong_advantage,
                },
            )
        }),
{
}

/// A number that is not above any of the given ones, and that is one of them or,
/// where none of them is a number below it, positive infinity.
pub open spec fn is_least_of(numbers: Seq<Scalar>, least: Scalar) -> bool {
    &&& !least.nan()
    &&& forall|i: int|
        0 <= i < numbers.len() ==> (#[trigger] numbers[i]).nan() || least.units()
            <= numbers[i].units()
    &&& least.bits == 0x7FF0_0000_0000_0000 || numbers.contains(least)
}

proof fn lemma_least_of_is_least(numbers: Seq<Scalar>)
    ensures
        is_least_of(numbers, least_of(numbers)),
    decreases numbers.len(),
{
    let least = least_of(numbers);
    lemma_least_is_a_number(numbers);
    assert forall|i: int| 0 <= i < numbers.len() implies (#[trigger] numbers[i]).nan()
        || least.units() <= numbers[i].units() by {
        least_bounds_every_number(numbers, i);
    }
    if numbers.len() > 0 {
        let front = numbers.drop_last();
        lemma_least_of_is_least(front);
        if least == numbers.last() {
            assert(numbers[numbers.len() - 1] == least);
        } else if least.bits != 0x7FF0_0000_0000_0000 {
            let k = choose|k: int| 0 <= k < front.len() && front[k] == least;
            assert(numbers[k] == least);
        }
    }
}

/// The report of a benchmark sums up its cases: their number, the dimensions of the
/// skills, the means that were taken of their gains and advantages, the least gain
/// and the least advantage, and whether every one of them is resolved.
pub proof fn benchmark_reports_sum_up_their_cases(
    input: BenchmarkModel,
    progress: BenchmarkProgressModel,
)
    requires
        input.cases.len() <= usize::MAX,
        input.cases[0].functional_signature.len() <= usize::MAX,
        input.cases[0].direct_receiver_solution.len() <= usize::MAX,
    ensures
        ({
            let step = benchmark_step(input, progress);
            &&& step matches BenchmarkStepModel::Done(report) ==> {
                let gains = Seq::new(
                    report.cases.len(),
                    |i: int| report.cases[i].metrics.recovered_gain,
                );
                let advantages = Seq::new(
                    report.cases.len(),
                    |i: int| report.cases[i].metrics.correct_wrong_advantage,
                );
                &&& report.schema == "cerebro.tidex.receiver_portability_benchmark/v1"@
                &&& report.case_count == input.cases.len()
                &&& report.cases.len() == input.cases.len()
                &&& report.functional_dimension == input.cases[0].functional_signature.len()
                &&& report.receiver_parameter_dimension
                    == input.cases[0].direct_receiver_solution.len()
                &&& progress.means == Some(
                    BenchmarkMeans {
                        recovered_gain: report.mean_recovered_gain,
                        correct_wrong_advantage: report.mean_correct_wrong_advantage,
                    },
                )
                &&& is_least_of(gains, report.minimum_recovered_gain)
                &&& is_least_of(advantages, report.minimum_correct_wrong_advantage)
                &&& report.all_resolved <==> forall|i: int|
                    0 <= i < report.cases.len() ==> (#[trigger] report.cases[i]).resolved
                &&& forall|i: int|
                    0 <= i < input.cases.len() ==> holdout_step(
                        input,
                        report.receiver_parameter_dimension,
                        i,
                        progress.holdouts[i],
                    ) == HoldoutStepModel::Done(#[trigger] report.cases[i])
            }
            &&& step matches BenchmarkStepModel::Average {
                recovered_gains,
                correct_wrong_advantages,
            } ==> {
                &&& recovered_gains.len() == input.cases.len()
                &&& correct_wrong_advantages.len() == input.cases.len()
                &&& forall|i: int|
                    0 <= i < input.cases.len() ==> progress.holdouts[i].portability.gains == Some(
                        PortabilityGains {
                            recovered_gain: #[trigger] recovered_gains[i],
                            correct_wrong_advantage: correct_wrong_advantages[i],
                        },
                    )
            }
        }),
{
    let dimension = input.cases[0].direct_receiver_solution.len() as usize;
    let step = benchmark_step(input, progress);
    if step is Done || step is Average {
        let n = input.cases.len() as int;
        lemma_reports_follow_cases(input, dimension, progress.holdouts, n);
        let reports = holdouts_reported(input, dimension, progress.holdouts, n)->Reported_0;
        lemma_least_of_is_least(recovered_gains(reports));
        lemma_least_of_is_least(wrong_advantages(reports));
        assert forall|i: int| 0 <= i < n implies progress.holdouts[i].portability.gains == Some(
            PortabilityGains {
                recovered_gain: (#[trigger] reports[i]).metrics.recovered_gain,
                correct_wrong_advantage: reports[i].metrics.correct_wrong_advantage,
            },
        ) by {
            assert(holdout_step(input, dimension, i, progress.holdouts[i])
                == HoldoutStepModel::Done(reports[i]));
            case_reports_repeat_what_was_measured(input, dimension, i, progress.holdouts[i]);
        }
        if step is Done {
            let report = step->Done_0;
            assert(Seq::new(
                report.cases.len(),
                |i: int| report.cases[i].metrics.recovered_gain,
            ) =~= recovered_gains(reports));
            assert(Seq::new(
                report.cases.len(),
                |i: int| report.cases[i].metrics.correct_wrong_advantage,
            ) =~= wrong_advantages(reports));
        } else {
            assert forall|i: int| 0 <= i < n implies progress.holdouts[i].portability.gains
                == Some(
                PortabilityGains {
                    recovered_gain: #[trigger] step->Average_recovered_gains[i],
                    correct_wrong_advantage: step->Average_correct_wrong_advantages[i],
                },
            ) by {
                assert(reports[i].metrics.recovered_gain == step->Average_recovered_gains[i]);
            }
        }
    }
}

/// Whether the skills of a benchmark can be held out against each other: there are
/// at least six, each has a name of its own of at most 256 bytes, and their
/// signatures and their solutions each have one positive length and finite entries.
pub open spec fn sound_benchmark(input: BenchmarkModel) -> bool {
    let signature = input.cases[0].functional_signature.len();
    let solution = input.cases[0].direct_receiver_solution.len();
    &&& input.schema == "cerebro.tidex.receiver_portability_benchmark_input/v1"@
    &&& input.ridge.finite() && input.ridge.units() > 0
    &&& input.cases.len() >= 6
    &&& signature > 0 && solution > 0
    &&& forall|i: int|
        0 <= i < input.cases.len() ==> {
            &&& 0 < (#[trigger] input.cases[i]).skill_id.len()
            &&& vstd::utf8::encode_utf8(input.cases[i].skill_id).len() <= 256
            &&& finite_behaviour(input.cases[i].functional_signature, signature)
            &&& finite_behaviour(input.cases[i].direct_receiver_solution, solution)
        }
    &&& forall|i: int, j: int|
        0 <= i < j < input.cases.len() ==> (#[trigger] input.cases[i]).skill_id != (
        #[trigger] input.cases[j]).skill_id
}

proof fn lemma_checked_cases_are_sound(
    cases: Seq<CaseModel>,
    functional_dimension: int,
    receiver_dimension: int,
    norms: Seq<Result<Scalar, ErrorView>>,
    n: int,
)
    requires
        0 <= n,
    ensures
        cases_checked(cases, functional_dimension, receiver_dimension, norms, n) is Passed <==> {
            &&& n <= norms.len()
            &&& forall|i: int|
                0 <= i < n ==> #[trigger] case_regular(
                    cases,
                    i,
                    functional_dimension,
                    receiver_dimension,
                )
            &&& forall|i: int|
                0 <= i < n ==> (#[trigger] norms[i]) is Ok && !norms[i]->Ok_0.at_most(
                    Scalar { bits: 0x3CD2_03AF_9EE7_5616 },
                )
        },
        cases_checked(cases, functional_dimension, receiver_dimension, norms, n) matches
            CheckModel::Measure(at) ==> at == norms.len() && at < n,
        (forall|i: int|
            0 <= i < n ==> #[trigger] case_regular(
                cases,
                i,
                functional_dimension,
                receiver_dimension,
            )) && (forall|i: int|
            0 <= i < n && i < norms.len() ==> (#[trigger] norms[i]) is Ok && !norms[i]->Ok_0.at_most(
                Scalar { bits: 0x3CD2_03AF_9EE7_5616 },
            )) && norms.len() < n ==> cases_checked(
            cases,
            functional_dimension,
            receiver_dimension,
            norms,
            n,
        ) == CheckModel::Measure(norms.len() as int),
    decreases n,
{
    if n > 0 {
        lemma_checked_cases_are_sound(cases, functional_dimension, receiver_dimension, norms, n - 1);
    }
}

/// Only skills that can be held out against each other are benchmarked, and such
/// skills are never refused: their norms are asked for one by one in their order,
/// and once every norm shows a direction the first skill is held out.
pub proof fn only_sound_benchmarks_are_run(input: BenchmarkModel, progress: BenchmarkProgressModel)
    requires
        input.cases[0].functional_signature.len() <= usize::MAX,
        input.cases[0].direct_receiver_solution.len() <= usize::MAX,
    ensures
        ({
            let step = benchmark_step(input, progress);
            let directed = forall|i: int|
                0 <= i < progress.norms.len() && i < input.cases.len() ==> (
                #[trigger] progress.norms[i]) is Ok && !progress.norms[i]->Ok_0.at_most(
                    Scalar { bits: 0x3CD2_03AF_9EE7_5616 },
                );
            &&& step is BeginHoldout || step is Holdout || step is Average || step is Done
                ==> sound_benchmark(input) && progress.norms.len() >= input.cases.len() && directed
            &&& sound_benchmark(input) && directed && progress.norms.len() < input.cases.len()
                ==> step == BenchmarkStepModel::MeasureCase(
                input.cases[progress.norms.len() as int].functional_signature,
            )
            &&& sound_benchmark(input) && directed && progress.norms.len() >= input.cases.len()
                && progress.holdouts.len() == 0 ==> step == BenchmarkStepModel::BeginHoldout(0)
            &&& step matches BenchmarkStepModel::MeasureCase(row) ==> progress.norms.len()
                < input.cases.len() && row
                == input.cases[progress.norms.len() as int].functional_signature
        }),
{
    let cases = input.cases;
    let a = cases[0].functional_signature.len() as int;
    let b = cases[0].direct_receiver_solution.len() as int;
    let n = cases.len() as int;
    lemma_checked_cases_are_sound(cases, a, b, progress.norms, n);
    if sound_benchmark(input) {
        assert forall|i: int| 0 <= i < n implies #[trigger] case_regular(cases, i, a, b) by {
            assert(cases[i].skill_id.len() > 0);
            assert forall|j: int| 0 <= j < i implies (#[trigger] cases[j]).skill_id
                != cases[i].skill_id by {}
        }
        if progress.holdouts.len() == 0 {
            lemma_nothing_held_out(input, b as usize, progress.holdouts, n);
        }
    }
    if cases_checked(cases, a, b, progress.norms, n) is Passed {
        assert forall|i: int| 0 <= i < n implies {
            &&& 0 < (#[trigger] cases[i]).skill_id.len()
            &&& vstd::utf8::encode_utf8(cases[i].skill_id).len() <= 256
            &&& finite_behaviour(cases[i].functional_signature, a as nat)
            &&& finite_behaviour(cases[i].direct_receiver_solution, b as nat)
        } by {
            assert(case_regular(cases, i, a, b));
        }
        assert forall|i: int, j: int| 0 <= i < j < n implies (#[trigger] cases[i]).skill_id != (
        #[trigger] cases[j]).skill_id by {
            assert(case_regular(cases, j, a, b));
        }
    }
}

proof fn lemma_nothing_held_out(
    input: BenchmarkModel,
    receiver_dimension: usize,
    holdouts: Seq<HoldoutModel>,
    n: int,
)
    requires
        holdouts.len() == 0,
        n > 0,
    ensures
        holdouts_reported(input, receiver_dimension, holdouts, n) == HoldoutsModel::Begin(0),
    decreases n,
{
    reveal_with_fuel(holdouts_reported, 2);
    if n > 1 {
        lemma_nothing_held_out(input, receiver_dimension, holdouts, n - 1);
    }
}

/// Skills are held out one after the other: the one that is worked on is the first
/// that is not reported yet, and what is asked for it is what its own progress asks
/// for.
pub proof fn skills_are_held_out_one_after_the_other(
    input: BenchmarkModel,
    progress: BenchmarkProgressModel,
)
    requires
        input.cases[0].direct_receiver_solution.len() <= usize::MAX,
    ensures
        ({
            let step = benchmark_step(input, progress);
            let dimension = input.cases[0].direct_receiver_solution.len() as usize;
            &&& step matches BenchmarkStepModel::BeginHoldout(k) ==> {
                &&& 0 <= k < input.cases.len() && k == progress.holdouts.len()
                &&& forall|i: int|
                    0 <= i < k ==> (#[trigger] holdout_step(
                        input,
                        dimension,
                        i,
                        progress.holdouts[i],
                    )) is Done
            }
            &&& step matches BenchmarkStepModel::Holdout(k, inner) ==> {
                &&& 0 <= k < input.cases.len() && k < progress.holdouts.len()
                &&& forall|i: int|
                    0 <= i < k ==> (#[trigger] holdout_step(
                        input,
                        dimension,
                        i,
                        progress.holdouts[i],
                    )) is Done
                &&& inner == holdout_step(input, dimension, k, progress.holdouts[k])
                &&& !(inner is Done) && !(inner is Failed)
            }
        }),
{
    let dimension = input.cases[0].direct_receiver_solution.len() as usize;
    lemma_holdouts_in_order(input, dimension, progress.holdouts, input.cases.len() as int);
}

proof fn lemma_holdouts_in_order(
    input: BenchmarkModel,
    receiver_dimension: usize,
    holdouts: Seq<HoldoutModel>,
    n: int,
)
    requires
        0 <= n,
    ensures
        ({
            let reached = holdouts_reported(input, receiver_dimension, holdouts, n);
            &&& reached matches HoldoutsModel::Begin(k) ==> {
                &&& 0 <= k < n && k == holdouts.len()
                &&& forall|i: int|
                    0 <= i < k ==> (#[trigger] holdout_step(
                        input,
                        receiver_dimension,
                        i,
                        holdouts[i],
                    )) is Done
            }
            &&& reached matches HoldoutsModel::Pending(k, inner) ==> {
                &&& 0 <= k < n && k < holdouts.len()
                &&& forall|i: int|
                    0 <= i < k ==> (#[trigger] holdout_step(
                        input,
                        receiver_dimension,
                        i,
                        holdouts[i],
                    )) is Done
                &&& inner == holdout_step(input, receiver_dimension, k, holdouts[k])
                &&& !(inner is Done) && !(inner is Failed)
            }
        }),
    decreases n,
{
    if n > 0 {
        lemma_holdouts_in_order(input, receiver_dimension, holdouts, n - 1);
        if holdouts_reported(input, receiver_dimension, holdouts, n - 1) is Reported {
            lemma_reports_follow_cases(input, receiver_dimension, holdouts, n - 1);
            let reports = holdouts_reported(
                input,
                receiver_dimension,
                holdouts,
                n - 1,
            )->Reported_0;
            assert forall|i: int| 0 <= i < n - 1 implies (#[trigger] holdout_step(
                input,
                receiver_dimension,
                i,
                holdouts[i],
            )) is Done by {
                assert(holdout_step(input, receiver_dimension, i, holdouts[i])
                    == HoldoutStepModel::Done(reports[i]));
            }
        }
    }
}

/// Whatever is asked for a held-out skill is asked only while there is no answer, and
/// an error in answer to it is the error that the skill fails with.
pub proof fn errors_end_a_holdout(
    input: BenchmarkModel,
    receiver_dimension: usize,
    holdout: int,
    progress: HoldoutModel,
    error: ErrorView,
)
    ensures
        holdout_step(input, receiver_dimension, holdout, progress) is LearnDecoder ==> progress.decoder is None
            && holdout_step(
            input,
            receiver_dimension,
            holdout,
            (HoldoutModel { decoder: Some(Err::<LearnedMap, _>(error)), ..progress }),
        ) == HoldoutStepModel::Failed(error),
        holdout_step(input, receiver_dimension, holdout, progress) is LearnEncoder ==> progress.encoder is None
            && holdout_step(
            input,
            receiver_dimension,
            holdout,
            (HoldoutModel { encoder: Some(Err::<LearnedMap, _>(error)), ..progress }),
        ) == HoldoutStepModel::Failed(error),
        holdout_step(input, receiver_dimension, holdout, progress) is Transplant ==> progress.transferred_delta is None
            && holdout_step(
            input,
            receiver_dimension,
            holdout,
            (HoldoutModel { transferred_delta: Some(Err::<Seq<Scalar>, _>(error)), ..progress }),
        ) == HoldoutStepModel::Failed(error),
        holdout_step(input, receiver_dimension, holdout, progress) is ApplyTransferred ==> progress.transferred_behavior is None
            && holdout_step(
            input,
            receiver_dimension,
            holdout,
            (HoldoutModel { transferred_behavior: Some(Err::<Seq<Scalar>, _>(error)), ..progress }),
        ) == HoldoutStepModel::Failed(error),
        holdout_step(input, receiver_dimension, holdout, progress) is ApplyDirect ==> progress.direct_behavior is None
            && holdout_step(
            input,
            receiver_dimension,
            holdout,
            (HoldoutModel { direct_behavior: Some(Err::<Seq<Scalar>, _>(error)), ..progress }),
        ) == HoldoutStepModel::Failed(error),
        holdout_step(input, receiver_dimension, holdout, progress) is ApplyVirgin ==> progress.virgin_behavior is None
            && holdout_step(
            input,
            receiver_dimension,
            holdout,
            (HoldoutModel { virgin_behavior: Some(Err::<Seq<Scalar>, _>(error)), ..progress }),
        ) == HoldoutStepModel::Failed(error),
        holdout_step(input, receiver_dimension, holdout, progress) is TransplantWrong ==> progress.wrong_delta is None
            && holdout_step(
            input,
            receiver_dimension,
            holdout,
            (HoldoutModel { wrong_delta: Some(Err::<Seq<Scalar>, _>(error)), ..progress }),
        ) == HoldoutStepModel::Failed(error),
        holdout_step(input, receiver_dimension, holdout, progress) is ApplyWrong ==> progress.wrong_behavior is None
            && holdout_step(
            input,
            receiver_dimension,
            holdout,
            (HoldoutModel { wrong_behavior: Some(Err::<Seq<Scalar>, _>(error)), ..progress }),
        ) == HoldoutStepModel::Failed(error),
{
}

/// The behaviours that a held-out skill has shown, beside the one that it should show.
pub open spec fn shown_behaviours(
    input: BenchmarkModel,
    holdout: int,
    progress: HoldoutModel,
) -> BehavioursModel {
    BehavioursModel {
        expected: input.cases[holdout].functional_signature,
        virgin: progress.virgin_behavior->0->Ok_0,
        direct: progress.direct_behavior->0->Ok_0,
        transferred: progress.transferred_behavior->0->Ok_0,
        wrong: progress.wrong_behavior->0->Ok_0,
    }
}

/// A held-out skill is reported exactly when both maps were learned, both solutions
/// were decoded, all four behaviours were shown, and their comparison is done; it then
/// carries the metrics of that comparison. While the comparison goes on, what is asked
/// is what the comparison asks, and its failure is the skill's.
pub proof fn skills_are_reported_once_they_are_compared(
    input: BenchmarkModel,
    receiver_dimension: usize,
    holdout: int,
    progress: HoldoutModel,
)
    ensures
        ({
            let step = holdout_step(input, receiver_dimension, holdout, progress);
            let shown = {
                &&& progress.decoder is Some && progress.decoder->0 is Ok
                &&& progress.encoder is Some && progress.encoder->0 is Ok
                &&& progress.transferred_delta is Some && progress.transferred_delta->0 is Ok
                &&& progress.transferred_behavior is Some && progress.transferred_behavior->0 is Ok
                &&& progress.direct_behavior is Some && progress.direct_behavior->0 is Ok
                &&& progress.virgin_behavior is Some && progress.virgin_behavior->0 is Ok
                &&& progress.wrong_delta is Some && progress.wrong_delta->0 is Ok
                &&& progress.wrong_behavior is Some && progress.wrong_behavior->0 is Ok
            };
            let compared = portability_step(
                shown_behaviours(input, holdout, progress),
                progress.portability,
            );
            &&& step is Done <==> shown && compared is Done
            &&& step is Done ==> step->Done_0.metrics == compared->Done_0
            &&& step is Compare <==> shown && !(compared is Done) && !(compared is Failed)
            &&& step is Compare ==> step->Compare_0 == compared
            &&& shown && compared is Failed ==> step == HoldoutStepModel::Failed(
                compared->Failed_0,
            )
        }),
{
}

/// A benchmark is refused for what it is, before anything is measured: for another
/// schema, a ridge that is not above zero and finite, or fewer than six skills; and
/// then for an empty first signature or solution.
pub proof fn benchmarks_are_refused_for_what_they_are(
    input: BenchmarkModel,
    progress: BenchmarkProgressModel,
)
    requires
        input.cases[0].functional_signature.len() <= usize::MAX,
        input.cases[0].direct_receiver_solution.len() <= usize::MAX,
    ensures
        ({
            let step = benchmark_step(input, progress);
            let stated = input.schema
                == "cerebro.tidex.receiver_portability_benchmark_input/v1"@ && input.ridge.finite()
                && (Scalar { bits: 0 }).less(input.ridge) && input.cases.len() >= 6;
            let measured = input.cases[0].functional_signature.len() > 0
                && input.cases[0].direct_receiver_solution.len() > 0;
            &&& !stated ==> step == BenchmarkStepModel::Failed(
                ErrorView::Invalid("receiver_portability_benchmark_input_invalid"@),
            )
            &&& stated && !measured ==> step == BenchmarkStepModel::Failed(
                ErrorView::Invalid("receiver_portability_benchmark_dimension_invalid"@),
            )
        }),
{
    crate::scalar::lemma_magnitude_zero(0);
}

/// Skills are checked one after the other: the first one that is not sound, or whose
/// signature has no direction, refuses the benchmark, and so does the first norm that
/// could not be measured, with its own error.
pub proof fn unsound_skills_refuse_a_benchmark(
    input: BenchmarkModel,
    progress: BenchmarkProgressModel,
    k: int,
)
    requires
        input.schema == "cerebro.tidex.receiver_portability_benchmark_input/v1"@,
        input.ridge.finite() && input.ridge.units() > 0,
        input.cases.len() >= 6,
        0 < input.cases[0].functional_signature.len() <= usize::MAX,
        0 < input.cases[0].direct_receiver_solution.len() <= usize::MAX,
        0 <= k < input.cases.len(),
        k <= progress.norms.len(),
        forall|i: int|
            0 <= i < k ==> {
                &&& sound_skill(input, i)
                &&& (#[trigger] progress.norms[i]) is Ok && !progress.norms[i]->Ok_0.at_most(
                    Scalar { bits: 0x3CD2_03AF_9EE7_5616 },
                )
            },
    ensures
        ({
            let step = benchmark_step(input, progress);
            let refused = BenchmarkStepModel::Failed(
                ErrorView::Invalid("receiver_portability_benchmark_case_invalid"@),
            );
            &&& !sound_skill(input, k) ==> step == refused
            &&& sound_skill(input, k) && k < progress.norms.len() && progress.norms[k] is Err ==> step
                == BenchmarkStepModel::Failed(progress.norms[k]->Err_0)
            &&& sound_skill(input, k) && k < progress.norms.len() && progress.norms[k] is Ok
                && progress.norms[k]->Ok_0.at_most(Scalar { bits: 0x3CD2_03AF_9EE7_5616 }) ==> step
                == refused
            &&& sound_skill(input, k) && k == progress.norms.len() ==> step
                == BenchmarkStepModel::MeasureCase(input.cases[k].functional_signature)
        }),
{
    let cases = input.cases;
    let a = cases[0].functional_signature.len() as int;
    let b = cases[0].direct_receiver_solution.len() as int;
    assert forall|i: int| 0 <= i < k implies #[trigger] case_regular(cases, i, a, b) by {
        assert(progress.norms[i] is Ok);
        assert(sound_skill(input, i));
    }
    lemma_checked_cases_are_sound(cases, a, b, progress.norms, k);
    assert(sound_skill(input, k) <==> case_regular(cases, k, a, b));
    assert(cases_checked(cases, a, b, progress.norms, k) is Passed);
    if !(cases_checked(cases, a, b, progress.norms, k + 1) is Passed) {
        lemma_stopped_check_persists(cases, a, b, progress.norms, k + 1, cases.len() as int);
    }
}

/// Whether a skill of a benchmark is sound: it has a name of at most 256 bytes that no
/// skill before it has, and its signature and its solution are finite and as long as
/// the first skill's.
pub open spec fn sound_skill(input: BenchmarkModel, i: int) -> bool {
    &&& 0 < input.cases[i].skill_id.len()
    &&& vstd::utf8::encode_utf8(input.cases[i].skill_id).len() <= 256
    &&& forall|j: int| 0 <= j < i ==> (#[trigger] input.cases[j]).skill_id != input.cases[i].skill_id
    &&& finite_behaviour(
        input.cases[i].functional_signature,
        input.cases[0].functional_signature.len(),
    )
    &&& finite_behaviour(
        input.cases[i].direct_receiver_solution,
        input.cases[0].direct_receiver_solution.len(),
    )
}

} // verus!

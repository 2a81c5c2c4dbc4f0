//! Receiver-specific compilation from canonical functional semantics.
//!
//! A compilation never takes donor parameters. It is calibrated on functional
//! signatures and receiver-native solutions, and decides, from what the
//! numerical engine reports, whether the compiled vector may be used. The
//! engine learns, projects, scales and measures; here stand the order in which
//! it is asked, what it is handed, every refusal, and the final decision.

use crate::error::{BrainError, BrainResult, ErrorView};
use crate::identity::Sha256Digest;
use crate::order::{awaited, outcome, outcomes, plain, views};
use crate::scalar::{all_finite, finite_row, row_copy, units_per_one, Scalar};
use crate::text::{joined, text_eq};
use vstd::prelude::*;

verus! {

/// The pattern of ten to the power of minus fifteen: a vector that is not longer
/// than this has no direction.
pub const DEGENERATE_NORM_BITS: u64 = 0x3CD2_03AF_9EE7_5616;

/// The pattern of negative infinity.
pub const NEGATIVE_INFINITY_BITS: u64 = 0xFFF0_0000_0000_0000;

/// The fewest anchors that a compiler can be calibrated on.
pub const MINIMUM_ANCHORS: usize = 5;

/// The thresholds that a compilation is held to.
#[derive(Debug)]
pub struct ReceiverCompilerPolicy {
    pub schema: String,
    pub ridge: Scalar,
    pub minimum_decoder_loo_r2: Scalar,
    pub minimum_encoder_loo_r2: Scalar,
    pub minimum_decoder_loo_cosine: Scalar,
    pub maximum_functional_relative_error: Scalar,
    pub minimum_identity_margin: Scalar,
    pub maximum_quadratic_cost: Scalar,
}

/// The model of a [`ReceiverCompilerPolicy`].
pub struct PolicyModel {
    pub schema: Seq<char>,
    pub ridge: Scalar,
    pub minimum_decoder_loo_r2: Scalar,
    pub minimum_encoder_loo_r2: Scalar,
    pub minimum_decoder_loo_cosine: Scalar,
    pub maximum_functional_relative_error: Scalar,
    pub minimum_identity_margin: Scalar,
    pub maximum_quadratic_cost: Scalar,
}

impl View for ReceiverCompilerPolicy {
    type V = PolicyModel;

    open spec fn view(&self) -> PolicyModel {
        PolicyModel {
            schema: self.schema@,
            ridge: self.ridge,
            minimum_decoder_loo_r2: self.minimum_decoder_loo_r2,
            minimum_encoder_loo_r2: self.minimum_encoder_loo_r2,
            minimum_decoder_loo_cosine: self.minimum_decoder_loo_cosine,
            maximum_functional_relative_error: self.maximum_functional_relative_error,
            minimum_identity_margin: self.minimum_identity_margin,
            maximum_quadratic_cost: self.maximum_quadratic_cost,
        }
    }
}

impl PolicyModel {
    /// Every threshold is finite and in the range of what it bounds.
    pub open spec fn acceptable(self) -> bool {
        let one = units_per_one();
        &&& self.schema == "cerebro.tidex.receiver_compiler_policy/v1"@
        &&& self.ridge.finite() && self.ridge.units() > 0
        &&& self.minimum_decoder_loo_r2.finite() && self.minimum_decoder_loo_r2.units() <= one
        &&& self.minimum_encoder_loo_r2.finite() && self.minimum_encoder_loo_r2.units() <= one
        &&& self.minimum_decoder_loo_cosine.finite() && -one
            <= self.minimum_decoder_loo_cosine.units() <= one
        &&& self.maximum_functional_relative_error.finite()
            && self.maximum_functional_relative_error.units() >= 0
        &&& self.minimum_identity_margin.finite() && -2 * one
            <= self.minimum_identity_margin.units() <= 2 * one
        &&& self.maximum_quadratic_cost.finite() && self.maximum_quadratic_cost.units() >= 0
    }
}

impl ReceiverCompilerPolicy {
    /// Accepts exactly the policies whose thresholds make sense.
    pub fn validate(&self) -> (checked: BrainResult<()>)
        ensures
            plain(checked) == (if self@.acceptable() {
                Ok(())
            } else {
                Err(ErrorView::Invalid("receiver_compiler_policy_invalid"@))
            }),
    {
        if !text_eq(self.schema.as_str(), "cerebro.tidex.receiver_compiler_policy/v1")
            || !self.ridge.is_finite() || !self.ridge.is_positive()
            || !self.minimum_decoder_loo_r2.is_finite()
            || !self.minimum_decoder_loo_r2.is_at_most_one()
            || !self.minimum_encoder_loo_r2.is_finite()
            || !self.minimum_encoder_loo_r2.is_at_most_one()
            || !self.minimum_decoder_loo_cosine.is_finite()
            || !self.minimum_decoder_loo_cosine.is_within_one()
            || !self.maximum_functional_relative_error.is_finite()
            || !self.maximum_functional_relative_error.is_at_least_zero()
            || !self.minimum_identity_margin.is_finite()
            || !self.minimum_identity_margin.is_within_two()
            || !self.maximum_quadratic_cost.is_finite()
            || !self.maximum_quadratic_cost.is_at_least_zero() {
            return Err(BrainError::invalid("receiver_compiler_policy_invalid"));
        }
        Ok(())
    }
}

/// Matched capabilities that a compiler is calibrated on, and signatures of
/// other capabilities that it must not be mistaken for.
#[derive(Debug)]
pub struct ReceiverCalibrationSet {
    /// The authenticated receiver snapshot for which the solutions were measured.
    /// A low-level experiment may hold the all-zero digest, a draft marker, which
    /// planning rejects.
    pub receiver_snapshot_binding_sha256: Sha256Digest,
    pub functional_signatures: Vec<Vec<Scalar>>,
    pub receiver_solutions: Vec<Vec<Scalar>>,
    pub wrong_functional_signatures: Vec<Vec<Scalar>>,
}

/// The model of a [`ReceiverCalibrationSet`].
pub struct CalibrationModel {
    pub receiver_snapshot_binding_sha256: Seq<char>,
    pub functional_signatures: Seq<Seq<Scalar>>,
    pub receiver_solutions: Seq<Seq<Scalar>>,
    pub wrong_functional_signatures: Seq<Seq<Scalar>>,
}

impl View for ReceiverCalibrationSet {
    type V = CalibrationModel;

    open spec fn view(&self) -> CalibrationModel {
        CalibrationModel {
            receiver_snapshot_binding_sha256: self.receiver_snapshot_binding_sha256@,
            functional_signatures: views(self.functional_signatures@),
            receiver_solutions: views(self.receiver_solutions@),
            wrong_functional_signatures: views(self.wrong_functional_signatures@),
        }
    }
}

/// Every row has the given length and only finite numbers.
pub open spec fn rows_regular(rows: Seq<Seq<Scalar>>, dimension: int) -> bool {
    forall|i: int|
        0 <= i < rows.len() ==> (#[trigger] rows[i]).len() == dimension && all_finite(rows[i])
}

/// The common length of the rows, or why there is none.
pub open spec fn rows_outcome(
    rows: Seq<Seq<Scalar>>,
    expected: Option<usize>,
    label: Seq<char>,
) -> Result<usize, ErrorView> {
    if rows.len() == 0 {
        Err(ErrorView::Invalid(label + "_empty"@))
    } else {
        let dimension = match expected {
            Some(dimension) => dimension,
            None => rows[0].len() as usize,
        };
        if dimension == 0 || !rows_regular(rows, dimension as int) {
            Err(ErrorView::Invalid(label + "_shape"@))
        } else {
            Ok(dimension)
        }
    }
}

/// Checks that rows have one length and only finite numbers.
pub fn validate_rows(
    rows: &Vec<Vec<Scalar>>,
    expected_dim: Option<usize>,
    label: &str,
) -> (dimension: BrainResult<usize>)
    ensures
        plain(dimension) == rows_outcome(views(rows@), expected_dim, label@),
{
    if rows.len() == 0 {
        return Err(BrainError::Invalid(joined(label, "_empty")));
    }
    let ghost models = views(rows@);
    assert(models[0] == rows@[0]@);
    let dimension: usize = match expected_dim {
        Some(dimension) => dimension,
        None => rows[0].len(),
    };
    if dimension == 0 {
        return Err(BrainError::Invalid(joined(label, "_shape")));
    }
    for i in 0..rows.len()
        invariant
            models == views(rows@),
            rows@.len() > 0,
            dimension > 0,
            dimension == (match expected_dim {
                Some(dimension) => dimension,
                None => models[0].len() as usize,
            }),
            forall|j: int|
                0 <= j < i ==> (#[trigger] models[j]).len() == dimension && all_finite(models[j]),
    {
        assert(models[i as int] == rows@[i as int]@);
        if rows[i].len() != dimension || !finite_row(&rows[i]) {
            return Err(BrainError::Invalid(joined(label, "_shape")));
        }
    }
    Ok(dimension)
}

/// The sizes of what protects a receiver.
#[derive(Debug, Clone, Copy, PartialEq, Eq, Structural)]
pub struct SafetyShape {
    /// How many parameters the protected cortex weighs.
    pub protected_parameters: usize,
    pub risk_rows: usize,
    pub risk_columns: usize,
}

/// What the engine reports of a learned map.
#[derive(Debug, Clone, Copy, PartialEq, Eq, Structural)]
pub struct LearnedMap {
    pub resolved: bool,
    pub loo_cv_r2: Scalar,
    pub min_loo_cosine: Scalar,
}

impl View for LearnedMap {
    type V = LearnedMap;

    open spec fn view(&self) -> LearnedMap {
        *self
    }
}

/// What the engine reports of a projection away from what is protected.
#[derive(Debug)]
pub struct ProtectionResult {
    pub projected: Vec<Scalar>,
    pub allowed: bool,
    pub damage_ratio: Scalar,
    pub removed_energy: Scalar,
    pub max_weighted_residual: Scalar,
}

/// The model of a [`ProtectionResult`].
pub struct ProtectionModel {
    pub projected: Seq<Scalar>,
    pub allowed: bool,
    pub damage_ratio: Scalar,
    pub removed_energy: Scalar,
    pub max_weighted_residual: Scalar,
}

impl View for ProtectionResult {
    type V = ProtectionModel;

    open spec fn view(&self) -> ProtectionModel {
        ProtectionModel {
            projected: self.projected@,
            allowed: self.allowed,
            damage_ratio: self.damage_ratio,
            removed_energy: self.removed_energy,
            max_weighted_residual: self.max_weighted_residual,
        }
    }
}

/// What the engine reports of scaling a vector into a trust region.
#[derive(Debug)]
pub struct TrustRegionResult {
    pub scale: Scalar,
    pub max_quadratic_cost: Scalar,
    pub accepted_coefficients: Vec<Scalar>,
    pub accepted_quadratic_cost: Scalar,
    /// Everything else that the engine states of it, in its canonical text.
    pub details: String,
}

/// The model of a [`TrustRegionResult`].
pub struct TrustModel {
    pub scale: Scalar,
    pub max_quadratic_cost: Scalar,
    pub accepted_coefficients: Seq<Scalar>,
    pub accepted_quadratic_cost: Scalar,
    pub details: Seq<char>,
}

impl View for TrustRegionResult {
    type V = TrustModel;

    open spec fn view(&self) -> TrustModel {
        TrustModel {
            scale: self.scale,
            max_quadratic_cost: self.max_quadratic_cost,
            accepted_coefficients: self.accepted_coefficients@,
            accepted_quadratic_cost: self.accepted_quadratic_cost,
            details: self.details@,
        }
    }
}

/// Whether the predicted behaviour keeps the operational interface.
#[derive(Debug)]
pub struct OperationalInterfaceVerification {
    pub allowed: bool,
    /// Everything else that the engine states of it, in its canonical text.
    pub details: String,
}

/// The model of an [`OperationalInterfaceVerification`].
pub struct VerificationModel {
    pub allowed: bool,
    pub details: Seq<char>,
}

impl View for OperationalInterfaceVerification {
    type V = VerificationModel;

    open spec fn view(&self) -> VerificationModel {
        VerificationModel { allowed: self.allowed, details: self.details@ }
    }
}

/// A capability compiled for one receiver, with all that was measured of it.
#[derive(Debug)]
pub struct ReceiverCompilation {
    pub schema: String,
    pub receiver_parameter_dimension: usize,
    pub calibration_anchor_count: usize,
    pub target_delta: Vec<Scalar>,
    pub predicted_functional_signature: Vec<Scalar>,
    pub decoder_loo_r2: Scalar,
    pub decoder_min_loo_cosine: Scalar,
    pub encoder_loo_r2: Scalar,
    pub encoder_min_loo_cosine: Scalar,
    pub functional_relative_error: Scalar,
    pub correct_cosine: Scalar,
    pub maximum_wrong_cosine: Scalar,
    pub identity_margin: Scalar,
    pub protection_damage_ratio: Scalar,
    pub protection_removed_energy: Scalar,
    pub protection_max_weighted_residual: Scalar,
    pub trust_region: TrustRegionResult,
    pub operational_verification: OperationalInterfaceVerification,
    pub allowed: bool,
}

/// The model of a [`ReceiverCompilation`].
pub struct CompilationModel {
    pub schema: Seq<char>,
    pub receiver_parameter_dimension: usize,
    pub calibration_anchor_count: usize,
    pub target_delta: Seq<Scalar>,
    pub predicted_functional_signature: Seq<Scalar>,
    pub decoder_loo_r2: Scalar,
    pub decoder_min_loo_cosine: Scalar,
    pub encoder_loo_r2: Scalar,
    pub encoder_min_loo_cosine: Scalar,
    pub functional_relative_error: Scalar,
    pub correct_cosine: Scalar,
    pub maximum_wrong_cosine: Scalar,
    pub identity_margin: Scalar,
    pub protection_damage_ratio: Scalar,
    pub protection_removed_energy: Scalar,
    pub protection_max_weighted_residual: Scalar,
    pub trust_region: TrustModel,
    pub operational_verification: VerificationModel,
    pub allowed: bool,
}

impl View for ReceiverCompilation {
    type V = CompilationModel;

    open spec fn view(&self) -> CompilationModel {
        CompilationModel {
            schema: self.schema@,
            receiver_parameter_dimension: self.receiver_parameter_dimension,
            calibration_anchor_count: self.calibration_anchor_count,
            target_delta: self.target_delta@,
            predicted_functional_signature: self.predicted_functional_signature@,
            decoder_loo_r2: self.decoder_loo_r2,
            decoder_min_loo_cosine: self.decoder_min_loo_cosine,
            encoder_loo_r2: self.encoder_loo_r2,
            encoder_min_loo_cosine: self.encoder_min_loo_cosine,
            functional_relative_error: self.functional_relative_error,
            correct_cosine: self.correct_cosine,
            maximum_wrong_cosine: self.maximum_wrong_cosine,
            identity_margin: self.identity_margin,
            protection_damage_ratio: self.protection_damage_ratio,
            protection_removed_energy: self.protection_removed_energy,
            protection_max_weighted_residual: self.protection_max_weighted_residual,
            trust_region: self.trust_region@,
            operational_verification: self.operational_verification@,
            allowed: self.allowed,
        }
    }
}

/// What the host and the engine have reported for a compilation so far, in the
/// order in which it is asked for.
#[derive(Debug)]
pub struct CompilationProgress {
    /// Whether the operational contract belongs to the capability.
    pub interface: Option<BrainResult<()>>,
    /// The canonical transition signature of the capability.
    pub requested: Option<BrainResult<Vec<Scalar>>>,
    pub requested_norm: Option<BrainResult<Scalar>>,
    pub wrong_norms: Option<Vec<BrainResult<Scalar>>>,
    pub decoder: Option<BrainResult<LearnedMap>>,
    pub encoder: Option<BrainResult<LearnedMap>>,
    pub proposed: Option<BrainResult<Vec<Scalar>>>,
    pub protection: Option<BrainResult<ProtectionResult>>,
    pub trust: Option<BrainResult<TrustRegionResult>>,
    pub predicted: Option<BrainResult<Vec<Scalar>>>,
    pub relative_error: Option<BrainResult<Scalar>>,
    pub correct_cosine: Option<BrainResult<Scalar>>,
    pub wrong_cosines: Option<Vec<BrainResult<Scalar>>>,
    pub identity_margin: Option<Scalar>,
    pub verification: Option<BrainResult<OperationalInterfaceVerification>>,
}

/// The model of a [`CompilationProgress`].
pub struct ProgressModel {
    pub interface: Option<Result<(), ErrorView>>,
    pub requested: Option<Result<Seq<Scalar>, ErrorView>>,
    pub requested_norm: Option<Result<Scalar, ErrorView>>,
    pub wrong_norms: Option<Seq<Result<Scalar, ErrorView>>>,
    pub decoder: Option<Result<LearnedMap, ErrorView>>,
    pub encoder: Option<Result<LearnedMap, ErrorView>>,
    pub proposed: Option<Result<Seq<Scalar>, ErrorView>>,
    pub protection: Option<Result<ProtectionModel, ErrorView>>,
    pub trust: Option<Result<TrustModel, ErrorView>>,
    pub predicted: Option<Result<Seq<Scalar>, ErrorView>>,
    pub relative_error: Option<Result<Scalar, ErrorView>>,
    pub correct_cosine: Option<Result<Scalar, ErrorView>>,
    pub wrong_cosines: Option<Seq<Result<Scalar, ErrorView>>>,
    pub identity_margin: Option<Scalar>,
    pub verification: Option<Result<VerificationModel, ErrorView>>,
}

/// What contracts say of a list of outcomes that may not be there yet.
pub open spec fn awaited_list(list: Option<Vec<BrainResult<Scalar>>>) -> Option<
    Seq<Result<Scalar, ErrorView>>,
> {
    match list {
        Some(list) => Some(outcomes(list@)),
        None => None,
    }
}

impl View for CompilationProgress {
    type V = ProgressModel;

    open spec fn view(&self) -> ProgressModel {
        ProgressModel {
            interface: match self.interface {
                Some(result) => Some(plain(result)),
                None => None,
            },
            requested: awaited(self.requested),
            requested_norm: awaited(self.requested_norm),
            wrong_norms: awaited_list(self.wrong_norms),
            decoder: awaited(self.decoder),
            encoder: awaited(self.encoder),
            proposed: awaited(self.proposed),
            protection: awaited(self.protection),
            trust: awaited(self.trust),
            predicted: awaited(self.predicted),
            relative_error: awaited(self.relative_error),
            correct_cosine: awaited(self.correct_cosine),
            wrong_cosines: awaited_list(self.wrong_cosines),
            identity_margin: self.identity_margin,
            verification: awaited(self.verification),
        }
    }
}

/// What a compilation needs next, or how it ended.
#[derive(Debug)]
pub enum CompilationStep<'a> {
    Failed(BrainError),
    /// Validate the operational contract against the capability.
    ValidateInterface,
    /// Take the canonical transition signature.
    ReadSignature,
    /// Take the norm of this vector.
    MeasureQuery(&'a Vec<Scalar>),
    /// Take the norm of each of these rows.
    MeasureWrongSignatures(&'a Vec<Vec<Scalar>>),
    /// Learn the map from functional signatures to receiver solutions.
    LearnDecoder { from: &'a Vec<Vec<Scalar>>, to: &'a Vec<Vec<Scalar>>, ridge: Scalar },
    /// Learn the map from receiver solutions to functional signatures.
    LearnEncoder { from: &'a Vec<Vec<Scalar>>, to: &'a Vec<Vec<Scalar>>, ridge: Scalar },
    /// Send this signature through the decoder.
    Transplant(&'a Vec<Scalar>),
    /// Project this vector away from what is protected.
    Protect(&'a Vec<Scalar>),
    /// Scale this vector into the trust region.
    ApplyTrustRegion { vector: &'a Vec<Scalar>, maximum_quadratic_cost: Scalar },
    /// Send this vector through the encoder.
    Predict(&'a Vec<Scalar>),
    /// Take the relative error of the first vector against the second.
    MeasureError { observed: &'a Vec<Scalar>, expected: &'a Vec<Scalar> },
    /// Take the cosine of the two vectors.
    MeasureCosine { observed: &'a Vec<Scalar>, expected: &'a Vec<Scalar> },
    /// Take the cosine of the vector with each of the rows.
    MeasureWrongCosines { observed: &'a Vec<Scalar>, wrong: &'a Vec<Vec<Scalar>> },
    /// Subtract the second number from the first.
    Subtract(Scalar, Scalar),
    /// Verify the operational interface on this signature.
    VerifyInterface(&'a Vec<Scalar>),
    Done(ReceiverCompilation),
}

/// The model of a [`CompilationStep`].
pub enum StepModel {
    Failed(ErrorView),
    ValidateInterface,
    ReadSignature,
    MeasureQuery(Seq<Scalar>),
    MeasureWrongSignatures(Seq<Seq<Scalar>>),
    LearnDecoder { from: Seq<Seq<Scalar>>, to: Seq<Seq<Scalar>>, ridge: Scalar },
    LearnEncoder { from: Seq<Seq<Scalar>>, to: Seq<Seq<Scalar>>, ridge: Scalar },
    Transplant(Seq<Scalar>),
    Protect(Seq<Scalar>),
    ApplyTrustRegion { vector: Seq<Scalar>, maximum_quadratic_cost: Scalar },
    Predict(Seq<Scalar>),
    MeasureError { observed: Seq<Scalar>, expected: Seq<Scalar> },
    MeasureCosine { observed: Seq<Scalar>, expected: Seq<Scalar> },
    MeasureWrongCosines { observed: Seq<Scalar>, wrong: Seq<Seq<Scalar>> },
    Subtract(Scalar, Scalar),
    VerifyInterface(Seq<Scalar>),
    Done(CompilationModel),
}

impl<'a> View for CompilationStep<'a> {
    type V = StepModel;

    open spec fn view(&self) -> StepModel {
        match self {
            CompilationStep::Failed(error) => StepModel::Failed(error@),
            CompilationStep::ValidateInterface => StepModel::ValidateInterface,
            CompilationStep::ReadSignature => StepModel::ReadSignature,
            CompilationStep::MeasureQuery(row) => StepModel::MeasureQuery(row@),
            CompilationStep::MeasureWrongSignatures(rows) => StepModel::MeasureWrongSignatures(
                views(rows@),
            ),
            CompilationStep::LearnDecoder { from, to, ridge } => StepModel::LearnDecoder {
                from: views(from@),
                to: views(to@),
                ridge: *ridge,
            },
            CompilationStep::LearnEncoder { from, to, ridge } => StepModel::LearnEncoder {
                from: views(from@),
                to: views(to@),
                ridge: *ridge,
            },
            CompilationStep::Transplant(row) => StepModel::Transplant(row@),
            CompilationStep::Protect(row) => StepModel::Protect(row@),
            CompilationStep::ApplyTrustRegion { vector, maximum_quadratic_cost } =>
                StepModel::ApplyTrustRegion {
                    vector: vector@,
                    maximum_quadratic_cost: *maximum_quadratic_cost,
                },
            CompilationStep::Predict(row) => StepModel::Predict(row@),
            CompilationStep::MeasureError { observed, expected } => StepModel::MeasureError {
                observed: observed@,
                expected: expected@,
            },
            CompilationStep::MeasureCosine { observed, expected } => StepModel::MeasureCosine {
                observed: observed@,
                expected: expected@,
            },
            CompilationStep::MeasureWrongCosines { observed, wrong } =>
                StepModel::MeasureWrongCosines { observed: observed@, wrong: views(wrong@) },
            CompilationStep::Subtract(a, b) => StepModel::Subtract(*a, *b),
            CompilationStep::VerifyInterface(row) => StepModel::VerifyInterface(row@),
            CompilationStep::Done(compilation) => StepModel::Done(compilation@),
        }
    }
}

/// Whether a measured norm is that of a vector without direction.
pub open spec fn degenerate(norm: Scalar) -> bool {
    norm.at_most(Scalar { bits: DEGENERATE_NORM_BITS })
}

/// Whether a measured norm is that of a vector without direction.
pub fn is_degenerate(norm: Scalar) -> (yes: bool)
    ensures
        yes == degenerate(norm),
{
    norm.le(Scalar { bits: DEGENERATE_NORM_BITS })
}

/// Some norm could not be taken, or is that of a vector without direction.
pub open spec fn some_degenerate(norms: Seq<Result<Scalar, ErrorView>>) -> bool {
    exists|i: int|
        0 <= i < norms.len() && ((#[trigger] norms[i]) is Err || degenerate(norms[i]->Ok_0))
}

/// Whether some norm could not be taken, or is that of a vector without
/// direction.
fn any_degenerate(norms: &Vec<BrainResult<Scalar>>) -> (found: bool)
    ensures
        found == some_degenerate(outcomes(norms@)),
{
    let ghost models = outcomes(norms@);
    for i in 0..norms.len()
        invariant
            models == outcomes(norms@),
            forall|j: int|
                0 <= j < i ==> (#[trigger] models[j]) is Ok && !degenerate(models[j]->Ok_0),
    {
        assert(models[i as int] == outcome(norms@[i as int]));
        match &norms[i] {
            Ok(norm) => if is_degenerate(*norm) {
                return true;
            },
            Err(_) => {
                return true;
            },
        }
    }
    false
}

/// The greatest of the measured numbers, starting from negative infinity, or the
/// first error among them.
pub open spec fn greatest_of(numbers: Seq<Result<Scalar, ErrorView>>) -> Result<Scalar, ErrorView>
    decreases numbers.len(),
{
    if numbers.len() == 0 {
        Ok(Scalar { bits: NEGATIVE_INFINITY_BITS })
    } else {
        match greatest_of(numbers.drop_last()) {
            Err(error) => Err(error),
            Ok(front) => match numbers.last() {
                Err(error) => Err(error),
                Ok(number) => Ok(front.greatest(number)),
            },
        }
    }
}

proof fn lemma_unmeasured_persists(numbers: Seq<Result<Scalar, ErrorView>>, n: int)
    requires
        0 <= n <= numbers.len(),
        greatest_of(numbers.take(n)) is Err,
    ensures
        greatest_of(numbers) == greatest_of(numbers.take(n)),
    decreases numbers.len() - n,
{
    if n == numbers.len() {
        assert(numbers.take(n) == numbers);
    } else {
        assert(numbers.take(n + 1).drop_last() == numbers.take(n));
        lemma_unmeasured_persists(numbers, n + 1);
    }
}

/// The greatest of the measured numbers.
pub fn maximum_of(numbers: &Vec<BrainResult<Scalar>>) -> (greatest: BrainResult<Scalar>)
    ensures
        plain(greatest) == greatest_of(outcomes(numbers@)),
{
    let ghost models = outcomes(numbers@);
    let mut greatest = Scalar { bits: NEGATIVE_INFINITY_BITS };
    assert(models.take(0) == Seq::<Result<Scalar, ErrorView>>::empty());
    for i in 0..numbers.len()
        invariant
            models == outcomes(numbers@),
            greatest_of(models.take(i as int)) == Ok::<_, ErrorView>(greatest),
    {
        assert(models.take(i + 1).drop_last() == models.take(i as int));
        assert(models.take(i + 1).last() == outcome(numbers@[i as int]));
        match &numbers[i] {
            Ok(number) => {
                greatest = greatest.max(*number);
            },
            Err(error) => {
                proof {
                    lemma_unmeasured_persists(models, i + 1);
                }
                return Err(error.duplicate());
            },
        }
    }
    assert(models.take(models.len() as int) == models);
    Ok(greatest)
}

/// No measured number exceeds the greatest of them.
pub proof fn greatest_bounds_every_number(numbers: Seq<Result<Scalar, ErrorView>>, i: int)
    requires
        greatest_of(numbers) is Ok,
        0 <= i < numbers.len(),
    ensures
        numbers[i] is Ok,
        !greatest_of(numbers)->Ok_0.nan(),
        !greatest_of(numbers)->Ok_0.less(numbers[i]->Ok_0),
    decreases numbers.len(),
{
    let front = numbers.drop_last();
    lemma_greatest_is_a_number(front);
    if i < front.len() {
        greatest_bounds_every_number(front, i);
        assert(front[i] == numbers[i]);
    }
}

proof fn lemma_greatest_is_a_number(numbers: Seq<Result<Scalar, ErrorView>>)
    requires
        greatest_of(numbers) is Ok,
    ensures
        !greatest_of(numbers)->Ok_0.nan(),
    decreases numbers.len(),
{
    if numbers.len() > 0 {
        lemma_greatest_is_a_number(numbers.drop_last());
    }
}

/// What a compilation is made from.
pub struct InputModel {
    pub calibration: CalibrationModel,
    pub safety: SafetyShape,
    pub policy: PolicyModel,
}

/// Whether the calibration, the safety data and the query fit together: the
/// dimension of the receiver, or what is wrong. The norms of the wrong
/// signatures matter only once everything before them is in order.
pub enum AdmissionModel {
    Failed(ErrorView),
    MeasureWrongSignatures,
    Admitted(usize),
}

/// The admission of a calibration for a query of the given dimension.
pub open spec fn admission(
    input: InputModel,
    query_dimension: usize,
    wrong_norms: Option<Seq<Result<Scalar, ErrorView>>>,
) -> AdmissionModel {
    let calibration = input.calibration;
    if calibration.functional_signatures.len() != calibration.receiver_solutions.len()
        || calibration.functional_signatures.len() < MINIMUM_ANCHORS {
        AdmissionModel::Failed(ErrorView::Invalid("receiver_compiler_calibration_count"@))
    } else {
        match (
            rows_outcome(
                calibration.functional_signatures,
                Some(query_dimension),
                "receiver_compiler_functional_anchors"@,
            ),
            rows_outcome(
                calibration.receiver_solutions,
                None,
                "receiver_compiler_receiver_anchors"@,
            ),
        ) {
            (Err(error), _) => AdmissionModel::Failed(error),
            (_, Err(error)) => AdmissionModel::Failed(error),
            (Ok(_), Ok(receiver_dimension)) => if calibration.wrong_functional_signatures.len()
                == 0 {
                AdmissionModel::Failed(
                    ErrorView::Invalid("receiver_compiler_wrong_skill_set_empty"@),
                )
            } else {
                match rows_outcome(
                    calibration.wrong_functional_signatures,
                    Some(query_dimension),
                    "receiver_compiler_wrong_signatures"@,
                ) {
                    Err(error) => AdmissionModel::Failed(error),
                    Ok(_) => match wrong_norms {
                        Some(norms) => if norms.len()
                            != calibration.wrong_functional_signatures.len() {
                            AdmissionModel::MeasureWrongSignatures
                        } else if some_degenerate(norms) {
                            AdmissionModel::Failed(
                                ErrorView::Invalid("receiver_compiler_wrong_signature_degenerate"@),
                            )
                        } else if input.safety.protected_parameters != receiver_dimension
                            || input.safety.risk_rows != receiver_dimension
                            || input.safety.risk_columns != receiver_dimension {
                            AdmissionModel::Failed(
                                ErrorView::Invalid("receiver_compiler_safety_shape"@),
                            )
                        } else {
                            AdmissionModel::Admitted(receiver_dimension)
                        },
                        None => AdmissionModel::MeasureWrongSignatures,
                    },
                }
            },
        }
    }
}

/// Everything that was measured of a compiled vector.
pub struct MeasuredModel {
    pub decoder: LearnedMap,
    pub encoder: LearnedMap,
    pub protection: ProtectionModel,
    pub trust: TrustModel,
    pub predicted: Seq<Scalar>,
    pub relative_error: Scalar,
    pub correct_cosine: Scalar,
    pub maximum_wrong_cosine: Scalar,
    pub identity_margin: Scalar,
    pub verification: VerificationModel,
}

/// Whether a compiled vector may be used, by all that was measured of it.
pub open spec fn compilation_allowed(policy: PolicyModel, measured: MeasuredModel) -> bool {
    &&& measured.decoder.resolved
    &&& measured.encoder.resolved
    &&& policy.minimum_decoder_loo_r2.at_most(measured.decoder.loo_cv_r2)
    &&& policy.minimum_encoder_loo_r2.at_most(measured.encoder.loo_cv_r2)
    &&& policy.minimum_decoder_loo_cosine.at_most(measured.decoder.min_loo_cosine)
    &&& measured.relative_error.at_most(policy.maximum_functional_relative_error)
    &&& policy.minimum_identity_margin.at_most(measured.identity_margin)
    &&& measured.protection.allowed
    &&& measured.trust.accepted_quadratic_cost.at_most(policy.maximum_quadratic_cost)
    &&& measured.verification.allowed
}

/// The compilation that was measured.
pub open spec fn compilation_of(
    input: InputModel,
    receiver_dimension: usize,
    measured: MeasuredModel,
) -> CompilationModel {
    CompilationModel {
        schema: "cerebro.tidex.receiver_compilation/v1"@,
        receiver_parameter_dimension: receiver_dimension,
        calibration_anchor_count: input.calibration.functional_signatures.len() as usize,
        target_delta: measured.trust.accepted_coefficients,
        predicted_functional_signature: measured.predicted,
        decoder_loo_r2: measured.decoder.loo_cv_r2,
        decoder_min_loo_cosine: measured.decoder.min_loo_cosine,
        encoder_loo_r2: measured.encoder.loo_cv_r2,
        encoder_min_loo_cosine: measured.encoder.min_loo_cosine,
        functional_relative_error: measured.relative_error,
        correct_cosine: measured.correct_cosine,
        maximum_wrong_cosine: measured.maximum_wrong_cosine,
        identity_margin: measured.identity_margin,
        protection_damage_ratio: measured.protection.damage_ratio,
        protection_removed_energy: measured.protection.removed_energy,
        protection_max_weighted_residual: measured.protection.max_weighted_residual,
        trust_region: measured.trust,
        operational_verification: measured.verification,
        allowed: compilation_allowed(input.policy, measured),
    }
}

/// The next step once the target vector is known and its behaviour predicted.
pub open spec fn step_of_prediction(
    input: InputModel,
    progress: ProgressModel,
    requested: Seq<Scalar>,
    receiver_dimension: usize,
    decoder: LearnedMap,
    encoder: LearnedMap,
    protection: ProtectionModel,
    trust: TrustModel,
    predicted: Seq<Scalar>,
) -> StepModel {
    let wrong = input.calibration.wrong_functional_signatures;
    match progress.relative_error {
        None => StepModel::MeasureError { observed: predicted, expected: requested },
        Some(Err(error)) => StepModel::Failed(error),
        Some(Ok(relative_error)) => match progress.correct_cosine {
            None => StepModel::MeasureCosine { observed: predicted, expected: requested },
            Some(Err(error)) => StepModel::Failed(error),
            Some(Ok(correct_cosine)) => match progress.wrong_cosines {
                Some(cosines) => if cosines.len() != wrong.len() {
                    StepModel::MeasureWrongCosines { observed: predicted, wrong }
                } else {
                    match greatest_of(cosines) {
                        Err(error) => StepModel::Failed(error),
                        Ok(maximum_wrong_cosine) => match progress.identity_margin {
                            None => StepModel::Subtract(correct_cosine, maximum_wrong_cosine),
                            Some(identity_margin) => match progress.verification {
                                None => StepModel::VerifyInterface(predicted),
                                Some(Err(error)) => StepModel::Failed(error),
                                Some(Ok(verification)) => StepModel::Done(
                                    compilation_of(
                                        input,
                                        receiver_dimension,
                                        MeasuredModel {
                                            decoder,
                                            encoder,
                                            protection,
                                            trust,
                                            predicted,
                                            relative_error,
                                            correct_cosine,
                                            maximum_wrong_cosine,
                                            identity_margin,
                                            verification,
                                        },
                                    ),
                                ),
                            },
                        },
                    }
                },
                None => StepModel::MeasureWrongCosines { observed: predicted, wrong },
            },
        },
    }
}

/// The next step once the calibration is admitted.
pub open spec fn step_of_admitted(
    input: InputModel,
    progress: ProgressModel,
    requested: Seq<Scalar>,
    receiver_dimension: usize,
) -> StepModel {
    let functional = input.calibration.functional_signatures;
    let receiver = input.calibration.receiver_solutions;
    match progress.decoder {
        None => StepModel::LearnDecoder { from: functional, to: receiver, ridge: input.policy.ridge },
        Some(Err(error)) => StepModel::Failed(error),
        Some(Ok(decoder)) => match progress.encoder {
            None => StepModel::LearnEncoder {
                from: receiver,
                to: functional,
                ridge: input.policy.ridge,
            },
            Some(Err(error)) => StepModel::Failed(error),
            Some(Ok(encoder)) => match progress.proposed {
                None => StepModel::Transplant(requested),
                Some(Err(error)) => StepModel::Failed(error),
                Some(Ok(proposed)) => match progress.protection {
                    None => StepModel::Protect(proposed),
                    Some(Err(error)) => StepModel::Failed(error),
                    Some(Ok(protection)) => match progress.trust {
                        None => StepModel::ApplyTrustRegion {
                            vector: protection.projected,
                            maximum_quadratic_cost: input.policy.maximum_quadratic_cost,
                        },
                        Some(Err(error)) => StepModel::Failed(error),
                        Some(Ok(trust)) => match progress.predicted {
                            None => StepModel::Predict(trust.accepted_coefficients),
                            Some(Err(error)) => StepModel::Failed(error),
                            Some(Ok(predicted)) => step_of_prediction(
                                input,
                                progress,
                                requested,
                                receiver_dimension,
                                decoder,
                                encoder,
                                protection,
                                trust,
                                predicted,
                            ),
                        },
                    },
                },
            },
        },
    }
}

/// The next step of a compilation.
pub open spec fn compilation_step(input: InputModel, progress: ProgressModel) -> StepModel {
    if !input.policy.acceptable() {
        StepModel::Failed(ErrorView::Invalid("receiver_compiler_policy_invalid"@))
    } else {
        match progress.interface {
            None => StepModel::ValidateInterface,
            Some(Err(error)) => StepModel::Failed(error),
            Some(Ok(_)) => match progress.requested {
                None => StepModel::ReadSignature,
                Some(Err(error)) => StepModel::Failed(error),
                Some(Ok(requested)) => match progress.requested_norm {
                    None => StepModel::MeasureQuery(requested),
                    Some(Err(error)) => StepModel::Failed(error),
                    Some(Ok(norm)) => if degenerate(norm) {
                        StepModel::Failed(
                            ErrorView::Invalid("receiver_compiler_query_degenerate"@),
                        )
                    } else {
                        match admission(input, requested.len() as usize, progress.wrong_norms) {
                            AdmissionModel::Failed(error) => StepModel::Failed(error),
                            AdmissionModel::MeasureWrongSignatures =>
                                StepModel::MeasureWrongSignatures(
                                input.calibration.wrong_functional_signatures,
                            ),
                            AdmissionModel::Admitted(receiver_dimension) => step_of_admitted(
                                input,
                                progress,
                                requested,
                                receiver_dimension,
                            ),
                        }
                    },
                },
            },
        }
    }
}

/// Where the admission of a calibration stands, in memory.
enum Admission {
    Failed(BrainError),
    MeasureWrongSignatures,
    Admitted(usize),
}

impl Admission {
    spec fn model(self) -> AdmissionModel {
        match self {
            Admission::Failed(error) => AdmissionModel::Failed(error@),
            Admission::MeasureWrongSignatures => AdmissionModel::MeasureWrongSignatures,
            Admission::Admitted(dimension) => AdmissionModel::Admitted(dimension),
        }
    }
}

fn judge_calibration(
    calibration: &ReceiverCalibrationSet,
    safety: SafetyShape,
    policy: &ReceiverCompilerPolicy,
    query_dimension: usize,
    wrong_norms: &Option<Vec<BrainResult<Scalar>>>,
) -> (admitted: Admission)
    ensures
        admitted.model() == admission(
            InputModel { calibration: calibration@, safety, policy: policy@ },
            query_dimension,
            awaited_list(*wrong_norms),
        ),
{
    if calibration.functional_signatures.len() != calibration.receiver_solutions.len()
        || calibration.functional_signatures.len() < MINIMUM_ANCHORS {
        return Admission::Failed(BrainError::invalid("receiver_compiler_calibration_count"));
    }
    if let Err(error) = validate_rows(
        &calibration.functional_signatures,
        Some(query_dimension),
        "receiver_compiler_functional_anchors",
    ) {
        return Admission::Failed(error);
    }
    let receiver_dimension: usize = match validate_rows(
        &calibration.receiver_solutions,
        None,
        "receiver_compiler_receiver_anchors",
    ) {
        Ok(dimension) => dimension,
        Err(error) => {
            return Admission::Failed(error);
        },
    };
    if calibration.wrong_functional_signatures.len() == 0 {
        return Admission::Failed(BrainError::invalid("receiver_compiler_wrong_skill_set_empty"));
    }
    if let Err(error) = validate_rows(
        &calibration.wrong_functional_signatures,
        Some(query_dimension),
        "receiver_compiler_wrong_signatures",
    ) {
        return Admission::Failed(error);
    }
    match wrong_norms {
        Some(norms) if norms.len() == calibration.wrong_functional_signatures.len() => {
            if any_degenerate(norms) {
                return Admission::Failed(
                    BrainError::invalid("receiver_compiler_wrong_signature_degenerate"),
                );
            }
        },
        _ => {
            return Admission::MeasureWrongSignatures;
        },
    }
    if safety.protected_parameters != receiver_dimension || safety.risk_rows != receiver_dimension
        || safety.risk_columns != receiver_dimension {
        return Admission::Failed(BrainError::invalid("receiver_compiler_safety_shape"));
    }
    Admission::Admitted(receiver_dimension)
}

/// The vectors and maps that a prediction rests on, borrowed from the progress.
struct Compiled<'a> {
    requested: &'a Vec<Scalar>,
    receiver_dimension: usize,
    decoder: LearnedMap,
    encoder: LearnedMap,
    protection: &'a ProtectionResult,
    trust: &'a TrustRegionResult,
    predicted: &'a Vec<Scalar>,
}

fn after_prediction<'a>(
    calibration: &'a ReceiverCalibrationSet,
    safety: SafetyShape,
    policy: &ReceiverCompilerPolicy,
    progress: &'a CompilationProgress,
    compiled: Compiled<'a>,
) -> (step: CompilationStep<'a>)
    ensures
        step@ == step_of_prediction(
            InputModel { calibration: calibration@, safety, policy: policy@ },
            progress@,
            compiled.requested@,
            compiled.receiver_dimension,
            compiled.decoder,
            compiled.encoder,
            compiled.protection@,
            compiled.trust@,
            compiled.predicted@,
        ),
{
    let relative_error = match &progress.relative_error {
        None => {
            return CompilationStep::MeasureError {
                observed: compiled.predicted,
                expected: compiled.requested,
            };
        },
        Some(Err(error)) => {
            return CompilationStep::Failed(error.duplicate());
        },
        Some(Ok(relative_error)) => *relative_error,
    };
    let correct_cosine = match &progress.correct_cosine {
        None => {
            return CompilationStep::MeasureCosine {
                observed: compiled.predicted,
                expected: compiled.requested,
            };
        },
        Some(Err(error)) => {
            return CompilationStep::Failed(error.duplicate());
        },
        Some(Ok(correct_cosine)) => *correct_cosine,
    };
    let cosines = match &progress.wrong_cosines {
        Some(cosines) if cosines.len() == calibration.wrong_functional_signatures.len() => cosines,
        _ => {
            return CompilationStep::MeasureWrongCosines {
                observed: compiled.predicted,
                wrong: &calibration.wrong_functional_signatures,
            };
        },
    };
    let maximum_wrong_cosine = match maximum_of(cosines) {
        Ok(maximum) => maximum,
        Err(error) => {
            return CompilationStep::Failed(error);
        },
    };
    let identity_margin = match progress.identity_margin {
        None => {
            return CompilationStep::Subtract(correct_cosine, maximum_wrong_cosine);
        },
        Some(identity_margin) => identity_margin,
    };
    let verification = match &progress.verification {
        None => {
            return CompilationStep::VerifyInterface(compiled.predicted);
        },
        Some(Err(error)) => {
            return CompilationStep::Failed(error.duplicate());
        },
        Some(Ok(verification)) => verification,
    };
    let decoder = compiled.decoder;
    let encoder = compiled.encoder;
    let protection = compiled.protection;
    let trust = compiled.trust;
    let allowed = decoder.resolved && encoder.resolved && policy.minimum_decoder_loo_r2.le(
        decoder.loo_cv_r2,
    ) && policy.minimum_encoder_loo_r2.le(encoder.loo_cv_r2)
        && policy.minimum_decoder_loo_cosine.le(decoder.min_loo_cosine) && relative_error.le(
        policy.maximum_functional_relative_error,
    ) && policy.minimum_identity_margin.le(identity_margin) && protection.allowed
        && trust.accepted_quadratic_cost.le(policy.maximum_quadratic_cost) && verification.allowed;
    CompilationStep::Done(
        ReceiverCompilation {
            schema: "cerebro.tidex.receiver_compilation/v1".to_owned(),
            receiver_parameter_dimension: compiled.receiver_dimension,
            calibration_anchor_count: calibration.functional_signatures.len(),
            target_delta: row_copy(&trust.accepted_coefficients),
            predicted_functional_signature: row_copy(compiled.predicted),
            decoder_loo_r2: decoder.loo_cv_r2,
            decoder_min_loo_cosine: decoder.min_loo_cosine,
            encoder_loo_r2: encoder.loo_cv_r2,
            encoder_min_loo_cosine: encoder.min_loo_cosine,
            functional_relative_error: relative_error,
            correct_cosine,
            maximum_wrong_cosine,
            identity_margin,
            protection_damage_ratio: protection.damage_ratio,
            protection_removed_energy: protection.removed_energy,
            protection_max_weighted_residual: protection.max_weighted_residual,
            trust_region: TrustRegionResult {
                scale: trust.scale,
                max_quadratic_cost: trust.max_quadratic_cost,
                accepted_coefficients: row_copy(&trust.accepted_coefficients),
                accepted_quadratic_cost: trust.accepted_quadratic_cost,
                details: trust.details.clone(),
            },
            operational_verification: OperationalInterfaceVerification {
                allowed: verification.allowed,
                details: verification.details.clone(),
            },
            allowed,
        },
    )
}

fn after_admission<'a>(
    calibration: &'a ReceiverCalibrationSet,
    safety: SafetyShape,
    policy: &ReceiverCompilerPolicy,
    progress: &'a CompilationProgress,
    requested: &'a Vec<Scalar>,
    receiver_dimension: usize,
) -> (step: CompilationStep<'a>)
    ensures
        step@ == step_of_admitted(
            InputModel { calibration: calibration@, safety, policy: policy@ },
            progress@,
            requested@,
            receiver_dimension,
        ),
{
    let decoder = match &progress.decoder {
        None => {
            return CompilationStep::LearnDecoder {
                from: &calibration.functional_signatures,
                to: &calibration.receiver_solutions,
                ridge: policy.ridge,
            };
        },
        Some(Err(error)) => {
            return CompilationStep::Failed(error.duplicate());
        },
        Some(Ok(decoder)) => *decoder,
    };
    let encoder = match &progress.encoder {
        None => {
            return CompilationStep::LearnEncoder {
                from: &calibration.receiver_solutions,
                to: &calibration.functional_signatures,
                ridge: policy.ridge,
            };
        },
        Some(Err(error)) => {
            return CompilationStep::Failed(error.duplicate());
        },
        Some(Ok(encoder)) => *encoder,
    };
    let proposed = match &progress.proposed {
        None => {
            return CompilationStep::Transplant(requested);
        },
        Some(Err(error)) => {
            return CompilationStep::Failed(error.duplicate());
        },
        Some(Ok(proposed)) => proposed,
    };
    // Protection precedes trust-region scaling: scaling a vector uniformly
    // cannot bring back a component that the projection removed.
    let protection = match &progress.protection {
        None => {
            return CompilationStep::Protect(proposed);
        },
        Some(Err(error)) => {
            return CompilationStep::Failed(error.duplicate());
        },
        Some(Ok(protection)) => protection,
    };
    let trust = match &progress.trust {
        None => {
            return CompilationStep::ApplyTrustRegion {
                vector: &protection.projected,
                maximum_quadratic_cost: policy.maximum_quadratic_cost,
            };
        },
        Some(Err(error)) => {
            return CompilationStep::Failed(error.duplicate());
        },
        Some(Ok(trust)) => trust,
    };
    let predicted = match &progress.predicted {
        None => {
            return CompilationStep::Predict(&trust.accepted_coefficients);
        },
        Some(Err(error)) => {
            return CompilationStep::Failed(error.duplicate());
        },
        Some(Ok(predicted)) => predicted,
    };
    after_prediction(
        calibration,
        safety,
        policy,
        progress,
        Compiled {
            requested,
            receiver_dimension,
            decoder,
            encoder,
            protection,
            trust,
            predicted,
        },
    )
}

/// Decides what the compilation of one capability for one receiver needs next,
/// or how it ends.
///
/// The calibration must not contain the queried capability where the result is
/// used as evidence of portability; whoever prepares the calibration is
/// responsible for that split.
pub fn compile_receiver_capability<'a>(
    calibration: &'a ReceiverCalibrationSet,
    safety: SafetyShape,
    policy: &ReceiverCompilerPolicy,
    progress: &'a CompilationProgress,
) -> (step: CompilationStep<'a>)
    ensures
        step@ == compilation_step(
            InputModel { calibration: calibration@, safety, policy: policy@ },
            progress@,
        ),
{
    if let Err(error) = policy.validate() {
        return CompilationStep::Failed(error);
    }
    match &progress.interface {
        None => {
            return CompilationStep::ValidateInterface;
        },
        Some(Err(error)) => {
            return CompilationStep::Failed(error.duplicate());
        },
        Some(Ok(_)) => {},
    }
    let requested = match &progress.requested {
        None => {
            return CompilationStep::ReadSignature;
        },
        Some(Err(error)) => {
            return CompilationStep::Failed(error.duplicate());
        },
        Some(Ok(requested)) => requested,
    };
    match &progress.requested_norm {
        None => {
            return CompilationStep::MeasureQuery(requested);
        },
        Some(Err(error)) => {
            return CompilationStep::Failed(error.duplicate());
        },
        Some(Ok(norm)) => {
            if is_degenerate(*norm) {
                return CompilationStep::Failed(
                    BrainError::invalid("receiver_compiler_query_degenerate"),
                );
            }
        },
    }
    match judge_calibration(calibration, safety, policy, requested.len(), &progress.wrong_norms) {
        Admission::Failed(error) => CompilationStep::Failed(error),
        Admission::MeasureWrongSignatures => CompilationStep::MeasureWrongSignatures(
            &calibration.wrong_functional_signatures,
        ),
        Admission::Admitted(receiver_dimension) => after_admission(
            calibration,
            safety,
            policy,
            progress,
            requested,
            receiver_dimension,
        ),
    }
}

/// A compilation is allowed exactly when both maps are resolved and generalise
/// as the policy asks, the error and the cost stay within their bounds, the
/// margin to every wrong capability is kept, and both the protection and the
/// operational interface allow it.
pub proof fn compilation_is_allowed_exactly_when_every_condition_holds(
    input: InputModel,
    progress: ProgressModel,
)
    requires
        compilation_step(input, progress) is Done,
    ensures
        compilation_step(input, progress)->Done_0.allowed <==> {
            let decoder = progress.decoder->0->Ok_0;
            let encoder = progress.encoder->0->Ok_0;
            &&& decoder.resolved && encoder.resolved
            &&& input.policy.minimum_decoder_loo_r2.at_most(decoder.loo_cv_r2)
            &&& input.policy.minimum_encoder_loo_r2.at_most(encoder.loo_cv_r2)
            &&& input.policy.minimum_decoder_loo_cosine.at_most(decoder.min_loo_cosine)
            &&& progress.relative_error->0->Ok_0.at_most(
                input.policy.maximum_functional_relative_error,
            )
            &&& input.policy.minimum_identity_margin.at_most(progress.identity_margin->0)
            &&& progress.protection->0->Ok_0.allowed
            &&& progress.trust->0->Ok_0.accepted_quadratic_cost.at_most(
                input.policy.maximum_quadratic_cost,
            )
            &&& progress.verification->0->Ok_0.allowed
        },
{
}

/// Whatever is scaled into the trust region was projected away from what is
/// protected before.
pub proof fn protection_precedes_the_trust_region(input: InputModel, progress: ProgressModel)
    requires
        compilation_step(input, progress) is ApplyTrustRegion,
    ensures
        progress.protection matches Some(Ok(protection))
            && compilation_step(input, progress)->ApplyTrustRegion_vector == protection.projected,
{
}

/// A capability is compiled only under an acceptable policy, from at least five
/// matched anchors of regular shape, and against at least one wrong capability. Its
/// delta is what the trust region accepted, and its signature is what the reverse
/// map predicts for that delta.
pub proof fn compilation_rests_on_an_admitted_calibration(
    input: InputModel,
    progress: ProgressModel,
)
    requires
        compilation_step(input, progress) is Done,
    ensures
        input.policy.acceptable(),
        input.calibration.functional_signatures.len() >= 5,
        input.calibration.functional_signatures.len() == input.calibration.receiver_solutions.len(),
        input.calibration.wrong_functional_signatures.len() > 0,
        rows_regular(
            input.calibration.receiver_solutions,
            compilation_step(input, progress)->Done_0.receiver_parameter_dimension as int,
        ),
        compilation_step(input, progress)->Done_0.receiver_parameter_dimension
            == input.safety.protected_parameters,
        progress.trust matches Some(Ok(trust)) && compilation_step(
            input,
            progress,
        )->Done_0.target_delta == trust.accepted_coefficients,
        progress.predicted matches Some(Ok(predicted)) && compilation_step(
            input,
            progress,
        )->Done_0.predicted_functional_signature == predicted,
{
}

/// The behaviour that a compilation is judged by is that of the delta it reports:
/// the vector that is sent through the encoder is what the trust region accepted,
/// and whatever compilation ends later with that trust region reports this vector
/// as its delta and the prediction for it as its signature.
pub proof fn predicted_vector_is_the_reported_delta(
    input: InputModel,
    progress: ProgressModel,
    later: ProgressModel,
    vector: Seq<Scalar>,
)
    requires
        compilation_step(input, progress) == StepModel::Predict(vector),
    ensures
        progress.trust matches Some(Ok(trust)) && trust.accepted_coefficients == vector,
        progress.predicted is None,
        compilation_step(input, later) is Done && later.trust == progress.trust ==> {
            &&& compilation_step(input, later)->Done_0.target_delta == vector
            &&& compilation_step(input, later)->Done_0.trust_region.accepted_coefficients == vector
            &&& later.predicted == Some(
                Ok::<_, ErrorView>(
                    compilation_step(input, later)->Done_0.predicted_functional_signature,
                ),
            )
        },
{
}

/// The decoder is learned from functional signatures to receiver solutions, the
/// encoder the other way round, both on the whole calibration and with the ridge of
/// the policy.
pub proof fn maps_are_learned_in_opposite_directions(input: InputModel, progress: ProgressModel)
    ensures
        compilation_step(input, progress) matches StepModel::LearnDecoder { from, to, ridge } ==> {
            &&& from == input.calibration.functional_signatures
            &&& to == input.calibration.receiver_solutions
            &&& ridge == input.policy.ridge
            &&& progress.decoder is None
        },
        compilation_step(input, progress) matches StepModel::LearnEncoder { from, to, ridge } ==> {
            &&& from == input.calibration.receiver_solutions
            &&& to == input.calibration.functional_signatures
            &&& ridge == input.policy.ridge
            &&& progress.decoder is Some && progress.decoder->0 is Ok && progress.encoder is None
        },
{
}

/// Every vector that the engine works on is the one that the step before it gave:
/// the query is transplanted, its image is projected, and the projection is scaled
/// within the cost that the policy allows.
pub proof fn every_vector_comes_from_the_step_before(input: InputModel, progress: ProgressModel)
    ensures
        compilation_step(input, progress) matches StepModel::MeasureQuery(row)
            ==> progress.requested == Some(Ok::<_, ErrorView>(row)),
        compilation_step(input, progress) matches StepModel::MeasureWrongSignatures(rows) ==> rows
            == input.calibration.wrong_functional_signatures,
        compilation_step(input, progress) matches StepModel::Transplant(row) ==> progress.requested
            == Some(Ok::<_, ErrorView>(row)) && progress.encoder is Some && progress.encoder->0 is Ok,
        compilation_step(input, progress) matches StepModel::Protect(row) ==> progress.proposed
            == Some(Ok::<_, ErrorView>(row)),
        compilation_step(input, progress) matches StepModel::ApplyTrustRegion {
            vector,
            maximum_quadratic_cost,
        } ==> {
            &&& progress.protection is Some && progress.protection->0 is Ok
            &&& progress.protection->0->Ok_0.projected == vector
            &&& maximum_quadratic_cost == input.policy.maximum_quadratic_cost
        },
        compilation_step(input, progress) matches StepModel::VerifyInterface(row)
            ==> progress.predicted == Some(Ok::<_, ErrorView>(row)),
{
}

/// The predicted behaviour is measured against the query, and against every wrong
/// signature of the calibration; the margin is what the cosine with the query has
/// over the greatest cosine with a wrong signature.
pub proof fn predictions_are_measured_against_the_query(
    input: InputModel,
    progress: ProgressModel,
)
    ensures
        compilation_step(input, progress) matches StepModel::MeasureError { observed, expected }
            ==> progress.predicted == Some(Ok::<_, ErrorView>(observed)) && progress.requested
            == Some(Ok::<_, ErrorView>(expected)),
        compilation_step(input, progress) matches StepModel::MeasureCosine { observed, expected }
            ==> progress.predicted == Some(Ok::<_, ErrorView>(observed)) && progress.requested
            == Some(Ok::<_, ErrorView>(expected)),
        compilation_step(input, progress) matches StepModel::MeasureWrongCosines { observed, wrong }
            ==> progress.predicted == Some(Ok::<_, ErrorView>(observed)) && wrong
            == input.calibration.wrong_functional_signatures,
        compilation_step(input, progress) matches StepModel::Subtract(correct, greatest) ==> {
            &&& progress.correct_cosine == Some(Ok::<_, ErrorView>(correct))
            &&& is_greatest_of(progress.wrong_cosines->0, greatest)
        },
{
    if compilation_step(input, progress) is Subtract {
        lemma_greatest_of_is_greatest(progress.wrong_cosines->0);
    }
}

/// A number that no measured number exceeds, and that is one of them or, where
/// none of them is a number above it, negative infinity.
pub open spec fn is_greatest_of(numbers: Seq<Result<Scalar, ErrorView>>, greatest: Scalar) -> bool {
    &&& !greatest.nan()
    &&& forall|i: int|
        0 <= i < numbers.len() ==> (#[trigger] numbers[i]) is Ok && (numbers[i]->Ok_0.nan()
            || numbers[i]->Ok_0.units() <= greatest.units())
    &&& greatest.bits == 0xFFF0_0000_0000_0000 || exists|i: int|
        0 <= i < numbers.len() && #[trigger] numbers[i] == Ok::<_, ErrorView>(greatest)
}

proof fn lemma_greatest_of_is_greatest(numbers: Seq<Result<Scalar, ErrorView>>)
    requires
        greatest_of(numbers) is Ok,
    ensures
        is_greatest_of(numbers, greatest_of(numbers)->Ok_0),
    decreases numbers.len(),
{
    let greatest = greatest_of(numbers)->Ok_0;
    lemma_greatest_is_a_number(numbers);
    assert forall|i: int| 0 <= i < numbers.len() implies (#[trigger] numbers[i]) is Ok && (
    numbers[i]->Ok_0.nan() || numbers[i]->Ok_0.units() <= greatest.units()) by {
        greatest_bounds_every_number(numbers, i);
    }
    if numbers.len() > 0 {
        let front = numbers.drop_last();
        lemma_greatest_of_is_greatest(front);
        let last = numbers.len() - 1;
        if numbers[last] == Ok::<_, ErrorView>(greatest) {
        } else if greatest.bits != 0xFFF0_0000_0000_0000 {
            let k = choose|i: int|
                0 <= i < front.len() && #[trigger] front[i] == Ok::<_, ErrorView>(greatest);
            assert(numbers[k] == Ok::<_, ErrorView>(greatest));
        }
    }
}

/// Every number of a compilation is the one that was reported under its name.
pub proof fn compilations_report_what_was_measured(input: InputModel, progress: ProgressModel)
    requires
        compilation_step(input, progress) is Done,
    ensures
        ({
            let done = compilation_step(input, progress)->Done_0;
            let decoder = progress.decoder->0->Ok_0;
            let encoder = progress.encoder->0->Ok_0;
            let protection = progress.protection->0->Ok_0;
            &&& done.schema == "cerebro.tidex.receiver_compilation/v1"@
            &&& done.calibration_anchor_count == input.calibration.functional_signatures.len()
                as usize
            &&& progress.decoder is Some && progress.decoder->0 is Ok
            &&& progress.encoder is Some && progress.encoder->0 is Ok
            &&& done.decoder_loo_r2 == decoder.loo_cv_r2
            &&& done.decoder_min_loo_cosine == decoder.min_loo_cosine
            &&& done.encoder_loo_r2 == encoder.loo_cv_r2
            &&& done.encoder_min_loo_cosine == encoder.min_loo_cosine
            &&& progress.relative_error == Some(
                Ok::<_, ErrorView>(done.functional_relative_error),
            )
            &&& progress.correct_cosine == Some(Ok::<_, ErrorView>(done.correct_cosine))
            &&& is_greatest_of(progress.wrong_cosines->0, done.maximum_wrong_cosine)
            &&& progress.wrong_cosines->0.len()
                == input.calibration.wrong_functional_signatures.len()
            &&& progress.identity_margin == Some(done.identity_margin)
            &&& progress.protection is Some && progress.protection->0 is Ok
            &&& done.protection_damage_ratio == protection.damage_ratio
            &&& done.protection_removed_energy == protection.removed_energy
            &&& done.protection_max_weighted_residual == protection.max_weighted_residual
            &&& progress.trust == Some(Ok::<_, ErrorView>(done.trust_region))
            &&& progress.verification == Some(Ok::<_, ErrorView>(done.operational_verification))
        }),
{
    lemma_greatest_of_is_greatest(progress.wrong_cosines->0);
}

/// Whether a list of rows is not empty, and every row has the given positive length
/// and only finite numbers.
pub open spec fn finite_table(rows: Seq<Seq<Scalar>>, width: int) -> bool {
    &&& rows.len() > 0
    &&& width > 0
    &&& forall|i: int, j: int|
        0 <= i < rows.len() && 0 <= j < rows[i].len() ==> (#[trigger] rows[i][j]).finite()
    &&& forall|i: int| 0 <= i < rows.len() ==> (#[trigger] rows[i]).len() == width
}

proof fn lemma_regular_rows_are_a_table(rows: Seq<Seq<Scalar>>, width: int)
    requires
        rows.len() > 0,
        width > 0,
    ensures
        rows_regular(rows, width) <==> finite_table(rows, width),
{
    if finite_table(rows, width) {
        assert forall|i: int| 0 <= i < rows.len() implies (#[trigger] rows[i]).len() == width
            && all_finite(rows[i]) by {
            assert forall|j: int| 0 <= j < rows[i].len() implies (#[trigger] rows[i][j]).finite() by {
            }
        }
    }
    if rows_regular(rows, width) {
        assert forall|i: int, j: int| 0 <= i < rows.len() && 0 <= j < rows[i].len() implies (
        #[trigger] rows[i][j]).finite() by {
            assert(all_finite(rows[i]));
        }
    }
}

/// What a compilation may be learned from: at least five pairs of a signature as
/// long as the query and a solution as long as the protection and the risk metric
/// say, and some wrong signature as long as the query, each with a direction.
pub open spec fn sound_calibration(
    input: InputModel,
    query: Seq<Scalar>,
    wrong_norms: Seq<Result<Scalar, ErrorView>>,
) -> bool {
    let width = input.safety.protected_parameters;
    &&& input.calibration.functional_signatures.len() >= 5
    &&& input.calibration.functional_signatures.len() == input.calibration.receiver_solutions.len()
    &&& finite_table(input.calibration.functional_signatures, query.len() as int)
    &&& finite_table(input.calibration.receiver_solutions, width as int)
    &&& finite_table(input.calibration.wrong_functional_signatures, query.len() as int)
    &&& input.safety.risk_rows == width && input.safety.risk_columns == width
    &&& wrong_norms.len() == input.calibration.wrong_functional_signatures.len()
    &&& forall|i: int|
        0 <= i < wrong_norms.len() ==> (#[trigger] wrong_norms[i]) is Ok && !wrong_norms[i]->Ok_0.at_most(
            Scalar { bits: 0x3CD2_03AF_9EE7_5616 },
        )
}

/// Nothing is learned from an unsound calibration, and a sound one is never
/// refused: whatever is asked for after the norms rests on an acceptable policy, a
/// valid interface, a query with a direction and a sound calibration, and with
/// these at hand the maps are learned.
pub proof fn only_sound_calibrations_are_learned_from(
    input: InputModel,
    progress: ProgressModel,
)
    requires
        progress.requested matches Some(Ok(query)) ==> query.len() <= usize::MAX,
        forall|i: int|
            0 <= i < input.calibration.receiver_solutions.len() ==> (
            #[trigger] input.calibration.receiver_solutions[i]).len() <= usize::MAX,
    ensures
        ({
            let step = compilation_step(input, progress);
            let ready = {
                &&& input.policy.acceptable()
                &&& progress.interface is Some && progress.interface->0 is Ok
                &&& progress.requested is Some && progress.requested->0 is Ok
                &&& progress.requested_norm is Some && progress.requested_norm->0 is Ok
                &&& !progress.requested_norm->0->Ok_0.at_most(
                    Scalar { bits: 0x3CD2_03AF_9EE7_5616 },
                )
                &&& progress.wrong_norms is Some
                &&& sound_calibration(
                    input,
                    progress.requested->0->Ok_0,
                    progress.wrong_norms->0,
                )
            };
            &&& step is LearnDecoder || step is LearnEncoder || step is Transplant || step is Protect
                || step is ApplyTrustRegion || step is Predict || step is MeasureError
                || step is MeasureCosine || step is MeasureWrongCosines || step is Subtract
                || step is VerifyInterface || step is Done ==> ready
            &&& ready && progress.decoder is None ==> step is LearnDecoder
            &&& ready && progress.decoder is Some && progress.decoder->0 is Ok
                && progress.encoder is None ==> step is LearnEncoder
        }),
{
    if progress.requested is Some && progress.requested->0 is Ok {
        let width = progress.requested->0->Ok_0.len() as int;
        let functional = input.calibration.functional_signatures;
        let receiver = input.calibration.receiver_solutions;
        let wrong = input.calibration.wrong_functional_signatures;
        let kept = input.safety.protected_parameters as int;
        if functional.len() > 0 && width > 0 {
            lemma_regular_rows_are_a_table(functional, width);
        }
        if wrong.len() > 0 && width > 0 {
            lemma_regular_rows_are_a_table(wrong, width);
        }
        if receiver.len() > 0 && kept > 0 {
            lemma_regular_rows_are_a_table(receiver, kept);
            assert(receiver[0].len() <= usize::MAX);
        }
    }
}

/// A compilation ends once everything was reported: with every outcome there and
/// none of them an error, nothing more is asked for and nothing is refused.
pub proof fn reported_compilations_end(input: InputModel, progress: ProgressModel)
    requires
        compilation_step(input, progress) is Done || compilation_step(
            input,
            (ProgressModel { decoder: None, ..progress }),
        ) is LearnDecoder,
    ensures
        compilation_step(input, progress) is Done <==> {
            &&& progress.decoder is Some && progress.decoder->0 is Ok
            &&& progress.encoder is Some && progress.encoder->0 is Ok
            &&& progress.proposed is Some && progress.proposed->0 is Ok
            &&& progress.protection is Some && progress.protection->0 is Ok
            &&& progress.trust is Some && progress.trust->0 is Ok
            &&& progress.predicted is Some && progress.predicted->0 is Ok
            &&& progress.relative_error is Some && progress.relative_error->0 is Ok
            &&& progress.correct_cosine is Some && progress.correct_cosine->0 is Ok
            &&& progress.wrong_cosines is Some
            &&& progress.wrong_cosines->0.len()
                == input.calibration.wrong_functional_signatures.len()
            &&& forall|i: int|
                0 <= i < progress.wrong_cosines->0.len() ==> (
                #[trigger] progress.wrong_cosines->0[i]) is Ok
            &&& progress.identity_margin is Some
            &&& progress.verification is Some && progress.verification->0 is Ok
        },
{
    if progress.wrong_cosines is Some {
        let cosines = progress.wrong_cosines->0;
        if forall|i: int| 0 <= i < cosines.len() ==> (#[trigger] cosines[i]) is Ok {
            lemma_all_measured(cosines);
        }
        if greatest_of(cosines) is Ok {
            assert forall|i: int| 0 <= i < cosines.len() implies (#[trigger] cosines[i]) is Ok by {
                greatest_bounds_every_number(cosines, i);
            }
        }
    }
}

proof fn lemma_all_measured(numbers: Seq<Result<Scalar, ErrorView>>)
    requires
        forall|i: int| 0 <= i < numbers.len() ==> (#[trigger] numbers[i]) is Ok,
    ensures
        greatest_of(numbers) is Ok,
    decreases numbers.len(),
{
    if numbers.len() > 0 {
        let front = numbers.drop_last();
        assert forall|i: int| 0 <= i < front.len() implies (#[trigger] front[i]) is Ok by {
            assert(front[i] == numbers[i]);
        }
        lemma_all_measured(front);
        assert(numbers[numbers.len() - 1] is Ok);
    }
}

/// Every refusal of the calibration names the first thing that is wrong with it.
pub proof fn calibration_refusals_name_their_cause(
    input: InputModel,
    query_dimension: usize,
    wrong_norms: Option<Seq<Result<Scalar, ErrorView>>>,
    code: Seq<char>,
)
    requires
        admission(input, query_dimension, wrong_norms) == AdmissionModel::Failed(
            ErrorView::Invalid(code),
        ),
        input.calibration.receiver_solutions.len() > 0 ==> input.calibration.receiver_solutions[0].len()
            <= usize::MAX,
    ensures
        ({
            let functional = input.calibration.functional_signatures;
            let receiver = input.calibration.receiver_solutions;
            let wrong = input.calibration.wrong_functional_signatures;
            let counted = functional.len() >= 5 && functional.len() == receiver.len();
            let known = finite_table(functional, query_dimension as int);
            let solved = finite_table(receiver, receiver[0].len() as int);
            &&& (code == "receiver_compiler_calibration_count"@) == !counted
            &&& code == "receiver_compiler_functional_anchors"@ + "_shape"@ ==> counted && !known
            &&& code == "receiver_compiler_receiver_anchors"@ + "_shape"@ ==> counted && known
                && !solved
            &&& code == "receiver_compiler_wrong_skill_set_empty"@ ==> counted && known && solved
                && wrong.len() == 0
            &&& code == "receiver_compiler_wrong_signatures"@ + "_shape"@ ==> wrong.len() > 0
                && !finite_table(wrong, query_dimension as int)
            &&& code == "receiver_compiler_wrong_signature_degenerate"@ ==> wrong_norms is Some
                && exists|i: int|
                0 <= i < wrong_norms->0.len() && ((#[trigger] wrong_norms->0[i]) is Err
                    || wrong_norms->0[i]->Ok_0.at_most(Scalar { bits: 0x3CD2_03AF_9EE7_5616 }))
            &&& code == "receiver_compiler_safety_shape"@ ==> counted && known && solved && {
                ||| input.safety.protected_parameters != receiver[0].len()
                ||| input.safety.risk_rows != receiver[0].len()
                ||| input.safety.risk_columns != receiver[0].len()
            }
        }),
{
    let functional = input.calibration.functional_signatures;
    let receiver = input.calibration.receiver_solutions;
    let wrong = input.calibration.wrong_functional_signatures;
    if functional.len() > 0 && query_dimension > 0 {
        lemma_regular_rows_are_a_table(functional, query_dimension as int);
    }
    if wrong.len() > 0 && query_dimension > 0 {
        lemma_regular_rows_are_a_table(wrong, query_dimension as int);
    }
    if receiver.len() > 0 && receiver[0].len() > 0 {
        lemma_regular_rows_are_a_table(receiver, receiver[0].len() as int);
    }
    lemma_calibration_codes();
}

proof fn lemma_calibration_codes()
    ensures
        ({
            let count = "receiver_compiler_calibration_count"@;
            let functional = "receiver_compiler_functional_anchors"@ + "_shape"@;
            let receiver = "receiver_compiler_receiver_anchors"@ + "_shape"@;
            let none = "receiver_compiler_wrong_skill_set_empty"@;
            let wrong = "receiver_compiler_wrong_signatures"@ + "_shape"@;
            let degenerate = "receiver_compiler_wrong_signature_degenerate"@;
            let safety = "receiver_compiler_safety_shape"@;
            &&& count != functional && count != receiver && count != none && count != wrong && count
                != degenerate && count != safety
            &&& functional != receiver && functional != none && functional != wrong && functional
                != degenerate && functional != safety
            &&& receiver != none && receiver != wrong && receiver != degenerate && receiver != safety
            &&& none != wrong && none != degenerate && none != safety
            &&& wrong != degenerate && wrong != safety
            &&& degenerate != safety
        }),
{
    reveal_strlit("receiver_compiler_calibration_count");
    reveal_strlit("receiver_compiler_functional_anchors");
    reveal_strlit("receiver_compiler_receiver_anchors");
    reveal_strlit("receiver_compiler_wrong_skill_set_empty");
    reveal_strlit("receiver_compiler_wrong_signatures");
    reveal_strlit("receiver_compiler_wrong_signature_degenerate");
    reveal_strlit("receiver_compiler_safety_shape");
    reveal_strlit("_shape");
    assert("receiver_compiler_calibration_count"@[18] == 'c');
    assert(("receiver_compiler_functional_anchors"@ + "_shape"@)[18] == 'f');
    assert(("receiver_compiler_receiver_anchors"@ + "_shape"@)[18] == 'r');
    assert("receiver_compiler_safety_shape"@[18] == 's');
    assert("receiver_compiler_wrong_skill_set_empty"@[18] == 'w');
    assert(("receiver_compiler_wrong_signatures"@ + "_shape"@)[18] == 'w');
    assert("receiver_compiler_wrong_signature_degenerate"@[18] == 'w');
    assert("receiver_compiler_wrong_skill_set_empty"@[25] == 'k');
    assert(("receiver_compiler_wrong_signatures"@ + "_shape"@)[25] == 'i');
    assert("receiver_compiler_wrong_signature_degenerate"@[25] == 'i');
    assert(("receiver_compiler_wrong_signatures"@ + "_shape"@)[33] == 's');
    assert("receiver_compiler_wrong_signature_degenerate"@[33] == '_');
}

/// Whatever a compilation asks for, it asks only while it has no answer, and an error
/// in answer to it is the error that the compilation fails with.
pub proof fn errors_end_a_compilation(input: InputModel, progress: ProgressModel, error: ErrorView)
    ensures
        compilation_step(input, progress) is ValidateInterface ==> progress.interface is None && compilation_step(
            input,
            (ProgressModel { interface: Some(Err::<(), _>(error)), ..progress }),
        ) == StepModel::Failed(error),
        compilation_step(input, progress) is ReadSignature ==> progress.requested is None && compilation_step(
            input,
            (ProgressModel { requested: Some(Err::<Seq<Scalar>, _>(error)), ..progress }),
        ) == StepModel::Failed(error),
        compilation_step(input, progress) is MeasureQuery ==> progress.requested_norm is None && compilation_step(
            input,
            (ProgressModel { requested_norm: Some(Err::<Scalar, _>(error)), ..progress }),
        ) == StepModel::Failed(error),
        compilation_step(input, progress) is LearnDecoder ==> progress.decoder is None && compilation_step(
            input,
            (ProgressModel { decoder: Some(Err::<LearnedMap, _>(error)), ..progress }),
        ) == StepModel::Failed(error),
        compilation_step(input, progress) is LearnEncoder ==> progress.encoder is None && compilation_step(
            input,
            (ProgressModel { encoder: Some(Err::<LearnedMap, _>(error)), ..progress }),
        ) == StepModel::Failed(error),
        compilation_step(input, progress) is Transplant ==> progress.proposed is None && compilation_step(
            input,
            (ProgressModel { proposed: Some(Err::<Seq<Scalar>, _>(error)), ..progress }),
        ) == StepModel::Failed(error),
        compilation_step(input, progress) is Protect ==> progress.protection is None && compilation_step(
            input,
            (ProgressModel { protection: Some(Err::<ProtectionModel, _>(error)), ..progress }),
        ) == StepModel::Failed(error),
        compilation_step(input, progress) is ApplyTrustRegion ==> progress.trust is None && compilation_step(
            input,
            (ProgressModel { trust: Some(Err::<TrustModel, _>(error)), ..progress }),
        ) == StepModel::Failed(error),
        compilation_step(input, progress) is Predict ==> progress.predicted is None && compilation_step(
            input,
            (ProgressModel { predicted: Some(Err::<Seq<Scalar>, _>(error)), ..progress }),
        ) == StepModel::Failed(error),
        compilation_step(input, progress) is MeasureError ==> progress.relative_error is None && compilation_step(
            input,
            (ProgressModel { relative_error: Some(Err::<Scalar, _>(error)), ..progress }),
        ) == StepModel::Failed(error),
        compilation_step(input, progress) is MeasureCosine ==> progress.correct_cosine is None && compilation_step(
            input,
            (ProgressModel { correct_cosine: Some(Err::<Scalar, _>(error)), ..progress }),
        ) == StepModel::Failed(error),
        compilation_step(input, progress) is VerifyInterface ==> progress.verification is None && compilation_step(
            input,
            (ProgressModel { verification: Some(Err::<VerificationModel, _>(error)), ..progress }),
        ) == StepModel::Failed(error),
{
}

/// A policy is acceptable exactly where its ridge is above zero, the two fits that it
/// asks for are at most one, the cosine lies between minus one and one, the margin
/// between minus two and two, and neither the error nor the cost that it allows is
/// negative; and where all of these are finite.
pub proof fn acceptable_policies_ask_for_what_can_be_reached(policy: PolicyModel)
    ensures
        policy.acceptable() <==> {
            let zero = Scalar { bits: 0 };
            let one = Scalar { bits: 0x3FF0_0000_0000_0000 };
            let minus_one = Scalar { bits: 0xBFF0_0000_0000_0000 };
            let two = Scalar { bits: 0x4000_0000_0000_0000 };
            let minus_two = Scalar { bits: 0xC000_0000_0000_0000 };
            &&& policy.schema == "cerebro.tidex.receiver_compiler_policy/v1"@
            &&& all_finite(
                seq![
                    policy.ridge,
                    policy.minimum_decoder_loo_r2,
                    policy.minimum_encoder_loo_r2,
                    policy.minimum_decoder_loo_cosine,
                    policy.maximum_functional_relative_error,
                    policy.minimum_identity_margin,
                    policy.maximum_quadratic_cost,
                ],
            )
            &&& zero.less(policy.ridge)
            &&& policy.minimum_decoder_loo_r2.at_most(one)
            &&& policy.minimum_encoder_loo_r2.at_most(one)
            &&& minus_one.at_most(policy.minimum_decoder_loo_cosine)
            &&& policy.minimum_decoder_loo_cosine.at_most(one)
            &&& zero.at_most(policy.maximum_functional_relative_error)
            &&& minus_two.at_most(policy.minimum_identity_margin)
            &&& policy.minimum_identity_margin.at_most(two)
            &&& zero.at_most(policy.maximum_quadratic_cost)
        },
{
    crate::scalar::lemma_magnitude_zero(0);
    crate::scalar::lemma_one();
    crate::scalar::lemma_two();
    let numbers = seq![
        policy.ridge,
        policy.minimum_decoder_loo_r2,
        policy.minimum_encoder_loo_r2,
        policy.minimum_decoder_loo_cosine,
        policy.maximum_functional_relative_error,
        policy.minimum_identity_margin,
        policy.maximum_quadratic_cost,
    ];
    assert(numbers[0] == policy.ridge);
    assert(numbers[1] == policy.minimum_decoder_loo_r2);
    assert(numbers[2] == policy.minimum_encoder_loo_r2);
    assert(numbers[3] == policy.minimum_decoder_loo_cosine);
    assert(numbers[4] == policy.maximum_functional_relative_error);
    assert(numbers[5] == policy.minimum_identity_margin);
    assert(numbers[6] == policy.maximum_quadratic_cost);
}

} // verus!

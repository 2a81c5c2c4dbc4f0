//! Experimental orchestration of receiver-native capability compilation.
//!
//! A successful result is evidence for the supplied calibration domain only. It
//! is never a decision about residency or promotion: the dispositions end at
//! [`UniversalCapabilityDisposition::ExperimentalOnly`], and every plan that is
//! made from a compilation stays in the shadow.

use crate::error::{BrainError, BrainResult, ErrorView};
use crate::identity::{
    zero_digest, CapabilityIrDigest, DigestDomain, Sha256Digest, SystemEnvelopeDigest, TensorId,
};
use crate::order::{awaited, awaited_check, views};
use crate::receiver_compiler::{
    compilation_step, compile_receiver_capability, CalibrationModel, CompilationModel,
    CompilationProgress, CompilationStep, InputModel, PolicyModel, ProgressModel,
    rows_regular, validate_rows, ReceiverCalibrationSet, ReceiverCompilation,
    ReceiverCompilerPolicy, SafetyShape, StepModel,
};
use crate::receiver_profile::{
    CompatibilityAssessment, MaterializationPlan, MaterializationStrategy, PlanLifecycle,
    PlanModel, ProfileModel, ReceiverProfile,
};
use crate::scalar::Scalar;
use crate::text::text_eq;
use vstd::prelude::*;

verus! {

/// The only dispositions that an experimental compilation can have.
#[derive(Debug, Clone, Copy, PartialEq, Eq, Structural)]
pub enum UniversalCapabilityDisposition {
    /// All local conditions hold. This asserts neither portability nor equivalence,
    /// and is no leave to deploy or promote.
    ExperimentalOnly,
    Rejected,
}

/// The result of one compilation, bound to what it was compiled from.
#[derive(Debug)]
pub struct UniversalCapabilityCompilation {
    pub schema: String,
    pub source_envelope_sha256: SystemEnvelopeDigest,
    pub capability_ir_sha256: CapabilityIrDigest,
    pub receiver: ReceiverCompilation,
    pub disposition: UniversalCapabilityDisposition,
}

/// The model of a [`UniversalCapabilityCompilation`].
pub struct UniversalModel {
    pub schema: Seq<char>,
    pub source_envelope_sha256: Seq<char>,
    pub capability_ir_sha256: Seq<char>,
    pub receiver: CompilationModel,
    pub disposition: UniversalCapabilityDisposition,
}

impl View for UniversalCapabilityCompilation {
    type V = UniversalModel;

    open spec fn view(&self) -> UniversalModel {
        UniversalModel {
            schema: self.schema@,
            source_envelope_sha256: self.source_envelope_sha256@,
            capability_ir_sha256: self.capability_ir_sha256@,
            receiver: self.receiver@,
            disposition: self.disposition,
        }
    }
}

impl UniversalCapabilityCompilation {
    /// Whether all local conditions hold.
    pub fn is_experimentally_usable(&self) -> (usable: bool)
        ensures
            usable == (self@.disposition == UniversalCapabilityDisposition::ExperimentalOnly),
    {
        self.disposition == UniversalCapabilityDisposition::ExperimentalOnly
    }
}

/// The sealed sources of a capability, by their digests.
#[derive(Debug)]
pub struct CapabilitySources {
    pub system_envelope_sha256: SystemEnvelopeDigest,
    pub capability_ir_sha256: CapabilityIrDigest,
}

/// The model of [`CapabilitySources`].
pub struct SourcesModel {
    pub system_envelope_sha256: Seq<char>,
    pub capability_ir_sha256: Seq<char>,
}

impl View for CapabilitySources {
    type V = SourcesModel;

    open spec fn view(&self) -> SourcesModel {
        SourcesModel {
            system_envelope_sha256: self.system_envelope_sha256@,
            capability_ir_sha256: self.capability_ir_sha256@,
        }
    }
}

/// What a compilation must not damage in the receiver.
#[derive(Debug)]
pub struct ProtectedCortex {
    /// The weight of every receiver parameter.
    pub parameter_importance: Vec<Scalar>,
    /// The protected directions, each in its canonical text.
    pub directions: Vec<String>,
    pub max_damage_ratio: Scalar,
}

/// The model of a [`ProtectedCortex`].
pub struct CortexModel {
    pub parameter_importance: Seq<Scalar>,
    pub directions: Seq<Seq<char>>,
    pub max_damage_ratio: Scalar,
}

impl View for ProtectedCortex {
    type V = CortexModel;

    open spec fn view(&self) -> CortexModel {
        CortexModel {
            parameter_importance: self.parameter_importance@,
            directions: views(self.directions@),
            max_damage_ratio: self.max_damage_ratio,
        }
    }
}

/// A self-contained request for one experimental compilation.
#[derive(Debug)]
pub struct UniversalCapabilityCompilationRequest {
    pub schema: String,
    pub sources: CapabilitySources,
    pub calibration: ReceiverCalibrationSet,
    pub protected_cortex: ProtectedCortex,
    /// A finite square matrix with one row per receiver parameter.
    pub risk_metric_rows: Vec<Vec<Scalar>>,
    pub policy: ReceiverCompilerPolicy,
}

/// The model of a [`UniversalCapabilityCompilationRequest`].
pub struct RequestModel {
    pub schema: Seq<char>,
    pub sources: SourcesModel,
    pub calibration: CalibrationModel,
    pub protected_cortex: CortexModel,
    pub risk_metric_rows: Seq<Seq<Scalar>>,
    pub policy: PolicyModel,
}

impl View for UniversalCapabilityCompilationRequest {
    type V = RequestModel;

    open spec fn view(&self) -> RequestModel {
        RequestModel {
            schema: self.schema@,
            sources: self.sources@,
            calibration: self.calibration@,
            protected_cortex: self.protected_cortex@,
            risk_metric_rows: views(self.risk_metric_rows@),
            policy: self.policy@,
        }
    }
}

/// What the host and the engine have reported for a compilation so far.
#[derive(Debug)]
pub struct UniversalProgress {
    pub request_sha256: Option<BrainResult<Sha256Digest>>,
    /// Whether the engine can hold the risk metric.
    pub risk_metric: Option<BrainResult<()>>,
    /// Whether the envelope has the manifest that it claims.
    pub envelope: Option<BrainResult<()>>,
    /// Whether the capability belongs to the envelope.
    pub capability_ir: Option<BrainResult<()>>,
    /// Whether the operational contract belongs to the capability.
    pub operational: Option<BrainResult<()>>,
    pub compilation: CompilationProgress,
}

/// The model of a [`UniversalProgress`].
pub struct UniversalProgressModel {
    pub request_sha256: Option<Result<Seq<char>, ErrorView>>,
    pub risk_metric: Option<Result<(), ErrorView>>,
    pub envelope: Option<Result<(), ErrorView>>,
    pub capability_ir: Option<Result<(), ErrorView>>,
    pub operational: Option<Result<(), ErrorView>>,
    pub compilation: ProgressModel,
}

impl View for UniversalProgress {
    type V = UniversalProgressModel;

    open spec fn view(&self) -> UniversalProgressModel {
        UniversalProgressModel {
            request_sha256: awaited(self.request_sha256),
            risk_metric: awaited_check(self.risk_metric),
            envelope: awaited_check(self.envelope),
            capability_ir: awaited_check(self.capability_ir),
            operational: awaited_check(self.operational),
            compilation: self.compilation@,
        }
    }
}

/// What is needed next.
#[derive(Debug)]
pub enum Need<'a> {
    /// Digest the compilation request in its domain.
    DigestRequest,
    /// Read these rows as a matrix.
    ReadRiskMetric(&'a Vec<Vec<Scalar>>),
    /// Verify the manifest of the envelope.
    VerifyEnvelope,
    /// Validate the capability against the envelope.
    ValidateCapabilityIr,
    /// Validate the operational contract against the capability.
    ValidateOperational,
    /// Go on with the receiver compilation.
    Compile(CompilationStep<'a>),
    /// Digest the planning request in its domain.
    DigestPlanningRequest,
    /// Validate the requirements against the capability.
    ValidateRequirements,
    /// Assess the receiver against the requirements.
    AssessCompatibility,
    /// Create the shadow plan for the compilation with this request digest.
    CreatePlan {
        request_sha256: Sha256Digest,
        strategy: MaterializationStrategy,
        affected_regions: &'a Vec<TensorId>,
    },
}

/// The model of a [`Need`].
pub enum NeedModel {
    DigestRequest,
    ReadRiskMetric(Seq<Seq<Scalar>>),
    VerifyEnvelope,
    ValidateCapabilityIr,
    ValidateOperational,
    Compile(StepModel),
    DigestPlanningRequest,
    ValidateRequirements,
    AssessCompatibility,
    CreatePlan {
        request_sha256: Seq<char>,
        strategy: MaterializationStrategy,
        affected_regions: Seq<Seq<char>>,
    },
}

impl<'a> View for Need<'a> {
    type V = NeedModel;

    open spec fn view(&self) -> NeedModel {
        match self {
            Need::DigestRequest => NeedModel::DigestRequest,
            Need::ReadRiskMetric(rows) => NeedModel::ReadRiskMetric(views(rows@)),
            Need::VerifyEnvelope => NeedModel::VerifyEnvelope,
            Need::ValidateCapabilityIr => NeedModel::ValidateCapabilityIr,
            Need::ValidateOperational => NeedModel::ValidateOperational,
            Need::Compile(step) => NeedModel::Compile(step@),
            Need::DigestPlanningRequest => NeedModel::DigestPlanningRequest,
            Need::ValidateRequirements => NeedModel::ValidateRequirements,
            Need::AssessCompatibility => NeedModel::AssessCompatibility,
            Need::CreatePlan { request_sha256, strategy, affected_regions } =>
                NeedModel::CreatePlan {
                    request_sha256: request_sha256@,
                    strategy: *strategy,
                    affected_regions: views(affected_regions@),
                },
        }
    }
}

/// Where a request stands.
#[derive(Debug)]
pub enum Stage<'a, T> {
    Failed(BrainError),
    Needs(Need<'a>),
    Done(T),
}

/// The model of a [`Stage`].
pub enum StageModel<V> {
    Failed(ErrorView),
    Needs(NeedModel),
    Done(V),
}

impl<'a, T: View> View for Stage<'a, T> {
    type V = StageModel<T::V>;

    open spec fn view(&self) -> StageModel<T::V> {
        match self {
            Stage::Failed(error) => StageModel::Failed(error@),
            Stage::Needs(need) => StageModel::Needs(need@),
            Stage::Done(value) => StageModel::Done(value@),
        }
    }
}

/// The compilation of a capability from sealed sources.
pub open spec fn universal_stage(
    sources: SourcesModel,
    input: InputModel,
    progress: UniversalProgressModel,
) -> StageModel<UniversalModel> {
    match progress.envelope {
        None => StageModel::Needs(NeedModel::VerifyEnvelope),
        Some(Err(error)) => StageModel::Failed(error),
        Some(Ok(_)) => match progress.capability_ir {
            None => StageModel::Needs(NeedModel::ValidateCapabilityIr),
            Some(Err(error)) => StageModel::Failed(error),
            Some(Ok(_)) => match progress.operational {
                None => StageModel::Needs(NeedModel::ValidateOperational),
                Some(Err(error)) => StageModel::Failed(error),
                Some(Ok(_)) => match compilation_step(input, progress.compilation) {
                    StepModel::Failed(error) => StageModel::Failed(error),
                    StepModel::Done(receiver) => StageModel::Done(
                        UniversalModel {
                            schema: "cerebro.tidex.universal_capability_compilation/v1"@,
                            source_envelope_sha256: sources.system_envelope_sha256,
                            capability_ir_sha256: sources.capability_ir_sha256,
                            receiver,
                            disposition: if receiver.allowed
                                && receiver.operational_verification.allowed {
                                UniversalCapabilityDisposition::ExperimentalOnly
                            } else {
                                UniversalCapabilityDisposition::Rejected
                            },
                        },
                    ),
                    step => StageModel::Needs(NeedModel::Compile(step)),
                },
            },
        },
    }
}

/// Decides what the compilation of a sealed capability needs next, or how it
/// ends.
pub fn compile_experimental_universal_capability<'a>(
    sources: &CapabilitySources,
    calibration: &'a ReceiverCalibrationSet,
    safety: SafetyShape,
    policy: &ReceiverCompilerPolicy,
    progress: &'a UniversalProgress,
) -> (stage: Stage<'a, UniversalCapabilityCompilation>)
    ensures
        stage@ == universal_stage(
            sources@,
            InputModel { calibration: calibration@, safety, policy: policy@ },
            progress@,
        ),
{
    match &progress.envelope {
        None => {
            return Stage::Needs(Need::VerifyEnvelope);
        },
        Some(Err(error)) => {
            return Stage::Failed(error.duplicate());
        },
        Some(Ok(_)) => {},
    }
    match &progress.capability_ir {
        None => {
            return Stage::Needs(Need::ValidateCapabilityIr);
        },
        Some(Err(error)) => {
            return Stage::Failed(error.duplicate());
        },
        Some(Ok(_)) => {},
    }
    match &progress.operational {
        None => {
            return Stage::Needs(Need::ValidateOperational);
        },
        Some(Err(error)) => {
            return Stage::Failed(error.duplicate());
        },
        Some(Ok(_)) => {},
    }
    match compile_receiver_capability(calibration, safety, policy, &progress.compilation) {
        CompilationStep::Failed(error) => Stage::Failed(error),
        CompilationStep::Done(receiver) => {
            let disposition = if receiver.allowed && receiver.operational_verification.allowed {
                UniversalCapabilityDisposition::ExperimentalOnly
            } else {
                UniversalCapabilityDisposition::Rejected
            };
            Stage::Done(
                UniversalCapabilityCompilation {
                    schema: "cerebro.tidex.universal_capability_compilation/v1".to_owned(),
                    source_envelope_sha256: sources.system_envelope_sha256.clone(),
                    capability_ir_sha256: sources.capability_ir_sha256.clone(),
                    receiver,
                    disposition,
                },
            )
        },
        step => Stage::Needs(Need::Compile(step)),
    }
}

/// Rows that make a finite square matrix.
pub open spec fn finite_square(rows: Seq<Seq<Scalar>>) -> bool {
    rows.len() > 0 && rows_regular(rows, rows.len() as int)
}

/// What a request is compiled from, once its risk metric is known to be square.
pub open spec fn request_input(request: RequestModel) -> InputModel {
    InputModel {
        calibration: request.calibration,
        safety: SafetyShape {
            protected_parameters: request.protected_cortex.parameter_importance.len() as usize,
            risk_rows: request.risk_metric_rows.len() as usize,
            risk_columns: request.risk_metric_rows.len() as usize,
        },
        policy: request.policy,
    }
}

/// The compilation of a request.
pub open spec fn request_stage(
    request: RequestModel,
    progress: UniversalProgressModel,
) -> StageModel<UniversalModel> {
    if request.schema != "cerebro.tidex.universal_capability_compilation_request/v1"@ {
        StageModel::Failed(ErrorView::Invalid("universal_capability_compilation_request_schema"@))
    } else {
        match progress.risk_metric {
            None => StageModel::Needs(NeedModel::ReadRiskMetric(request.risk_metric_rows)),
            Some(Err(error)) => StageModel::Failed(error),
            Some(Ok(_)) => if !finite_square(request.risk_metric_rows) {
                StageModel::Failed(
                    ErrorView::Invalid("universal_capability_compilation_risk_metric_shape"@),
                )
            } else {
                universal_stage(request.sources, request_input(request), progress)
            },
        }
    }
}

/// Decides what the compilation of a request needs next, or how it ends. Rows that
/// make no finite square matrix are refused before anything is compiled.
pub fn compile_experimental_universal_capability_request<'a>(
    request: &'a UniversalCapabilityCompilationRequest,
    progress: &'a UniversalProgress,
) -> (stage: Stage<'a, UniversalCapabilityCompilation>)
    ensures
        stage@ == request_stage(request@, progress@),
{
    if !text_eq(
        request.schema.as_str(),
        "cerebro.tidex.universal_capability_compilation_request/v1",
    ) {
        return Stage::Failed(BrainError::invalid("universal_capability_compilation_request_schema"));
    }
    match &progress.risk_metric {
        None => {
            return Stage::Needs(Need::ReadRiskMetric(&request.risk_metric_rows));
        },
        Some(Err(error)) => {
            return Stage::Failed(error.duplicate());
        },
        Some(Ok(_)) => {},
    }
    let rows: usize = request.risk_metric_rows.len();
    if validate_rows(&request.risk_metric_rows, Some(rows), "risk_metric").is_err() {
        return Stage::Failed(
            BrainError::invalid("universal_capability_compilation_risk_metric_shape"),
        );
    }
    let safety = SafetyShape {
        protected_parameters: request.protected_cortex.parameter_importance.len(),
        risk_rows: rows,
        risk_columns: rows,
    };
    compile_experimental_universal_capability(
        &request.sources,
        &request.calibration,
        safety,
        &request.policy,
        progress,
    )
}

/// The bytes that are digested for a request, from its serialised form.
pub fn frame_request(payload: &[u8]) -> (framed: Vec<u8>)
    ensures
        framed@ == vstd::utf8::encode_utf8(DigestDomain::CompilationRequest.label_text())
            + payload@,
{
    let label = DigestDomain::CompilationRequest.label().as_bytes();
    let mut framed: Vec<u8> = Vec::new();
    for i in 0..label.len()
        invariant
            framed@ == label@.take(i as int),
    {
        framed.push(label[i]);
        assert(label@.take(i + 1) == label@.take(i as int).push(label@[i as int]));
    }
    assert(label@.take(label@.len() as int) == label@);
    assert(payload@.take(0) == Seq::<u8>::empty());
    for i in 0..payload.len()
        invariant
            framed@ == label@ + payload@.take(i as int),
    {
        framed.push(payload[i]);
        assert(payload@.take(i + 1) == payload@.take(i as int).push(payload@[i as int]));
    }
    assert(payload@.take(payload@.len() as int) == payload@);
    framed
}

/// A replayable record of one compilation, bound to its request.
#[derive(Debug)]
pub struct UniversalCapabilityCompilationReceipt {
    pub schema: String,
    pub request_sha256: Sha256Digest,
    pub compilation: UniversalCapabilityCompilation,
}

/// The model of a [`UniversalCapabilityCompilationReceipt`].
pub struct ReceiptModel {
    pub schema: Seq<char>,
    pub request_sha256: Seq<char>,
    pub compilation: UniversalModel,
}

impl View for UniversalCapabilityCompilationReceipt {
    type V = ReceiptModel;

    open spec fn view(&self) -> ReceiptModel {
        ReceiptModel {
            schema: self.schema@,
            request_sha256: self.request_sha256@,
            compilation: self.compilation@,
        }
    }
}

/// The execution of a request: its digest first, then its compilation.
pub open spec fn execution_stage(
    request: RequestModel,
    progress: UniversalProgressModel,
) -> StageModel<ReceiptModel> {
    match progress.request_sha256 {
        None => StageModel::Needs(NeedModel::DigestRequest),
        Some(Err(error)) => StageModel::Failed(error),
        Some(Ok(request_sha256)) => match request_stage(request, progress) {
            StageModel::Failed(error) => StageModel::Failed(error),
            StageModel::Needs(need) => StageModel::Needs(need),
            StageModel::Done(compilation) => StageModel::Done(
                ReceiptModel {
                    schema: "cerebro.tidex.universal_capability_compilation_receipt/v1"@,
                    request_sha256,
                    compilation,
                },
            ),
        },
    }
}

/// Decides what the execution of a request needs next, or gives its receipt.
pub fn execute_experimental_universal_capability_request<'a>(
    request: &'a UniversalCapabilityCompilationRequest,
    progress: &'a UniversalProgress,
) -> (stage: Stage<'a, UniversalCapabilityCompilationReceipt>)
    ensures
        stage@ == execution_stage(request@, progress@),
{
    let request_sha256 = match &progress.request_sha256 {
        None => {
            return Stage::Needs(Need::DigestRequest);
        },
        Some(Err(error)) => {
            return Stage::Failed(error.duplicate());
        },
        Some(Ok(digest)) => digest.clone(),
    };
    match compile_experimental_universal_capability_request(request, progress) {
        Stage::Failed(error) => Stage::Failed(error),
        Stage::Needs(need) => Stage::Needs(need),
        Stage::Done(compilation) => Stage::Done(
            UniversalCapabilityCompilationReceipt {
                schema: "cerebro.tidex.universal_capability_compilation_receipt/v1".to_owned(),
                request_sha256,
                compilation,
            },
        ),
    }
}

/// Two vectors hold the same numbers. A vector with a NaN equals none, not even
/// itself.
pub open spec fn vectors_agree(a: Seq<Scalar>, b: Seq<Scalar>) -> bool {
    &&& a.len() == b.len()
    &&& forall|i: int| 0 <= i < a.len() ==> (#[trigger] a[i]).equals(b[i])
}

/// Two receiver compilations state the same numbers and the same verdicts.
pub open spec fn receivers_agree(a: CompilationModel, b: CompilationModel) -> bool {
    &&& a.schema == b.schema
    &&& a.receiver_parameter_dimension == b.receiver_parameter_dimension
    &&& a.calibration_anchor_count == b.calibration_anchor_count
    &&& vectors_agree(a.target_delta, b.target_delta)
    &&& vectors_agree(a.predicted_functional_signature, b.predicted_functional_signature)
    &&& a.decoder_loo_r2.equals(b.decoder_loo_r2)
    &&& a.decoder_min_loo_cosine.equals(b.decoder_min_loo_cosine)
    &&& a.encoder_loo_r2.equals(b.encoder_loo_r2)
    &&& a.encoder_min_loo_cosine.equals(b.encoder_min_loo_cosine)
    &&& a.functional_relative_error.equals(b.functional_relative_error)
    &&& a.correct_cosine.equals(b.correct_cosine)
    &&& a.maximum_wrong_cosine.equals(b.maximum_wrong_cosine)
    &&& a.identity_margin.equals(b.identity_margin)
    &&& a.protection_damage_ratio.equals(b.protection_damage_ratio)
    &&& a.protection_removed_energy.equals(b.protection_removed_energy)
    &&& a.protection_max_weighted_residual.equals(b.protection_max_weighted_residual)
    &&& a.trust_region.scale.equals(b.trust_region.scale)
    &&& a.trust_region.max_quadratic_cost.equals(b.trust_region.max_quadratic_cost)
    &&& vectors_agree(a.trust_region.accepted_coefficients, b.trust_region.accepted_coefficients)
    &&& a.trust_region.accepted_quadratic_cost.equals(b.trust_region.accepted_quadratic_cost)
    &&& a.trust_region.details == b.trust_region.details
    &&& a.operational_verification == b.operational_verification
    &&& a.allowed == b.allowed
}

/// Two compilations agree.
pub open spec fn compilations_agree(a: UniversalModel, b: UniversalModel) -> bool {
    &&& a.schema == b.schema
    &&& a.source_envelope_sha256 == b.source_envelope_sha256
    &&& a.capability_ir_sha256 == b.capability_ir_sha256
    &&& receivers_agree(a.receiver, b.receiver)
    &&& a.disposition == b.disposition
}

/// Whether two vectors hold the same numbers.
fn same_vector(a: &Vec<Scalar>, b: &Vec<Scalar>) -> (same: bool)
    ensures
        same == vectors_agree(a@, b@),
{
    if a.len() != b.len() {
        return false;
    }
    for i in 0..a.len()
        invariant
            a@.len() == b@.len(),
            forall|j: int| 0 <= j < i ==> (#[trigger] a@[j]).equals(b@[j]),
    {
        if !a[i].same_value(b[i]) {
            assert(!a@[i as int].equals(b@[i as int]));
            return false;
        }
    }
    true
}

/// Whether two receiver compilations state the same.
fn same_receiver(a: &ReceiverCompilation, b: &ReceiverCompilation) -> (same: bool)
    ensures
        same == receivers_agree(a@, b@),
{
    text_eq(a.schema.as_str(), b.schema.as_str()) && a.receiver_parameter_dimension
        == b.receiver_parameter_dimension && a.calibration_anchor_count
        == b.calibration_anchor_count && same_vector(&a.target_delta, &b.target_delta)
        && same_vector(&a.predicted_functional_signature, &b.predicted_functional_signature)
        && a.decoder_loo_r2.same_value(b.decoder_loo_r2)
        && a.decoder_min_loo_cosine.same_value(b.decoder_min_loo_cosine)
        && a.encoder_loo_r2.same_value(b.encoder_loo_r2)
        && a.encoder_min_loo_cosine.same_value(b.encoder_min_loo_cosine)
        && a.functional_relative_error.same_value(b.functional_relative_error)
        && a.correct_cosine.same_value(b.correct_cosine)
        && a.maximum_wrong_cosine.same_value(b.maximum_wrong_cosine)
        && a.identity_margin.same_value(b.identity_margin)
        && a.protection_damage_ratio.same_value(b.protection_damage_ratio)
        && a.protection_removed_energy.same_value(b.protection_removed_energy)
        && a.protection_max_weighted_residual.same_value(b.protection_max_weighted_residual)
        && a.trust_region.scale.same_value(b.trust_region.scale)
        && a.trust_region.max_quadratic_cost.same_value(b.trust_region.max_quadratic_cost)
        && same_vector(
        &a.trust_region.accepted_coefficients,
        &b.trust_region.accepted_coefficients,
    ) && a.trust_region.accepted_quadratic_cost.same_value(b.trust_region.accepted_quadratic_cost)
        && text_eq(a.trust_region.details.as_str(), b.trust_region.details.as_str())
        && a.operational_verification.allowed == b.operational_verification.allowed && text_eq(
        a.operational_verification.details.as_str(),
        b.operational_verification.details.as_str(),
    ) && a.allowed == b.allowed
}

/// Whether two compilations agree.
pub fn same_compilation(
    a: &UniversalCapabilityCompilation,
    b: &UniversalCapabilityCompilation,
) -> (same: bool)
    ensures
        same == compilations_agree(a@, b@),
{
    text_eq(a.schema.as_str(), b.schema.as_str()) && a.source_envelope_sha256.same(
        &b.source_envelope_sha256,
    ) && a.capability_ir_sha256.same(&b.capability_ir_sha256) && same_receiver(
        &a.receiver,
        &b.receiver,
    ) && a.disposition == b.disposition
}

/// What a replay gives that found no divergence.
#[derive(Debug, Clone, Copy, PartialEq, Eq, Structural)]
pub struct Confirmed;

impl View for Confirmed {
    type V = Confirmed;

    open spec fn view(&self) -> Confirmed {
        *self
    }
}

/// The replay of a receipt.
pub open spec fn replay_stage(
    request: RequestModel,
    receipt: ReceiptModel,
    progress: UniversalProgressModel,
) -> StageModel<Confirmed> {
    if receipt.schema != "cerebro.tidex.universal_capability_compilation_receipt/v1"@ {
        StageModel::Failed(ErrorView::Invalid("universal_capability_compilation_receipt_schema"@))
    } else {
        match progress.request_sha256 {
            None => StageModel::Needs(NeedModel::DigestRequest),
            Some(Err(error)) => StageModel::Failed(error),
            Some(Ok(request_sha256)) => if receipt.request_sha256 != request_sha256 {
                StageModel::Failed(
                    ErrorView::Integrity("universal_capability_compilation_request_digest_mismatch"@),
                )
            } else {
                match request_stage(request, progress) {
                    StageModel::Failed(error) => StageModel::Failed(error),
                    StageModel::Needs(need) => StageModel::Needs(need),
                    StageModel::Done(replay) => if compilations_agree(replay, receipt.compilation) {
                        StageModel::Done(Confirmed)
                    } else {
                        StageModel::Failed(
                            ErrorView::Integrity("universal_capability_compilation_replay_mismatch"@),
                        )
                    },
                }
            },
        }
    }
}

/// Recomputes a receipt from its request, and fails on any divergence.
pub fn replay_experimental_universal_capability_request<'a>(
    request: &'a UniversalCapabilityCompilationRequest,
    receipt: &UniversalCapabilityCompilationReceipt,
    progress: &'a UniversalProgress,
) -> (stage: Stage<'a, Confirmed>)
    ensures
        stage@ == replay_stage(request@, receipt@, progress@),
{
    if !text_eq(
        receipt.schema.as_str(),
        "cerebro.tidex.universal_capability_compilation_receipt/v1",
    ) {
        return Stage::Failed(BrainError::invalid("universal_capability_compilation_receipt_schema"));
    }
    match &progress.request_sha256 {
        None => {
            return Stage::Needs(Need::DigestRequest);
        },
        Some(Err(error)) => {
            return Stage::Failed(error.duplicate());
        },
        Some(Ok(digest)) => {
            if !receipt.request_sha256.same(digest) {
                return Stage::Failed(
                    BrainError::integrity("universal_capability_compilation_request_digest_mismatch"),
                );
            }
        },
    }
    match compile_experimental_universal_capability_request(request, progress) {
        Stage::Failed(error) => Stage::Failed(error),
        Stage::Needs(need) => Stage::Needs(need),
        Stage::Done(replay) => if same_compilation(&replay, &receipt.compilation) {
            Stage::Done(Confirmed)
        } else {
            Stage::Failed(BrainError::integrity("universal_capability_compilation_replay_mismatch"))
        },
    }
}

/// A compilation is experimentally usable exactly when the receiver compilation
/// is allowed.
pub proof fn usable_exactly_when_allowed(
    request: RequestModel,
    progress: UniversalProgressModel,
)
    ensures
        request_stage(request, progress) matches StageModel::Done(compilation) ==> (
        compilation.disposition == UniversalCapabilityDisposition::ExperimentalOnly
            <==> compilation.receiver.allowed),
{
}

/// Nothing is compiled from a source that does not hold: before the receiver
/// compiler is asked for anything, and before a compilation is reported, the
/// envelope, the structure against it and the operational contract against that
/// were found valid, and the risk metric was found to be a finite square matrix.
pub proof fn sources_are_verified_before_compiling(
    request: RequestModel,
    progress: UniversalProgressModel,
)
    requires
        request_stage(request, progress) is Done || request_stage(request, progress) matches
            StageModel::Needs(NeedModel::Compile(_)),
    ensures
        progress.envelope is Some && progress.envelope->0 is Ok,
        progress.capability_ir is Some && progress.capability_ir->0 is Ok,
        progress.operational is Some && progress.operational->0 is Ok,
        finite_square(request.risk_metric_rows),
        request_stage(request, progress) matches StageModel::Done(compilation) ==> {
            &&& compilation.source_envelope_sha256 == request.sources.system_envelope_sha256
            &&& compilation.capability_ir_sha256 == request.sources.capability_ir_sha256
            &&& compilation.receiver.receiver_parameter_dimension
                == request.risk_metric_rows.len() as usize
        },
{
}

/// No number of a vector is a NaN.
pub open spec fn no_nan(row: Seq<Scalar>) -> bool {
    forall|i: int| 0 <= i < row.len() ==> !(#[trigger] row[i]).nan()
}

/// No number of a receiver compilation is a NaN.
pub open spec fn receiver_without_nan(c: CompilationModel) -> bool {
    &&& no_nan(c.target_delta)
    &&& no_nan(c.predicted_functional_signature)
    &&& !c.decoder_loo_r2.nan()
    &&& !c.decoder_min_loo_cosine.nan()
    &&& !c.encoder_loo_r2.nan()
    &&& !c.encoder_min_loo_cosine.nan()
    &&& !c.functional_relative_error.nan()
    &&& !c.correct_cosine.nan()
    &&& !c.maximum_wrong_cosine.nan()
    &&& !c.identity_margin.nan()
    &&& !c.protection_damage_ratio.nan()
    &&& !c.protection_removed_energy.nan()
    &&& !c.protection_max_weighted_residual.nan()
    &&& !c.trust_region.scale.nan()
    &&& !c.trust_region.max_quadratic_cost.nan()
    &&& no_nan(c.trust_region.accepted_coefficients)
    &&& !c.trust_region.accepted_quadratic_cost.nan()
}

/// Replaying the receipt of an execution confirms it. A receipt that holds a NaN
/// is left out: it agrees with nothing, not even with itself.
pub proof fn replay_confirms_an_executed_receipt(
    request: RequestModel,
    progress: UniversalProgressModel,
)
    requires
        execution_stage(request, progress) is Done,
        receiver_without_nan(execution_stage(request, progress)->Done_0.compilation.receiver),
    ensures
        replay_stage(request, execution_stage(request, progress)->Done_0, progress)
            == StageModel::Done(Confirmed),
{
}

/// A receipt is confirmed only where it has the digest of the request and agrees
/// with what the request compiles to: any other receipt is refused.
pub proof fn replay_confirms_nothing_else(
    request: RequestModel,
    receipt: ReceiptModel,
    progress: UniversalProgressModel,
)
    ensures
        replay_stage(request, receipt, progress) is Done <==> {
            &&& receipt.schema == "cerebro.tidex.universal_capability_compilation_receipt/v1"@
            &&& progress.request_sha256 == Some(Ok::<_, ErrorView>(receipt.request_sha256))
            &&& request_stage(request, progress) is Done
            &&& compilations_agree(
                request_stage(request, progress)->Done_0,
                receipt.compilation,
            )
        },
{
}

/// A request for a compilation together with a shadow-only plan for it.
#[derive(Debug)]
pub struct UniversalCapabilityPlanningRequest {
    pub schema: String,
    pub compilation: UniversalCapabilityCompilationRequest,
    pub receiver_profile: ReceiverProfile,
    pub requested_strategy: MaterializationStrategy,
    pub affected_regions: Vec<TensorId>,
}

/// The model of a [`UniversalCapabilityPlanningRequest`].
pub struct PlanningModel {
    pub schema: Seq<char>,
    pub compilation: RequestModel,
    pub receiver_profile: ProfileModel,
    pub requested_strategy: MaterializationStrategy,
    pub affected_regions: Seq<Seq<char>>,
}

impl View for UniversalCapabilityPlanningRequest {
    type V = PlanningModel;

    open spec fn view(&self) -> PlanningModel {
        PlanningModel {
            schema: self.schema@,
            compilation: self.compilation@,
            receiver_profile: self.receiver_profile@,
            requested_strategy: self.requested_strategy,
            affected_regions: views(self.affected_regions@),
        }
    }
}

/// A compilation with the plan that was made from it.
#[derive(Debug)]
pub struct UniversalCapabilityShadowPlan {
    pub schema: String,
    pub compilation_receipt: UniversalCapabilityCompilationReceipt,
    pub compatibility: CompatibilityAssessment,
    pub materialization_plan: MaterializationPlan,
}

/// The model of a [`UniversalCapabilityShadowPlan`].
pub struct ShadowPlanModel {
    pub schema: Seq<char>,
    pub compilation_receipt: ReceiptModel,
    pub compatibility: Seq<char>,
    pub materialization_plan: PlanModel,
}

impl View for UniversalCapabilityShadowPlan {
    type V = ShadowPlanModel;

    open spec fn view(&self) -> ShadowPlanModel {
        ShadowPlanModel {
            schema: self.schema@,
            compilation_receipt: self.compilation_receipt@,
            compatibility: self.compatibility@,
            materialization_plan: self.materialization_plan@,
        }
    }
}

/// A replayable record of a complete planning decision.
#[derive(Debug)]
pub struct UniversalCapabilityShadowPlanReceipt {
    pub schema: String,
    pub planning_request_sha256: Sha256Digest,
    pub shadow_plan: UniversalCapabilityShadowPlan,
}

/// The model of a [`UniversalCapabilityShadowPlanReceipt`].
pub struct PlanReceiptModel {
    pub schema: Seq<char>,
    pub planning_request_sha256: Seq<char>,
    pub shadow_plan: ShadowPlanModel,
}

impl View for UniversalCapabilityShadowPlanReceipt {
    type V = PlanReceiptModel;

    open spec fn view(&self) -> PlanReceiptModel {
        PlanReceiptModel {
            schema: self.schema@,
            planning_request_sha256: self.planning_request_sha256@,
            shadow_plan: self.shadow_plan@,
        }
    }
}

/// What the host and the engine have reported for a planning request so far.
#[derive(Debug)]
pub struct PlanningProgress {
    pub planning_request_sha256: Option<BrainResult<Sha256Digest>>,
    pub compilation: UniversalProgress,
    /// Whether the requirements belong to the capability.
    pub requirements: Option<BrainResult<()>>,
    pub compatibility: Option<BrainResult<CompatibilityAssessment>>,
    pub plan: Option<BrainResult<MaterializationPlan>>,
}

/// The model of a [`PlanningProgress`].
pub struct PlanningProgressModel {
    pub planning_request_sha256: Option<Result<Seq<char>, ErrorView>>,
    pub compilation: UniversalProgressModel,
    pub requirements: Option<Result<(), ErrorView>>,
    pub compatibility: Option<Result<Seq<char>, ErrorView>>,
    pub plan: Option<Result<PlanModel, ErrorView>>,
}

impl View for PlanningProgress {
    type V = PlanningProgressModel;

    open spec fn view(&self) -> PlanningProgressModel {
        PlanningProgressModel {
            planning_request_sha256: awaited(self.planning_request_sha256),
            compilation: self.compilation@,
            requirements: awaited_check(self.requirements),
            compatibility: awaited(self.compatibility),
            plan: awaited(self.plan),
        }
    }
}

/// The plan for a usable compilation: a shadow-only one.
pub open spec fn stage_of_receipt(
    request: PlanningModel,
    progress: PlanningProgressModel,
    receipt: ReceiptModel,
) -> StageModel<ShadowPlanModel> {
    match progress.requirements {
        None => StageModel::Needs(NeedModel::ValidateRequirements),
        Some(Err(error)) => StageModel::Failed(error),
        Some(Ok(_)) => if receipt.compilation.receiver.receiver_parameter_dimension
            != request.receiver_profile.parameter_dimension {
            StageModel::Failed(
                ErrorView::Integrity("receiver_profile_compilation_dimension_mismatch"@),
            )
        } else {
            match progress.compatibility {
                None => StageModel::Needs(NeedModel::AssessCompatibility),
                Some(Err(error)) => StageModel::Failed(error),
                Some(Ok(compatibility)) => match progress.plan {
                    None => StageModel::Needs(
                        NeedModel::CreatePlan {
                            request_sha256: receipt.request_sha256,
                            strategy: request.requested_strategy,
                            affected_regions: request.affected_regions,
                        },
                    ),
                    Some(Err(error)) => StageModel::Failed(error),
                    Some(Ok(plan)) => if plan.lifecycle != PlanLifecycle::ShadowOnly {
                        StageModel::Failed(
                            ErrorView::Integrity("universal_capability_plan_not_shadow_only"@),
                        )
                    } else {
                        StageModel::Done(
                            ShadowPlanModel {
                                schema: "cerebro.tidex.universal_capability_shadow_plan/v1"@,
                                compilation_receipt: receipt,
                                compatibility,
                                materialization_plan: plan,
                            },
                        )
                    },
                },
            }
        },
    }
}

/// The compilation of a capability and the plan for it. The calibration must name
/// the receiver snapshot that its solutions were measured for: the all-zero digest
/// is the draft marker of low-level experiments, which is never planned with.
pub open spec fn planning_stage(
    request: PlanningModel,
    progress: PlanningProgressModel,
) -> StageModel<ShadowPlanModel> {
    if request.schema != "cerebro.tidex.universal_capability_planning_request/v1"@ {
        StageModel::Failed(ErrorView::Invalid("universal_capability_planning_request_schema"@))
    } else if request.compilation.calibration.receiver_snapshot_binding_sha256 == zero_digest() {
        StageModel::Failed(
            ErrorView::Integrity("universal_capability_planning_calibration_unbound"@),
        )
    } else {
        match execution_stage(request.compilation, progress.compilation) {
            StageModel::Failed(error) => StageModel::Failed(error),
            StageModel::Needs(need) => StageModel::Needs(need),
            StageModel::Done(receipt) => if receipt.compilation.disposition
                != UniversalCapabilityDisposition::ExperimentalOnly {
                StageModel::Failed(
                    ErrorView::Integrity("universal_capability_compilation_not_usable"@),
                )
            } else {
                stage_of_receipt(request, progress, receipt)
            },
        }
    }
}

/// Decides what a complete shadow-only plan needs next, or gives it. A rejected
/// compilation never becomes a plan, whatever else fits, and a calibration under
/// a draft marker is refused before anything is compiled.
pub fn compile_and_plan_experimental_universal_capability<'a>(
    request: &'a UniversalCapabilityPlanningRequest,
    progress: &'a PlanningProgress,
) -> (stage: Stage<'a, UniversalCapabilityShadowPlan>)
    ensures
        stage@ == planning_stage(request@, progress@),
{
    if !text_eq(
        request.schema.as_str(),
        "cerebro.tidex.universal_capability_planning_request/v1",
    ) {
        return Stage::Failed(BrainError::invalid("universal_capability_planning_request_schema"));
    }
    if request.compilation.calibration.receiver_snapshot_binding_sha256.same(&Sha256Digest::zero()) {
        return Stage::Failed(
            BrainError::integrity("universal_capability_planning_calibration_unbound"),
        );
    }
    let receipt = match execute_experimental_universal_capability_request(
        &request.compilation,
        &progress.compilation,
    ) {
        Stage::Failed(error) => {
            return Stage::Failed(error);
        },
        Stage::Needs(need) => {
            return Stage::Needs(need);
        },
        Stage::Done(receipt) => receipt,
    };
    if !receipt.compilation.is_experimentally_usable() {
        return Stage::Failed(BrainError::integrity("universal_capability_compilation_not_usable"));
    }
    match &progress.requirements {
        None => {
            return Stage::Needs(Need::ValidateRequirements);
        },
        Some(Err(error)) => {
            return Stage::Failed(error.duplicate());
        },
        Some(Ok(_)) => {},
    }
    if receipt.compilation.receiver.receiver_parameter_dimension as u64
        != request.receiver_profile.parameter_dimension {
        return Stage::Failed(
            BrainError::integrity("receiver_profile_compilation_dimension_mismatch"),
        );
    }
    let compatibility = match &progress.compatibility {
        None => {
            return Stage::Needs(Need::AssessCompatibility);
        },
        Some(Err(error)) => {
            return Stage::Failed(error.duplicate());
        },
        Some(Ok(compatibility)) => CompatibilityAssessment { text: compatibility.text.clone() },
    };
    match &progress.plan {
        None => Stage::Needs(
            Need::CreatePlan {
                request_sha256: receipt.request_sha256.clone(),
                strategy: request.requested_strategy,
                affected_regions: &request.affected_regions,
            },
        ),
        Some(Err(error)) => Stage::Failed(error.duplicate()),
        Some(Ok(plan)) => if plan.lifecycle != PlanLifecycle::ShadowOnly {
            Stage::Failed(BrainError::integrity("universal_capability_plan_not_shadow_only"))
        } else {
            Stage::Done(
                UniversalCapabilityShadowPlan {
                    schema: "cerebro.tidex.universal_capability_shadow_plan/v1".to_owned(),
                    compilation_receipt: receipt,
                    compatibility,
                    materialization_plan: plan.duplicate(),
                },
            )
        },
    }
}

/// The execution of a planning request: its digest first, then its plan.
pub open spec fn plan_execution_stage(
    request: PlanningModel,
    progress: PlanningProgressModel,
) -> StageModel<PlanReceiptModel> {
    match progress.planning_request_sha256 {
        None => StageModel::Needs(NeedModel::DigestPlanningRequest),
        Some(Err(error)) => StageModel::Failed(error),
        Some(Ok(planning_request_sha256)) => match planning_stage(request, progress) {
            StageModel::Failed(error) => StageModel::Failed(error),
            StageModel::Needs(need) => StageModel::Needs(need),
            StageModel::Done(shadow_plan) => StageModel::Done(
                PlanReceiptModel {
                    schema: "cerebro.tidex.universal_capability_shadow_plan_receipt/v1"@,
                    planning_request_sha256,
                    shadow_plan,
                },
            ),
        },
    }
}

/// Decides what the execution of a planning request needs next, or gives its
/// receipt.
pub fn execute_universal_capability_shadow_plan<'a>(
    request: &'a UniversalCapabilityPlanningRequest,
    progress: &'a PlanningProgress,
) -> (stage: Stage<'a, UniversalCapabilityShadowPlanReceipt>)
    ensures
        stage@ == plan_execution_stage(request@, progress@),
{
    let planning_request_sha256 = match &progress.planning_request_sha256 {
        None => {
            return Stage::Needs(Need::DigestPlanningRequest);
        },
        Some(Err(error)) => {
            return Stage::Failed(error.duplicate());
        },
        Some(Ok(digest)) => digest.clone(),
    };
    match compile_and_plan_experimental_universal_capability(request, progress) {
        Stage::Failed(error) => Stage::Failed(error),
        Stage::Needs(need) => Stage::Needs(need),
        Stage::Done(shadow_plan) => Stage::Done(
            UniversalCapabilityShadowPlanReceipt {
                schema: "cerebro.tidex.universal_capability_shadow_plan_receipt/v1".to_owned(),
                planning_request_sha256,
                shadow_plan,
            },
        ),
    }
}

/// Two shadow plans agree.
pub open spec fn plans_agree(a: ShadowPlanModel, b: ShadowPlanModel) -> bool {
    &&& a.schema == b.schema
    &&& a.compilation_receipt.schema == b.compilation_receipt.schema
    &&& a.compilation_receipt.request_sha256 == b.compilation_receipt.request_sha256
    &&& compilations_agree(a.compilation_receipt.compilation, b.compilation_receipt.compilation)
    &&& a.compatibility == b.compatibility
    &&& a.materialization_plan == b.materialization_plan
}

/// Whether two shadow plans agree.
pub fn same_plan(a: &UniversalCapabilityShadowPlan, b: &UniversalCapabilityShadowPlan) -> (same:
    bool)
    ensures
        same == plans_agree(a@, b@),
{
    text_eq(a.schema.as_str(), b.schema.as_str()) && text_eq(
        a.compilation_receipt.schema.as_str(),
        b.compilation_receipt.schema.as_str(),
    ) && a.compilation_receipt.request_sha256.same(&b.compilation_receipt.request_sha256)
        && same_compilation(&a.compilation_receipt.compilation, &b.compilation_receipt.compilation)
        && text_eq(a.compatibility.text.as_str(), b.compatibility.text.as_str())
        && a.materialization_plan.same(&b.materialization_plan)
}

/// The replay of a planning receipt.
pub open spec fn plan_replay_stage(
    request: PlanningModel,
    receipt: PlanReceiptModel,
    progress: PlanningProgressModel,
) -> StageModel<Confirmed> {
    if receipt.schema != "cerebro.tidex.universal_capability_shadow_plan_receipt/v1"@ {
        StageModel::Failed(ErrorView::Invalid("universal_capability_shadow_plan_receipt_schema"@))
    } else {
        match progress.planning_request_sha256 {
            None => StageModel::Needs(NeedModel::DigestPlanningRequest),
            Some(Err(error)) => StageModel::Failed(error),
            Some(Ok(digest)) => if receipt.planning_request_sha256 != digest {
                StageModel::Failed(
                    ErrorView::Integrity("universal_capability_shadow_plan_request_digest_mismatch"@),
                )
            } else {
                match planning_stage(request, progress) {
                    StageModel::Failed(error) => StageModel::Failed(error),
                    StageModel::Needs(need) => StageModel::Needs(need),
                    StageModel::Done(plan) => if plans_agree(receipt.shadow_plan, plan) {
                        StageModel::Done(Confirmed)
                    } else {
                        StageModel::Failed(
                            ErrorView::Integrity("universal_capability_shadow_plan_replay_mismatch"@),
                        )
                    },
                }
            },
        }
    }
}

/// Recomputes a planning receipt from its request, and fails on any divergence.
pub fn replay_universal_capability_shadow_plan<'a>(
    request: &'a UniversalCapabilityPlanningRequest,
    receipt: &UniversalCapabilityShadowPlanReceipt,
    progress: &'a PlanningProgress,
) -> (stage: Stage<'a, Confirmed>)
    ensures
        stage@ == plan_replay_stage(request@, receipt@, progress@),
{
    if !text_eq(
        receipt.schema.as_str(),
        "cerebro.tidex.universal_capability_shadow_plan_receipt/v1",
    ) {
        return Stage::Failed(BrainError::invalid("universal_capability_shadow_plan_receipt_schema"));
    }
    match &progress.planning_request_sha256 {
        None => {
            return Stage::Needs(Need::DigestPlanningRequest);
        },
        Some(Err(error)) => {
            return Stage::Failed(error.duplicate());
        },
        Some(Ok(digest)) => {
            if !receipt.planning_request_sha256.same(digest) {
                return Stage::Failed(
                    BrainError::integrity("universal_capability_shadow_plan_request_digest_mismatch"),
                );
            }
        },
    }
    match compile_and_plan_experimental_universal_capability(request, progress) {
        Stage::Failed(error) => Stage::Failed(error),
        Stage::Needs(need) => Stage::Needs(need),
        Stage::Done(plan) => if same_plan(&receipt.shadow_plan, &plan) {
            Stage::Done(Confirmed)
        } else {
            Stage::Failed(BrainError::integrity("universal_capability_shadow_plan_replay_mismatch"))
        },
    }
}

/// A rejected compilation never becomes a plan: whatever is planned meets every
/// condition of the receiver compiler and fits the profile that it is planned for.
pub proof fn rejected_compilations_never_become_plans(
    request: PlanningModel,
    progress: PlanningProgressModel,
)
    ensures
        planning_stage(request, progress) matches StageModel::Done(plan) ==> {
            let compilation = plan.compilation_receipt.compilation;
            &&& compilation.disposition == UniversalCapabilityDisposition::ExperimentalOnly
            &&& compilation.receiver.allowed
            &&& compilation.receiver.receiver_parameter_dimension
                == request.receiver_profile.parameter_dimension
        },
        planning_stage(request, progress) matches StageModel::Needs(
            NeedModel::CreatePlan { request_sha256, .. },
        ) ==> {
            let receipt = execution_stage(request.compilation, progress.compilation)->Done_0;
            &&& receipt.compilation.receiver.allowed
            &&& request_sha256 == receipt.request_sha256
        },
{
}

/// A plan stays in the shadow: whatever planning gives, and whatever a replay
/// confirms, is shadow-only.
pub proof fn plans_stay_in_the_shadow(
    request: PlanningModel,
    receipt: PlanReceiptModel,
    progress: PlanningProgressModel,
)
    ensures
        planning_stage(request, progress) matches StageModel::Done(plan)
            ==> plan.materialization_plan.lifecycle == PlanLifecycle::ShadowOnly,
        plan_replay_stage(request, receipt, progress) is Done
            ==> receipt.shadow_plan.materialization_plan.lifecycle == PlanLifecycle::ShadowOnly,
{
}

/// No plan rests on a draft: a calibration under the draft marker is neither
/// planned, nor executed, nor confirmed by a replay, and nothing is asked of the
/// engine for it but the digest of the request.
pub proof fn draft_calibrations_are_never_planned(
    request: PlanningModel,
    receipt: PlanReceiptModel,
    progress: PlanningProgressModel,
)
    requires
        request.compilation.calibration.receiver_snapshot_binding_sha256 == zero_digest(),
    ensures
        planning_stage(request, progress) is Failed,
        !(plan_execution_stage(request, progress) is Done),
        !(plan_replay_stage(request, receipt, progress) is Done),
        plan_execution_stage(request, progress) matches StageModel::Needs(need) ==> need
            == NeedModel::DigestPlanningRequest,
{
}

/// Replaying the receipt of a planning request confirms it. A receipt that holds
/// a NaN is left out: it agrees with nothing, not even with itself.
pub proof fn replay_confirms_an_executed_plan(
    request: PlanningModel,
    progress: PlanningProgressModel,
)
    requires
        plan_execution_stage(request, progress) is Done,
        receiver_without_nan(
            plan_execution_stage(
                request,
                progress,
            )->Done_0.shadow_plan.compilation_receipt.compilation.receiver,
        ),
    ensures
        plan_replay_stage(request, plan_execution_stage(request, progress)->Done_0, progress)
            == StageModel::Done(Confirmed),
{
}

/// A planning receipt is confirmed only where it has the digest of the request
/// and agrees with what the request comes to.
pub proof fn plan_replay_confirms_nothing_else(
    request: PlanningModel,
    receipt: PlanReceiptModel,
    progress: PlanningProgressModel,
)
    ensures
        plan_replay_stage(request, receipt, progress) is Done <==> {
            &&& receipt.schema == "cerebro.tidex.universal_capability_shadow_plan_receipt/v1"@
            &&& progress.planning_request_sha256 == Some(
                Ok::<_, ErrorView>(receipt.planning_request_sha256),
            )
            &&& planning_stage(request, progress) is Done
            &&& plans_agree(receipt.shadow_plan, planning_stage(request, progress)->Done_0)
        },
{
}

/// A plan is asked for as it was requested: with the strategy and the regions of the
/// planning request, for the digest of its compilation. That holds of planning, of
/// executing a plan and of replaying one.
pub proof fn plans_are_asked_for_as_requested(
    request: PlanningModel,
    receipt: PlanReceiptModel,
    progress: PlanningProgressModel,
    request_sha256: Seq<char>,
    strategy: MaterializationStrategy,
    affected_regions: Seq<Seq<char>>,
)
    requires
        ({
            let need = NeedModel::CreatePlan { request_sha256, strategy, affected_regions };
            ||| planning_stage(request, progress) == StageModel::<ShadowPlanModel>::Needs(need)
            ||| plan_execution_stage(request, progress) == StageModel::<PlanReceiptModel>::Needs(
                need,
            )
            ||| plan_replay_stage(request, receipt, progress) == StageModel::<Confirmed>::Needs(
                need,
            )
        }),
    ensures
        strategy == request.requested_strategy,
        affected_regions == request.affected_regions,
        progress.compilation.request_sha256 == Some(Ok::<_, ErrorView>(request_sha256)),
        progress.plan is None,
{
}

/// A request is compiled as it stands: every step of its compilation is one of its
/// own calibration and policy, with the protection and the risk metric that it
/// states, and its result carries the digests of its own sources.
pub proof fn requests_are_compiled_as_they_stand(
    request: RequestModel,
    progress: UniversalProgressModel,
)
    ensures
        ({
            let input = InputModel {
                calibration: request.calibration,
                safety: SafetyShape {
                    protected_parameters: request.protected_cortex.parameter_importance.len()
                        as usize,
                    risk_rows: request.risk_metric_rows.len() as usize,
                    risk_columns: request.risk_metric_rows.len() as usize,
                },
                policy: request.policy,
            };
            let stage = request_stage(request, progress);
            &&& stage matches StageModel::Needs(NeedModel::ReadRiskMetric(rows)) ==> rows
                == request.risk_metric_rows
            &&& stage matches StageModel::Needs(NeedModel::Compile(step)) ==> step
                == compilation_step(input, progress.compilation) && !(step is Done) && !(
            step is Failed)
            &&& stage matches StageModel::Done(compilation) ==> {
                &&& compilation_step(input, progress.compilation) == StepModel::Done(
                    compilation.receiver,
                )
                &&& compilation.schema == "cerebro.tidex.universal_capability_compilation/v1"@
                &&& compilation.source_envelope_sha256 == request.sources.system_envelope_sha256
                &&& compilation.capability_ir_sha256 == request.sources.capability_ir_sha256
                &&& compilation.disposition == UniversalCapabilityDisposition::ExperimentalOnly
                    <==> compilation.receiver.allowed
                    && compilation.receiver.operational_verification.allowed
            }
        }),
{
}

/// A request is compiled once it declares itself one, its risk metric is a finite
/// square, and its envelope, its structure and its operational contract are valid,
/// in this order: the first of them that fails is the failure of the request, and
/// with all of them in order the compilation itself decides.
pub proof fn requests_are_checked_in_order(request: RequestModel, progress: UniversalProgressModel)
    ensures
        ({
            let stage = request_stage(request, progress);
            let rows = request.risk_metric_rows;
            let declared = request.schema
                == "cerebro.tidex.universal_capability_compilation_request/v1"@;
            let square = rows.len() > 0 && (forall|i: int|
                0 <= i < rows.len() ==> (#[trigger] rows[i]).len() == rows.len()) && (forall|
                i: int,
                j: int,
            |
                0 <= i < rows.len() && 0 <= j < rows[i].len() ==> (
                #[trigger] rows[i][j]).finite());
            let read = declared && progress.risk_metric is Some && progress.risk_metric->0 is Ok;
            let shaped = read && square;
            let enveloped = shaped && progress.envelope is Some && progress.envelope->0 is Ok;
            let structured = enveloped && progress.capability_ir is Some
                && progress.capability_ir->0 is Ok;
            let contracted = structured && progress.operational is Some
                && progress.operational->0 is Ok;
            &&& !declared ==> stage == StageModel::<UniversalModel>::Failed(
                ErrorView::Invalid("universal_capability_compilation_request_schema"@),
            )
            &&& declared && progress.risk_metric is None ==> stage == StageModel::<
                UniversalModel,
            >::Needs(NeedModel::ReadRiskMetric(rows))
            &&& declared && progress.risk_metric is Some && progress.risk_metric->0 is Err ==> stage
                == StageModel::<UniversalModel>::Failed(progress.risk_metric->0->Err_0)
            &&& read && !square ==> stage == StageModel::<UniversalModel>::Failed(
                ErrorView::Invalid("universal_capability_compilation_risk_metric_shape"@),
            )
            &&& shaped && progress.envelope is None ==> stage == StageModel::<
                UniversalModel,
            >::Needs(NeedModel::VerifyEnvelope)
            &&& shaped && progress.envelope is Some && progress.envelope->0 is Err ==> stage
                == StageModel::<UniversalModel>::Failed(progress.envelope->0->Err_0)
            &&& enveloped && progress.capability_ir is None ==> stage == StageModel::<
                UniversalModel,
            >::Needs(NeedModel::ValidateCapabilityIr)
            &&& enveloped && progress.capability_ir is Some && progress.capability_ir->0 is Err
                ==> stage == StageModel::<UniversalModel>::Failed(progress.capability_ir->0->Err_0)
            &&& structured && progress.operational is None ==> stage == StageModel::<
                UniversalModel,
            >::Needs(NeedModel::ValidateOperational)
            &&& structured && progress.operational is Some && progress.operational->0 is Err
                ==> stage == StageModel::<UniversalModel>::Failed(progress.operational->0->Err_0)
            &&& stage is Done || stage is Needs && stage->Needs_0 is Compile ==> contracted
            &&& contracted ==> {
                let step = compilation_step(request_input(request), progress.compilation);
                &&& stage is Done <==> step is Done
                &&& step is Failed ==> stage == StageModel::<UniversalModel>::Failed(step->Failed_0)
            }
        }),
{
    let rows = request.risk_metric_rows;
    if finite_square(rows) {
        assert forall|i: int, j: int| 0 <= i < rows.len() && 0 <= j < rows[i].len() implies (
        #[trigger] rows[i][j]).finite() by {
            assert(crate::scalar::all_finite(rows[i]));
        }
    }
    if rows.len() > 0 && (forall|i: int|
        0 <= i < rows.len() ==> (#[trigger] rows[i]).len() == rows.len()) && (forall|
        i: int,
        j: int,
    |
        0 <= i < rows.len() && 0 <= j < rows[i].len() ==> (#[trigger] rows[i][j]).finite()) {
        assert forall|i: int| 0 <= i < rows.len() implies (#[trigger] rows[i]).len() == rows.len()
            && crate::scalar::all_finite(rows[i]) by {
            assert forall|j: int| 0 <= j < rows[i].len() implies (#[trigger] rows[i][j]).finite() by {
            }
        }
    }
}

/// A receipt holds the compilation of its request under the digest of that request;
/// a shadow plan holds such a receipt together with the assessment and the plan that
/// were made for it, and its own receipt the digest of the planning request.
pub proof fn receipts_hold_what_was_made(request: PlanningModel, progress: PlanningProgressModel)
    ensures
        execution_stage(request.compilation, progress.compilation) matches StageModel::Done(receipt)
            ==> {
            &&& receipt.schema == "cerebro.tidex.universal_capability_compilation_receipt/v1"@
            &&& progress.compilation.request_sha256 == Some(
                Ok::<_, ErrorView>(receipt.request_sha256),
            )
            &&& request_stage(request.compilation, progress.compilation) == StageModel::Done(
                receipt.compilation,
            )
        },
        planning_stage(request, progress) matches StageModel::Done(plan) ==> {
            &&& plan.schema == "cerebro.tidex.universal_capability_shadow_plan/v1"@
            &&& execution_stage(request.compilation, progress.compilation) == StageModel::Done(
                plan.compilation_receipt,
            )
            &&& progress.compatibility == Some(Ok::<_, ErrorView>(plan.compatibility))
            &&& progress.plan == Some(Ok::<_, ErrorView>(plan.materialization_plan))
        },
        plan_execution_stage(request, progress) matches StageModel::Done(receipt) ==> {
            &&& receipt.schema == "cerebro.tidex.universal_capability_shadow_plan_receipt/v1"@
            &&& progress.planning_request_sha256 == Some(
                Ok::<_, ErrorView>(receipt.planning_request_sha256),
            )
            &&& planning_stage(request, progress) == StageModel::Done(receipt.shadow_plan)
        },
{
}

/// A plan is made exactly when everything before it holds: the request declares
/// itself one and is bound to a receiver, its compilation may be used and fits the
/// receiver, and the requirements, the assessment and a plan that stays in the
/// shadow are there. What fails first is the failure of the planning.
pub proof fn plans_are_made_exactly_when_everything_holds(
    request: PlanningModel,
    progress: PlanningProgressModel,
)
    ensures
        ({
            let stage = planning_stage(request, progress);
            let executed = execution_stage(request.compilation, progress.compilation);
            let compilation = executed->Done_0.compilation;
            let declared = request.schema
                == "cerebro.tidex.universal_capability_planning_request/v1"@;
            let bound = declared
                && request.compilation.calibration.receiver_snapshot_binding_sha256
                != zero_digest();
            let usable = bound && executed is Done && compilation.receiver.allowed;
            let required = usable && progress.requirements is Some
                && progress.requirements->0 is Ok;
            let fitting = required && compilation.receiver.receiver_parameter_dimension
                == request.receiver_profile.parameter_dimension;
            let assessed = fitting && progress.compatibility is Some
                && progress.compatibility->0 is Ok;
            let planned = assessed && progress.plan is Some && progress.plan->0 is Ok;
            &&& !declared ==> stage == StageModel::<ShadowPlanModel>::Failed(
                ErrorView::Invalid("universal_capability_planning_request_schema"@),
            )
            &&& declared && !bound ==> stage == StageModel::<ShadowPlanModel>::Failed(
                ErrorView::Integrity("universal_capability_planning_calibration_unbound"@),
            )
            &&& bound && executed is Failed ==> stage == StageModel::<ShadowPlanModel>::Failed(
                executed->Failed_0,
            )
            &&& bound && executed is Needs ==> stage == StageModel::<ShadowPlanModel>::Needs(
                executed->Needs_0,
            )
            &&& bound && executed is Done && !compilation.receiver.allowed ==> stage
                == StageModel::<ShadowPlanModel>::Failed(
                ErrorView::Integrity("universal_capability_compilation_not_usable"@),
            )
            &&& usable && progress.requirements is None ==> stage == StageModel::<
                ShadowPlanModel,
            >::Needs(NeedModel::ValidateRequirements)
            &&& usable && progress.requirements is Some && progress.requirements->0 is Err ==> stage
                == StageModel::<ShadowPlanModel>::Failed(progress.requirements->0->Err_0)
            &&& required && !fitting ==> stage == StageModel::<ShadowPlanModel>::Failed(
                ErrorView::Integrity("receiver_profile_compilation_dimension_mismatch"@),
            )
            &&& fitting && progress.compatibility is None ==> stage == StageModel::<
                ShadowPlanModel,
            >::Needs(NeedModel::AssessCompatibility)
            &&& fitting && progress.compatibility is Some && progress.compatibility->0 is Err
                ==> stage == StageModel::<ShadowPlanModel>::Failed(
                progress.compatibility->0->Err_0,
            )
            &&& assessed && progress.plan is None <==> stage is Needs && stage->Needs_0 is CreatePlan
            &&& assessed && progress.plan is Some && progress.plan->0 is Err ==> stage
                == StageModel::<ShadowPlanModel>::Failed(progress.plan->0->Err_0)
            &&& stage is Done <==> planned && progress.plan->0->Ok_0.lifecycle
                == PlanLifecycle::ShadowOnly
        }),
{
    usable_exactly_when_allowed(request.compilation, progress.compilation);
}

/// Whether two numbers are the same, and none of them a NaN.
pub open spec fn same_number(a: Scalar, b: Scalar) -> bool {
    !a.nan() && !b.nan() && a.units() == b.units()
}

/// Whether two vectors hold the same numbers.
pub open spec fn same_numbers(a: Seq<Scalar>, b: Seq<Scalar>) -> bool {
    a.len() == b.len() && forall|i: int| 0 <= i < a.len() ==> same_number(#[trigger] a[i], b[i])
}

/// Whether two compilations state the same of a receiver, field by field.
pub open spec fn same_statement(a: CompilationModel, b: CompilationModel) -> bool {
    &&& a.schema == b.schema
    &&& a.receiver_parameter_dimension == b.receiver_parameter_dimension
    &&& a.calibration_anchor_count == b.calibration_anchor_count
    &&& same_numbers(a.target_delta, b.target_delta)
    &&& same_numbers(a.predicted_functional_signature, b.predicted_functional_signature)
    &&& same_number(a.decoder_loo_r2, b.decoder_loo_r2)
    &&& same_number(a.decoder_min_loo_cosine, b.decoder_min_loo_cosine)
    &&& same_number(a.encoder_loo_r2, b.encoder_loo_r2)
    &&& same_number(a.encoder_min_loo_cosine, b.encoder_min_loo_cosine)
    &&& same_number(a.functional_relative_error, b.functional_relative_error)
    &&& same_number(a.correct_cosine, b.correct_cosine)
    &&& same_number(a.maximum_wrong_cosine, b.maximum_wrong_cosine)
    &&& same_number(a.identity_margin, b.identity_margin)
    &&& same_number(a.protection_damage_ratio, b.protection_damage_ratio)
    &&& same_number(a.protection_removed_energy, b.protection_removed_energy)
    &&& same_number(a.protection_max_weighted_residual, b.protection_max_weighted_residual)
    &&& same_number(a.trust_region.scale, b.trust_region.scale)
    &&& same_number(a.trust_region.max_quadratic_cost, b.trust_region.max_quadratic_cost)
    &&& same_numbers(
        a.trust_region.accepted_coefficients,
        b.trust_region.accepted_coefficients,
    )
    &&& same_number(a.trust_region.accepted_quadratic_cost, b.trust_region.accepted_quadratic_cost)
    &&& a.trust_region.details == b.trust_region.details
    &&& a.operational_verification.allowed == b.operational_verification.allowed
    &&& a.operational_verification.details == b.operational_verification.details
    &&& a.allowed == b.allowed
}

/// A replay confirms a receipt only where it states of the compilation exactly what
/// the request gives again, in every field, under the digest of the request and of
/// its sources; and a plan only where it also repeats the assessment and the plan.
pub proof fn confirmed_receipts_repeat_every_field(
    request: PlanningModel,
    receipt: ReceiptModel,
    plan: PlanReceiptModel,
    progress: PlanningProgressModel,
)
    ensures
        replay_stage(request.compilation, receipt, progress.compilation) is Done ==> {
            let again = request_stage(request.compilation, progress.compilation)->Done_0;
            let stated = receipt.compilation;
            &&& receipt.schema == "cerebro.tidex.universal_capability_compilation_receipt/v1"@
            &&& progress.compilation.request_sha256 == Some(
                Ok::<_, ErrorView>(receipt.request_sha256),
            )
            &&& request_stage(request.compilation, progress.compilation) is Done
            &&& stated.schema == again.schema
            &&& stated.source_envelope_sha256
                == request.compilation.sources.system_envelope_sha256
            &&& stated.capability_ir_sha256 == request.compilation.sources.capability_ir_sha256
            &&& stated.disposition == again.disposition
            &&& same_statement(again.receiver, stated.receiver)
        },
        plan_replay_stage(request, plan, progress) is Done ==> {
            let again = planning_stage(request, progress)->Done_0;
            let stated = plan.shadow_plan;
            let stated_compilation = stated.compilation_receipt.compilation;
            let again_compilation = again.compilation_receipt.compilation;
            &&& plan.schema == "cerebro.tidex.universal_capability_shadow_plan_receipt/v1"@
            &&& progress.planning_request_sha256 == Some(
                Ok::<_, ErrorView>(plan.planning_request_sha256),
            )
            &&& planning_stage(request, progress) is Done
            &&& stated.schema == again.schema
            &&& stated.compilation_receipt.schema == again.compilation_receipt.schema
            &&& progress.compilation.request_sha256 == Some(
                Ok::<_, ErrorView>(stated.compilation_receipt.request_sha256),
            )
            &&& stated_compilation.schema == again_compilation.schema
            &&& stated_compilation.source_envelope_sha256
                == request.compilation.sources.system_envelope_sha256
            &&& stated_compilation.capability_ir_sha256
                == request.compilation.sources.capability_ir_sha256
            &&& stated_compilation.disposition == UniversalCapabilityDisposition::ExperimentalOnly
            &&& same_statement(stated_compilation.receiver, again_compilation.receiver)
            &&& progress.compatibility == Some(Ok::<_, ErrorView>(stated.compatibility))
            &&& progress.plan == Some(Ok::<_, ErrorView>(stated.materialization_plan))
        },
{
}

/// A receipt that differs from what its request gives is refused for what differs:
/// another schema, another digest, or another statement.
pub proof fn differing_receipts_are_refused(
    request: RequestModel,
    receipt: ReceiptModel,
    progress: UniversalProgressModel,
)
    requires
        progress.request_sha256 is Some && progress.request_sha256->0 is Ok,
        request_stage(request, progress) is Done,
    ensures
        ({
            let stage = replay_stage(request, receipt, progress);
            let again = request_stage(request, progress)->Done_0;
            let declared = receipt.schema
                == "cerebro.tidex.universal_capability_compilation_receipt/v1"@;
            let digested = declared && receipt.request_sha256 == progress.request_sha256->0->Ok_0;
            let repeated = {
                &&& receipt.compilation.schema == again.schema
                &&& receipt.compilation.source_envelope_sha256 == again.source_envelope_sha256
                &&& receipt.compilation.capability_ir_sha256 == again.capability_ir_sha256
                &&& receipt.compilation.disposition == again.disposition
                &&& same_statement(again.receiver, receipt.compilation.receiver)
            };
            &&& !declared ==> stage == StageModel::<Confirmed>::Failed(
                ErrorView::Invalid("universal_capability_compilation_receipt_schema"@),
            )
            &&& declared && !digested ==> stage == StageModel::<Confirmed>::Failed(
                ErrorView::Integrity("universal_capability_compilation_request_digest_mismatch"@),
            )
            &&& digested && !repeated ==> stage == StageModel::<Confirmed>::Failed(
                ErrorView::Integrity("universal_capability_compilation_replay_mismatch"@),
            )
            &&& digested && repeated ==> stage == StageModel::Done(Confirmed)
        }),
{
}

/// A request is digested before anything is done for it, both by itself and as part of
/// a plan, and a digest that cannot be taken is the error. Executing goes on exactly
/// as compiling and as planning do.
pub proof fn requests_are_digested_first(request: PlanningModel, progress: PlanningProgressModel)
    ensures
        ({
            let taken = progress.compilation.request_sha256;
            let executed = execution_stage(request.compilation, progress.compilation);
            let compiled = request_stage(request.compilation, progress.compilation);
            &&& taken is None ==> executed == StageModel::<ReceiptModel>::Needs(
                NeedModel::DigestRequest,
            )
            &&& taken is Some && taken->0 is Err ==> executed == StageModel::<
                ReceiptModel,
            >::Failed(taken->0->Err_0)
            &&& taken is Some && taken->0 is Ok && compiled is Failed ==> executed == StageModel::<
                ReceiptModel,
            >::Failed(compiled->Failed_0)
            &&& taken is Some && taken->0 is Ok && compiled is Needs ==> executed == StageModel::<
                ReceiptModel,
            >::Needs(compiled->Needs_0)
            &&& taken is Some && taken->0 is Ok && compiled is Done ==> executed is Done
        }),
        ({
            let taken = progress.planning_request_sha256;
            let executed = plan_execution_stage(request, progress);
            let planned = planning_stage(request, progress);
            &&& taken is None ==> executed == StageModel::<PlanReceiptModel>::Needs(
                NeedModel::DigestPlanningRequest,
            )
            &&& taken is Some && taken->0 is Err ==> executed == StageModel::<
                PlanReceiptModel,
            >::Failed(taken->0->Err_0)
            &&& taken is Some && taken->0 is Ok && planned is Failed ==> executed == StageModel::<
                PlanReceiptModel,
            >::Failed(planned->Failed_0)
            &&& taken is Some && taken->0 is Ok && planned is Needs ==> executed == StageModel::<
                PlanReceiptModel,
            >::Needs(planned->Needs_0)
            &&& taken is Some && taken->0 is Ok && planned is Done ==> executed is Done
        }),
{
}

/// A replay first looks at the receipt's schema, then at the digest of the request, and
/// then repeats the work: each refusal has its own cause, and what the work still needs
/// or fails with is what the replay needs or fails with.
pub proof fn replays_repeat_the_work(
    request: PlanningModel,
    receipt: ReceiptModel,
    plan: PlanReceiptModel,
    progress: PlanningProgressModel,
)
    ensures
        ({
            let taken = progress.compilation.request_sha256;
            let stage = replay_stage(request.compilation, receipt, progress.compilation);
            let compiled = request_stage(request.compilation, progress.compilation);
            let declared = receipt.schema
                == "cerebro.tidex.universal_capability_compilation_receipt/v1"@;
            let digested = declared && taken == Some(Ok::<_, ErrorView>(receipt.request_sha256));
            &&& declared && taken is None ==> stage == StageModel::<Confirmed>::Needs(
                NeedModel::DigestRequest,
            )
            &&& declared && taken is Some && taken->0 is Err ==> stage == StageModel::<
                Confirmed,
            >::Failed(taken->0->Err_0)
            &&& digested && compiled is Failed ==> stage == StageModel::<Confirmed>::Failed(
                compiled->Failed_0,
            )
            &&& digested && compiled is Needs ==> stage == StageModel::<Confirmed>::Needs(
                compiled->Needs_0,
            )
        }),
        ({
            let taken = progress.planning_request_sha256;
            let stage = plan_replay_stage(request, plan, progress);
            let planned = planning_stage(request, progress);
            let declared = plan.schema
                == "cerebro.tidex.universal_capability_shadow_plan_receipt/v1"@;
            let digested = declared && taken == Some(
                Ok::<_, ErrorView>(plan.planning_request_sha256),
            );
            let stated = plan.shadow_plan;
            let again = planned->Done_0;
            let repeated = {
                &&& stated.schema == again.schema
                &&& stated.compilation_receipt.schema == again.compilation_receipt.schema
                &&& stated.compilation_receipt.request_sha256
                    == again.compilation_receipt.request_sha256
                &&& stated.compilation_receipt.compilation.schema
                    == again.compilation_receipt.compilation.schema
                &&& stated.compilation_receipt.compilation.source_envelope_sha256
                    == again.compilation_receipt.compilation.source_envelope_sha256
                &&& stated.compilation_receipt.compilation.capability_ir_sha256
                    == again.compilation_receipt.compilation.capability_ir_sha256
                &&& stated.compilation_receipt.compilation.disposition
                    == again.compilation_receipt.compilation.disposition
                &&& same_statement(
                    stated.compilation_receipt.compilation.receiver,
                    again.compilation_receipt.compilation.receiver,
                )
                &&& stated.compatibility == again.compatibility
                &&& stated.materialization_plan == again.materialization_plan
            };
            &&& !declared ==> stage == StageModel::<Confirmed>::Failed(
                ErrorView::Invalid("universal_capability_shadow_plan_receipt_schema"@),
            )
            &&& declared && taken is None ==> stage == StageModel::<Confirmed>::Needs(
                NeedModel::DigestPlanningRequest,
            )
            &&& declared && taken is Some && taken->0 is Err ==> stage == StageModel::<
                Confirmed,
            >::Failed(taken->0->Err_0)
            &&& declared && taken is Some && taken->0 is Ok && !digested ==> stage == StageModel::<
                Confirmed,
            >::Failed(
                ErrorView::Integrity("universal_capability_shadow_plan_request_digest_mismatch"@),
            )
            &&& digested && planned is Failed ==> stage == StageModel::<Confirmed>::Failed(
                planned->Failed_0,
            )
            &&& digested && planned is Needs ==> stage == StageModel::<Confirmed>::Needs(
                planned->Needs_0,
            )
            &&& digested && planned is Done && !repeated ==> stage == StageModel::<
                Confirmed,
            >::Failed(ErrorView::Integrity("universal_capability_shadow_plan_replay_mismatch"@))
            &&& digested && planned is Done && repeated ==> stage == StageModel::Done(Confirmed)
        }),
{
}

/// A plan for anything but the shadow is refused.
pub proof fn plans_outside_the_shadow_are_refused(
    request: PlanningModel,
    progress: PlanningProgressModel,
    plan: PlanModel,
)
    requires
        planning_stage(request, (PlanningProgressModel { plan: None, ..progress })) is Needs,
        planning_stage(
            request,
            (PlanningProgressModel { plan: None, ..progress }),
        )->Needs_0 is CreatePlan,
    ensures
        plan.lifecycle != PlanLifecycle::ShadowOnly ==> planning_stage(
            request,
            (PlanningProgressModel { plan: Some(Ok::<_, ErrorView>(plan)), ..progress }),
        ) == StageModel::<ShadowPlanModel>::Failed(
            ErrorView::Integrity("universal_capability_plan_not_shadow_only"@),
        ),
        plan.lifecycle == PlanLifecycle::ShadowOnly ==> planning_stage(
            request,
            (PlanningProgressModel { plan: Some(Ok::<_, ErrorView>(plan)), ..progress }),
        ) is Done,
{
}

} // verus!

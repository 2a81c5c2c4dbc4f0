//! The documents that the laboratory hands to the engine for one case: what a
//! capability is, how it is probed, what is to be planned, and how the result is
//! evaluated.

use crate::checkpoint_inspection::{ArtifactsModel, InspectedReceiverArtifacts};
use crate::controls::{ComparativeControl, ControlSet};
use crate::error::ErrorView;
use crate::identity::{CapabilityId, CapabilityIrDigest, Sha256Digest, TensorId};
use crate::json::{Json, JsonTree};
use crate::lab_policies::{
    backend_controls, compiler_policy, controls_for, discovery_policy, laboratory_compiler_policy,
    laboratory_compiler_policy_is_acceptable, laboratory_discovery_policy,
    CapabilityDiscoveryPolicy, DiscoveryPolicyModel,
};
use crate::lab_records::{
    digest_field, digest_member, identity_matrix, identity_rows, metrics_of, probe, probe_of,
    receiver_solution, shadow_metrics, solution_of, ProbeModel, ProbeRecord, ShadowMetrics,
    ShadowReadings,
};
use crate::lab_suite::{
    anchor_state, anchor_values, calibration_rows, calibration_scaled, calibration_signatures,
    calibration_table, capability_is_held_out_of_its_calibration, row_variation,
    signature_variation, wrong_operators, wrong_signatures, CapabilitySpec, FiniteOperator,
    NumberVariation, PrepareError, PrepareErrorView, SpecModel, Transition, TransitionModel,
    VariedModel, VariedSignature,
};
use crate::order::{key_less, take_one_more, text_key, views, views_push};
use crate::receiver_compiler::{
    admission, rows_regular, some_degenerate, AdmissionModel, CalibrationModel, CompilationModel,
    ReceiverCalibrationSet, ReceiverCompilation, MINIMUM_ANCHORS,
};
use crate::receiver_profile::{
    CapabilityModality, MaterializationStrategy, ModalityModel, ProfileModel, ReceiverProfile,
};
use crate::scalar::{all_finite, lemma_magnitude_zero, row_copy, Scalar};
use crate::universal_capability_compiler::{
    finite_square, request_input, CapabilitySources, CortexModel, PlanningModel, ProtectedCortex,
    RequestModel, SourcesModel, UniversalCapabilityCompilationRequest,
    UniversalCapabilityPlanningRequest,
};
use vstd::prelude::*;

verus! {

broadcast use views_push;

/// The pattern of ten to the power of minus five.
pub const CLOSURE_TOLERANCE_BITS: u64 = 0x3EE4_F8B5_88E3_68F1;

/// The pattern of 0.05.
pub const IDENTITY_MARGIN_BITS: u64 = 0x3FA9_9999_9999_999A;

/// A named state.
#[derive(Debug)]
pub struct StateIrAnchor {
    pub anchor_id: &'static str,
    pub state: Vec<Scalar>,
}

/// The model of a [`StateIrAnchor`].
pub struct AnchorModel {
    pub anchor_id: Seq<char>,
    pub state: Seq<Scalar>,
}

impl View for StateIrAnchor {
    type V = AnchorModel;

    open spec fn view(&self) -> AnchorModel {
        AnchorModel { anchor_id: self.anchor_id@, state: self.state@ }
    }
}

/// An anchor with its coordinates.
pub open spec fn anchor_named(name: Seq<char>) -> AnchorModel {
    AnchorModel { anchor_id: name, state: anchor_values(name) }
}

/// The anchors of every capability.
pub open spec fn anchor_table() -> Seq<AnchorModel> {
    seq![anchor_named("n0"@), anchor_named("n1"@), anchor_named("s0"@), anchor_named("s1"@)]
}

/// The anchors of every capability.
pub fn anchor_contracts() -> (anchors: Vec<StateIrAnchor>)
    ensures
        views(anchors@) == anchor_table(),
{
    let anchors = vec![
        StateIrAnchor { anchor_id: "n0", state: anchor_state("n0") },
        StateIrAnchor { anchor_id: "n1", state: anchor_state("n1") },
        StateIrAnchor { anchor_id: "s0", state: anchor_state("s0") },
        StateIrAnchor { anchor_id: "s1", state: anchor_state("s1") },
    ];
    assert(views(anchors@) =~= anchor_table());
    anchors
}

/// What the source of a capability declares.
#[derive(Debug)]
pub struct SourceContract {
    pub schema: String,
    pub capability_id: String,
    pub representation: String,
    pub state_dimension: usize,
    pub operator_id: &'static str,
    pub transitions: Vec<Transition>,
    pub anchors: Vec<StateIrAnchor>,
    pub closure_error_lte: Scalar,
    pub contraction_ratio_lte: Scalar,
    pub identity_margin_gte: Scalar,
}

/// The model of a [`SourceContract`].
pub struct SourceModel {
    pub schema: Seq<char>,
    pub capability_id: Seq<char>,
    pub representation: Seq<char>,
    pub state_dimension: usize,
    pub operator_id: Seq<char>,
    pub transitions: Seq<TransitionModel>,
    pub anchors: Seq<AnchorModel>,
    pub closure_error_lte: Scalar,
    pub contraction_ratio_lte: Scalar,
    pub identity_margin_gte: Scalar,
}

impl View for SourceContract {
    type V = SourceModel;

    open spec fn view(&self) -> SourceModel {
        SourceModel {
            schema: self.schema@,
            capability_id: self.capability_id@,
            representation: self.representation@,
            state_dimension: self.state_dimension,
            operator_id: self.operator_id@,
            transitions: views(self.transitions@),
            anchors: views(self.anchors@),
            closure_error_lte: self.closure_error_lte,
            contraction_ratio_lte: self.contraction_ratio_lte,
            identity_margin_gte: self.identity_margin_gte,
        }
    }
}

/// What the source of a capability declares.
pub open spec fn source_of(capability: SpecModel) -> SourceModel {
    SourceModel {
        schema: "cerebro.tidex.capability_source_contract/v1"@,
        capability_id: capability.id,
        representation: "finite_state_operator"@,
        state_dimension: 2,
        operator_id: capability.operator.operator_text(),
        transitions: capability.operator.transition_models(),
        anchors: anchor_table(),
        closure_error_lte: Scalar { bits: CLOSURE_TOLERANCE_BITS },
        contraction_ratio_lte: Scalar { bits: CLOSURE_TOLERANCE_BITS },
        identity_margin_gte: Scalar { bits: IDENTITY_MARGIN_BITS },
    }
}

impl CapabilitySpec {
    /// What the source of the capability declares.
    pub fn source_contract(&self) -> (contract: SourceContract)
        ensures
            contract@ == source_of(self@),
    {
        SourceContract {
            schema: "cerebro.tidex.capability_source_contract/v1".to_owned(),
            capability_id: self.id.as_str().to_owned(),
            representation: "finite_state_operator".to_owned(),
            state_dimension: 2,
            operator_id: self.operator.operator_id(),
            transitions: self.operator.transitions(),
            anchors: anchor_contracts(),
            closure_error_lte: Scalar { bits: CLOSURE_TOLERANCE_BITS },
            contraction_ratio_lte: Scalar { bits: CLOSURE_TOLERANCE_BITS },
            identity_margin_gte: Scalar { bits: IDENTITY_MARGIN_BITS },
        }
    }
}

/// An observed transition of an operator.
#[derive(Debug)]
pub struct OperatorIrTransition {
    pub operator_id: &'static str,
    pub source_anchor_id: &'static str,
    pub target_anchor_id: &'static str,
    pub observed_next_state: Vec<Scalar>,
    pub pre_target_error: Scalar,
    pub post_target_error: Scalar,
}

/// The model of an [`OperatorIrTransition`].
pub struct ObservedModel {
    pub operator_id: Seq<char>,
    pub source_anchor_id: Seq<char>,
    pub target_anchor_id: Seq<char>,
    pub observed_next_state: Seq<Scalar>,
    pub pre_target_error: Scalar,
    pub post_target_error: Scalar,
}

impl View for OperatorIrTransition {
    type V = ObservedModel;

    open spec fn view(&self) -> ObservedModel {
        ObservedModel {
            operator_id: self.operator_id@,
            source_anchor_id: self.source_anchor_id@,
            target_anchor_id: self.target_anchor_id@,
            observed_next_state: self.observed_next_state@,
            pre_target_error: self.pre_target_error,
            post_target_error: self.post_target_error,
        }
    }
}

/// What a capability does, state by state.
#[derive(Debug)]
pub struct OperationalCapabilityContract {
    pub schema: String,
    pub capability_id: CapabilityId,
    pub capability_ir_sha256: CapabilityIrDigest,
    pub state_dimension: usize,
    pub anchors: Vec<StateIrAnchor>,
    pub transitions: Vec<OperatorIrTransition>,
    pub maximum_closure_error: Scalar,
    pub maximum_contraction_ratio: Scalar,
}

/// The model of an [`OperationalCapabilityContract`].
pub struct OperationalModel {
    pub schema: Seq<char>,
    pub capability_id: Seq<char>,
    pub capability_ir_sha256: Seq<char>,
    pub state_dimension: usize,
    pub anchors: Seq<AnchorModel>,
    pub transitions: Seq<ObservedModel>,
    pub maximum_closure_error: Scalar,
    pub maximum_contraction_ratio: Scalar,
}

impl View for OperationalCapabilityContract {
    type V = OperationalModel;

    open spec fn view(&self) -> OperationalModel {
        OperationalModel {
            schema: self.schema@,
            capability_id: self.capability_id@,
            capability_ir_sha256: self.capability_ir_sha256@,
            state_dimension: self.state_dimension,
            anchors: views(self.anchors@),
            transitions: views(self.transitions@),
            maximum_closure_error: self.maximum_closure_error,
            maximum_contraction_ratio: self.maximum_contraction_ratio,
        }
    }
}

/// How far each source state of an operator is from its target, in the order of
/// the transitions.
#[derive(Debug, Clone, Copy, PartialEq, Eq, Structural)]
pub struct TransitionErrors {
    pub first: Scalar,
    pub second: Scalar,
}

/// One transition that reaches its target exactly.
pub open spec fn observed_of(
    operator: Seq<char>,
    transition: TransitionModel,
    pre_target_error: Scalar,
) -> ObservedModel {
    ObservedModel {
        operator_id: operator,
        source_anchor_id: transition.source,
        target_anchor_id: transition.target,
        observed_next_state: anchor_values(transition.target),
        pre_target_error,
        post_target_error: Scalar { bits: 0 },
    }
}

/// What a capability does, state by state.
pub open spec fn operational_of(
    id: Seq<char>,
    capability_ir_sha256: Seq<char>,
    capability: SpecModel,
    errors: TransitionErrors,
) -> OperationalModel {
    let operator = capability.operator.operator_text();
    let transitions = capability.operator.transition_models();
    OperationalModel {
        schema: "cerebro.tidex.operational_capability/v1"@,
        capability_id: id,
        capability_ir_sha256,
        state_dimension: 2,
        anchors: anchor_table(),
        transitions: seq![
            observed_of(operator, transitions[0], errors.first),
            observed_of(operator, transitions[1], errors.second),
        ],
        maximum_closure_error: Scalar { bits: CLOSURE_TOLERANCE_BITS },
        maximum_contraction_ratio: Scalar { bits: CLOSURE_TOLERANCE_BITS },
    }
}

/// What a capability does, state by state, for a sealed capability and the
/// errors that the engine measured.
pub fn operational_contract(
    capability_id: &CapabilityId,
    capability_ir_sha256: &CapabilityIrDigest,
    capability: &CapabilitySpec,
    errors: TransitionErrors,
) -> (contract: OperationalCapabilityContract)
    ensures
        contract@ == operational_of(capability_id@, capability_ir_sha256@, capability@, errors),
{
    let operator_id = capability.operator.operator_id();
    let transitions = capability.operator.transitions();
    let ghost models = capability@.operator.transition_models();
    assert(views(transitions@).len() == 2);
    assert(models[0] == transitions@[0]@ && models[1] == transitions@[1]@);
    let first = transitions[0];
    let second = transitions[1];
    let observed = vec![
        OperatorIrTransition {
            operator_id,
            source_anchor_id: first.source,
            target_anchor_id: first.target,
            observed_next_state: anchor_state(first.target),
            pre_target_error: errors.first,
            post_target_error: Scalar { bits: 0 },
        },
        OperatorIrTransition {
            operator_id,
            source_anchor_id: second.source,
            target_anchor_id: second.target,
            observed_next_state: anchor_state(second.target),
            pre_target_error: errors.second,
            post_target_error: Scalar { bits: 0 },
        },
    ];
    let contract = OperationalCapabilityContract {
        schema: "cerebro.tidex.operational_capability/v1".to_owned(),
        capability_id: capability_id.clone(),
        capability_ir_sha256: capability_ir_sha256.clone(),
        state_dimension: 2,
        anchors: anchor_contracts(),
        transitions: observed,
        maximum_closure_error: Scalar { bits: CLOSURE_TOLERANCE_BITS },
        maximum_contraction_ratio: Scalar { bits: CLOSURE_TOLERANCE_BITS },
    };
    assert(contract@.transitions =~= operational_of(
        capability_id@,
        capability_ir_sha256@,
        capability@,
        errors,
    ).transitions);
    contract
}

/// The transitions of an operational contract stand in ascending order: they
/// share their operator, and their sources ascend.
pub proof fn operational_transitions_ascend(
    id: Seq<char>,
    capability_ir_sha256: Seq<char>,
    capability: SpecModel,
    errors: TransitionErrors,
)
    ensures
        ({
            let transitions = operational_of(
                id,
                capability_ir_sha256,
                capability,
                errors,
            ).transitions;
            &&& transitions.len() == 2
            &&& transitions[0].operator_id == transitions[1].operator_id
            &&& key_less(
                text_key(transitions[0].source_anchor_id),
                text_key(transitions[1].source_anchor_id),
            )
        }),
{
    reveal_strlit("s0");
    reveal_strlit("s1");
    reveal_with_fuel(key_less, 3);
    let a = text_key("s0"@);
    let b = text_key("s1"@);
    assert(a[0] == b[0] && a.skip(1)[0] < b.skip(1)[0]);
}

/// How many probes a discovery makes.
pub const PROBE_COUNT: usize = 4;

/// The pattern of two thousandths.
pub const PROBE_SCALE_BITS: u64 = 0x3F60_624D_D2F1_A9FC;

/// How a seed varies the signature of a capability for its probes.
pub fn probe_variations(capability: &CapabilitySpec, seed: u64) -> (rows: Vec<
    Vec<NumberVariation>,
>)
    ensures
        views(rows@) == Seq::new(
            PROBE_COUNT as nat,
            |index: int|
                row_variation(
                    capability@.operator.signature(),
                    seed,
                    index as u64,
                    Scalar { bits: PROBE_SCALE_BITS },
                ),
        ),
{
    let target = capability.target_signature();
    let scale = Scalar { bits: PROBE_SCALE_BITS };
    let mut rows: Vec<Vec<NumberVariation>> = Vec::new();
    for index in 0..PROBE_COUNT
        invariant
            target@ == capability@.operator.signature(),
            scale == (Scalar { bits: PROBE_SCALE_BITS }),
            rows@.len() == index,
            forall|k: int|
                0 <= k < index ==> (#[trigger] rows@[k])@ == row_variation(
                    target@,
                    seed,
                    k as u64,
                    scale,
                ),
    {
        rows.push(signature_variation(&target, seed, index as u64, scale));
    }
    rows
}

/// One probe with what it observed.
#[derive(Debug)]
pub struct CapabilityProbeTrial {
    pub schema: String,
    pub probe: ProbeRecord,
    pub functional_signature: Vec<Scalar>,
    pub wrong_control_signature: Vec<Scalar>,
    pub closure_error: Scalar,
    pub contraction_ratio: Scalar,
    pub attributed_module_families: Vec<String>,
}

/// The model of a [`CapabilityProbeTrial`].
pub struct ProbeTrialModel {
    pub schema: Seq<char>,
    pub probe: ProbeModel,
    pub functional_signature: Seq<Scalar>,
    pub wrong_control_signature: Seq<Scalar>,
    pub closure_error: Scalar,
    pub contraction_ratio: Scalar,
    pub attributed_module_families: Seq<Seq<char>>,
}

impl View for CapabilityProbeTrial {
    type V = ProbeTrialModel;

    open spec fn view(&self) -> ProbeTrialModel {
        ProbeTrialModel {
            schema: self.schema@,
            probe: self.probe@,
            functional_signature: self.functional_signature@,
            wrong_control_signature: self.wrong_control_signature@,
            closure_error: self.closure_error,
            contraction_ratio: self.contraction_ratio,
            attributed_module_families: views(self.attributed_module_families@),
        }
    }
}

/// A request to discover a capability in a receiver.
#[derive(Debug)]
pub struct CapabilityDiscoveryRequest {
    pub schema: String,
    pub trials: Vec<CapabilityProbeTrial>,
    pub policy: CapabilityDiscoveryPolicy,
}

/// The model of a [`CapabilityDiscoveryRequest`].
pub struct DiscoveryModel {
    pub schema: Seq<char>,
    pub trials: Seq<ProbeTrialModel>,
    pub policy: DiscoveryPolicyModel,
}

impl View for CapabilityDiscoveryRequest {
    type V = DiscoveryModel;

    open spec fn view(&self) -> DiscoveryModel {
        DiscoveryModel {
            schema: self.schema@,
            trials: views(self.trials@),
            policy: self.policy@,
        }
    }
}

/// At most the first of the given names.
pub open spec fn first_name(names: Seq<Seq<char>>) -> Seq<Seq<char>> {
    if names.len() == 0 {
        Seq::empty()
    } else {
        seq![names[0]]
    }
}

/// One probe of a discovery.
pub open spec fn probe_trial_of(
    capability: SpecModel,
    seed: u64,
    index: int,
    signature: Seq<Scalar>,
    families: Seq<Seq<char>>,
) -> ProbeTrialModel {
    ProbeTrialModel {
        schema: "cerebro.tidex.capability_probe_trial/v1"@,
        probe: probe_of(capability, seed, index as u64),
        functional_signature: signature,
        wrong_control_signature: wrong_operators(capability.operator)[0].signature(),
        closure_error: Scalar { bits: 0 },
        contraction_ratio: Scalar { bits: 0 },
        attributed_module_families: first_name(families),
    }
}

/// The probes of a discovery, one for each signature.
pub open spec fn probe_trials(
    capability: SpecModel,
    seed: u64,
    signatures: Seq<Seq<Scalar>>,
    families: Seq<Seq<char>>,
) -> Seq<ProbeTrialModel> {
    Seq::new(
        signatures.len(),
        |i: int| probe_trial_of(capability, seed, i, signatures[i], families),
    )
}

/// At most the first of the given names.
fn leading_name(names: &Vec<String>) -> (first: Vec<String>)
    ensures
        views(first@) == first_name(views(names@)),
{
    let mut first: Vec<String> = Vec::new();
    if names.len() > 0 {
        assert(views(names@)[0] == names@[0]@);
        first.push(names[0].clone());
    }
    assert(views(first@) =~= first_name(views(names@)));
    first
}

/// The request to discover a capability, from its signatures, varied as
/// [`probe_variations`] states it, and the module families of the receiver in ascending order.
pub fn discovery_request(
    capability: &CapabilitySpec,
    seed: u64,
    signatures: &Vec<Vec<Scalar>>,
    families: &Vec<String>,
) -> (request: CapabilityDiscoveryRequest)
    requires
        signatures@.len() == PROBE_COUNT,
    ensures
        request@ == (DiscoveryModel {
            schema: "cerebro.tidex.capability_discovery_request/v1"@,
            trials: probe_trials(capability@, seed, views(signatures@), views(families@)),
            policy: laboratory_discovery_policy(),
        }),
{
    let ghost wanted = probe_trials(capability@, seed, views(signatures@), views(families@));
    let wrong = wrong_signatures(capability);
    assert(views(wrong@).len() == 3);
    assert(views(wrong@)[0] == wrong@[0]@);
    let mut trials: Vec<CapabilityProbeTrial> = Vec::new();
    assert(views(trials@) =~= wanted.take(0));
    for i in 0..signatures.len()
        invariant
            signatures@.len() == PROBE_COUNT,
            wanted == probe_trials(capability@, seed, views(signatures@), views(families@)),
            wrong@.len() == 3,
            wrong@[0]@ == wrong_operators(capability@.operator)[0].signature(),
            views(trials@) == wanted.take(i as int),
    {
        assert(views(signatures@)[i as int] == signatures@[i as int]@);
        let trial = CapabilityProbeTrial {
            schema: "cerebro.tidex.capability_probe_trial/v1".to_owned(),
            probe: probe(capability, seed, i as u64),
            functional_signature: row_copy(&signatures[i]),
            wrong_control_signature: row_copy(&wrong[0]),
            closure_error: Scalar { bits: 0 },
            contraction_ratio: Scalar { bits: 0 },
            attributed_module_families: leading_name(families),
        };
        proof {
            assert(trial@ == wanted[i as int]);
            take_one_more(wanted, i as int);
        }
        trials.push(trial);
    }
    assert(wanted.take(wanted.len() as int) =~= wanted);
    CapabilityDiscoveryRequest {
        schema: "cerebro.tidex.capability_discovery_request/v1".to_owned(),
        trials,
        policy: discovery_policy(),
    }
}

/// What a capability needs of a receiver.
#[derive(Debug)]
pub struct CapabilityRequirements {
    pub schema: String,
    pub capability_id: CapabilityId,
    pub capability_ir_sha256: CapabilityIrDigest,
    pub required_modalities: Vec<CapabilityModality>,
    pub requires_persistent_state: bool,
    pub minimum_receiver_parameter_dimension: u64,
    pub acceptable_strategies: Vec<MaterializationStrategy>,
}

/// The model of [`CapabilityRequirements`].
pub struct RequirementsModel {
    pub schema: Seq<char>,
    pub capability_id: Seq<char>,
    pub capability_ir_sha256: Seq<char>,
    pub required_modalities: Seq<ModalityModel>,
    pub requires_persistent_state: bool,
    pub minimum_receiver_parameter_dimension: u64,
    pub acceptable_strategies: Seq<MaterializationStrategy>,
}

impl View for CapabilityRequirements {
    type V = RequirementsModel;

    open spec fn view(&self) -> RequirementsModel {
        RequirementsModel {
            schema: self.schema@,
            capability_id: self.capability_id@,
            capability_ir_sha256: self.capability_ir_sha256@,
            required_modalities: views(self.required_modalities@),
            requires_persistent_state: self.requires_persistent_state,
            minimum_receiver_parameter_dimension: self.minimum_receiver_parameter_dimension,
            acceptable_strategies: self.acceptable_strategies@,
        }
    }
}

/// What a sealed capability needs of a receiver of the given dimension.
pub fn capability_requirements(
    capability_id: &CapabilityId,
    capability_ir_sha256: &CapabilityIrDigest,
    parameter_dimension: u64,
) -> (requirements: CapabilityRequirements)
    ensures
        requirements@ == (RequirementsModel {
            schema: "cerebro.tidex.capability_requirements/v1"@,
            capability_id: capability_id@,
            capability_ir_sha256: capability_ir_sha256@,
            required_modalities: seq![ModalityModel::Text],
            requires_persistent_state: false,
            minimum_receiver_parameter_dimension: parameter_dimension,
            acceptable_strategies: seq![
                MaterializationStrategy::DenseDelta,
                MaterializationStrategy::SparseDelta,
            ],
        }),
{
    let requirements = CapabilityRequirements {
        schema: "cerebro.tidex.capability_requirements/v1".to_owned(),
        capability_id: capability_id.clone(),
        capability_ir_sha256: capability_ir_sha256.clone(),
        required_modalities: vec![CapabilityModality::Text],
        requires_persistent_state: false,
        minimum_receiver_parameter_dimension: parameter_dimension,
        acceptable_strategies: vec![
            MaterializationStrategy::DenseDelta,
            MaterializationStrategy::SparseDelta,
        ],
    };
    assert(requirements@.required_modalities =~= seq![ModalityModel::Text]);
    assert(requirements@.acceptable_strategies =~= seq![
        MaterializationStrategy::DenseDelta,
        MaterializationStrategy::SparseDelta,
    ]);
    requirements
}

/// The synthetic solutions for scaled signatures.
pub open spec fn solutions_of(scaled: Seq<Seq<Scalar>>, dimension: nat) -> Seq<Seq<Scalar>> {
    scaled.map_values(|row: Seq<Scalar>| solution_of(row, dimension))
}

/// The synthetic solutions for scaled signatures.
fn receiver_solutions(scaled: &Vec<Vec<Scalar>>, dimension: usize) -> (rows: Vec<Vec<Scalar>>)
    ensures
        views(rows@) == solutions_of(views(scaled@), dimension as nat),
{
    let ghost wanted = solutions_of(views(scaled@), dimension as nat);
    let mut rows: Vec<Vec<Scalar>> = Vec::new();
    assert(views(rows@) =~= wanted.take(0));
    for i in 0..scaled.len()
        invariant
            wanted == solutions_of(views(scaled@), dimension as nat),
            views(rows@) == wanted.take(i as int),
    {
        assert(views(scaled@)[i as int] == scaled@[i as int]@);
        rows.push(receiver_solution(&scaled[i], dimension));
        proof {
            take_one_more(wanted, i as int);
        }
    }
    assert(wanted.take(wanted.len() as int) =~= wanted);
    rows
}

/// The pattern of 0.01: the damage ratio that the laboratory tolerates.
pub const TOLERATED_DAMAGE: u64 = 0x3F84_7AE1_47AE_147B;

/// What the laboratory protects: every parameter with weight zero, no direction,
/// up to a damage of one hundredth.
pub open spec fn laboratory_protection(dimension: nat) -> CortexModel {
    CortexModel {
        parameter_importance: Seq::new(dimension, |i: int| Scalar { bits: 0 }),
        directions: Seq::empty(),
        max_damage_ratio: Scalar { bits: TOLERATED_DAMAGE },
    }
}

/// What the laboratory protects in a receiver with this many parameters.
pub fn protection(dimension: usize) -> (cortex: ProtectedCortex)
    ensures
        cortex@ == laboratory_protection(dimension as nat),
{
    let ghost wanted = laboratory_protection(dimension as nat).parameter_importance;
    let mut parameter_importance: Vec<Scalar> = Vec::new();
    for i in 0..dimension
        invariant
            wanted == laboratory_protection(dimension as nat).parameter_importance,
            parameter_importance@ =~= wanted.take(i as int),
    {
        parameter_importance.push(Scalar { bits: 0 });
        proof {
            take_one_more(wanted, i as int);
        }
    }
    assert(wanted.take(dimension as int) =~= wanted);
    let directions: Vec<String> = Vec::new();
    assert(views(directions@) =~= Seq::empty());
    ProtectedCortex {
        parameter_importance,
        directions,
        max_damage_ratio: Scalar { bits: TOLERATED_DAMAGE },
    }
}

/// What the laboratory asks to be compiled and planned for one case.
pub open spec fn planning_of(
    sources: SourcesModel,
    snapshot_sha256: Seq<char>,
    profile: ProfileModel,
    tensor_id: Seq<char>,
    backend: MaterializationStrategy,
    capability: SpecModel,
    varied: Seq<VariedModel>,
) -> PlanningModel {
    let dimension = profile.parameter_dimension as nat;
    let target = capability.operator.signature();
    PlanningModel {
        schema: "cerebro.tidex.universal_capability_planning_request/v1"@,
        compilation: RequestModel {
            schema: "cerebro.tidex.universal_capability_compilation_request/v1"@,
            sources,
            calibration: CalibrationModel {
                receiver_snapshot_binding_sha256: snapshot_sha256,
                functional_signatures: calibration_rows(varied, target),
                receiver_solutions: solutions_of(calibration_scaled(varied, target), dimension),
                wrong_functional_signatures: wrong_operators(capability.operator).map_values(
                    |o: FiniteOperator| o.signature(),
                ),
            },
            protected_cortex: laboratory_protection(dimension),
            risk_metric_rows: identity_matrix(dimension),
            policy: laboratory_compiler_policy(),
        },
        receiver_profile: profile,
        requested_strategy: backend,
        affected_regions: seq![tensor_id],
    }
}

/// What the laboratory asks to be compiled and planned for one case: the
/// calibration of the capability from the varied candidates with synthetic
/// solutions, every parameter of the receiver under a protection of weight zero and
/// the identity as risk metric.
pub fn planning_request(
    sources: CapabilitySources,
    snapshot_sha256: Sha256Digest,
    profile: &ReceiverProfile,
    tensor_id: TensorId,
    backend: MaterializationStrategy,
    capability: &CapabilitySpec,
    varied: &Vec<VariedSignature>,
) -> (request: UniversalCapabilityPlanningRequest)
    requires
        profile@.parameter_dimension <= usize::MAX,
        varied@.len() == calibration_table().len(),
    ensures
        request@ == planning_of(
            sources@,
            snapshot_sha256@,
            profile@,
            tensor_id@,
            backend,
            capability@,
            views(varied@),
        ),
{
    let dimension: usize = profile.parameter_dimension as usize;
    let ghost tensor = tensor_id@;
    let affected_regions = vec![tensor_id];
    assert(views(affected_regions@) =~= seq![tensor]);
    let rows = calibration_signatures(capability, varied);
    UniversalCapabilityPlanningRequest {
        schema: "cerebro.tidex.universal_capability_planning_request/v1".to_owned(),
        compilation: UniversalCapabilityCompilationRequest {
            schema: "cerebro.tidex.universal_capability_compilation_request/v1".to_owned(),
            sources,
            calibration: ReceiverCalibrationSet {
                receiver_snapshot_binding_sha256: snapshot_sha256,
                functional_signatures: rows.signatures,
                receiver_solutions: receiver_solutions(&rows.scaled, dimension),
                wrong_functional_signatures: wrong_signatures(capability),
            },
            protected_cortex: protection(dimension),
            risk_metric_rows: identity_rows(dimension),
            policy: compiler_policy(),
        },
        receiver_profile: profile.duplicate(),
        requested_strategy: backend,
        affected_regions,
    }
}

/// What the laboratory plans holds out the capability it plans: every calibration
/// row of the request varies a candidate other than the capability's own signature,
/// and its solution belongs to the same variation.
pub proof fn laboratory_requests_hold_out_their_capability(
    sources: SourcesModel,
    snapshot_sha256: Seq<char>,
    profile: ProfileModel,
    tensor_id: Seq<char>,
    backend: MaterializationStrategy,
    capability: SpecModel,
    varied: Seq<VariedModel>,
    k: int,
)
    requires
        varied.len() == calibration_table().len(),
        0 <= k < calibration_rows(varied, capability.operator.signature()).len(),
    ensures
        ({
            let calibration = planning_of(
                sources,
                snapshot_sha256,
                profile,
                tensor_id,
                backend,
                capability,
                varied,
            ).compilation.calibration;
            &&& calibration.functional_signatures.len() == calibration.receiver_solutions.len()
            &&& exists|i: int|
                0 <= i < varied.len() && #[trigger] calibration_table()[i]
                    != capability.operator.signature() && calibration.functional_signatures[k]
                    == varied[i].signature && calibration.receiver_solutions[k] == solution_of(
                    varied[i].scaled,
                    profile.parameter_dimension as nat,
                )
        }),
{
    let target = capability.operator.signature();
    capability_is_held_out_of_its_calibration(varied, target, k);
    let i = choose|i: int|
        0 <= i < varied.len() && #[trigger] calibration_table()[i] != target && calibration_rows(
            varied,
            target,
        )[k] == varied[i].signature && calibration_scaled(varied, target)[k] == varied[i].scaled;
    assert(calibration_table()[i] != target);
}

/// The compiler admits what the laboratory asks for: where the varied signatures
/// are finite and enough, and the wrong ones are not degenerate, the calibration
/// fits the receiver, its protection and its risk metric.
pub proof fn laboratory_calibrations_are_admitted(
    sources: SourcesModel,
    snapshot_sha256: Seq<char>,
    profile: ProfileModel,
    tensor_id: Seq<char>,
    backend: MaterializationStrategy,
    capability: SpecModel,
    varied: Seq<VariedModel>,
    wrong_norms: Seq<Result<Scalar, ErrorView>>,
)
    requires
        0 < profile.parameter_dimension <= usize::MAX,
        varied.len() == calibration_table().len(),
        calibration_rows(varied, capability.operator.signature()).len() >= MINIMUM_ANCHORS,
        forall|i: int|
            0 <= i < varied.len() ==> {
                &&& (#[trigger] varied[i]).signature.len() == 4 && all_finite(varied[i].signature)
                &&& varied[i].scaled.len() == 4 && all_finite(varied[i].scaled)
            },
        wrong_norms.len() == 3,
        !some_degenerate(wrong_norms),
    ensures
        ({
            let request = planning_of(
                sources,
                snapshot_sha256,
                profile,
                tensor_id,
                backend,
                capability,
                varied,
            );
            let dimension = profile.parameter_dimension as usize;
            &&& finite_square(request.compilation.risk_metric_rows)
            &&& request.compilation.risk_metric_rows.len() == dimension
            &&& request.compilation.policy.acceptable()
            &&& admission(request_input(request.compilation), 4, Some(wrong_norms))
                == AdmissionModel::Admitted(dimension)
        }),
{
    let request = planning_of(
        sources,
        snapshot_sha256,
        profile,
        tensor_id,
        backend,
        capability,
        varied,
    );
    laboratory_compiler_policy_is_acceptable();
    let dimension = profile.parameter_dimension as nat;
    let target = capability.operator.signature();
    let functional = calibration_rows(varied, target);
    let scaled = calibration_scaled(varied, target);
    assert forall|k: int| 0 <= k < functional.len() implies (#[trigger] functional[k]).len() == 4
        && all_finite(functional[k]) && scaled[k].len() == 4 && all_finite(scaled[k]) by {
        capability_is_held_out_of_its_calibration(varied, target, k);
        let i = choose|i: int|
            0 <= i < varied.len() && #[trigger] calibration_table()[i] != target && functional[k]
                == varied[i].signature && scaled[k] == varied[i].scaled;
        assert(varied[i].signature.len() == 4);
    }
    assert forall|k: int| 0 <= k < scaled.len() implies (#[trigger] scaled[k]).len() == 4
        && all_finite(scaled[k]) by {
        assert(functional[k].len() == 4);
    }
    let solutions = solutions_of(scaled, dimension);
    lemma_magnitude_zero(0);
    assert(rows_regular(solutions, dimension as int)) by {
        assert forall|i: int| 0 <= i < solutions.len() implies (#[trigger] solutions[i]).len()
            == dimension && all_finite(solutions[i]) by {
            assert(all_finite(scaled[i]));
            assert forall|j: int| 0 <= j < dimension implies (#[trigger] solutions[i][j]).finite() by {
                if j < 4 {
                    assert(scaled[i][j].finite());
                }
            }
        }
    }
    assert(solutions[0].len() == dimension);
    let risk = request.compilation.risk_metric_rows;
    assert(rows_regular(risk, dimension as int)) by {
        assert forall|i: int| 0 <= i < risk.len() implies (#[trigger] risk[i]).len() == dimension
            && all_finite(risk[i]) by {
            assert forall|j: int| 0 <= j < dimension implies (#[trigger] risk[i][j]).finite() by {}
        }
    }
    let wrong = request.compilation.calibration.wrong_functional_signatures;
    assert(rows_regular(wrong, 4)) by {
        assert forall|i: int| 0 <= i < wrong.len() implies (#[trigger] wrong[i]).len() == 4
            && all_finite(wrong[i]) by {
            lemma_signature_is_finite(wrong_operators(capability.operator)[i]);
        }
    }
}

proof fn lemma_signature_is_finite(operator: FiniteOperator)
    ensures
        operator.signature().len() == 4,
        all_finite(operator.signature()),
{
    let zero = Scalar { bits: 0 };
    let one = Scalar { bits: crate::scalar::ONE_BITS };
    let minus_one = Scalar {
        bits: (crate::scalar::SIGN_BIT + crate::scalar::ONE_BITS) as u64,
    };
    assert(zero.finite() && one.finite() && minus_one.finite());
    let signature = operator.signature();
    assert forall|i: int| 0 <= i < signature.len() implies (#[trigger] signature[i]).finite() by {
        assert(signature[i] == zero || signature[i] == one || signature[i] == minus_one);
    }
}

/// The digests that bind a shadow evaluation, as far as they have been read.
#[derive(Debug)]
pub struct DigestProgress {
    pub alternative: Option<Result<Sha256Digest, PrepareError>>,
    pub target_delta: Option<Result<Sha256Digest, PrepareError>>,
    pub candidate: Option<Result<Sha256Digest, PrepareError>>,
}

/// The model of a digest that may not have been read yet.
pub open spec fn awaited_digest(digest: Option<Result<Sha256Digest, PrepareError>>) -> Option<
    Result<Seq<char>, PrepareErrorView>,
> {
    match digest {
        Some(Ok(digest)) => Some(Ok(digest@)),
        Some(Err(error)) => Some(Err(error@)),
        None => None,
    }
}

/// The digests that bind a shadow evaluation.
#[derive(Debug)]
pub struct CandidateDigests {
    pub alternative_candidate_sha256: Sha256Digest,
    pub target_delta_sha256: Sha256Digest,
    pub candidate_sha256: Sha256Digest,
}

/// The model of [`CandidateDigests`].
pub struct CandidateDigestsModel {
    pub alternative_candidate_sha256: Seq<char>,
    pub target_delta_sha256: Seq<char>,
    pub candidate_sha256: Seq<char>,
}

impl View for CandidateDigests {
    type V = CandidateDigestsModel;

    open spec fn view(&self) -> CandidateDigestsModel {
        CandidateDigestsModel {
            alternative_candidate_sha256: self.alternative_candidate_sha256@,
            target_delta_sha256: self.target_delta_sha256@,
            candidate_sha256: self.candidate_sha256@,
        }
    }
}

/// Which digest of a case is to be read next, or how reading them ended.
#[derive(Debug)]
pub enum DigestStep<'a> {
    Failed(PrepareError),
    /// Read the digest of the alternative candidate.
    ReadAlternative(&'a Json),
    /// Read the digest of the delta that both candidates realise.
    ReadTargetDelta(&'a Json),
    /// Read the digest of the candidate.
    ReadCandidate(&'a Json),
    Done(CandidateDigests),
}

/// The model of a [`DigestStep`].
pub enum DigestStepModel {
    Failed(PrepareErrorView),
    ReadAlternative(JsonTree),
    ReadTargetDelta(JsonTree),
    ReadCandidate(JsonTree),
    Done(CandidateDigestsModel),
}

impl<'a> View for DigestStep<'a> {
    type V = DigestStepModel;

    open spec fn view(&self) -> DigestStepModel {
        match self {
            DigestStep::Failed(error) => DigestStepModel::Failed(error@),
            DigestStep::ReadAlternative(json) => DigestStepModel::ReadAlternative(json@),
            DigestStep::ReadTargetDelta(json) => DigestStepModel::ReadTargetDelta(json@),
            DigestStep::ReadCandidate(json) => DigestStepModel::ReadCandidate(json@),
            DigestStep::Done(digests) => DigestStepModel::Done(digests@),
        }
    }
}

/// The digest of the candidate, after the other two.
pub open spec fn candidate_step(
    main: JsonTree,
    alternative_sha256: Seq<char>,
    target_delta_sha256: Seq<char>,
    candidate: Option<Result<Seq<char>, PrepareErrorView>>,
) -> DigestStepModel {
    match digest_member(main, "manifest_sha256"@) {
        Err(error) => DigestStepModel::Failed(error),
        Ok(json) => match candidate {
            None => DigestStepModel::ReadCandidate(json),
            Some(Err(error)) => DigestStepModel::Failed(error),
            Some(Ok(candidate_sha256)) => DigestStepModel::Done(
                CandidateDigestsModel {
                    alternative_candidate_sha256: alternative_sha256,
                    target_delta_sha256,
                    candidate_sha256,
                },
            ),
        },
    }
}

/// The digest of the delta and that of the candidate, after that of the
/// alternative.
pub open spec fn delta_step(
    main: JsonTree,
    alternative_sha256: Seq<char>,
    target_delta: Option<Result<Seq<char>, PrepareErrorView>>,
    candidate: Option<Result<Seq<char>, PrepareErrorView>>,
) -> DigestStepModel {
    match digest_member(main, "target_delta_sha256"@) {
        Err(error) => DigestStepModel::Failed(error),
        Ok(json) => match target_delta {
            None => DigestStepModel::ReadTargetDelta(json),
            Some(Err(error)) => DigestStepModel::Failed(error),
            Some(Ok(target_delta_sha256)) => candidate_step(
                main,
                alternative_sha256,
                target_delta_sha256,
                candidate,
            ),
        },
    }
}

/// Which digest is to be read next: that of the alternative, that of the delta,
/// that of the candidate. The first that is missing or unreadable ends it.
pub open spec fn digest_step(
    main: JsonTree,
    alternative: JsonTree,
    progress: DigestProgress,
) -> DigestStepModel {
    match digest_member(alternative, "manifest_sha256"@) {
        Err(error) => DigestStepModel::Failed(error),
        Ok(json) => match awaited_digest(progress.alternative) {
            None => DigestStepModel::ReadAlternative(json),
            Some(Err(error)) => DigestStepModel::Failed(error),
            Some(Ok(alternative_sha256)) => delta_step(
                main,
                alternative_sha256,
                awaited_digest(progress.target_delta),
                awaited_digest(progress.candidate),
            ),
        },
    }
}

/// Decides which digest of a case is to be read next.
pub fn candidate_digests<'a>(
    main: &'a Json,
    alternative: &'a Json,
    progress: &DigestProgress,
) -> (step: DigestStep<'a>)
    ensures
        step@ == digest_step(main@, alternative@, *progress),
{
    let json = match digest_field(alternative, "manifest_sha256") {
        Ok(json) => json,
        Err(error) => {
            return DigestStep::Failed(error);
        },
    };
    let alternative_candidate_sha256 = match &progress.alternative {
        None => {
            return DigestStep::ReadAlternative(json);
        },
        Some(Err(error)) => {
            return DigestStep::Failed(error.duplicate());
        },
        Some(Ok(digest)) => digest.clone(),
    };
    let json = match digest_field(main, "target_delta_sha256") {
        Ok(json) => json,
        Err(error) => {
            return DigestStep::Failed(error);
        },
    };
    let target_delta_sha256 = match &progress.target_delta {
        None => {
            return DigestStep::ReadTargetDelta(json);
        },
        Some(Err(error)) => {
            return DigestStep::Failed(error.duplicate());
        },
        Some(Ok(digest)) => digest.clone(),
    };
    let json = match digest_field(main, "manifest_sha256") {
        Ok(json) => json,
        Err(error) => {
            return DigestStep::Failed(error);
        },
    };
    match &progress.candidate {
        None => DigestStep::ReadCandidate(json),
        Some(Err(error)) => DigestStep::Failed(error.duplicate()),
        Some(Ok(digest)) => DigestStep::Done(
            CandidateDigests {
                alternative_candidate_sha256,
                target_delta_sha256,
                candidate_sha256: digest.clone(),
            },
        ),
    }
}

/// What an isolated evaluation may use.
#[derive(Debug, Clone, Copy, PartialEq, Eq, Structural)]
pub struct IsolationLimits {
    pub address_space_bytes: u64,
    pub cpu_seconds: u64,
    pub wall_millis: u64,
    pub process_count: u64,
    pub output_bytes: u64,
    pub temporary_storage_bytes: u64,
    pub staging_bytes: u64,
}

/// Which mechanisms an isolated evaluation insists on.
#[derive(Debug, Clone, Copy, PartialEq, Eq, Structural)]
pub struct IsolationRequirements {
    pub require_seccomp_filter: bool,
    pub require_cgroup_limits: bool,
    pub require_global_staging_admission: bool,
}

/// What every isolated evaluation of the laboratory may use.
pub open spec fn laboratory_limits() -> IsolationLimits {
    IsolationLimits {
        address_space_bytes: 1_073_741_824,
        cpu_seconds: 30,
        wall_millis: 60_000,
        process_count: 16,
        output_bytes: 4_194_304,
        temporary_storage_bytes: 67_108_864,
        staging_bytes: 134_217_728,
    }
}

/// What a shadow evaluation is given: the metrics, the controls, how long the
/// materialisation took and how much it holds, and the bounds of the isolation.
#[derive(Debug)]
pub struct ShadowEvaluationInput {
    pub schema: String,
    pub receiver_snapshot_sha256: Sha256Digest,
    pub candidate_sha256: Sha256Digest,
    pub strategy: MaterializationStrategy,
    pub metrics: ShadowMetrics,
    pub latency_micros: u64,
    pub resident_bytes: usize,
    pub completed_controls: ControlSet,
    pub arguments: Vec<String>,
    pub limits: IsolationLimits,
    pub requirements: IsolationRequirements,
}

/// The model of a [`ShadowEvaluationInput`].
pub struct ShadowInputModel {
    pub schema: Seq<char>,
    pub receiver_snapshot_sha256: Seq<char>,
    pub candidate_sha256: Seq<char>,
    pub strategy: MaterializationStrategy,
    pub metrics: ShadowMetrics,
    pub latency_micros: u64,
    pub resident_bytes: usize,
    pub completed_controls: Set<ComparativeControl>,
    pub arguments: Seq<Seq<char>>,
    pub limits: IsolationLimits,
    pub requirements: IsolationRequirements,
}

impl View for ShadowEvaluationInput {
    type V = ShadowInputModel;

    open spec fn view(&self) -> ShadowInputModel {
        ShadowInputModel {
            schema: self.schema@,
            receiver_snapshot_sha256: self.receiver_snapshot_sha256@,
            candidate_sha256: self.candidate_sha256@,
            strategy: self.strategy,
            metrics: self.metrics,
            latency_micros: self.latency_micros,
            resident_bytes: self.resident_bytes,
            completed_controls: self.completed_controls@,
            arguments: views(self.arguments@),
            limits: self.limits,
            requirements: self.requirements,
        }
    }
}

/// What the shadow evaluation of a case is given.
pub open spec fn shadow_input_of(
    artifacts: ArtifactsModel,
    compilation: CompilationModel,
    readings: ShadowReadings,
    candidate_sha256: Seq<char>,
    backend: MaterializationStrategy,
    materialization_micros: u64,
    receiver_payload: int,
    candidate_payload: int,
) -> ShadowInputModel {
    ShadowInputModel {
        schema: "cerebro.tidex.shadow_evaluation_input/v1"@,
        receiver_snapshot_sha256: artifacts.snapshot.manifest_sha256,
        candidate_sha256,
        strategy: backend,
        metrics: metrics_of(compilation, readings),
        latency_micros: materialization_micros,
        resident_bytes: (receiver_payload + candidate_payload) as usize,
        completed_controls: backend_controls(backend),
        arguments: Seq::empty(),
        limits: laboratory_limits(),
        requirements: IsolationRequirements {
            require_seccomp_filter: false,
            require_cgroup_limits: false,
            require_global_staging_admission: false,
        },
    }
}

/// What the shadow evaluation of a case is given, from the receiver, the
/// compilation and the lengths of the two payloads that are held beside it.
pub fn shadow_input(
    artifacts: &InspectedReceiverArtifacts,
    compilation: &ReceiverCompilation,
    readings: ShadowReadings,
    candidate_sha256: Sha256Digest,
    backend: MaterializationStrategy,
    materialization_micros: u64,
    receiver_payload: usize,
    candidate_payload: usize,
) -> (input: ShadowEvaluationInput)
    requires
        receiver_payload + candidate_payload <= usize::MAX,
    ensures
        input@ == shadow_input_of(
            artifacts@,
            compilation@,
            readings,
            candidate_sha256@,
            backend,
            materialization_micros,
            receiver_payload as int,
            candidate_payload as int,
        ),
{
    let arguments: Vec<String> = Vec::new();
    assert(views(arguments@) =~= Seq::empty());
    ShadowEvaluationInput {
        schema: "cerebro.tidex.shadow_evaluation_input/v1".to_owned(),
        receiver_snapshot_sha256: artifacts.snapshot.manifest_sha256.clone(),
        candidate_sha256,
        strategy: backend,
        metrics: shadow_metrics(compilation, readings),
        latency_micros: materialization_micros,
        resident_bytes: receiver_payload + candidate_payload,
        completed_controls: controls_for(backend),
        arguments,
        limits: IsolationLimits {
            address_space_bytes: 1_073_741_824,
            cpu_seconds: 30,
            wall_millis: 60_000,
            process_count: 16,
            output_bytes: 4_194_304,
            temporary_storage_bytes: 67_108_864,
            staging_bytes: 134_217_728,
        },
        requirements: IsolationRequirements {
            require_seccomp_filter: false,
            require_cgroup_limits: false,
            require_global_staging_admission: false,
        },
    }
}

/// A measured time in microseconds as it is reported: at least one, and cut to the
/// range of reported times.
pub fn measured_micros(elapsed: u128) -> (micros: u64)
    ensures
        elapsed == 0 ==> micros == 1,
        0 < elapsed <= u64::MAX ==> micros == elapsed,
        elapsed > u64::MAX ==> micros == elapsed % 0x1_0000_0000_0000_0000,
{
    if elapsed == 0 {
        return 1;
    }
    (elapsed % 0x1_0000_0000_0000_0000) as u64
}

/// What a planning request asks for is what it was given: the sources, the snapshot,
/// the profile, the backend and the tensor stand in their own fields. The wrong
/// signatures are not the target's, nothing is protected but by the tolerated damage,
/// and the risk is measured by the identity of the profile's dimension.
pub proof fn planning_requests_ask_for_what_was_given(
    sources: SourcesModel,
    snapshot_sha256: Seq<char>,
    profile: ProfileModel,
    tensor_id: Seq<char>,
    backend: MaterializationStrategy,
    capability: SpecModel,
    varied: Seq<VariedModel>,
)
    ensures
        ({
            let request = planning_of(
                sources,
                snapshot_sha256,
                profile,
                tensor_id,
                backend,
                capability,
                varied,
            );
            let compilation = request.compilation;
            let target = capability.operator.signature();
            let dimension = profile.parameter_dimension;
            &&& request.schema == "cerebro.tidex.universal_capability_planning_request/v1"@
            &&& compilation.schema
                == "cerebro.tidex.universal_capability_compilation_request/v1"@
            &&& request.requested_strategy == backend
            &&& request.affected_regions == seq![tensor_id]
            &&& request.receiver_profile == profile
            &&& compilation.sources == sources
            &&& compilation.calibration.receiver_snapshot_binding_sha256 == snapshot_sha256
            &&& compilation.calibration.functional_signatures == calibration_rows(varied, target)
            &&& compilation.calibration.receiver_solutions.len() == calibration_scaled(
                varied,
                target,
            ).len()
            &&& forall|k: int, i: int|
                0 <= k < compilation.calibration.receiver_solutions.len() && 0 <= i < dimension
                    ==> #[trigger] compilation.calibration.receiver_solutions[k][i] == (if i < 4
                    && i < calibration_scaled(varied, target)[k].len() {
                    calibration_scaled(varied, target)[k][i]
                } else {
                    Scalar { bits: 0 }
                })
            &&& compilation.calibration.wrong_functional_signatures.len() == 3
            &&& forall|k: int|
                0 <= k < 3
                    ==> #[trigger] compilation.calibration.wrong_functional_signatures[k] != target
            &&& compilation.protected_cortex.parameter_importance.len() == dimension
            &&& forall|i: int|
                0 <= i < dimension ==> (
                #[trigger] compilation.protected_cortex.parameter_importance[i]).bits == 0
            &&& compilation.protected_cortex.directions.len() == 0
            &&& compilation.protected_cortex.max_damage_ratio.bits == 0x3F84_7AE1_47AE_147B
            &&& compilation.risk_metric_rows.len() == dimension
            &&& forall|i: int, j: int|
                0 <= i < dimension && 0 <= j < dimension ==> (
                #[trigger] compilation.risk_metric_rows[i][j]).bits == (if i == j {
                    0x3FF0_0000_0000_0000u64
                } else {
                    0
                })
        }),
{
    let list = wrong_operators(capability.operator);
    assert(list.len() == 3);
    let wrong = list.map_values(|o: FiniteOperator| o.signature());
    assert forall|k: int| 0 <= k < 3 implies #[trigger] wrong[k]
        != capability.operator.signature() by {
        crate::lab_suite::wrong_signatures_are_wrong(capability.operator, k);
    }
}

/// The source contract of a capability describes that capability: its name, its
/// operator, and for each of the two states where the operator leads. Every anchor is
/// listed with its own state.
pub proof fn source_contracts_describe_their_capability(capability: SpecModel)
    ensures
        ({
            let contract = source_of(capability);
            &&& contract.capability_id == capability.id
            &&& contract.operator_id == capability.operator.operator_text()
            &&& contract.state_dimension == 2
            &&& contract.transitions.len() == 2
            &&& contract.transitions[0].source == "s0"@
            &&& contract.transitions[1].source == "s1"@
            &&& anchor_values(contract.transitions[0].target) + anchor_values(
                contract.transitions[1].target,
            ) == capability.operator.signature()
            &&& contract.anchors.len() == 4
            &&& forall|i: int|
                0 <= i < 4 ==> (#[trigger] contract.anchors[i]).state == anchor_values(
                    contract.anchors[i].anchor_id,
                )
            &&& contract.anchors[0].anchor_id == "n0"@
            &&& contract.anchors[1].anchor_id == "n1"@
            &&& contract.anchors[2].anchor_id == "s0"@
            &&& contract.anchors[3].anchor_id == "s1"@
            &&& contract.closure_error_lte.bits == 0x3EE4_F8B5_88E3_68F1
            &&& contract.contraction_ratio_lte.bits == 0x3EE4_F8B5_88E3_68F1
            &&& contract.identity_margin_gte.bits == 0x3FA9_9999_9999_999A
        }),
{
}

/// The operational contract binds the capability and the structure that it was given,
/// and observes for each state that the operator leads exactly to its target: the
/// state that follows is the target's, the error before is the one measured for that
/// transition, and none is left after.
pub proof fn operational_contracts_observe_every_transition(
    id: Seq<char>,
    capability_ir_sha256: Seq<char>,
    capability: SpecModel,
    errors: TransitionErrors,
)
    ensures
        ({
            let contract = operational_of(id, capability_ir_sha256, capability, errors);
            let source = source_of(capability);
            &&& contract.capability_id == id
            &&& contract.capability_ir_sha256 == capability_ir_sha256
            &&& contract.state_dimension == 2
            &&& contract.anchors == source.anchors
            &&& contract.transitions.len() == 2
            &&& forall|i: int|
                0 <= i < 2 ==> {
                    let observed = #[trigger] contract.transitions[i];
                    &&& observed.operator_id == capability.operator.operator_text()
                    &&& observed.source_anchor_id == source.transitions[i].source
                    &&& observed.target_anchor_id == source.transitions[i].target
                    &&& observed.observed_next_state == anchor_values(observed.target_anchor_id)
                    &&& observed.post_target_error.bits == 0
                }
            &&& contract.transitions[0].pre_target_error == errors.first
            &&& contract.transitions[1].pre_target_error == errors.second
            &&& contract.maximum_closure_error == source.closure_error_lte
            &&& contract.maximum_contraction_ratio == source.contraction_ratio_lte
        }),
{
}

/// Every signature is tried as the probe of its own place, against a signature that
/// is not the capability's, and attributed to the first module family alone.
pub proof fn signatures_are_tried_in_their_places(
    capability: SpecModel,
    seed: u64,
    signatures: Seq<Seq<Scalar>>,
    families: Seq<Seq<char>>,
    i: int,
)
    requires
        0 <= i < signatures.len() <= u64::MAX,
    ensures
        probe_trials(capability, seed, signatures, families).len() == signatures.len(),
        ({
            let trial = probe_trials(capability, seed, signatures, families)[i];
            &&& trial.schema == "cerebro.tidex.capability_probe_trial/v1"@
            &&& trial.probe == probe_of(capability, seed, i as u64)
            &&& trial.functional_signature == signatures[i]
            &&& trial.wrong_control_signature != capability.operator.signature()
            &&& trial.closure_error.bits == 0
            &&& trial.contraction_ratio.bits == 0
            &&& families.len() > 0 ==> trial.attributed_module_families == seq![families[0]]
            &&& families.len() == 0 ==> trial.attributed_module_families.len() == 0
        }),
{
    crate::lab_suite::wrong_signatures_are_wrong(capability.operator, 0);
}

/// The digests of the candidates are read from the document that each belongs to: the
/// alternative's from the alternative candidate, the delta's and the candidate's own
/// from the main one. What is bound in the end is what was read.
pub proof fn digests_come_from_their_documents(
    main: JsonTree,
    alternative: JsonTree,
    progress: DigestProgress,
)
    ensures
        digest_step(main, alternative, progress) matches DigestStepModel::ReadAlternative(json)
            ==> progress.alternative is None && crate::json::member(
            alternative,
            "manifest_sha256"@,
        ) == Some(json),
        digest_step(main, alternative, progress) matches DigestStepModel::ReadTargetDelta(json)
            ==> progress.target_delta is None && crate::json::member(
            main,
            "target_delta_sha256"@,
        ) == Some(json),
        digest_step(main, alternative, progress) matches DigestStepModel::ReadCandidate(json)
            ==> progress.candidate is None && crate::json::member(main, "manifest_sha256"@) == Some(
            json,
        ),
        digest_step(main, alternative, progress) matches DigestStepModel::Done(digests) ==> {
            &&& awaited_digest(progress.alternative) == Some(
                Ok::<_, PrepareErrorView>(digests.alternative_candidate_sha256),
            )
            &&& awaited_digest(progress.target_delta) == Some(
                Ok::<_, PrepareErrorView>(digests.target_delta_sha256),
            )
            &&& awaited_digest(progress.candidate) == Some(
                Ok::<_, PrepareErrorView>(digests.candidate_sha256),
            )
        },
        digest_step(main, alternative, progress) matches DigestStepModel::Failed(error) ==> {
            ||| awaited_digest(progress.alternative) == Some(Err::<Seq<char>, _>(error))
            ||| awaited_digest(progress.target_delta) == Some(Err::<Seq<char>, _>(error))
            ||| awaited_digest(progress.candidate) == Some(Err::<Seq<char>, _>(error))
            ||| error == PrepareErrorView::Message("missing digest field: "@ + "manifest_sha256"@)
                && (crate::json::member(alternative, "manifest_sha256"@) is None
                || crate::json::member(main, "manifest_sha256"@) is None)
            ||| error == PrepareErrorView::Message(
                "missing digest field: "@ + "target_delta_sha256"@,
            ) && crate::json::member(main, "target_delta_sha256"@) is None
        },
{
}

/// What is to be evaluated is bound to the inspected receiver, to the candidate and to
/// its backend, with the metrics of the compilation, the time that was measured, the
/// room that both payloads take, and the controls of the backend.
pub proof fn evaluations_are_bound_to_their_candidate(
    artifacts: ArtifactsModel,
    compilation: CompilationModel,
    readings: ShadowReadings,
    candidate_sha256: Seq<char>,
    backend: MaterializationStrategy,
    micros: u64,
    receiver_payload: int,
    candidate_payload: int,
)
    requires
        0 <= receiver_payload,
        0 <= candidate_payload,
        receiver_payload + candidate_payload <= usize::MAX,
    ensures
        ({
            let input = shadow_input_of(
                artifacts,
                compilation,
                readings,
                candidate_sha256,
                backend,
                micros,
                receiver_payload,
                candidate_payload,
            );
            &&& input.receiver_snapshot_sha256 == artifacts.snapshot.manifest_sha256
            &&& input.candidate_sha256 == candidate_sha256
            &&& input.strategy == backend
            &&& input.metrics == metrics_of(compilation, readings)
            &&& input.latency_micros == micros
            &&& input.resident_bytes == receiver_payload + candidate_payload
            &&& input.completed_controls.contains(ComparativeControl::DenseDelta) <==> backend
                == MaterializationStrategy::DenseDelta
            &&& input.completed_controls.contains(ComparativeControl::SparseDelta) <==> backend
                == MaterializationStrategy::SparseDelta
            &&& input.completed_controls.contains(ComparativeControl::AlternativeBackend)
            &&& input.arguments.len() == 0
            &&& input.limits.cpu_seconds == 30
            &&& input.limits.wall_millis == 2000 * input.limits.cpu_seconds
            &&& input.limits.process_count == 16
            &&& input.limits.output_bytes == 4 * 1_048_576
            &&& input.limits.temporary_storage_bytes == 16 * input.limits.output_bytes
            &&& input.limits.staging_bytes == 2 * input.limits.temporary_storage_bytes
            &&& input.limits.address_space_bytes == 8 * input.limits.staging_bytes
            &&& !input.requirements.require_seccomp_filter
            &&& !input.requirements.require_cgroup_limits
            &&& !input.requirements.require_global_staging_admission
        }),
{
}

} // verus!

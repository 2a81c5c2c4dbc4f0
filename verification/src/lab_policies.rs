//! The policies, protocols and record types of the laboratory.

use crate::controls::{ComparativeControl, ControlSet};
use crate::order::views;
use crate::receiver_compiler::{PolicyModel, ReceiverCompilerPolicy};
use crate::receiver_profile::MaterializationStrategy;
use crate::scalar::{lemma_magnitude_increasing, lemma_magnitude_zero, lemma_one, Scalar};
use vstd::prelude::*;

verus! {

/// The controls that every evaluation is compared against.
pub open spec fn common_controls() -> Set<ComparativeControl> {
    set![
        ComparativeControl::UnmodifiedReceiver,
        ComparativeControl::WrongCapabilityIr,
        ComparativeControl::RandomDelta,
        ComparativeControl::MeanCapability,
        ComparativeControl::NearestCapability,
        ComparativeControl::AlternativeBackend,
        ComparativeControl::NonTargetPreservation,
    ]
}

/// The controls of an evaluation: the common ones and that of its backend.
pub open spec fn backend_controls(backend: MaterializationStrategy) -> Set<ComparativeControl> {
    match backend {
        MaterializationStrategy::DenseDelta => common_controls().insert(
            ComparativeControl::DenseDelta,
        ),
        MaterializationStrategy::SparseDelta => common_controls().insert(
            ComparativeControl::SparseDelta,
        ),
        _ => common_controls(),
    }
}

/// The controls that every evaluation is compared against.
pub fn required_controls() -> (controls: ControlSet)
    ensures
        controls@ == common_controls(),
{
    let controls = ControlSet::new().with(ComparativeControl::UnmodifiedReceiver).with(
        ComparativeControl::WrongCapabilityIr,
    ).with(ComparativeControl::RandomDelta).with(ComparativeControl::MeanCapability).with(
        ComparativeControl::NearestCapability,
    ).with(ComparativeControl::AlternativeBackend).with(ComparativeControl::NonTargetPreservation);
    assert(controls@ =~= common_controls());
    controls
}

/// The controls of an evaluation.
pub fn controls_for(backend: MaterializationStrategy) -> (controls: ControlSet)
    ensures
        controls@ == backend_controls(backend),
{
    let controls = required_controls();
    match backend {
        MaterializationStrategy::DenseDelta => controls.with(ComparativeControl::DenseDelta),
        MaterializationStrategy::SparseDelta => controls.with(ComparativeControl::SparseDelta),
        _ => controls,
    }
}

/// An evaluation always completes the controls that its selection requires.
pub proof fn every_backend_completes_the_required_controls(backend: MaterializationStrategy)
    ensures
        laboratory_selection_policy().required_controls.subset_of(backend_controls(backend)),
{
}

/// What a sparse materialisation is held to.
#[derive(Debug)]
pub struct SparseShadowPolicy {
    pub schema: String,
    pub maximum_nonzero_count: usize,
    pub maximum_density: Scalar,
    pub absolute_zero_threshold: Scalar,
    pub relative_reconstruction_tolerance: Scalar,
    pub absolute_reconstruction_tolerance: Scalar,
    pub minimum_storage_reduction_ratio: Scalar,
}

/// The model of a [`SparseShadowPolicy`].
pub struct SparsePolicyModel {
    pub schema: Seq<char>,
    pub maximum_nonzero_count: usize,
    pub maximum_density: Scalar,
    pub absolute_zero_threshold: Scalar,
    pub relative_reconstruction_tolerance: Scalar,
    pub absolute_reconstruction_tolerance: Scalar,
    pub minimum_storage_reduction_ratio: Scalar,
}

impl View for SparseShadowPolicy {
    type V = SparsePolicyModel;

    open spec fn view(&self) -> SparsePolicyModel {
        SparsePolicyModel {
            schema: self.schema@,
            maximum_nonzero_count: self.maximum_nonzero_count,
            maximum_density: self.maximum_density,
            absolute_zero_threshold: self.absolute_zero_threshold,
            relative_reconstruction_tolerance: self.relative_reconstruction_tolerance,
            absolute_reconstruction_tolerance: self.absolute_reconstruction_tolerance,
            minimum_storage_reduction_ratio: self.minimum_storage_reduction_ratio,
        }
    }
}

/// The sparse policy of the laboratory.
pub open spec fn laboratory_sparse_policy() -> SparsePolicyModel {
    SparsePolicyModel {
        schema: "cerebro.tidex.sparse_shadow_policy/v1"@,
        maximum_nonzero_count: 8,
        maximum_density: Scalar { bits: 0x3FA9_9999_9999_999A },  // 0.05
        absolute_zero_threshold: Scalar { bits: 0x3D71_9799_812D_EA11 },  // 1e-12
        relative_reconstruction_tolerance: Scalar { bits: 0x3DDB_7CDF_D9D7_BDBB },  // 1e-10
        absolute_reconstruction_tolerance: Scalar { bits: 0x3DDB_7CDF_D9D7_BDBB },  // 1e-10
        minimum_storage_reduction_ratio: Scalar { bits: 0x3FE0_0000_0000_0000 },  // 0.5
    }
}

/// The sparse policy of the laboratory.
pub fn sparse_policy() -> (policy: SparseShadowPolicy)
    ensures
        policy@ == laboratory_sparse_policy(),
{
    SparseShadowPolicy {
        schema: "cerebro.tidex.sparse_shadow_policy/v1".to_owned(),
        maximum_nonzero_count: 8,
        maximum_density: Scalar { bits: 0x3FA9_9999_9999_999A },
        absolute_zero_threshold: Scalar { bits: 0x3D71_9799_812D_EA11 },
        relative_reconstruction_tolerance: Scalar { bits: 0x3DDB_7CDF_D9D7_BDBB },
        absolute_reconstruction_tolerance: Scalar { bits: 0x3DDB_7CDF_D9D7_BDBB },
        minimum_storage_reduction_ratio: Scalar { bits: 0x3FE0_0000_0000_0000 },
    }
}

/// What a backend has to reach to be selected.
#[derive(Debug)]
pub struct BackendSelectionPolicy {
    pub schema: String,
    pub minimum_functional_ci_lower: Scalar,
    pub minimum_preservation_score: Scalar,
    pub minimum_identity_margin: Scalar,
    pub minimum_numerical_stability: Scalar,
    pub maximum_normalized_risk: Scalar,
    pub maximum_latency_micros: u64,
    pub maximum_resident_bytes: u64,
    pub functional_weight: Scalar,
    pub preservation_weight: Scalar,
    pub stability_weight: Scalar,
    pub risk_weight: Scalar,
    pub latency_weight: Scalar,
    pub memory_weight: Scalar,
    pub required_controls: ControlSet,
    pub allow_hybrid: bool,
    pub minimum_hybrid_complementarity: Scalar,
}

/// The model of a [`BackendSelectionPolicy`].
pub struct SelectionPolicyModel {
    pub schema: Seq<char>,
    pub minimum_functional_ci_lower: Scalar,
    pub minimum_preservation_score: Scalar,
    pub minimum_identity_margin: Scalar,
    pub minimum_numerical_stability: Scalar,
    pub maximum_normalized_risk: Scalar,
    pub maximum_latency_micros: u64,
    pub maximum_resident_bytes: u64,
    pub functional_weight: Scalar,
    pub preservation_weight: Scalar,
    pub stability_weight: Scalar,
    pub risk_weight: Scalar,
    pub latency_weight: Scalar,
    pub memory_weight: Scalar,
    pub required_controls: Set<ComparativeControl>,
    pub allow_hybrid: bool,
    pub minimum_hybrid_complementarity: Scalar,
}

impl View for BackendSelectionPolicy {
    type V = SelectionPolicyModel;

    open spec fn view(&self) -> SelectionPolicyModel {
        SelectionPolicyModel {
            schema: self.schema@,
            minimum_functional_ci_lower: self.minimum_functional_ci_lower,
            minimum_preservation_score: self.minimum_preservation_score,
            minimum_identity_margin: self.minimum_identity_margin,
            minimum_numerical_stability: self.minimum_numerical_stability,
            maximum_normalized_risk: self.maximum_normalized_risk,
            maximum_latency_micros: self.maximum_latency_micros,
            maximum_resident_bytes: self.maximum_resident_bytes,
            functional_weight: self.functional_weight,
            preservation_weight: self.preservation_weight,
            stability_weight: self.stability_weight,
            risk_weight: self.risk_weight,
            latency_weight: self.latency_weight,
            memory_weight: self.memory_weight,
            required_controls: self.required_controls@,
            allow_hybrid: self.allow_hybrid,
            minimum_hybrid_complementarity: self.minimum_hybrid_complementarity,
        }
    }
}

/// The selection policy of the laboratory.
pub open spec fn laboratory_selection_policy() -> SelectionPolicyModel {
    SelectionPolicyModel {
        schema: "cerebro.tidex.backend_selection_policy/v1"@,
        minimum_functional_ci_lower: Scalar { bits: 0x3FE9_9999_9999_999A },  // 0.8
        minimum_preservation_score: Scalar { bits: 0x3FEE_6666_6666_6666 },  // 0.95
        minimum_identity_margin: Scalar { bits: 0x3FA9_9999_9999_999A },  // 0.05
        minimum_numerical_stability: Scalar { bits: 0x3FEF_AE14_7AE1_47AE },  // 0.99
        maximum_normalized_risk: Scalar { bits: 0x3FB9_9999_9999_999A },  // 0.1
        maximum_latency_micros: 60000000,
        maximum_resident_bytes: 67108864,
        functional_weight: Scalar { bits: 0x3FD6_6666_6666_6666 },  // 0.35
        preservation_weight: Scalar { bits: 0x3FD0_0000_0000_0000 },  // 0.25
        stability_weight: Scalar { bits: 0x3FC3_3333_3333_3333 },  // 0.15
        risk_weight: Scalar { bits: 0x3FB9_9999_9999_999A },  // 0.1
        latency_weight: Scalar { bits: 0x3FB3_3333_3333_3333 },  // 0.075
        memory_weight: Scalar { bits: 0x3FB3_3333_3333_3333 },  // 0.075
        required_controls: common_controls(),
        allow_hybrid: true,
        minimum_hybrid_complementarity: Scalar { bits: 0x3FA9_9999_9999_999A },  // 0.05
    }
}

/// The selection policy of the laboratory.
pub fn selection_policy() -> (policy: BackendSelectionPolicy)
    ensures
        policy@ == laboratory_selection_policy(),
{
    BackendSelectionPolicy {
        schema: "cerebro.tidex.backend_selection_policy/v1".to_owned(),
        minimum_functional_ci_lower: Scalar { bits: 0x3FE9_9999_9999_999A },
        minimum_preservation_score: Scalar { bits: 0x3FEE_6666_6666_6666 },
        minimum_identity_margin: Scalar { bits: 0x3FA9_9999_9999_999A },
        minimum_numerical_stability: Scalar { bits: 0x3FEF_AE14_7AE1_47AE },
        maximum_normalized_risk: Scalar { bits: 0x3FB9_9999_9999_999A },
        maximum_latency_micros: 60000000,
        maximum_resident_bytes: 67108864,
        functional_weight: Scalar { bits: 0x3FD6_6666_6666_6666 },
        preservation_weight: Scalar { bits: 0x3FD0_0000_0000_0000 },
        stability_weight: Scalar { bits: 0x3FC3_3333_3333_3333 },
        risk_weight: Scalar { bits: 0x3FB9_9999_9999_999A },
        latency_weight: Scalar { bits: 0x3FB3_3333_3333_3333 },
        memory_weight: Scalar { bits: 0x3FB3_3333_3333_3333 },
        required_controls: required_controls(),
        allow_hybrid: true,
        minimum_hybrid_complementarity: Scalar { bits: 0x3FA9_9999_9999_999A },
    }
}

/// What a capability has to show to count as discovered.
#[derive(Debug)]
pub struct CapabilityDiscoveryPolicy {
    pub schema: String,
    pub minimum_trials: usize,
    pub minimum_seeds: usize,
    pub minimum_consistency: Scalar,
    pub minimum_control_margin: Scalar,
    pub maximum_closure_error: Scalar,
    pub maximum_contraction_ratio: Scalar,
}

/// The model of a [`CapabilityDiscoveryPolicy`].
pub struct DiscoveryPolicyModel {
    pub schema: Seq<char>,
    pub minimum_trials: usize,
    pub minimum_seeds: usize,
    pub minimum_consistency: Scalar,
    pub minimum_control_margin: Scalar,
    pub maximum_closure_error: Scalar,
    pub maximum_contraction_ratio: Scalar,
}

impl View for CapabilityDiscoveryPolicy {
    type V = DiscoveryPolicyModel;

    open spec fn view(&self) -> DiscoveryPolicyModel {
        DiscoveryPolicyModel {
            schema: self.schema@,
            minimum_trials: self.minimum_trials,
            minimum_seeds: self.minimum_seeds,
            minimum_consistency: self.minimum_consistency,
            minimum_control_margin: self.minimum_control_margin,
            maximum_closure_error: self.maximum_closure_error,
            maximum_contraction_ratio: self.maximum_contraction_ratio,
        }
    }
}

/// The discovery policy of the laboratory.
pub open spec fn laboratory_discovery_policy() -> DiscoveryPolicyModel {
    DiscoveryPolicyModel {
        schema: "cerebro.tidex.capability_discovery_policy/v1"@,
        minimum_trials: 3,
        minimum_seeds: 3,
        minimum_consistency: Scalar { bits: 0x3FEE_6666_6666_6666 },  // 0.95
        minimum_control_margin: Scalar { bits: 0x3FD0_0000_0000_0000 },  // 0.25
        maximum_closure_error: Scalar { bits: 0x3E11_2E0B_E826_D695 },  // 1e-09
        maximum_contraction_ratio: Scalar { bits: 0x3E11_2E0B_E826_D695 },  // 1e-09
    }
}

/// The discovery policy of the laboratory.
pub fn discovery_policy() -> (policy: CapabilityDiscoveryPolicy)
    ensures
        policy@ == laboratory_discovery_policy(),
{
    CapabilityDiscoveryPolicy {
        schema: "cerebro.tidex.capability_discovery_policy/v1".to_owned(),
        minimum_trials: 3,
        minimum_seeds: 3,
        minimum_consistency: Scalar { bits: 0x3FEE_6666_6666_6666 },
        minimum_control_margin: Scalar { bits: 0x3FD0_0000_0000_0000 },
        maximum_closure_error: Scalar { bits: 0x3E11_2E0B_E826_D695 },
        maximum_contraction_ratio: Scalar { bits: 0x3E11_2E0B_E826_D695 },
    }
}

/// The compiler policy of the laboratory.
pub open spec fn laboratory_compiler_policy() -> PolicyModel {
    PolicyModel {
        schema: "cerebro.tidex.receiver_compiler_policy/v1"@,
        ridge: Scalar { bits: 0x3DDB_7CDF_D9D7_BDBB },  // 1e-10
        minimum_decoder_loo_r2: Scalar { bits: 0x3FEF_F7CE_D916_872B },  // 0.999
        minimum_encoder_loo_r2: Scalar { bits: 0x3FEF_F7CE_D916_872B },  // 0.999
        minimum_decoder_loo_cosine: Scalar { bits: 0x3FEF_F7CE_D916_872B },  // 0.999
        maximum_functional_relative_error: Scalar { bits: 0x3F1A_36E2_EB1C_432D },  // 0.0001
        minimum_identity_margin: Scalar { bits: 0x3FA9_9999_9999_999A },  // 0.05
        maximum_quadratic_cost: Scalar { bits: 0x412E_8480_0000_0000 },  // 1000000.0
    }
}

/// The compiler policy of the laboratory.
pub fn compiler_policy() -> (policy: ReceiverCompilerPolicy)
    ensures
        policy@ == laboratory_compiler_policy(),
{
    ReceiverCompilerPolicy {
        schema: "cerebro.tidex.receiver_compiler_policy/v1".to_owned(),
        ridge: Scalar { bits: 0x3DDB_7CDF_D9D7_BDBB },
        minimum_decoder_loo_r2: Scalar { bits: 0x3FEF_F7CE_D916_872B },
        minimum_encoder_loo_r2: Scalar { bits: 0x3FEF_F7CE_D916_872B },
        minimum_decoder_loo_cosine: Scalar { bits: 0x3FEF_F7CE_D916_872B },
        maximum_functional_relative_error: Scalar { bits: 0x3F1A_36E2_EB1C_432D },
        minimum_identity_margin: Scalar { bits: 0x3FA9_9999_9999_999A },
        maximum_quadratic_cost: Scalar { bits: 0x412E_8480_0000_0000 },
    }
}

/// How much evidence a claim of universality needs.
#[derive(Debug)]
pub struct UniversalityProtocol {
    pub schema: String,
    pub minimum_calibration_capabilities: usize,
    pub minimum_held_out_capabilities: usize,
    pub minimum_receivers_per_capability: usize,
    pub minimum_receiver_families_per_capability: usize,
    pub minimum_seeds_per_capability: usize,
    pub require_unseen_receiver: bool,
    pub minimum_target_score: Scalar,
    pub minimum_preservation_score: Scalar,
    pub minimum_identity_margin: Scalar,
    pub minimum_success_probability: Scalar,
    pub confidence_z: Scalar,
}

/// The model of a [`UniversalityProtocol`].
pub struct ProtocolModel {
    pub schema: Seq<char>,
    pub minimum_calibration_capabilities: usize,
    pub minimum_held_out_capabilities: usize,
    pub minimum_receivers_per_capability: usize,
    pub minimum_receiver_families_per_capability: usize,
    pub minimum_seeds_per_capability: usize,
    pub require_unseen_receiver: bool,
    pub minimum_target_score: Scalar,
    pub minimum_preservation_score: Scalar,
    pub minimum_identity_margin: Scalar,
    pub minimum_success_probability: Scalar,
    pub confidence_z: Scalar,
}

impl View for UniversalityProtocol {
    type V = ProtocolModel;

    open spec fn view(&self) -> ProtocolModel {
        ProtocolModel {
            schema: self.schema@,
            minimum_calibration_capabilities: self.minimum_calibration_capabilities,
            minimum_held_out_capabilities: self.minimum_held_out_capabilities,
            minimum_receivers_per_capability: self.minimum_receivers_per_capability,
            minimum_receiver_families_per_capability: self.minimum_receiver_families_per_capability,
            minimum_seeds_per_capability: self.minimum_seeds_per_capability,
            require_unseen_receiver: self.require_unseen_receiver,
            minimum_target_score: self.minimum_target_score,
            minimum_preservation_score: self.minimum_preservation_score,
            minimum_identity_margin: self.minimum_identity_margin,
            minimum_success_probability: self.minimum_success_probability,
            confidence_z: self.confidence_z,
        }
    }
}

/// The protocol for so many held-out capabilities and seeds.
pub open spec fn protocol_for(held_out: int, seeds: int) -> ProtocolModel {
    ProtocolModel {
        schema: "cerebro.tidex.universality_protocol/v1"@,
        minimum_calibration_capabilities: 1,
        minimum_held_out_capabilities: held_out as usize,
        minimum_receivers_per_capability: 2,
        minimum_receiver_families_per_capability: 2,
        minimum_seeds_per_capability: seeds as usize,
        require_unseen_receiver: true,
        minimum_target_score: Scalar { bits: 0x3FE9_9999_9999_999A },  // 0.8
        minimum_preservation_score: Scalar { bits: 0x3FEE_6666_6666_6666 },  // 0.95
        minimum_identity_margin: Scalar { bits: 0x3FA9_9999_9999_999A },  // 0.05
        minimum_success_probability: Scalar { bits: 0x3FE9_9999_9999_999A },  // 0.8
        confidence_z: Scalar { bits: 0x3FFF_5C28_F5C2_8F5C },  // 1.96
    }
}

/// The protocol for so many held-out capabilities and seeds.
pub fn protocol(held_out: usize, seeds: usize) -> (protocol: UniversalityProtocol)
    ensures
        protocol@ == protocol_for(held_out as int, seeds as int),
{
    UniversalityProtocol {
        schema: "cerebro.tidex.universality_protocol/v1".to_owned(),
        minimum_calibration_capabilities: 1,
        minimum_held_out_capabilities: held_out,
        minimum_receivers_per_capability: 2,
        minimum_receiver_families_per_capability: 2,
        minimum_seeds_per_capability: seeds,
        require_unseen_receiver: true,
        minimum_target_score: Scalar { bits: 0x3FE9_9999_9999_999A },
        minimum_preservation_score: Scalar { bits: 0x3FEE_6666_6666_6666 },
        minimum_identity_margin: Scalar { bits: 0x3FA9_9999_9999_999A },
        minimum_success_probability: Scalar { bits: 0x3FE9_9999_9999_999A },
        confidence_z: Scalar { bits: 0x3FFF_5C28_F5C2_8F5C },
    }
}

/// One capability on one receiver with one seed, and its scores.
#[derive(Debug)]
pub struct UniversalityTrial {
    pub schema: String,
    pub trial_id: String,
    pub capability_id: String,
    pub receiver_id: String,
    pub receiver_family_id: String,
    pub seed: u64,
    pub capability_was_calibration: bool,
    pub receiver_was_calibration: bool,
    pub target_optimizer_steps: u64,
    pub target_score: Scalar,
    pub preservation_score: Scalar,
    pub wrong_ir_score: Scalar,
    pub random_delta_score: Scalar,
    pub unmodified_receiver_score: Scalar,
}

/// The model of a [`UniversalityTrial`].
pub struct TrialModel {
    pub schema: Seq<char>,
    pub trial_id: Seq<char>,
    pub capability_id: Seq<char>,
    pub receiver_id: Seq<char>,
    pub receiver_family_id: Seq<char>,
    pub seed: u64,
    pub capability_was_calibration: bool,
    pub receiver_was_calibration: bool,
    pub target_optimizer_steps: u64,
    pub target_score: Scalar,
    pub preservation_score: Scalar,
    pub wrong_ir_score: Scalar,
    pub random_delta_score: Scalar,
    pub unmodified_receiver_score: Scalar,
}

impl View for UniversalityTrial {
    type V = TrialModel;

    open spec fn view(&self) -> TrialModel {
        TrialModel {
            schema: self.schema@,
            trial_id: self.trial_id@,
            capability_id: self.capability_id@,
            receiver_id: self.receiver_id@,
            receiver_family_id: self.receiver_family_id@,
            seed: self.seed,
            capability_was_calibration: self.capability_was_calibration,
            receiver_was_calibration: self.receiver_was_calibration,
            target_optimizer_steps: self.target_optimizer_steps,
            target_score: self.target_score,
            preservation_score: self.preservation_score,
            wrong_ir_score: self.wrong_ir_score,
            random_delta_score: self.random_delta_score,
            unmodified_receiver_score: self.unmodified_receiver_score,
        }
    }
}

/// The evidence that a claim of universality is judged on.
#[derive(Debug)]
pub struct UniversalityEvidenceInput {
    pub schema: String,
    pub calibration_capabilities: Vec<String>,
    pub trials: Vec<UniversalityTrial>,
    pub protocol: UniversalityProtocol,
}

/// The model of a [`UniversalityEvidenceInput`].
pub struct EvidenceInputModel {
    pub schema: Seq<char>,
    pub calibration_capabilities: Seq<Seq<char>>,
    pub trials: Seq<TrialModel>,
    pub protocol: ProtocolModel,
}

impl View for UniversalityEvidenceInput {
    type V = EvidenceInputModel;

    open spec fn view(&self) -> EvidenceInputModel {
        EvidenceInputModel {
            schema: self.schema@,
            calibration_capabilities: views(self.calibration_capabilities@),
            trials: views(self.trials@),
            protocol: self.protocol@,
        }
    }
}

/// What a candidate has to reach to be ready for promotion. Nothing here
/// authorises an activation.
#[derive(Debug)]
pub struct UniversalPromotionPolicy {
    pub schema: String,
    pub minimum_universality_n: usize,
    pub minimum_global_wilson_lower_bound: Scalar,
    pub require_all_selected_candidates_evaluated: bool,
}

/// The model of a [`UniversalPromotionPolicy`].
pub struct PromotionPolicyModel {
    pub schema: Seq<char>,
    pub minimum_universality_n: usize,
    pub minimum_global_wilson_lower_bound: Scalar,
    pub require_all_selected_candidates_evaluated: bool,
}

impl View for UniversalPromotionPolicy {
    type V = PromotionPolicyModel;

    open spec fn view(&self) -> PromotionPolicyModel {
        PromotionPolicyModel {
            schema: self.schema@,
            minimum_universality_n: self.minimum_universality_n,
            minimum_global_wilson_lower_bound: self.minimum_global_wilson_lower_bound,
            require_all_selected_candidates_evaluated:
                self.require_all_selected_candidates_evaluated,
        }
    }
}

/// A promotion policy with the given thresholds.
pub open spec fn promotion_policy_with(n: int, lower_bound: Scalar) -> PromotionPolicyModel {
    PromotionPolicyModel {
        schema: "cerebro.tidex.universal_promotion_policy/v1"@,
        minimum_universality_n: n as usize,
        minimum_global_wilson_lower_bound: lower_bound,
        require_all_selected_candidates_evaluated: true,
    }
}

/// The promotion policy of a single run: one capability, and no lower bound.
pub fn run_promotion_policy() -> (policy: UniversalPromotionPolicy)
    ensures
        policy@ == promotion_policy_with(1, Scalar { bits: 0 }),
{
    UniversalPromotionPolicy {
        schema: "cerebro.tidex.universal_promotion_policy/v1".to_owned(),
        minimum_universality_n: 1,
        minimum_global_wilson_lower_bound: Scalar { bits: 0 },
        require_all_selected_candidates_evaluated: true,
    }
}

/// The promotion policy of a suite with so many held-out capabilities: all of
/// them, and a lower bound of 0.8.
pub fn suite_promotion_policy(held_out: usize) -> (policy: UniversalPromotionPolicy)
    ensures
        policy@ == promotion_policy_with(held_out as int, Scalar { bits: 0x3FE9_9999_9999_999A }),
{
    UniversalPromotionPolicy {
        schema: "cerebro.tidex.universal_promotion_policy/v1".to_owned(),
        minimum_universality_n: held_out,
        minimum_global_wilson_lower_bound: Scalar { bits: 0x3FE9_9999_9999_999A },
        require_all_selected_candidates_evaluated: true,
    }
}

/// The compiler policy of the laboratory is one that the compiler accepts.
pub proof fn laboratory_compiler_policy_is_acceptable()
    ensures
        laboratory_compiler_policy().acceptable(),
{
    let policy = laboratory_compiler_policy();
    lemma_one();
    lemma_magnitude_zero(0);
    lemma_magnitude_zero(policy.ridge.magnitude());
    lemma_magnitude_zero(policy.minimum_decoder_loo_r2.magnitude());
    lemma_magnitude_zero(policy.maximum_functional_relative_error.magnitude());
    lemma_magnitude_zero(policy.minimum_identity_margin.magnitude());
    lemma_magnitude_zero(policy.maximum_quadratic_cost.magnitude());
    lemma_magnitude_increasing(
        policy.minimum_decoder_loo_r2.magnitude(),
        crate::scalar::ONE_BITS as int,
    );
    lemma_magnitude_increasing(
        policy.minimum_identity_margin.magnitude(),
        crate::scalar::ONE_BITS as int,
    );
}

/// Every backend completes the controls that all share; besides these the dense and
/// the sparse backend complete their own, and no backend that of another.
pub proof fn backends_complete_their_own_control(
    backend: MaterializationStrategy,
    control: ComparativeControl,
)
    ensures
        backend_controls(backend).contains(control) <==> {
            ||| control is UnmodifiedReceiver
            ||| control is WrongCapabilityIr
            ||| control is RandomDelta
            ||| control is MeanCapability
            ||| control is NearestCapability
            ||| control is AlternativeBackend
            ||| control is NonTargetPreservation
            ||| control is DenseDelta && backend == MaterializationStrategy::DenseDelta
            ||| control is SparseDelta && backend == MaterializationStrategy::SparseDelta
        },
        laboratory_selection_policy().required_controls.contains(control) <==> backend_controls(
            MaterializationStrategy::DenseDelta,
        ).contains(control) && backend_controls(MaterializationStrategy::SparseDelta).contains(
            control,
        ),
{
}

/// A protocol asks for as many held-out capabilities and as many seeds as it is told,
/// each under its own name, and otherwise for the same whatever it is told.
pub proof fn protocols_ask_for_what_they_are_told(
    held_out: usize,
    seeds: usize,
    other_held_out: usize,
    other_seeds: usize,
)
    ensures
        ({
            let protocol = protocol_for(held_out as int, seeds as int);
            let other = protocol_for(other_held_out as int, other_seeds as int);
            &&& protocol.minimum_held_out_capabilities == held_out
            &&& protocol.minimum_seeds_per_capability == seeds
            &&& other == (ProtocolModel {
                minimum_held_out_capabilities: other_held_out,
                minimum_seeds_per_capability: other_seeds,
                ..protocol
            })
            &&& protocol.require_unseen_receiver
            &&& protocol.minimum_calibration_capabilities == 1
            &&& protocol.minimum_receivers_per_capability == 2
            &&& protocol.minimum_receiver_families_per_capability == 2
        }),
{
}

} // verus!

use cerebro_tidex::acquisition::{
    capability_acquisition, capability_ir, NoisePolicy, RequestedResidency, ValueReference,
};
use cerebro_tidex::checkpoint_adapter::{
    SafeTensorsCheckpointInventory, SafeTensorsTensorInventoryItem,
};
use cerebro_tidex::checkpoint_inspection::{
    ArchitectureFamilyFingerprint, InspectedReceiverArtifacts, ParameterLayoutArtifact,
    ReceiverMaterializationLayout, ReceiverSnapshotBinding,
};
use cerebro_tidex::controls::ComparativeControl;
use cerebro_tidex::error::{BrainError, BrainResult};
use cerebro_tidex::identity::{
    ArchitectureId, CapabilityId, CapabilityIrDigest, ModelId, Sha256Digest, SystemEnvelopeDigest,
    TensorId,
};
use cerebro_tidex::json::{parse_json, Json};
use cerebro_tidex::lab_contracts::{
    anchor_contracts, candidate_digests, capability_requirements, discovery_request,
    measured_micros, operational_contract, planning_request, probe_variations, shadow_input,
    CandidateDigests, DigestProgress, DigestStep, TransitionErrors,
};
use cerebro_tidex::lab_isolation::LabRoots;
use cerebro_tidex::lab_naming::{model_id_from_root, module_family_rank, receiver_id, safe_slug};
use cerebro_tidex::lab_payloads::{candidate_payload, evaluation_payload, receiver_payload};
use cerebro_tidex::lab_policies::{
    compiler_policy, controls_for, discovery_policy, protocol, required_controls,
    run_promotion_policy, selection_policy, sparse_policy, suite_promotion_policy,
};
use cerebro_tidex::lab_records::{
    acquisition_name, digest_field, identity_rows, probe, receiver_request, receiver_solution,
    required_held_out, seed_directory, select_materialization_tensor, shadow_metrics,
    shadow_operands, suite_evidence, suite_protocol, universality_input, universality_operands,
    universality_trial, ShadowMetrics, ShadowReadings, TrialSubject,
};
use cerebro_tidex::lab_run::{
    next, run, run_suite, Action, CaseId, Course, Document, Next, Outcomes, ReceiverProgress,
    SuiteExtent, SuiteProgress, SuiteStep, SuiteTally,
};
use cerebro_tidex::lab_suite::{
    alternative_backend, anchor_state, asks_for_suite, calibration_candidates,
    calibration_signatures, calibration_variations, jitter_step, materializer_for, parse_backend,
    signatures_close, suite_capabilities, suite_capability_names, suite_seeds, tally_families,
    wrong_signatures, CapabilitySpec, Materializer, PrepareError, RunConfig, SuiteConfig,
    VariedSignature, SOLUTION_FACTOR_BITS,
};
use cerebro_tidex::paths::{FilePath, PathPart};
use cerebro_tidex::receiver_compiler::{
    OperationalInterfaceVerification, ReceiverCompilation, TrustRegionResult,
};
use cerebro_tidex::receiver_profile::{
    CapabilityModality, MaterializationPlan, MaterializationStrategy, PlanLifecycle,
    ReceiverArchitecture, ReceiverProfile,
};
use cerebro_tidex::scalar::Scalar;
use cerebro_tidex::shadow_materializer::{
    materialize_receiver_coordinates_shadow, ShadowEvidence,
};
use cerebro_tidex::tidex_cli::{
    acquire_workspace, check_input_length, parse_candidate_backend, parse_command, parse_provider,
    usage, CandidateBackend, Command, ModelProvider, MAX_BENCHMARK_INPUT_BYTES,
};
use cerebro_tidex::universal_capability_compiler::CapabilitySources;
use cerebro_tidex::universal_shadow_runner::{
    self, document_metrics, ShadowEvaluationBundle,
};

fn scalar(value: f64) -> Scalar {
    Scalar::from_bits(value.to_bits())
}

fn number(value: Scalar) -> f64 {
    f64::from_bits(value.bits)
}

fn scalars(row: &[f64]) -> Vec<Scalar> {
    row.iter().map(|value| scalar(*value)).collect()
}

fn numbers(row: &[Scalar]) -> Vec<f64> {
    row.iter().map(|value| number(*value)).collect()
}

fn texts(items: &[&str]) -> Vec<String> {
    items.iter().map(|item| item.to_string()).collect()
}

fn digest(text: &str) -> Sha256Digest {
    Sha256Digest {
        text: text.to_string(),
    }
}

fn path(text: &str) -> FilePath {
    let mut parts = Vec::new();
    if text.starts_with('/') {
        parts.push(PathPart::Root);
    }
    for part in text.split('/').filter(|part| !part.is_empty()) {
        parts.push(match part {
            ".." => PathPart::Parent,
            "." => PathPart::Here,
            name => PathPart::Name(name.as_bytes().to_vec()),
        });
    }
    FilePath { parts }
}

fn message(error: PrepareError) -> String {
    match error {
        PrepareError::Message(text) => text,
        PrepareError::Brain(error) => error.code().unwrap_or("").to_string(),
    }
}

fn code(error: &BrainError) -> String {
    error.code().unwrap_or("").to_string()
}

fn capability(text: &str) -> CapabilitySpec {
    CapabilitySpec::parse(Ok(CapabilityId {
        text: text.to_string(),
    }))
    .unwrap()
}

fn compilation() -> ReceiverCompilation {
    ReceiverCompilation {
        schema: "cerebro.tidex.receiver_compilation/v1".to_string(),
        receiver_parameter_dimension: 2,
        calibration_anchor_count: 9,
        target_delta: scalars(&[0.5, 0.25]),
        predicted_functional_signature: scalars(&[0.0, 1.0]),
        decoder_loo_r2: scalar(0.875),
        decoder_min_loo_cosine: scalar(1.5),
        encoder_loo_r2: scalar(0.75),
        encoder_min_loo_cosine: scalar(0.9375),
        functional_relative_error: scalar(0.0625),
        correct_cosine: scalar(1.0),
        maximum_wrong_cosine: scalar(-0.5),
        identity_margin: scalar(1.5),
        protection_damage_ratio: scalar(0.25),
        protection_removed_energy: scalar(0.0),
        protection_max_weighted_residual: scalar(0.0),
        trust_region: TrustRegionResult {
            scale: scalar(0.5),
            max_quadratic_cost: scalar(4.0),
            accepted_coefficients: scalars(&[0.5, 0.25]),
            accepted_quadratic_cost: scalar(1.0),
            details: String::new(),
        },
        operational_verification: OperationalInterfaceVerification {
            allowed: true,
            details: String::new(),
        },
        allowed: true,
    }
}

fn readings() -> ShadowReadings {
    ShadowReadings {
        functional_complement: scalar(0.9375),
        protection_complement: scalar(0.75),
        cost_quotient: scalar(0.25),
    }
}

#[test]
fn laboratory_roots_are_isolated_from_production() {
    let open = |state: &str, artifact: &str, production: &str| {
        LabRoots::open(
            Ok(path("/lab")),
            Some(path(state)),
            Some(path(artifact)),
            Some(path(production)),
        )
    };
    let roots = open("/lab/state", "/lab/artifacts", "/prod").unwrap();
    assert!(roots.lab_root.same(&path("/lab")));
    assert!(roots.state_root.same(&path("/lab/state")));
    assert!(roots.artifact_root.same(&path("/lab/artifacts")));
    for (state, artifact, production) in [
        ("/other/state", "/lab/artifacts", "/prod"),
        ("/lab/state", "/labx/artifacts", "/prod"),
        ("/lab/state", "/lab/state", "/prod"),
        ("/lab/prod/state", "/lab/artifacts", "/lab/prod"),
        ("/lab/state", "/lab/prod", "/lab/prod"),
        ("/lab/state", "/lab/artifacts", "/lab/state/production"),
        ("/lab/state", "/lab/artifacts", "/lab/artifacts/production"),
        ("/lab/state", "/lab/artifacts", "/lab/state"),
    ] {
        let error = open(state, artifact, production).unwrap_err();
        assert_eq!(code(&error), "laboratory_roots_not_isolated");
        assert!(matches!(error, BrainError::Integrity(_)));
    }
}

#[test]
fn unavailable_roots_are_told_apart() {
    let some = || Some(path("/lab/x"));
    let refused = |lab, state, artifact, production| {
        code(&LabRoots::open(lab, state, artifact, production).unwrap_err())
    };
    assert_eq!(
        refused(Err(BrainError::invalid("private_root")), None, None, None),
        "private_root"
    );
    assert_eq!(
        refused(Ok(path("/lab")), None, None, None),
        "laboratory_state_root_unavailable"
    );
    assert_eq!(
        refused(Ok(path("/lab")), some(), None, None),
        "laboratory_artifact_root_unavailable"
    );
    assert_eq!(
        refused(Ok(path("/lab")), some(), some(), None),
        "production_root_unavailable"
    );
}

#[test]
fn model_identities_follow_the_directory() {
    let id = |text: &str| model_id_from_root(&path(text));
    assert_eq!(
        id("/cache/models--Org--Tiny-Model/snapshots/abc123"),
        "local.org.tiny-model"
    );
    assert_eq!(id("/models/Plain Name"), "local.plain-name");
    assert_eq!(id("snapshots/x"), "local.x");
    assert_eq!(id("/a/snapshots/b/c"), "local.snapshots");
    assert_eq!(id("/models/__"), "local.receiver");
    assert_eq!(id("/"), "local.receiver");
    assert_eq!(id("/models/.."), "local.receiver");
    assert_eq!(id("/models/a---b"), "local.a.-b");
    assert_eq!(id("/models/a....b"), "local.a.b");
    assert_eq!(id("/models/models--models--x"), "local.x");
    assert_eq!(id(&format!("/m/{}", "x".repeat(400))).len(), 128);
}

#[test]
fn names_that_are_no_text_are_skipped() {
    let mut root = path("/cache/models--a--b/snapshots");
    root.parts.push(PathPart::Name(vec![0xFF, 0xFE]));
    assert_eq!(model_id_from_root(&root), "local.receiver");
    root.parts.push(PathPart::Name(b"c".to_vec()));
    assert_eq!(model_id_from_root(&root), "local.a.b");
    let accented = FilePath {
        parts: vec![PathPart::Name("na\u{EF}ve".as_bytes().to_vec())],
    };
    assert_eq!(model_id_from_root(&accented), "local.na-ve");
}

#[test]
fn slugs_are_lower_case_with_single_dashes() {
    assert_eq!(safe_slug("state.toggle:v1"), "state-toggle-v1");
    assert_eq!(safe_slug("--A  B__c--"), "a-b-c");
    assert_eq!(safe_slug("../../etc"), "etc");
    assert_eq!(safe_slug("\u{E9}"), "");
    assert_eq!(safe_slug(&"ab".repeat(100)).len(), 96);
    for text in ["state.toggle:v1", "--A  B__c--", "local.x.0123456789ab", ""] {
        let slug = safe_slug(text);
        assert_eq!(safe_slug(&slug), slug);
        assert!(!slug.ends_with('-'));
    }
}

#[test]
fn tensors_are_ranked_by_family() {
    assert_eq!(module_family_rank("layer.0.ATTN.weight"), 0);
    assert_eq!(module_family_rank("layer.q_proj.norm"), 0);
    assert_eq!(module_family_rank("final_LayerNorm.bias"), 1);
    assert_eq!(module_family_rank("mlp.gate_proj.weight"), 2);
    assert_eq!(module_family_rank("word_embeddings"), 3);
    assert_eq!(module_family_rank("lm_head"), 4);
}

#[test]
fn receivers_are_named_by_model_and_snapshot() {
    let id = receiver_id(
        &ModelId {
            text: "local.x".to_string(),
        },
        &digest("0123456789abcdef"),
    );
    assert_eq!(id, "local.x.0123456789ab");
}

#[test]
fn backends_are_read_and_paired() {
    assert_eq!(
        parse_backend("dense").unwrap(),
        MaterializationStrategy::DenseDelta
    );
    assert_eq!(
        parse_backend("sparse").unwrap(),
        MaterializationStrategy::SparseDelta
    );
    assert_eq!(
        code(&parse_backend("low-rank").unwrap_err()),
        "prepare_backend_invalid"
    );
    for backend in ["dense", "sparse"] {
        let backend = parse_backend(backend).unwrap();
        let other = alternative_backend(backend).unwrap();
        assert_ne!(backend, other);
        assert_eq!(alternative_backend(other).unwrap(), backend);
    }
    assert_eq!(
        message(alternative_backend(MaterializationStrategy::LowRank).unwrap_err()),
        "prepare backend unsupported"
    );
    assert_eq!(
        materializer_for(MaterializationStrategy::DenseDelta).unwrap(),
        Materializer::Dense
    );
    assert_eq!(
        materializer_for(MaterializationStrategy::SparseDelta).unwrap(),
        Materializer::Sparse
    );
    assert_eq!(
        message(materializer_for(MaterializationStrategy::ActivationSteering).unwrap_err()),
        "materialization backend unsupported"
    );
}

fn parsed(args: &[&str]) -> Result<RunConfig, PrepareError> {
    let tensor: BrainResult<TensorId> = match args.get(1) {
        Some(text) if !text.is_empty() => Ok(TensorId {
            text: text.to_string(),
        }),
        _ => Err(BrainError::invalid("tensor_id_invalid")),
    };
    RunConfig::parse(&texts(args), tensor)
}

#[test]
fn run_arguments_are_read() {
    let config = parsed(&["/m", "w", "dense", "/out"]).unwrap();
    assert_eq!(config.model_root, "/m");
    assert_eq!(config.tensor_id.as_str(), "w");
    assert_eq!(config.backend, MaterializationStrategy::DenseDelta);
    assert_eq!(config.output_dir, "/out");
    assert_eq!(config.capability_id, "state.toggle:v1");
    assert_eq!(config.seed, 0);
    let config = parsed(&["/m", "w", "sparse", "/out", "state.negate:v1", "17"]).unwrap();
    assert_eq!(config.capability_id, "state.negate:v1");
    assert_eq!(config.seed, 17);
}

#[test]
fn run_arguments_are_refused_in_order() {
    let refused = |args: &[&str]| message(parsed(args).unwrap_err());
    assert!(refused(&["/m", "w", "dense"]).starts_with("usage: prepare-universal-lab-run <model"));
    assert!(refused(&["a", "b", "c", "d", "e", "f", "g"]).starts_with("usage: "));
    assert_eq!(
        refused(&["/m", "", "tall", "/out", "x", "-1"]),
        "prepare_seed_invalid"
    );
    assert_eq!(refused(&["/m", "", "tall", "/out"]), "tensor_id_invalid");
    assert_eq!(
        refused(&["/m", "w", "tall", "/out"]),
        "prepare_backend_invalid"
    );
    assert_eq!(
        refused(&["/m", "w", "dense", "/out", "x", "18446744073709551616"]),
        "prepare_seed_invalid"
    );
}

#[test]
fn suite_arguments_are_read() {
    assert!(asks_for_suite(&texts(&["suite", "x"])));
    assert!(!asks_for_suite(&texts(&["suites"])));
    assert!(!asks_for_suite(&Vec::new()));
    let config = SuiteConfig::parse(&texts(&["sparse", "/out", "/runner", "/a", "/b"])).unwrap();
    assert_eq!(config.backend, MaterializationStrategy::SparseDelta);
    assert_eq!(config.output_dir, "/out");
    assert_eq!(config.runner, "/runner");
    assert_eq!(config.model_roots, texts(&["/a", "/b"]));
    assert!(
        message(SuiteConfig::parse(&texts(&["dense", "/out", "/runner"])).unwrap_err())
            .starts_with("usage: prepare-universal-lab-run suite <dense|sparse>")
    );
    assert_eq!(
        message(SuiteConfig::parse(&texts(&["tall", "/o", "/r", "/a"])).unwrap_err()),
        "prepare_backend_invalid"
    );
}

#[test]
fn capabilities_have_their_operators_and_signatures() {
    for (id, operator, signature) in [
        ("state.toggle:v1", "toggle", [0.0, 1.0, 1.0, 0.0]),
        ("state.identity:v1", "identity", [1.0, 0.0, 0.0, 1.0]),
        ("state.reset0:v1", "reset0", [1.0, 0.0, 1.0, 0.0]),
        ("state.reset1:v1", "reset1", [0.0, 1.0, 0.0, 1.0]),
        ("state.negate:v1", "negate", [-1.0, 0.0, 0.0, -1.0]),
    ] {
        let spec = capability(id);
        assert_eq!(spec.operator.operator_id(), operator);
        assert_eq!(numbers(&spec.target_signature()), signature);
        let wrong = wrong_signatures(&spec);
        assert_eq!(wrong.len(), 3);
        assert!(wrong.iter().all(|row| numbers(row) != signature));
    }
    assert_eq!(
        code(
            &CapabilitySpec::parse(Ok(CapabilityId {
                text: "state.unknown:v1".to_string()
            }))
            .unwrap_err()
        ),
        "prepare_capability_unknown"
    );
    assert_eq!(
        code(&CapabilitySpec::parse(Err(BrainError::invalid("id"))).unwrap_err()),
        "id"
    );
    assert_eq!(numbers(&anchor_state("n1")), [0.0, -1.0]);
    assert_eq!(numbers(&anchor_state("other")), [0.0, 0.0]);
}

fn suite(configured: Option<&str>) -> BrainResult<Vec<CapabilitySpec>> {
    let ids = suite_capability_names(configured)
        .into_iter()
        .map(|text| Ok(CapabilityId { text }))
        .collect();
    suite_capabilities(&ids)
}

#[test]
fn suites_need_the_identity_and_no_repetition() {
    let ids: Vec<String> = suite(None)
        .unwrap()
        .iter()
        .map(|spec| spec.id.as_str().to_string())
        .collect();
    assert_eq!(
        ids,
        [
            "state.identity:v1",
            "state.toggle:v1",
            "state.reset0:v1",
            "state.reset1:v1",
            "state.negate:v1"
        ]
    );
    assert_eq!(
        suite(Some(" state.toggle:v1 ,, state.identity:v1"))
            .unwrap()
            .len(),
        2
    );
    let refused = |text| code(&suite(Some(text)).unwrap_err());
    assert_eq!(
        refused("state.toggle:v1,state.toggle:v1"),
        "suite_capability_duplicate"
    );
    assert_eq!(
        refused("state.toggle:v1"),
        "suite_requires_identity_calibration_capability"
    );
    assert_eq!(
        refused(" , "),
        "suite_requires_identity_calibration_capability"
    );
    assert_eq!(
        refused("state.identity:v1,nonsense"),
        "prepare_capability_unknown"
    );
}

#[test]
fn suite_seeds_are_distinct_numbers() {
    assert_eq!(suite_seeds(None).unwrap(), [0, 1, 2]);
    assert_eq!(suite_seeds(Some(" 7,,+3 ")).unwrap(), [7, 3]);
    let refused = |text| message(suite_seeds(Some(text)).unwrap_err());
    assert_eq!(refused("1,x"), "suite_seed_invalid");
    assert_eq!(refused("1,01"), "suite_seed_duplicate");
    assert_eq!(refused(","), "suite_seed_set_empty");
}

/// The candidates, each number moved by its step for seed zero.
fn varied_by(capability: &CapabilitySpec, scale: f64) -> Vec<VariedSignature> {
    let target = capability.target_signature();
    calibration_candidates()
        .iter()
        .enumerate()
        .map(|(index, row)| {
            let signature: Vec<Scalar> = row
                .iter()
                .enumerate()
                .map(|(slot, value)| {
                    let step = jitter_step(0, index as u64, slot as u64) as f64 / 1000.0 - 1.0;
                    scalar(number(*value) + step * scale)
                })
                .collect();
            let differences = signature
                .iter()
                .zip(&target)
                .map(|(a, b)| scalar(number(*a) - number(*b)))
                .collect();
            let scaled = signature
                .iter()
                .map(|value| scalar(0.01 * number(*value)))
                .collect();
            VariedSignature {
                signature,
                differences,
                scaled,
            }
        })
        .collect()
}

#[test]
fn calibration_holds_out_the_queried_capability() {
    for (id, used) in [
        ("state.reset0:v1", 9),
        ("state.reset1:v1", 9),
        ("state.identity:v1", 9),
        ("state.toggle:v1", 10),
        ("state.negate:v1", 10),
    ] {
        let queried = capability(id);
        let target = numbers(&queried.target_signature());
        let rows = calibration_signatures(&queried, &varied_by(&queried, 0.0001));
        assert_eq!(rows.signatures.len(), used, "{id}");
        assert_eq!(rows.scaled.len(), used, "{id}");
        for (row, scaled) in rows.signatures.iter().zip(&rows.scaled) {
            assert!(numbers(row)
                .iter()
                .zip(&target)
                .any(|(a, b)| (a - b).abs() > 0.001));
            let hundredth: Vec<f64> = numbers(row).iter().map(|v| 0.01 * v).collect();
            assert_eq!(numbers(scaled), hundredth);
        }
    }
}

#[test]
fn calibration_leaves_out_what_is_close_to_the_target() {
    let candidates = calibration_candidates();
    assert_eq!(candidates.len(), 10);
    assert_eq!(numbers(&candidates[7]), [1.2, -0.2, 0.4, 0.8]);
    assert_eq!(numbers(&candidates[8]), [-0.8, 0.1, 0.2, -1.1]);
    assert_eq!(numbers(&candidates[9]), [0.3, -0.7, 0.9, 0.4]);
    let identity = capability("state.identity:v1");
    let rows = calibration_signatures(&identity, &varied_by(&identity, 0.0));
    assert_eq!(rows.signatures.len(), 9);
    assert_eq!(numbers(&rows.signatures[0]), [1.0, 0.0, 1.0, 0.0]);
    assert_eq!(numbers(&rows.scaled[0]), [0.01, 0.0, 0.01, 0.0]);
    assert!(signatures_close(2, 2, &scalars(&[1e-9, -1e-9])));
    assert!(!signatures_close(2, 2, &scalars(&[0.0, -2e-9])));
    assert!(!signatures_close(1, 2, &scalars(&[0.0])));
    assert!(signatures_close(1, 1, &scalars(&[f64::NAN])));
}

#[test]
fn variations_follow_the_seed() {
    assert_eq!(f64::from_bits(SOLUTION_FACTOR_BITS), 0.01);
    let toggle = capability("state.toggle:v1");
    let target = toggle.target_signature();
    let rows = probe_variations(&toggle, 5);
    assert_eq!(rows.len(), 4);
    for (index, row) in rows.iter().enumerate() {
        assert_eq!(row.len(), 4);
        for (slot, one) in row.iter().enumerate() {
            assert_eq!(one.value, target[slot]);
            assert_eq!(one.step, jitter_step(5, index as u64, slot as u64));
            assert_eq!(number(one.scale), 0.002);
        }
    }
    let candidates = calibration_candidates();
    let rows = calibration_variations(u64::MAX);
    assert_eq!(rows.len(), 10);
    for (index, row) in rows.iter().enumerate() {
        assert_eq!(row.len(), 4);
        for (slot, one) in row.iter().enumerate() {
            assert_eq!(one.value, candidates[index][slot]);
            assert_eq!(one.step, jitter_step(u64::MAX, index as u64, slot as u64));
            assert_eq!(number(one.scale), 0.0001);
        }
    }
}

#[test]
fn jitter_wraps_around() {
    assert_eq!(jitter_step(0, 0, 0), 0);
    for (seed, index, slot) in [(1, 0, 0), (2, 3, 1), (u64::MAX, 9, 3)] {
        let mixed = 0x9E37_79B9_7F4A_7C15_u64
            .wrapping_mul(seed)
            .wrapping_add(0xBF58_476D_1CE4_E5B9_u64.wrapping_mul(index))
            .wrapping_add(0x94D0_49BB_1331_11EB_u64.wrapping_mul(slot));
        assert_eq!(jitter_step(seed, index, slot), mixed % 2001);
    }
}

#[test]
fn families_are_counted_in_order() {
    let table = tally_families(&texts(&["llama", "bert", "llama"]));
    let pairs: Vec<(&str, usize)> = table
        .iter()
        .map(|entry| (entry.name.as_str(), entry.value))
        .collect();
    assert_eq!(pairs, [("bert", 1), ("llama", 2)]);
}

#[test]
fn policies_hold_their_numbers() {
    let sparse = sparse_policy();
    assert_eq!(sparse.maximum_nonzero_count, 8);
    assert_eq!(number(sparse.maximum_density), 0.05);
    assert_eq!(number(sparse.absolute_zero_threshold), 1.0e-12);
    assert_eq!(number(sparse.relative_reconstruction_tolerance), 1.0e-10);
    assert_eq!(number(sparse.absolute_reconstruction_tolerance), 1.0e-10);
    assert_eq!(number(sparse.minimum_storage_reduction_ratio), 0.5);
    let selection = selection_policy();
    assert_eq!(number(selection.minimum_functional_ci_lower), 0.8);
    assert_eq!(number(selection.minimum_preservation_score), 0.95);
    assert_eq!(number(selection.minimum_identity_margin), 0.05);
    assert_eq!(number(selection.minimum_numerical_stability), 0.99);
    assert_eq!(number(selection.maximum_normalized_risk), 0.1);
    assert_eq!(selection.maximum_latency_micros, 60_000_000);
    assert_eq!(selection.maximum_resident_bytes, 64 * 1024 * 1024);
    assert_eq!(number(selection.functional_weight), 0.35);
    assert_eq!(number(selection.preservation_weight), 0.25);
    assert_eq!(number(selection.stability_weight), 0.15);
    assert_eq!(number(selection.risk_weight), 0.1);
    assert_eq!(number(selection.latency_weight), 0.075);
    assert_eq!(number(selection.memory_weight), 0.075);
    assert!(selection.allow_hybrid);
    assert_eq!(number(selection.minimum_hybrid_complementarity), 0.05);
    let discovery = discovery_policy();
    assert_eq!((discovery.minimum_trials, discovery.minimum_seeds), (3, 3));
    assert_eq!(number(discovery.minimum_consistency), 0.95);
    assert_eq!(number(discovery.minimum_control_margin), 0.25);
    assert_eq!(number(discovery.maximum_closure_error), 1e-9);
    assert_eq!(number(discovery.maximum_contraction_ratio), 1e-9);
    let compiler = compiler_policy();
    assert!(compiler.validate().is_ok());
    assert_eq!(number(compiler.ridge), 1e-10);
    assert_eq!(number(compiler.minimum_encoder_loo_r2), 0.999);
    assert_eq!(number(compiler.maximum_functional_relative_error), 1e-4);
    assert_eq!(number(compiler.minimum_identity_margin), 0.05);
    assert_eq!(number(compiler.maximum_quadratic_cost), 1e6);
    let protocol = protocol(4, 3);
    assert_eq!(protocol.minimum_held_out_capabilities, 4);
    assert_eq!(protocol.minimum_seeds_per_capability, 3);
    assert_eq!(number(protocol.confidence_z), 1.96);
    let single = run_promotion_policy();
    assert_eq!(single.minimum_universality_n, 1);
    assert_eq!(number(single.minimum_global_wilson_lower_bound), 0.0);
    let many = suite_promotion_policy(4);
    assert_eq!(many.minimum_universality_n, 4);
    assert_eq!(number(many.minimum_global_wilson_lower_bound), 0.8);
    assert!(many.require_all_selected_candidates_evaluated);
}

#[test]
fn controls_follow_the_backend() {
    let required = required_controls().to_vec();
    assert_eq!(required.len(), 7);
    for (backend, own) in [
        (
            MaterializationStrategy::DenseDelta,
            Some(ComparativeControl::DenseDelta),
        ),
        (
            MaterializationStrategy::SparseDelta,
            Some(ComparativeControl::SparseDelta),
        ),
        (MaterializationStrategy::LowRank, None),
    ] {
        let controls = controls_for(backend);
        assert!(required.iter().all(|control| controls.contains(control)));
        assert_eq!(controls.to_vec().len(), 7 + usize::from(own.is_some()));
        if let Some(own) = own {
            assert!(controls.contains(&own));
        }
    }
}

#[test]
fn receiver_requests_name_the_files_of_a_model() {
    let request = receiver_request(
        Ok(ModelId {
            text: "local.x".to_string(),
        }),
        Ok(ArchitectureId {
            text: "local.safetensors.receiver".to_string(),
        }),
        TensorId {
            text: "w".to_string(),
        },
    )
    .unwrap();
    assert_eq!(
        request.schema,
        "cerebro.tidex.safetensors_receiver_request/v1"
    );
    assert!(request.architecture.is_unknown());
    assert!(matches!(request.modalities[..], [CapabilityModality::Text]));
    assert!(request.checkpoint_files[0].same(&path("model.safetensors")));
    assert!(request.configuration_file.same(&path("config.json")));
    assert!(request.tokenizer_file.same(&path("tokenizer.json")));
    assert_eq!(
        request.supported_strategies,
        [
            MaterializationStrategy::DenseDelta,
            MaterializationStrategy::SparseDelta
        ]
    );
    assert_eq!(request.materialization_tensors[0].as_str(), "w");
    let refused = receiver_request(
        Err(BrainError::invalid("model")),
        Err(BrainError::invalid("architecture")),
        TensorId {
            text: "w".to_string(),
        },
    );
    assert_eq!(code(&refused.unwrap_err()), "model");
}

#[test]
fn probes_are_numbered_and_saturate() {
    let toggle = capability("state.toggle:v1");
    let record = probe(&toggle, 3, 2);
    assert_eq!(record.trial_id, "toggle-seed-3-probe-2");
    assert_eq!(record.probe_id, "state.toggle:v1");
    assert_eq!(record.seed, 30_002);
    assert_eq!(record.input_text, "state.toggle:v1-probe-input-3-2");
    assert_eq!(record.output_text, "state.toggle:v1-probe-output-3-2");
    assert_eq!(probe(&toggle, u64::MAX, 1).seed, u64::MAX);
    assert_eq!(
        acquisition_name(&toggle, 12),
        "real-universal-lab-toggle-seed-12"
    );
    assert_eq!(seed_directory(7), "seed-0007");
    assert_eq!(seed_directory(123), "seed-0123");
    assert_eq!(seed_directory(12345), "seed-12345");
}

fn item(name: &str, count: u64, materializable: bool) -> SafeTensorsTensorInventoryItem {
    SafeTensorsTensorInventoryItem {
        tensor_id: TensorId {
            text: name.to_string(),
        },
        dtype: "F32".to_string(),
        shape: vec![count as usize],
        element_count: count,
        materializable,
    }
}

fn chosen(tensors: Vec<SafeTensorsTensorInventoryItem>) -> Result<String, String> {
    let inventory = Ok(SafeTensorsCheckpointInventory {
        schema: "x".to_string(),
        tensors,
    });
    select_materialization_tensor(&inventory)
        .map(|id| id.as_str().to_string())
        .map_err(message)
}

#[test]
fn tensors_are_chosen_by_family_size_and_name() {
    assert_eq!(
        chosen(vec![
            item("b.norm", 8, true),
            item("z.attn", 64, true),
            item("y.attn", 64, true),
            item("x.attn", 4096, true),
            item("a.attn", 3, true),
            item("c.attn", 4, false),
        ])
        .unwrap(),
        "y.attn"
    );
    assert_eq!(chosen(vec![item("w", 4096, true)]).unwrap(), "w");
    assert_eq!(
        chosen(vec![item("w", 4097, true)]).unwrap_err(),
        "suite_no_small_materializable_tensor"
    );
    let broken = Err(BrainError::integrity("inventory"));
    assert_eq!(
        message(select_materialization_tensor(&broken).unwrap_err()),
        "inventory"
    );
}

#[test]
fn digest_members_are_required() {
    let json = parse_json(b"{\"manifest_sha256\":\"ab\"}").unwrap();
    assert_eq!(
        digest_field(&json, "manifest_sha256").unwrap().as_text(),
        Some("ab")
    );
    assert_eq!(
        message(digest_field(&json, "other").unwrap_err()),
        "missing digest field: other"
    );
    assert_eq!(
        message(digest_field(&Json::Null, "x").unwrap_err()),
        "missing digest field: x"
    );
}

#[test]
fn synthetic_solutions_touch_four_parameters() {
    assert_eq!(
        numbers(&receiver_solution(&scalars(&[1.0, 2.0, 3.0, 4.0, 5.0]), 6)),
        [1.0, 2.0, 3.0, 4.0, 0.0, 0.0]
    );
    assert_eq!(
        numbers(&receiver_solution(&scalars(&[1.0, 2.0]), 3)),
        [1.0, 2.0, 0.0]
    );
    assert_eq!(
        numbers(&receiver_solution(&scalars(&[1.0, 2.0]), 1)),
        [1.0]
    );
    let rows: Vec<Vec<f64>> = identity_rows(2).iter().map(|row| numbers(row)).collect();
    assert_eq!(rows, [[1.0, 0.0], [0.0, 1.0]]);
}

#[test]
fn shadow_metrics_are_clamped_fractions() {
    let metrics = shadow_metrics(&compilation(), readings());
    assert_eq!(number(metrics.functional_score), 0.9375);
    assert_eq!(number(metrics.functional_ci_lower), 0.75);
    assert_eq!(number(metrics.preservation_score), 0.75);
    assert_eq!(number(metrics.identity_margin), 1.0);
    assert_eq!(number(metrics.numerical_stability), 0.5);
    assert_eq!(number(metrics.normalized_risk), 0.25);
    let mut free = compilation();
    free.trust_region.max_quadratic_cost = scalar(0.0);
    assert_eq!(number(shadow_metrics(&free, readings()).normalized_risk), 1.0);
}

fn subject() -> TrialSubject {
    TrialSubject {
        receiver_id: "local.x.0123456789ab".to_string(),
        receiver_family_id: "bert".to_string(),
    }
}

fn metrics() -> ShadowMetrics {
    ShadowMetrics {
        functional_score: scalar(0.9),
        functional_ci_lower: scalar(0.8),
        preservation_score: scalar(0.7),
        identity_margin: scalar(0.6),
        numerical_stability: scalar(0.5),
        normalized_risk: scalar(0.4),
    }
}

#[test]
fn suite_trials_carry_the_evaluated_scores() {
    let trial = universality_trial(
        &capability("state.toggle:v1"),
        &subject(),
        5,
        metrics(),
        scalar(-0.5),
    );
    assert_eq!(trial.schema, "cerebro.tidex.universality_trial/v1");
    assert_eq!(
        trial.trial_id,
        "local-x-0123456789ab-state-toggle-v1-seed-5"
    );
    assert_eq!(trial.capability_id, "state.toggle:v1");
    assert_eq!(trial.receiver_family_id, "bert");
    assert!(!trial.capability_was_calibration && !trial.receiver_was_calibration);
    assert_eq!(trial.target_optimizer_steps, 0);
    assert_eq!(number(trial.target_score), 0.9);
    assert_eq!(number(trial.preservation_score), 0.7);
    assert_eq!(number(trial.wrong_ir_score), 0.0);
    assert_eq!(number(trial.random_delta_score), 0.4);
    assert_eq!(number(trial.unmodified_receiver_score), 0.0);
    let identity = universality_trial(
        &capability("state.identity:v1"),
        &subject(),
        5,
        metrics(),
        scalar(0.5),
    );
    assert!(identity.capability_was_calibration && identity.receiver_was_calibration);
    assert_eq!(number(identity.wrong_ir_score), 0.5);
}

#[test]
fn single_runs_bring_a_calibration_trial() {
    let input = universality_input(
        &capability("state.reset0:v1"),
        &subject(),
        9,
        readings(),
        scalar(2.0),
    );
    assert_eq!(input.calibration_capabilities, ["calibration.linear:v1"]);
    assert_eq!(input.trials.len(), 2);
    let (first, second) = (&input.trials[0], &input.trials[1]);
    assert_eq!(
        first.trial_id,
        "local.x.0123456789ab-calibration-linear-seed-9"
    );
    assert_eq!((first.seed, second.seed), (0, 9));
    assert_eq!(
        second.trial_id,
        "local.x.0123456789ab-state-reset0-v1-seed-9"
    );
    assert!(first.capability_was_calibration && !second.capability_was_calibration);
    assert_eq!(number(second.wrong_ir_score), 1.0);
    assert_eq!(number(second.random_delta_score), 0.25);
    assert_eq!(input.protocol.minimum_held_out_capabilities, 1);
    assert_eq!(input.protocol.minimum_seeds_per_capability, 2);
}

#[test]
fn suites_require_their_held_out_capabilities() {
    let all = suite(None).unwrap();
    assert_eq!(required_held_out(&all), 4);
    let alone = suite(Some("state.identity:v1")).unwrap();
    assert_eq!(required_held_out(&alone), 1);
    assert_eq!(suite_protocol(&all, &vec![1]).minimum_seeds_per_capability, 2);
    let evidence = suite_evidence(Vec::new(), &all, &vec![1, 2, 3]);
    assert_eq!(evidence.calibration_capabilities, ["state.identity:v1"]);
    assert_eq!(evidence.protocol.minimum_seeds_per_capability, 3);
    assert_eq!(evidence.protocol.minimum_held_out_capabilities, 4);
}

#[test]
fn source_contracts_list_the_operator() {
    let contract = capability("state.negate:v1").source_contract();
    assert_eq!(
        contract.schema,
        "cerebro.tidex.capability_source_contract/v1"
    );
    assert_eq!(contract.operator_id, "negate");
    assert_eq!(contract.state_dimension, 2);
    let pairs: Vec<(&str, &str)> = contract
        .transitions
        .iter()
        .map(|transition| (transition.source, transition.target))
        .collect();
    assert_eq!(pairs, [("s0", "n0"), ("s1", "n1")]);
    assert_eq!(number(contract.closure_error_lte), 0.00001);
    assert_eq!(number(contract.contraction_ratio_lte), 0.00001);
    assert_eq!(number(contract.identity_margin_gte), 0.05);
    let names: Vec<&str> = anchor_contracts()
        .iter()
        .map(|anchor| anchor.anchor_id)
        .collect();
    assert_eq!(names, ["n0", "n1", "s0", "s1"]);
}

#[test]
fn operational_contracts_ascend() {
    let toggle = capability("state.toggle:v1");
    let contract = operational_contract(
        &toggle.id,
        &CapabilityIrDigest {
            text: "ir".to_string(),
        },
        &toggle,
        TransitionErrors {
            first: scalar(2.0_f64.sqrt()),
            second: scalar(1.0),
        },
    );
    assert_eq!(contract.schema, "cerebro.tidex.operational_capability/v1");
    assert_eq!(contract.capability_ir_sha256.as_str(), "ir");
    assert_eq!(contract.anchors.len(), 4);
    let first = &contract.transitions[0];
    let second = &contract.transitions[1];
    assert!(first.source_anchor_id < second.source_anchor_id);
    assert_eq!((first.operator_id, second.operator_id), ("toggle", "toggle"));
    assert_eq!(first.target_anchor_id, "s1");
    assert_eq!(numbers(&first.observed_next_state), [0.0, 1.0]);
    assert_eq!(number(first.pre_target_error), 2.0_f64.sqrt());
    assert_eq!(number(first.post_target_error), 0.0);
    assert_eq!(number(second.pre_target_error), 1.0);
    assert_eq!(number(contract.maximum_closure_error), 1e-5);
}

#[test]
fn discoveries_probe_four_times() {
    let rows: Vec<Vec<Scalar>> = (0..4).map(|i| scalars(&[f64::from(i), 0.0])).collect();
    let request = discovery_request(
        &capability("state.toggle:v1"),
        1,
        &rows,
        &texts(&["attention", "mlp"]),
    );
    assert_eq!(
        request.schema,
        "cerebro.tidex.capability_discovery_request/v1"
    );
    assert_eq!(request.trials.len(), 4);
    for (index, trial) in request.trials.iter().enumerate() {
        assert_eq!(trial.probe.seed, 10_000 + index as u64);
        assert_eq!(number(trial.functional_signature[0]), index as f64);
        assert_eq!(
            numbers(&trial.wrong_control_signature),
            [1.0, 0.0, 0.0, 1.0]
        );
        assert_eq!(trial.attributed_module_families, ["attention"]);
    }
    let bare = discovery_request(&capability("state.toggle:v1"), 1, &rows, &Vec::new());
    assert!(bare.trials[0].attributed_module_families.is_empty());
}

fn profile(dimension: u64) -> ReceiverProfile {
    ReceiverProfile {
        schema: "cerebro.tidex.receiver_profile/v1".to_string(),
        model_id: ModelId {
            text: "local.x".to_string(),
        },
        architecture_id: ArchitectureId {
            text: "a".to_string(),
        },
        architecture: ReceiverArchitecture::Transformer,
        modalities: vec![CapabilityModality::Text],
        supports_persistent_state: false,
        parameter_dimension: dimension,
        regions: Vec::new(),
    }
}

#[test]
fn planning_requests_fit_the_receiver() {
    let toggle = capability("state.toggle:v1");
    let request = planning_request(
        CapabilitySources {
            system_envelope_sha256: SystemEnvelopeDigest {
                text: "envelope".to_string(),
            },
            capability_ir_sha256: CapabilityIrDigest {
                text: "ir".to_string(),
            },
        },
        digest("snapshot"),
        &profile(5),
        TensorId {
            text: "w".to_string(),
        },
        MaterializationStrategy::SparseDelta,
        &toggle,
        &varied_by(&toggle, 0.0),
    );
    let compilation = &request.compilation;
    assert_eq!(
        compilation
            .calibration
            .receiver_snapshot_binding_sha256
            .as_str(),
        "snapshot"
    );
    assert_eq!(compilation.calibration.functional_signatures.len(), 10);
    assert_eq!(
        numbers(&compilation.calibration.functional_signatures[7]),
        [1.2, -0.2, 0.4, 0.8]
    );
    assert_eq!(compilation.calibration.receiver_solutions.len(), 10);
    assert_eq!(
        numbers(&compilation.calibration.receiver_solutions[7]),
        [0.01 * 1.2, 0.01 * -0.2, 0.01 * 0.4, 0.01 * 0.8, 0.0]
    );
    assert_eq!(
        compilation.calibration.wrong_functional_signatures.len(),
        3
    );
    assert_eq!(
        numbers(&compilation.protected_cortex.parameter_importance),
        [0.0; 5]
    );
    assert!(compilation.protected_cortex.directions.is_empty());
    assert_eq!(number(compilation.protected_cortex.max_damage_ratio), 0.01);
    assert_eq!(compilation.risk_metric_rows.len(), 5);
    assert!(compilation.policy.validate().is_ok());
    assert_eq!(
        request.requested_strategy,
        MaterializationStrategy::SparseDelta
    );
    assert_eq!(request.affected_regions[0].as_str(), "w");
    let needs = capability_requirements(
        &capability("state.toggle:v1").id,
        &CapabilityIrDigest {
            text: "ir".to_string(),
        },
        5,
    );
    assert_eq!(needs.minimum_receiver_parameter_dimension, 5);
    assert!(!needs.requires_persistent_state);
    assert_eq!(needs.acceptable_strategies.len(), 2);
}

#[test]
fn planning_requests_hold_out_their_capability() {
    for (id, used) in [("state.identity:v1", 9), ("state.reset0:v1", 9)] {
        let planned = capability(id);
        let target = numbers(&planned.target_signature());
        let request = planning_request(
            CapabilitySources {
                system_envelope_sha256: SystemEnvelopeDigest {
                    text: "envelope".to_string(),
                },
                capability_ir_sha256: CapabilityIrDigest {
                    text: "ir".to_string(),
                },
            },
            digest("snapshot"),
            &profile(6),
            TensorId {
                text: "w".to_string(),
            },
            MaterializationStrategy::DenseDelta,
            &planned,
            &varied_by(&planned, 0.0),
        );
        let calibration = &request.compilation.calibration;
        assert_eq!(calibration.functional_signatures.len(), used, "{id}");
        assert_eq!(calibration.receiver_solutions.len(), used, "{id}");
        for (row, solution) in calibration
            .functional_signatures
            .iter()
            .zip(&calibration.receiver_solutions)
        {
            let row = numbers(row);
            assert_ne!(row, target, "{id}");
            let mut expected: Vec<f64> = row.iter().map(|value| 0.01 * value).collect();
            expected.extend([0.0, 0.0]);
            assert_eq!(numbers(solution), expected, "{id}");
        }
    }
}

#[test]
fn capability_sources_are_acquired_whole_and_small() {
    let plan = capability_acquisition(&capability("state.toggle:v1"), 7);
    assert_eq!(plan.acquisition_id, "real-universal-lab-toggle-seed-7");
    assert_eq!(plan.declared_path, None);
    assert_eq!(plan.residency, RequestedResidency::BestVerified);
    assert_eq!(plan.noise_policy, NoisePolicy::ExplicitOnly);
    assert_eq!(plan.max_files, 8);
    assert_eq!(plan.max_total_bytes, 1 << 20);
}

#[test]
fn capability_structures_normalize_one_state() {
    let ir = capability_ir(&capability("state.toggle:v1"));
    assert_eq!(ir.capability_id.as_str(), "state.toggle:v1");
    assert_eq!(ir.primitive_set, "tidex_core_v1");
    assert_eq!(ir.inputs.len(), 1);
    assert_eq!(ir.inputs[0].name, "state");
    assert_eq!(ir.inputs[0].shape, [2, 1]);
    assert_eq!(ir.nodes.len(), 1);
    let node = &ir.nodes[0];
    assert_eq!(node.node_id, "node.normalize");
    assert_eq!(node.primitive, "tensor.normalize");
    assert!(matches!(node.inputs[..], [ValueReference::Input("state")]));
    assert_eq!(node.output.name, "normalized");
    assert_eq!(node.output.shape, [2, 1]);
    assert_eq!(node.provenance, ["capability.contract.json"]);
    assert_eq!(ir.outputs.len(), 1);
    assert_eq!(ir.outputs[0].port.name, "result");
    assert_eq!(ir.outputs[0].port.shape, [2, 1]);
    assert!(matches!(
        ir.outputs[0].value,
        ValueReference::NodeOutput("node.normalize")
    ));
}

#[test]
fn readings_are_computed_from_the_compilation() {
    let mut compiled = compilation();
    let operands = shadow_operands(&compiled);
    assert_eq!(number(operands.functional_error), 0.0625);
    assert_eq!(number(operands.protection_damage), 0.25);
    assert_eq!(number(operands.accepted_cost), 1.0);
    assert_eq!(number(operands.maximum_cost), 4.0);
    assert_eq!(universality_operands(&compiled), operands);
    for small in [0.0, -3.0, 1e-16, f64::NAN] {
        compiled.trust_region.max_quadratic_cost = scalar(small);
        let operands = universality_operands(&compiled);
        assert_eq!(number(operands.maximum_cost), 1e-15);
        assert_eq!(number(operands.accepted_cost), 1.0);
        assert_eq!(
            shadow_operands(&compiled).maximum_cost,
            compiled.trust_region.max_quadratic_cost
        );
    }
}

#[test]
fn candidate_digests_are_read_in_order() {
    let main = parse_json(b"{\"manifest_sha256\":\"m\",\"target_delta_sha256\":\"d\"}").unwrap();
    let alternative = parse_json(b"{\"manifest_sha256\":\"a\"}").unwrap();
    let mut progress = DigestProgress {
        alternative: None,
        target_delta: None,
        candidate: None,
    };
    match candidate_digests(&main, &alternative, &progress) {
        DigestStep::ReadAlternative(json) => assert_eq!(json.as_text(), Some("a")),
        other => panic!("{other:?}"),
    }
    progress.alternative = Some(Ok(digest("a")));
    match candidate_digests(&main, &alternative, &progress) {
        DigestStep::ReadTargetDelta(json) => assert_eq!(json.as_text(), Some("d")),
        other => panic!("{other:?}"),
    }
    match candidate_digests(&Json::Null, &alternative, &progress) {
        DigestStep::Failed(error) => {
            assert_eq!(message(error), "missing digest field: target_delta_sha256")
        }
        other => panic!("{other:?}"),
    }
    progress.target_delta = Some(Ok(digest("d")));
    match candidate_digests(&main, &alternative, &progress) {
        DigestStep::ReadCandidate(json) => assert_eq!(json.as_text(), Some("m")),
        other => panic!("{other:?}"),
    }
    progress.candidate = Some(Ok(digest("m")));
    match candidate_digests(&main, &alternative, &progress) {
        DigestStep::Done(digests) => {
            assert_eq!(digests.alternative_candidate_sha256.as_str(), "a");
            assert_eq!(digests.target_delta_sha256.as_str(), "d");
            assert_eq!(digests.candidate_sha256.as_str(), "m");
        }
        other => panic!("{other:?}"),
    }
    progress.target_delta = Some(Err(PrepareError::message("no digest")));
    match candidate_digests(&main, &alternative, &progress) {
        DigestStep::Failed(error) => assert_eq!(message(error), "no digest"),
        other => panic!("{other:?}"),
    }
    match candidate_digests(&main, &Json::Null, &progress) {
        DigestStep::Failed(error) => {
            assert_eq!(message(error), "missing digest field: manifest_sha256")
        }
        other => panic!("{other:?}"),
    }
}

fn artifacts() -> InspectedReceiverArtifacts {
    InspectedReceiverArtifacts {
        schema: "cerebro.tidex.inspected_receiver_artifacts/v1".to_string(),
        profile: profile(5),
        layout: ReceiverMaterializationLayout {
            geometry: ParameterLayoutArtifact {
                total_parameter_count: 5,
                blocks: Vec::new(),
            },
            manifest_sha256: digest("layout"),
        },
        snapshot: ReceiverSnapshotBinding {
            model_snapshot_sha256: digest("model"),
            manifest_sha256: digest("snapshot"),
        },
        architecture_fingerprint: ArchitectureFamilyFingerprint {
            receiver_architecture: ReceiverArchitecture::Transformer,
            model_family: "bert".to_string(),
        },
        checkpoint_file_sha256: Vec::new(),
        manifest_sha256: digest("artifacts"),
    }
}

fn member<'a>(json: &'a Json, name: &str) -> &'a Json {
    json.get(name).unwrap_or_else(|| panic!("{name}"))
}

fn member_text<'a>(json: &'a Json, name: &str) -> &'a str {
    member(json, name).as_text().unwrap()
}

fn member_number(json: &Json, name: &str) -> f64 {
    number(member(json, name).as_double().unwrap())
}

/// The outside document of a library document.
fn value(json: &Json) -> serde_json::Value {
    match json {
        Json::Null => serde_json::Value::Null,
        Json::Bool(flag) => serde_json::Value::from(*flag),
        Json::Number { unsigned, double } => match (unsigned, double) {
            (Some(count), _) => serde_json::Value::from(*count),
            (None, Some(double)) => serde_json::Value::from(number(*double)),
            (None, None) => serde_json::Value::Null,
        },
        Json::Text(text) => serde_json::Value::from(text.as_str()),
        Json::Array(items) => items.iter().map(value).collect(),
        Json::Object(members) => members
            .iter()
            .map(|(name, member)| (name.clone(), value(member)))
            .collect(),
    }
}

fn candidate_of(primary: Json) -> Json {
    candidate_payload(
        primary,
        &CandidateDigests {
            alternative_candidate_sha256: digest("a"),
            target_delta_sha256: digest("d"),
            candidate_sha256: digest("m"),
        },
        MaterializationStrategy::DenseDelta,
    )
}

#[test]
fn payloads_say_what_was_evaluated() {
    let receiver = receiver_payload(&artifacts());
    assert_eq!(
        member_text(&receiver, "schema"),
        "cerebro.tidex.real_receiver_payload/v1"
    );
    assert_eq!(
        member_text(&receiver, "receiver_snapshot_sha256"),
        "snapshot"
    );
    assert_eq!(member_text(&receiver, "model_snapshot_sha256"), "model");
    assert_eq!(member_text(&receiver, "receiver_layout_sha256"), "layout");
    assert_eq!(
        member(&receiver, "parameter_dimension").as_unsigned(),
        Some(5)
    );
    assert_eq!(
        value(&receiver).to_string(),
        "{\"model_snapshot_sha256\":\"model\",\"parameter_dimension\":5,\
         \"receiver_layout_sha256\":\"layout\",\"receiver_snapshot_sha256\":\"snapshot\",\
         \"schema\":\"cerebro.tidex.real_receiver_payload/v1\"}"
    );
    let candidate = candidate_of(Json::Bool(true));
    assert_eq!(
        member_text(&candidate, "schema"),
        "cerebro.tidex.real_materialization_payload/v1"
    );
    assert!(matches!(
        member(&candidate, "primary_candidate"),
        Json::Bool(true)
    ));
    assert_eq!(member_text(&candidate, "alternative_candidate_sha256"), "a");
    assert_eq!(member_text(&candidate, "target_delta_sha256"), "d");
    assert_eq!(
        value(member(&candidate, "completed_controls")).to_string(),
        "[\"unmodified_receiver\",\"wrong_capability_ir\",\"random_delta\",\
         \"mean_capability\",\"nearest_capability\",\"alternative_backend\",\
         \"non_target_preservation\",\"dense_delta\"]"
    );
}

#[test]
fn evaluation_payloads_repeat_the_numbers_of_the_compilation() {
    let mut compiled = compilation();
    compiled.correct_cosine = scalar(f64::INFINITY);
    let input = shadow_input(
        &artifacts(),
        &compiled,
        readings(),
        digest("m"),
        MaterializationStrategy::DenseDelta,
        1200,
        100,
        28,
    );
    let evaluation = evaluation_payload(&input, &compiled);
    assert_eq!(
        member_text(&evaluation, "schema"),
        "cerebro.tidex.real_shadow_evaluation_payload/v1"
    );
    assert_eq!(member_number(&evaluation, "functional_score"), 0.9375);
    assert_eq!(member_number(&evaluation, "functional_ci_lower"), 0.75);
    assert_eq!(member_number(&evaluation, "preservation_score"), 0.75);
    assert_eq!(member_number(&evaluation, "identity_margin"), 1.0);
    assert_eq!(member_number(&evaluation, "numerical_stability"), 0.5);
    assert_eq!(member_number(&evaluation, "normalized_risk"), 0.25);
    assert_eq!(
        member(&evaluation, "latency_micros").as_unsigned(),
        Some(1200)
    );
    assert_eq!(
        member(&evaluation, "resident_bytes").as_unsigned(),
        Some(128)
    );
    let compiler = member(&evaluation, "compiler_metrics");
    assert_eq!(member_number(compiler, "functional_relative_error"), 0.0625);
    assert!(matches!(member(compiler, "correct_cosine"), Json::Null));
    assert_eq!(member_number(compiler, "maximum_wrong_cosine"), -0.5);
    assert_eq!(member_number(compiler, "decoder_loo_r2"), 0.875);
    assert_eq!(member_number(compiler, "encoder_loo_r2"), 0.75);
    assert_eq!(member_number(compiler, "trust_region_scale"), 0.5);
    assert_eq!(member_number(compiler, "accepted_quadratic_cost"), 1.0);
}

#[test]
fn runner_reads_back_what_the_laboratory_reports() {
    reads_back(&compilation());
    let mut unmeasured = compilation();
    unmeasured.correct_cosine = scalar(f64::NAN);
    reads_back(&unmeasured);
}

fn reads_back(compiled: &ReceiverCompilation) {
    let receiver = receiver_payload(&artifacts());
    let candidate = candidate_of(Json::Null);
    let receiver_bytes = value(&receiver).to_string().into_bytes();
    let candidate_bytes = value(&candidate).to_string().into_bytes();
    let input = shadow_input(
        &artifacts(),
        compiled,
        readings(),
        digest("m"),
        MaterializationStrategy::DenseDelta,
        1200,
        receiver_bytes.len(),
        candidate_bytes.len(),
    );
    let evaluation = evaluation_payload(&input, compiled);
    let bundle = ShadowEvaluationBundle {
        schema: "cerebro.tidex.shadow_evaluation_bundle/v1".to_string(),
        receiver_snapshot_sha256: input.receiver_snapshot_sha256.clone(),
        candidate_sha256: input.candidate_sha256.clone(),
        strategy: input.strategy,
        receiver_payload: receiver_bytes,
        candidate_payload: candidate_bytes,
        evaluation_payload: value(&evaluation).to_string().into_bytes(),
        receiver_payload_sha256: digest("r"),
        candidate_payload_sha256: digest("c"),
        evaluation_payload_sha256: digest("e"),
        optimizer_steps: 0,
    };
    let from_trees = document_metrics(
        &bundle,
        Some(&evaluation),
        Some(&candidate),
        Some(&receiver),
    )
    .unwrap();
    for output in [from_trees, universal_shadow_runner::metrics(&bundle).unwrap()] {
        assert_eq!(output.receiver_snapshot_sha256.as_str(), "snapshot");
        assert_eq!(output.functional_score, input.metrics.functional_score);
        assert_eq!(
            output.functional_ci_lower,
            input.metrics.functional_ci_lower
        );
        assert_eq!(output.preservation_score, input.metrics.preservation_score);
        assert_eq!(output.identity_margin, input.metrics.identity_margin);
        assert_eq!(
            output.numerical_stability,
            input.metrics.numerical_stability
        );
        assert_eq!(output.normalized_risk, input.metrics.normalized_risk);
        assert_eq!(output.latency_micros, 1200);
        assert_eq!(output.resident_bytes, input.resident_bytes as u64);
        assert_eq!(
            output.completed_controls.to_vec(),
            input.completed_controls.to_vec()
        );
    }
}

#[test]
fn shadow_inputs_are_bounded() {
    let input = shadow_input(
        &artifacts(),
        &compilation(),
        readings(),
        digest("m"),
        MaterializationStrategy::DenseDelta,
        1200,
        100,
        28,
    );
    assert_eq!(input.schema, "cerebro.tidex.shadow_evaluation_input/v1");
    assert_eq!(input.receiver_snapshot_sha256.as_str(), "snapshot");
    assert_eq!(input.candidate_sha256.as_str(), "m");
    assert_eq!(input.latency_micros, 1200);
    assert_eq!(input.resident_bytes, 128);
    assert_eq!(number(input.metrics.functional_ci_lower), 0.75);
    assert!(input
        .completed_controls
        .contains(&ComparativeControl::DenseDelta));
    assert!(input.arguments.is_empty());
    assert_eq!(input.limits.address_space_bytes, 1024 * 1024 * 1024);
    assert_eq!(input.limits.cpu_seconds, 30);
    assert_eq!(input.limits.wall_millis, 60_000);
    assert_eq!(input.limits.process_count, 16);
    assert_eq!(input.limits.output_bytes, 4 * 1024 * 1024);
    assert_eq!(input.limits.temporary_storage_bytes, 64 * 1024 * 1024);
    assert_eq!(input.limits.staging_bytes, 128 * 1024 * 1024);
    assert!(!input.requirements.require_seccomp_filter);
    assert_eq!(measured_micros(0), 1);
    assert_eq!(measured_micros(77), 77);
    assert_eq!(measured_micros(u128::from(u64::MAX) + 3), 2);
}

fn outcomes(count: usize) -> Outcomes {
    Outcomes {
        items: (0..count).map(|_| Ok(())).collect(),
    }
}

fn failing(count: usize, text: &str) -> Outcomes {
    let mut list = outcomes(count);
    list.items.push(Err(PrepareError::message(text)));
    list
}

#[test]
fn runs_take_their_actions_in_order() {
    let actions = Course::Run.list();
    assert_eq!(actions.len(), 23);
    for (index, action) in actions.iter().enumerate() {
        assert!(matches!(run(&outcomes(index)), Next::Perform(next) if next == *action));
    }
    assert_eq!(actions[0], Action::CreateDirectory);
    assert_eq!(actions[12], Action::ChooseAlternative);
    assert!(matches!(run(&outcomes(23)), Next::Done));
    let mut list = failing(3, "disk full");
    list.items.push(Err(PrepareError::message("later")));
    match run(&list) {
        Next::Failed(error) => assert_eq!(message(error), "disk full"),
        other => panic!("{other:?}"),
    }
    assert_eq!(
        Document::ShadowReceipt.file_name(),
        "06-shadow-evaluation-receipt.json"
    );
    assert!(matches!(
        next(Course::Closing, &outcomes(0)),
        Next::Perform(Action::SelectBackend)
    ));
}

#[test]
fn suites_go_through_every_case() {
    let extent = SuiteExtent {
        receivers: 2,
        capabilities: 2,
        seeds: 3,
    };
    let mut progress = SuiteProgress {
        receivers: Vec::new(),
        closing: outcomes(0),
    };
    let mut visited = Vec::new();
    let evidence = loop {
        match run_suite(extent, &progress) {
            SuiteStep::Failed(error) => panic!("{error:?}"),
            SuiteStep::Done(evidence) => break evidence,
            SuiteStep::Open { receiver, .. } => {
                if receiver == progress.receivers.len() {
                    progress.receivers.push(ReceiverProgress {
                        opening: outcomes(0),
                        cases: Vec::new(),
                    });
                }
                progress.receivers[receiver].opening.items.push(Ok(()));
            }
            SuiteStep::Case {
                receiver,
                capability,
                seed,
                action,
            } => {
                let cases = &mut progress.receivers[receiver].cases;
                let at = capability * 3 + seed;
                if at == cases.len() {
                    cases.push(outcomes(0));
                }
                if action == Action::RecordTrial {
                    visited.push((receiver, capability, seed));
                }
                cases[at].items.push(Ok(()));
            }
            SuiteStep::Close { evidence, .. } => {
                assert_eq!(evidence.tally().cases, 12);
                progress.closing.items.push(Ok(()));
            }
        }
    };
    assert_eq!(visited.len(), 12);
    assert_eq!(visited[4], (0, 1, 1));
    let listed: Vec<(usize, usize, usize)> = evidence
        .cases
        .iter()
        .map(|case| (case.receiver, case.capability, case.seed))
        .collect();
    assert_eq!(listed, visited);
    assert_eq!(evidence.receivers, [0, 1]);
    assert_eq!(
        evidence.tally(),
        SuiteTally {
            receivers: 2,
            cases: 12,
            failures: 0
        }
    );
}

#[test]
fn failed_receivers_keep_what_they_completed() {
    let extent = SuiteExtent {
        receivers: 2,
        capabilities: 1,
        seeds: 2,
    };
    let case_length = Course::Case.list().len();
    let mut progress = SuiteProgress {
        receivers: vec![
            ReceiverProgress {
                opening: failing(1, "no tensor"),
                cases: Vec::new(),
            },
            ReceiverProgress {
                opening: outcomes(Course::Receiver.list().len()),
                cases: vec![outcomes(case_length), failing(4, "no discovery")],
            },
        ],
        closing: outcomes(Course::Closing.list().len()),
    };
    progress.closing.items.pop();
    match run_suite(extent, &progress) {
        SuiteStep::Close {
            action: Action::Announce,
            evidence,
        } => {
            assert_eq!(
                evidence.tally(),
                SuiteTally {
                    receivers: 1,
                    cases: 1,
                    failures: 2
                }
            );
            assert_eq!(evidence.receivers, [1]);
            assert_eq!(
                evidence.cases,
                [CaseId {
                    receiver: 1,
                    capability: 0,
                    seed: 0
                }]
            );
            let failures: Vec<(usize, String)> = evidence
                .failures
                .into_iter()
                .map(|failure| (failure.receiver, message(failure.error)))
                .collect();
            assert_eq!(
                failures,
                [
                    (0, "no tensor".to_string()),
                    (1, "no discovery".to_string())
                ]
            );
        }
        other => panic!("{other:?}"),
    }
    progress.receivers[1].cases[0] = failing(0, "no directory");
    match run_suite(extent, &progress) {
        SuiteStep::Failed(error) => assert_eq!(message(error), "suite_produced_no_evidence"),
        other => panic!("{other:?}"),
    }
}

fn plan() -> MaterializationPlan {
    MaterializationPlan {
        schema: "cerebro.tidex.materialization_plan/v1".to_string(),
        receiver_profile_sha256: digest("profile"),
        lifecycle: PlanLifecycle::ShadowOnly,
        strategy: MaterializationStrategy::ReceiverCoordinates,
        details: String::new(),
    }
}

fn evidence() -> ShadowEvidence {
    ShadowEvidence {
        profile: Ok(()),
        profile_sha256: Ok(digest("profile")),
        coordinate_sha256: Ok(digest("coordinates")),
        plan_sha256: Ok(digest("plan")),
    }
}

#[test]
fn coordinates_become_inert_candidates() {
    let candidate = materialize_receiver_coordinates_shadow(
        &profile(2),
        &plan(),
        scalars(&[1.0, -2.0]),
        evidence(),
    )
    .unwrap();
    assert_eq!(
        candidate.schema,
        "cerebro.tidex.shadow_receiver_coordinate_candidate/v1"
    );
    assert_eq!(candidate.plan_sha256.as_str(), "plan");
    assert_eq!(candidate.coordinate_sha256.as_str(), "coordinates");
    assert_eq!(candidate.receiver_parameter_dimension, 2);
    assert_eq!(numbers(&candidate.coordinates), [1.0, -2.0]);
}

#[test]
fn coordinates_need_a_shadow_plan_of_their_profile() {
    let refused = |change: &dyn Fn(&mut MaterializationPlan, &mut Vec<Scalar>, &mut ShadowEvidence)| {
        let (mut plan, mut row, mut evidence) = (plan(), scalars(&[1.0, -2.0]), evidence());
        change(&mut plan, &mut row, &mut evidence);
        code(
            &materialize_receiver_coordinates_shadow(&profile(2), &plan, row, evidence)
                .unwrap_err(),
        )
    };
    let invalid = "shadow_receiver_coordinate_candidate_invalid";
    assert_eq!(refused(&|p, _, _| p.schema = "x".to_string()), invalid);
    assert_eq!(
        refused(&|p, _, _| p.receiver_profile_sha256 = digest("other")),
        invalid
    );
    assert_eq!(
        refused(&|p, _, _| p.lifecycle = PlanLifecycle::Other),
        invalid
    );
    assert_eq!(
        refused(&|p, _, _| p.strategy = MaterializationStrategy::DenseDelta),
        invalid
    );
    assert_eq!(refused(&|_, row, _| row.push(scalar(0.0))), invalid);
    assert_eq!(refused(&|_, row, _| row[0] = scalar(f64::NAN)), invalid);
    assert_eq!(
        refused(&|_, _, e| e.profile = Err(BrainError::invalid("profile"))),
        "profile"
    );
    assert_eq!(
        refused(&|_, _, e| e.profile_sha256 = Err(BrainError::invalid("digest"))),
        "digest"
    );
    assert_eq!(
        refused(&|_, _, e| {
            e.coordinate_sha256 = Err(BrainError::invalid("coordinates"));
            e.plan_sha256 = Err(BrainError::invalid("plan"));
        }),
        "coordinates"
    );
    assert_eq!(
        refused(&|_, _, e| e.plan_sha256 = Err(BrainError::invalid("plan"))),
        "plan"
    );
}

#[test]
fn commands_are_recognised() {
    let read = |args: &[&str]| parse_command(&texts(args));
    assert!(matches!(
        read(&["workspace", "create", "n", "--target", "/t"]),
        Ok(Command::WorkspaceCreate { name, target }) if name == "n" && target == "/t"
    ));
    assert!(matches!(
        read(&["workspace", "use", "n"]),
        Ok(Command::WorkspaceUse { name }) if name == "n"
    ));
    assert!(matches!(
        read(&["workspace", "show"]),
        Ok(Command::WorkspaceShow)
    ));
    assert!(matches!(
        read(&["model", "add", "n", "--provider", "p", "--url", "u", "--model", "m"]),
        Ok(Command::ModelAdd { name, provider, endpoint, model })
            if name == "n" && provider == "p" && endpoint == "u" && model == "m"
    ));
    assert!(matches!(
        read(&["model", "use", "n"]),
        Ok(Command::ModelUse { name }) if name == "n"
    ));
    assert!(matches!(
        read(&["acquire"]),
        Ok(Command::Acquire { selected: None })
    ));
    assert!(matches!(
        read(&["acquire", "--path", "src"]),
        Ok(Command::Acquire { selected: Some(path) }) if path == "src"
    ));
    assert!(matches!(
        read(&["benchmark", "portability", "in.json"]),
        Ok(Command::BenchmarkPortability { path }) if path == "in.json"
    ));
    assert!(matches!(
        read(&["compile", "universal", "in.json"]),
        Ok(Command::CompileUniversal { path }) if path == "in.json"
    ));
    assert!(matches!(read(&["capabilities"]), Ok(Command::Capabilities)));
    assert!(matches!(
        read(&["receiver", "inspect-safetensors", "/m", "r.json"]),
        Ok(Command::ReceiverInspect { root, path }) if root == "/m" && path == "r.json"
    ));
    assert!(matches!(
        read(&["discover", "capabilities", "d.json"]),
        Ok(Command::DiscoverCapabilities { path }) if path == "d.json"
    ));
    assert!(matches!(
        read(&["compile", "universal-plan", "p.json"]),
        Ok(Command::CompileUniversalPlan { path }) if path == "p.json"
    ));
    for (word, wanted) in [
        ("dense", CandidateBackend::Dense),
        ("low-rank", CandidateBackend::LowRank),
        ("sparse", CandidateBackend::Sparse),
        ("steering", CandidateBackend::Steering),
    ] {
        assert_eq!(parse_candidate_backend(word), Some(wanted));
        assert!(matches!(
            read(&["materialize", word, "a.json", "b.json"]),
            Ok(Command::Materialize { backend, inputs })
                if backend == wanted && inputs == ["a.json", "b.json"]
        ));
    }
    assert!(read(&["materialize", "dense"]).is_err());
    assert!(read(&["materialize", "other", "a.json"]).is_err());
    assert!(matches!(
        read(&["shadow", "run", "/runner", "s.json"]),
        Ok(Command::ShadowRun { runner, path }) if runner == "/runner" && path == "s.json"
    ));
    assert!(matches!(
        read(&["select", "backend", "s.json"]),
        Ok(Command::SelectBackend { path }) if path == "s.json"
    ));
    assert!(matches!(
        read(&["measure", "universality", "u.json"]),
        Ok(Command::MeasureUniversality { path }) if path == "u.json"
    ));
    assert!(matches!(
        read(&["gate", "promotion", "g.json"]),
        Ok(Command::GatePromotion { path }) if path == "g.json"
    ));
    for args in [&[][..], &["workspace"], &["model", "use"], &["acquire", "x"]] {
        assert_eq!(message(read(args).unwrap_err()), usage());
    }
    assert!(usage().starts_with("usage:\n  tidex workspace create"));
}

#[test]
fn command_inputs_are_bounded() {
    assert_eq!(
        parse_provider("openai-compatible").unwrap(),
        ModelProvider::OpenAiCompatible
    );
    assert_eq!(
        message(parse_provider("other").unwrap_err()),
        "model_provider_invalid"
    );
    let limit = MAX_BENCHMARK_INPUT_BYTES as usize;
    assert!(check_input_length(&vec![0; limit]).is_ok());
    assert_eq!(
        message(check_input_length(&vec![0; limit + 1]).unwrap_err()),
        "tidex_benchmark_input_too_large"
    );
    let plan = acquire_workspace("main", Some("src".to_string()));
    assert_eq!(plan.acquisition_id, "workspace-main-capture");
    assert_eq!(plan.declared_path.as_deref(), Some("src"));
    assert_eq!(plan.residency, RequestedResidency::BestVerified);
    assert_eq!(
        plan.noise_policy,
        NoisePolicy::ConservativeGeneratedArtifacts
    );
    assert_eq!(plan.max_files, 100_000);
    assert_eq!(plan.max_total_bytes, 8 * 1024 * 1024 * 1024);
}

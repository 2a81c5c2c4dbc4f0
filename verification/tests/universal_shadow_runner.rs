use cerebro_tidex::controls::{parse_control_name, ComparativeControl, ControlSet};
use cerebro_tidex::error::BrainError;
use cerebro_tidex::identity::Sha256Digest;
use cerebro_tidex::json::{parse_json, Json};
use cerebro_tidex::paths::{FilePath, PathPart};
use cerebro_tidex::receiver_profile::MaterializationStrategy;
use cerebro_tidex::scalar::Scalar;
use cerebro_tidex::universal_shadow_runner::{
    check_input_schema, controls_from_payload, document_metrics, metrics, parse_payload_signal,
    parse_probability, parse_u64_signal, parse_u64_value, run_universal_shadow_runner, InputFile,
    RunnerProgress, RunnerStep, ShadowEvaluationBundle, ShadowRuntimeOutput,
};
use std::collections::BTreeSet;

fn digest(text: &str) -> Sha256Digest {
    Sha256Digest { text: text.to_string() }
}

fn number(value: Scalar) -> f64 {
    f64::from_bits(value.bits)
}

fn evaluation_payload() -> Vec<u8> {
    r#"{"functional_score":0.93,"functional_ci_lower":0.90,"preservation_score":0.99,"identity_margin":0.84,"numerical_stability":0.998,"normalized_risk":0.01,"latency_micros":1200,"resident_bytes":2048,"completed_controls":["unmodified_receiver","dense_delta","wrong_capability_ir","random_delta","mean_capability","nearest_capability","alternative_backend","non_target_preservation"]}"#
        .as_bytes()
        .to_vec()
}

fn fixture() -> ShadowEvaluationBundle {
    ShadowEvaluationBundle {
        schema: "cerebro.tidex.shadow_evaluation_bundle/v1".to_string(),
        receiver_snapshot_sha256: digest("81bae876b70513c9decc608eed549977a81afa1c2b6b4080aec256339e792e0f"),
        candidate_sha256: digest("dda18a0e21ae47c53b4309434cbc02ae8bf764fa83a6defbb719431242722aa7"),
        strategy: MaterializationStrategy::DenseDelta,
        receiver_payload: b"receiver-payload".to_vec(),
        candidate_payload: b"candidate-payload".to_vec(),
        evaluation_payload: evaluation_payload(),
        receiver_payload_sha256: digest("794bce4a9450027aa03340182d34e295c24b72975358f724fc8519961050b1f1"),
        candidate_payload_sha256: digest("cb7fe3d5c5745013d739c466d8a11bc64dc2ca976630346f15c8079663695916"),
        evaluation_payload_sha256: digest("ce630a9c34e1bf7d34ec0046689b31f92bfd64ec73fb4dcb9d4eec87bce8bcb8"),
        optimizer_steps: 0,
    }
}

fn code(error: &BrainError) -> &str {
    error.code().unwrap_or("")
}

#[test]
fn complete_controls_cover_required_set() {
    let bundle = fixture();
    let output = metrics(&bundle).unwrap();
    assert_eq!(output.schema, "cerebro.tidex.shadow_runtime_output/v1");
    assert!(number(output.functional_ci_lower) <= number(output.functional_score));
    assert!(number(output.functional_ci_lower) >= 0.0);
    assert!(number(output.numerical_stability) <= 1.0);
    assert_eq!(output.optimizer_steps, 0);
    assert!(output
        .completed_controls
        .contains(&ComparativeControl::DenseDelta));
}

#[test]
fn explicit_metrics_are_respected() {
    let bundle = fixture();
    let output = metrics(&bundle).unwrap();
    assert!((number(output.functional_score) - 0.93).abs() < 1e-12);
    assert!((number(output.functional_ci_lower) - 0.90).abs() < 1e-12);
    assert_eq!(output.latency_micros, 1200);
    assert_eq!(output.resident_bytes, 2048);
    assert!(output
        .completed_controls
        .contains(&ComparativeControl::DenseDelta));
    assert!(number(output.identity_margin) >= 0.8);
}

#[test]
fn metrics_are_bounded() {
    let mut bundle = fixture();
    bundle.strategy = MaterializationStrategy::SparseDelta;
    let output = metrics(&bundle).unwrap();
    let checks = [
        number(output.functional_score),
        number(output.functional_ci_lower),
        number(output.preservation_score),
        number(output.identity_margin),
        number(output.numerical_stability),
        number(output.normalized_risk),
    ];
    for value in checks {
        assert!(value.is_finite());
        assert!((0.0..=1.0).contains(&value));
    }
    assert!(output
        .completed_controls
        .contains(&ComparativeControl::DenseDelta));
    assert!(!output
        .completed_controls
        .contains(&ComparativeControl::SparseDelta));
    let _ = BTreeSet::<ComparativeControl>::from_iter(output.completed_controls.to_vec());
}

#[test]
fn runner_does_not_invent_strategy_controls() {
    let mut bundle = fixture();
    bundle.strategy = MaterializationStrategy::ActivationSteering;
    bundle.evaluation_payload = r#"{"functional_score":0.91,"functional_ci_lower":0.89,"preservation_score":0.98,"identity_margin":0.7,"numerical_stability":0.997,"normalized_risk":0.02,"latency_micros":1200,"resident_bytes":2048,"completed_controls":["unmodified_receiver"]}"#
        .as_bytes()
        .to_vec();
    bundle.evaluation_payload_sha256 =
        digest("346604c5350511a7b316da3ba979b86fe9df1a159e29b6f132dc8d4a11344889");
    let output = metrics(&bundle).unwrap();
    assert_eq!(
        BTreeSet::from_iter(output.completed_controls.to_vec()),
        BTreeSet::from([ComparativeControl::UnmodifiedReceiver])
    );
}

#[test]
fn missing_metrics_must_fail() {
    let mut bundle = fixture();
    bundle.evaluation_payload = b"{\"invalid\":1}".to_vec();
    assert!(metrics(&bundle).is_err());
}

#[test]
fn missing_controls_must_fail() {
    let mut bundle = fixture();
    bundle.evaluation_payload = r#"{"functional_score":0.93,"functional_ci_lower":0.90,"preservation_score":0.99,"identity_margin":0.84,"numerical_stability":0.998,"normalized_risk":0.01,"latency_micros":1200,"resident_bytes":2048}"#
        .as_bytes()
        .to_vec();
    bundle.evaluation_payload_sha256 =
        digest("9354975e570d2adf828af5da5e5e6e51cdf34d60069bf32614a4d725b8ba1720");
    assert!(metrics(&bundle).is_err());
}

#[test]
fn zero_latency_or_memory_must_fail() {
    let mut bundle = fixture();
    bundle.evaluation_payload = r#"{"functional_score":0.93,"functional_ci_lower":0.90,"preservation_score":0.99,"identity_margin":0.84,"numerical_stability":0.998,"normalized_risk":0.01,"latency_micros":0,"resident_bytes":2048,"completed_controls":["unmodified_receiver"]}"#
        .as_bytes()
        .to_vec();
    bundle.evaluation_payload_sha256 =
        digest("c9814d01aa76891941cf492bc821d7d8bb2a83a37ee76a27fa32cade1395cd18");
    assert!(metrics(&bundle).is_err());

    bundle.evaluation_payload = r#"{"functional_score":0.93,"functional_ci_lower":0.90,"preservation_score":0.99,"identity_margin":0.84,"numerical_stability":0.998,"normalized_risk":0.01,"latency_micros":1200,"resident_bytes":0,"completed_controls":["unmodified_receiver"]}"#
        .as_bytes()
        .to_vec();
    bundle.evaluation_payload_sha256 =
        digest("d358d8f754c6ee53960481ce6a168b08828082d0c2492d97614b356b2d75b232");
    assert!(metrics(&bundle).is_err());
}

#[test]
fn receiver_and_candidate_payloads_use_controls_if_json() {
    let mut bundle = fixture();
    bundle.receiver_payload = b"{\"completed_controls\":[\"mean_capability\"]}".to_vec();
    bundle.candidate_payload = b"not-json".to_vec();
    let output = metrics(&bundle).unwrap();
    assert!(output
        .completed_controls
        .contains(&ComparativeControl::MeanCapability));
}

fn document(text: &str) -> Json {
    parse_json(text.as_bytes()).unwrap()
}

fn error_of(payload: &str) -> String {
    let mut bundle = fixture();
    bundle.evaluation_payload = payload.as_bytes().to_vec();
    let error = metrics(&bundle).unwrap_err();
    code(&error).to_string()
}

#[test]
fn every_metric_error_names_its_field() {
    assert_eq!(error_of("nonsense"), "shadow_runner_payload_invalid_json");
    assert_eq!(error_of("[1]"), "shadow_runner_metric_payload_not_object");
    assert_eq!(
        error_of("{\"metrics\":3}"),
        "shadow_runner_metric_payload_not_object"
    );
    assert_eq!(
        error_of("{}"),
        "shadow_runner_metric_missing:functional_score"
    );
    assert_eq!(
        error_of("{\"functional_score\":\"high\"}"),
        "shadow_runner_metric_invalid:functional_score"
    );
    assert_eq!(
        error_of("{\"functional_score\":1.5}"),
        "shadow_runner_metric_out_of_range:functional_score"
    );
    assert_eq!(
        error_of("{\"functional_score\":0.5,\"functional_ci_lower\":0.6}"),
        "shadow_runner_metric_invalid:functional_ci_lower"
    );
}

#[test]
fn every_count_error_names_its_field() {
    let value = document("{\"a\":0,\"b\":-1,\"c\":2.0,\"d\":2.5,\"e\":18446744073709551615}");
    assert_eq!(
        code(&parse_u64_signal(value.get("missing"), "x").unwrap_err()),
        "shadow_runner_u64_missing:x"
    );
    assert_eq!(
        code(&parse_u64_signal(value.get("b"), "x").unwrap_err()),
        "shadow_runner_u64_invalid:x"
    );
    assert_eq!(
        code(&parse_u64_signal(value.get("d"), "x").unwrap_err()),
        "shadow_runner_u64_invalid:x"
    );
    assert_eq!(
        code(&parse_u64_signal(value.get("a"), "x").unwrap_err()),
        "shadow_runner_u64_out_of_range:x"
    );
    assert_eq!(parse_u64_signal(value.get("c"), "x").unwrap(), 2);
    assert_eq!(parse_u64_value(value.get("e").unwrap()), Some(u64::MAX));
    assert_eq!(
        parse_u64_value(&document("18446744073709551616.0")),
        Some(u64::MAX)
    );
    assert_eq!(parse_u64_value(&document("1e30")), None);
    assert_eq!(parse_u64_value(&document("-0.0")), Some(0));
}

#[test]
fn probability_keeps_the_exact_number() {
    let value = document("{\"p\":0.25,\"q\":1,\"r\":-0.0}");
    assert_eq!(
        parse_probability(value.get("p"), "p").unwrap().bits,
        0.25_f64.to_bits()
    );
    assert_eq!(number(parse_probability(value.get("q"), "q").unwrap()), 1.0);
    assert_eq!(number(parse_probability(value.get("r"), "r").unwrap()), 0.0);
}

fn control_error(text: &str) -> String {
    code(&controls_from_payload(&document(text), false).unwrap_err()).to_string()
}

#[test]
fn every_control_list_error_is_told_apart() {
    assert_eq!(
        control_error("{\"controls\":3}"),
        "shadow_runner_controls_invalid"
    );
    assert_eq!(
        control_error("{\"controls\":[]}"),
        "shadow_runner_controls_cardinality_invalid"
    );
    let many = format!(
        "{{\"controls\":[{}]}}",
        vec!["\"dense_delta\""; 65].join(",")
    );
    assert_eq!(
        control_error(&many),
        "shadow_runner_controls_cardinality_invalid"
    );
    assert_eq!(
        control_error("{\"controls\":[1]}"),
        "shadow_runner_control_invalid"
    );
    assert_eq!(
        control_error("{\"controls\":[\"unheard_of\"]}"),
        "shadow_runner_control_unknown"
    );
    assert_eq!(
        control_error("{\"controls\":[\"dense_delta\",\"dense_delta\"]}"),
        "shadow_runner_control_duplicate"
    );
    assert_eq!(
        code(&controls_from_payload(&document("{}"), true).unwrap_err()),
        "shadow_runner_controls_missing"
    );
}

#[test]
fn controls_of_metrics_document_and_evidence_are_joined() {
    let value = document(
        "{\"metrics\":{\"controls\":[\"random_delta\"]},\"completed_controls\":[\"dense_delta\"],\"evidence\":{\"comparative_controls\":[\"sparse_delta\",\"random_delta\"]}}",
    );
    let controls = controls_from_payload(&value, true).unwrap();
    assert_eq!(
        controls.to_vec(),
        vec![
            ComparativeControl::RandomDelta,
            ComparativeControl::DenseDelta,
            ComparativeControl::SparseDelta
        ]
    );
}

#[test]
fn control_names_read_back() {
    let names = [
        "unmodified_receiver",
        "wrong_capability_ir",
        "random_delta",
        "mean_capability",
        "nearest_capability",
        "alternative_backend",
        "non_target_preservation",
        "dense_delta",
        "conventional_low_rank",
        "sparse_delta",
        "activation_steering",
    ];
    for (rank, name) in names.iter().enumerate() {
        assert_eq!(
            parse_control_name(name).unwrap().position() as usize,
            rank
        );
    }
    assert_eq!(parse_control_name("dense"), None);
}

#[test]
fn control_sets_keep_their_order_and_members() {
    let set = ControlSet::new()
        .with(ComparativeControl::SparseDelta)
        .with(ComparativeControl::RandomDelta)
        .with(ComparativeControl::SparseDelta);
    assert_eq!(
        set.to_vec(),
        vec![
            ComparativeControl::RandomDelta,
            ComparativeControl::SparseDelta
        ]
    );
    assert!(!set.is_empty());
    assert!(ControlSet::new().is_empty());
    let joined = set.union(&ControlSet::new().with(ComparativeControl::DenseDelta));
    assert!(joined.contains(&ComparativeControl::DenseDelta));
    assert!(joined.contains(&ComparativeControl::RandomDelta));
    assert!(!joined.contains(&ComparativeControl::MeanCapability));
}

#[test]
fn metrics_may_stand_under_their_own_member() {
    let payload = "{\"metrics\":{\"functional_score\":0.5,\"functional_ci_lower\":0.5,\"preservation_score\":1,\"identity_margin\":0,\"numerical_stability\":1.0,\"normalized_risk\":0.0,\"latency\":7.0,\"resident_bytes_estimate\":9,\"controls\":[\"activation_steering\"]}}";
    let signals = parse_payload_signal(payload.as_bytes(), true).unwrap();
    assert_eq!(signals.latency_micros, Some(7));
    assert_eq!(signals.resident_bytes, Some(9));
    assert_eq!(
        signals.completed_controls.to_vec(),
        vec![ComparativeControl::ActivationSteering]
    );
}

#[test]
fn output_carries_the_digests_of_the_bundle() {
    let bundle = fixture();
    let output = metrics(&bundle).unwrap();
    assert_eq!(output.receiver_snapshot_sha256.as_str(), bundle.receiver_snapshot_sha256.as_str());
    assert_eq!(output.candidate_sha256.as_str(), bundle.candidate_sha256.as_str());
    assert_eq!(output.receiver_payload_sha256.as_str(), bundle.receiver_payload_sha256.as_str());
    assert_eq!(output.candidate_payload_sha256.as_str(), bundle.candidate_payload_sha256.as_str());
    assert_eq!(output.evaluation_payload_sha256.as_str(), bundle.evaluation_payload_sha256.as_str());
}

fn scores(output: &ShadowRuntimeOutput) -> Vec<u64> {
    vec![
        output.functional_score.bits,
        output.functional_ci_lower.bits,
        output.preservation_score.bits,
        output.identity_margin.bits,
        output.numerical_stability.bits,
        output.normalized_risk.bits,
        output.latency_micros,
        output.resident_bytes,
    ]
}

#[test]
fn strategy_and_opaque_payloads_change_nothing() {
    let bundle = fixture();
    let mut other = fixture();
    other.strategy = MaterializationStrategy::LowRank;
    other.receiver_payload = b"{}".to_vec();
    let first = metrics(&bundle).unwrap();
    let second = metrics(&other).unwrap();
    assert_eq!(scores(&first), scores(&second));
    assert_eq!(
        first.completed_controls.to_vec(),
        second.completed_controls.to_vec()
    );
}

#[test]
fn documents_and_payloads_give_the_same_output() {
    let bundle = fixture();
    let evaluation = parse_json(&bundle.evaluation_payload).unwrap();
    let output = document_metrics(&bundle, Some(&evaluation), None, None).unwrap();
    assert_eq!(scores(&output), scores(&metrics(&bundle).unwrap()));
    assert_eq!(
        code(&document_metrics(&bundle, None, None, None).unwrap_err()),
        "shadow_runner_payload_invalid_json"
    );
}

fn input_path() -> FilePath {
    FilePath {
        parts: vec![
            PathPart::Root,
            PathPart::Name(b"tidex".to_vec()),
            PathPart::Name(b"input".to_vec()),
        ],
    }
}

fn failed(step: RunnerStep) -> String {
    match step {
        RunnerStep::Failed(error) => code(&error).to_string(),
        other => panic!("{other:?}"),
    }
}

#[test]
fn runner_asks_for_one_thing_at_a_time() {
    let mut progress = RunnerProgress {
        input_path: None,
        file: None,
        bytes: None,
        bundle: None,
    };
    assert_eq!(
        failed(run_universal_shadow_runner(&progress)),
        "tidex_input_path_missing"
    );
    progress.input_path = Some(FilePath {
        parts: vec![PathPart::Root, PathPart::Name(b"tidex".to_vec())],
    });
    assert_eq!(
        failed(run_universal_shadow_runner(&progress)),
        "tidex_input_path_invalid"
    );
    progress.input_path = Some(input_path());
    assert!(matches!(
        run_universal_shadow_runner(&progress),
        RunnerStep::OpenInput
    ));
    progress.file = Some(Ok(InputFile {
        regular: false,
        length: 3,
    }));
    assert_eq!(
        failed(run_universal_shadow_runner(&progress)),
        "shadow_runner_input_file_invalid"
    );
    progress.file = Some(Ok(InputFile {
        regular: true,
        length: 268_435_457,
    }));
    assert_eq!(
        failed(run_universal_shadow_runner(&progress)),
        "shadow_runner_input_file_invalid"
    );
    progress.file = Some(Ok(InputFile {
        regular: true,
        length: 3,
    }));
    assert!(matches!(
        run_universal_shadow_runner(&progress),
        RunnerStep::ReadInput(268_435_457)
    ));
    progress.bytes = Some(Ok(b"{".to_vec()));
    assert_eq!(
        failed(run_universal_shadow_runner(&progress)),
        "shadow_runner_input_not_json"
    );
    progress.bytes = Some(Ok(b"{\"schema\":\"other\"}".to_vec()));
    assert_eq!(
        failed(run_universal_shadow_runner(&progress)),
        "shadow_runner_input_schema_invalid"
    );
    progress.bytes = Some(Ok(
        b"{\"schema\":\"cerebro.tidex.shadow_evaluation_bundle/v1\"}".to_vec(),
    ));
    assert!(matches!(
        run_universal_shadow_runner(&progress),
        RunnerStep::LoadBundle
    ));
    progress.bundle = Some(Err(BrainError::Json));
    assert!(matches!(
        run_universal_shadow_runner(&progress),
        RunnerStep::Failed(BrainError::Json)
    ));
    progress.bundle = Some(Ok(fixture()));
    match run_universal_shadow_runner(&progress) {
        RunnerStep::Write(output) => assert_eq!(output.latency_micros, 1200),
        other => panic!("{other:?}"),
    }
    progress.file = Some(Err(BrainError::Io));
    assert!(matches!(
        run_universal_shadow_runner(&progress),
        RunnerStep::Failed(BrainError::Io)
    ));
}

#[test]
fn schema_must_be_that_of_a_bundle() {
    assert!(check_input_schema(Some(&document(
        "{\"schema\":\"cerebro.tidex.shadow_evaluation_bundle/v1\"}"
    )))
    .is_ok());
    assert!(check_input_schema(Some(&document("{\"schema\":1}"))).is_err());
    assert!(check_input_schema(Some(&document("{}"))).is_err());
    assert!(check_input_schema(None).is_err());
}

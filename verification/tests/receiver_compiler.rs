use cerebro_tidex::error::{BrainError, BrainResult};
use cerebro_tidex::identity::{CapabilityIrDigest, Sha256Digest, SystemEnvelopeDigest, TensorId};
use cerebro_tidex::receiver_compiler::{
    compile_receiver_capability, maximum_of, validate_rows, CompilationProgress, CompilationStep,
    LearnedMap, OperationalInterfaceVerification, ProtectionResult, ReceiverCalibrationSet,
    ReceiverCompilation, ReceiverCompilerPolicy, SafetyShape, TrustRegionResult,
};
use cerebro_tidex::receiver_portability::{
    benchmark_receiver_portability_leave_one_out, evaluate_portability, minimum_of,
    Behaviours, BenchmarkMeans, BenchmarkProgress, BenchmarkStep, HoldoutProgress, HoldoutStep,
    PortabilityGains, PortabilityProgress, PortabilityScores, PortabilityStep,
    ReceiverPortabilityBenchmarkInput, ReceiverPortabilityBenchmarkReport, ReceiverPortabilityCase,
    ReceiverPortabilityMetrics,
};
use cerebro_tidex::receiver_profile::{
    CompatibilityAssessment, MaterializationPlan, MaterializationStrategy, PlanLifecycle,
    ReceiverArchitecture, ReceiverProfile,
};
use cerebro_tidex::scalar::Scalar;
use cerebro_tidex::universal_capability_compiler::{
    compile_and_plan_experimental_universal_capability,
    compile_experimental_universal_capability, compile_experimental_universal_capability_request,
    execute_experimental_universal_capability_request, execute_universal_capability_shadow_plan,
    frame_request, replay_experimental_universal_capability_request,
    replay_universal_capability_shadow_plan, CapabilitySources, Need,
    PlanningProgress, ProtectedCortex, Stage, UniversalCapabilityCompilation,
    UniversalCapabilityCompilationReceipt, UniversalCapabilityCompilationRequest,
    UniversalCapabilityDisposition, UniversalCapabilityPlanningRequest, UniversalProgress,
};
use cerebro_tidex::identity::{ArchitectureId, DigestDomain, ModelId};
use cerebro_tidex::receiver_profile::CapabilityModality;

fn scalar(value: f64) -> Scalar {
    Scalar::from_bits(value.to_bits())
}

fn number(value: Scalar) -> f64 {
    f64::from_bits(value.bits)
}

fn scalars(row: &[f64]) -> Vec<Scalar> {
    row.iter().map(|value| scalar(*value)).collect()
}

fn numbers(row: &[Scalar]) -> Vec<f64> {
    row.iter().map(|value| number(*value)).collect()
}

fn matrix(rows: &[Vec<f64>]) -> Vec<Vec<Scalar>> {
    rows.iter().map(|row| scalars(row)).collect()
}

fn rows_of(rows: &[Vec<Scalar>]) -> Vec<Vec<f64>> {
    rows.iter().map(|row| numbers(row)).collect()
}

fn norm(row: &[f64]) -> f64 {
    row.iter().map(|value| value * value).sum::<f64>().sqrt()
}

fn cosine(a: &[f64], b: &[f64]) -> f64 {
    a.iter().zip(b).map(|(x, y)| x * y).sum::<f64>() / (norm(a) * norm(b)).max(1e-300)
}

fn code(error: &BrainError) -> String {
    error.code().unwrap_or("").to_string()
}

/// An affine map learned by ridge regression.
#[derive(Clone)]
struct Affine {
    weights: Vec<Vec<f64>>,
}

impl Affine {
    fn learn(from: &[Vec<f64>], to: &[Vec<f64>], ridge: f64) -> Affine {
        let width = from[0].len() + 1;
        let outputs = to[0].len();
        let mut system = vec![vec![0.0; width + outputs]; width];
        for (x, y) in from.iter().zip(to) {
            let mut features = x.clone();
            features.push(1.0);
            for i in 0..width {
                for j in 0..width {
                    system[i][j] += features[i] * features[j];
                }
                for j in 0..outputs {
                    system[i][width + j] += features[i] * y[j];
                }
            }
        }
        for (i, row) in system.iter_mut().enumerate() {
            row[i] += ridge;
        }
        for pivot in 0..width {
            let best = (pivot..width)
                .max_by(|a, b| system[*a][pivot].abs().total_cmp(&system[*b][pivot].abs()))
                .unwrap();
            system.swap(pivot, best);
            let lead = system[pivot].clone();
            for (i, row) in system.iter_mut().enumerate() {
                if i != pivot {
                    let factor = row[pivot] / lead[pivot];
                    for (value, other) in row.iter_mut().zip(&lead) {
                        *value -= factor * other;
                    }
                }
            }
        }
        let weights = (0..width)
            .map(|i| {
                (0..outputs)
                    .map(|j| system[i][width + j] / system[i][i])
                    .collect()
            })
            .collect();
        Affine { weights }
    }

    fn apply(&self, x: &[f64]) -> Vec<f64> {
        let mut out = self.weights[x.len()].clone();
        for (value, row) in x.iter().zip(&self.weights) {
            for (o, w) in out.iter_mut().zip(row) {
                *o += value * w;
            }
        }
        out
    }

    fn quality(from: &[Vec<f64>], to: &[Vec<f64>], ridge: f64) -> LearnedMap {
        let mut worst = f64::INFINITY;
        let (mut residual, mut total) = (0.0, 0.0);
        for held in 0..from.len() {
            let others = |rows: &[Vec<f64>]| -> Vec<Vec<f64>> {
                rows.iter()
                    .enumerate()
                    .filter(|(i, _)| *i != held)
                    .map(|(_, row)| row.clone())
                    .collect()
            };
            let map = Affine::learn(&others(from), &others(to), ridge);
            let predicted = map.apply(&from[held]);
            worst = worst.min(cosine(&predicted, &to[held]));
            for (p, t) in predicted.iter().zip(&to[held]) {
                residual += (p - t) * (p - t);
                total += t * t;
            }
        }
        LearnedMap {
            resolved: true,
            loo_cv_r2: scalar(1.0 - residual / total),
            min_loo_cosine: scalar(worst),
        }
    }
}

fn fresh_compilation() -> CompilationProgress {
    CompilationProgress {
        interface: None,
        requested: None,
        requested_norm: None,
        wrong_norms: None,
        decoder: None,
        encoder: None,
        proposed: None,
        protection: None,
        trust: None,
        predicted: None,
        relative_error: None,
        correct_cosine: None,
        wrong_cosines: None,
        identity_margin: None,
        verification: None,
    }
}

/// Answers one step of a compilation.
struct Engine {
    requested: Vec<f64>,
    importance: f64,
    decoder: Option<Affine>,
    encoder: Option<Affine>,
}

impl Engine {
    fn new(requested: Vec<f64>, importance: f64) -> Engine {
        Engine {
            requested,
            importance,
            decoder: None,
            encoder: None,
        }
    }

    fn answer(&mut self, step: CompilationStep) -> Box<dyn Fn(&mut CompilationProgress)> {
        match step {
            CompilationStep::ValidateInterface => Box::new(|p| p.interface = Some(Ok(()))),
            CompilationStep::ReadSignature => {
                let requested = self.requested.clone();
                Box::new(move |p| p.requested = Some(Ok(scalars(&requested))))
            }
            CompilationStep::MeasureQuery(row) => {
                let value = scalar(norm(&numbers(row)));
                Box::new(move |p| p.requested_norm = Some(Ok(value)))
            }
            CompilationStep::MeasureWrongSignatures(rows) => {
                let values: Vec<f64> = rows.iter().map(|row| norm(&numbers(row))).collect();
                Box::new(move |p| {
                    p.wrong_norms = Some(values.iter().map(|v| Ok(scalar(*v))).collect())
                })
            }
            CompilationStep::LearnDecoder { from, to, ridge } => {
                let (from, to) = (rows_of(from), rows_of(to));
                let quality = Affine::quality(&from, &to, number(ridge));
                self.decoder = Some(Affine::learn(&from, &to, number(ridge)));
                Box::new(move |p| p.decoder = Some(Ok(quality)))
            }
            CompilationStep::LearnEncoder { from, to, ridge } => {
                let (from, to) = (rows_of(from), rows_of(to));
                let quality = Affine::quality(&from, &to, number(ridge));
                self.encoder = Some(Affine::learn(&from, &to, number(ridge)));
                Box::new(move |p| p.encoder = Some(Ok(quality)))
            }
            CompilationStep::Transplant(row) => {
                let out = self.decoder.as_ref().unwrap().apply(&numbers(row));
                Box::new(move |p| p.proposed = Some(Ok(scalars(&out))))
            }
            CompilationStep::Protect(row) => {
                let factor = 1.0 / (1.0 + self.importance);
                let out: Vec<f64> = numbers(row).iter().map(|value| value * factor).collect();
                Box::new(move |p| {
                    p.protection = Some(Ok(ProtectionResult {
                        projected: scalars(&out),
                        allowed: true,
                        damage_ratio: scalar(0.0),
                        removed_energy: scalar(1.0 - factor * factor),
                        max_weighted_residual: scalar(0.0),
                    }))
                })
            }
            CompilationStep::ApplyTrustRegion {
                vector,
                maximum_quadratic_cost,
            } => {
                let out = numbers(vector);
                let cost = norm(&out) * norm(&out);
                assert!(cost <= number(maximum_quadratic_cost));
                Box::new(move |p| {
                    p.trust = Some(Ok(TrustRegionResult {
                        scale: scalar(1.0),
                        max_quadratic_cost: maximum_quadratic_cost,
                        accepted_coefficients: scalars(&out),
                        accepted_quadratic_cost: scalar(cost),
                        details: "trust".to_string(),
                    }))
                })
            }
            CompilationStep::Predict(row) => {
                let out = self.encoder.as_ref().unwrap().apply(&numbers(row));
                Box::new(move |p| p.predicted = Some(Ok(scalars(&out))))
            }
            CompilationStep::MeasureError { observed, expected } => {
                let (observed, expected) = (numbers(observed), numbers(expected));
                let residual: Vec<f64> =
                    observed.iter().zip(&expected).map(|(a, b)| a - b).collect();
                let error = norm(&residual) / norm(&expected).max(1e-15);
                Box::new(move |p| p.relative_error = Some(Ok(scalar(error))))
            }
            CompilationStep::MeasureCosine { observed, expected } => {
                let value = cosine(&numbers(observed), &numbers(expected));
                Box::new(move |p| p.correct_cosine = Some(Ok(scalar(value))))
            }
            CompilationStep::MeasureWrongCosines { observed, wrong } => {
                let observed = numbers(observed);
                let values: Vec<f64> = rows_of(wrong)
                    .iter()
                    .map(|row| cosine(&observed, row))
                    .collect();
                Box::new(move |p| {
                    p.wrong_cosines = Some(values.iter().map(|v| Ok(scalar(*v))).collect())
                })
            }
            CompilationStep::Subtract(a, b) => {
                let value = scalar(number(a) - number(b));
                Box::new(move |p| p.identity_margin = Some(value))
            }
            CompilationStep::VerifyInterface(_) => Box::new(|p| {
                p.verification = Some(Ok(OperationalInterfaceVerification {
                    allowed: true,
                    details: "closed".to_string(),
                }))
            }),
            CompilationStep::Failed(error) => panic!("{error:?}"),
            CompilationStep::Done(done) => panic!("{done:?}"),
        }
    }

    fn compile(
        &mut self,
        calibration: &ReceiverCalibrationSet,
        safety: SafetyShape,
        policy: &ReceiverCompilerPolicy,
    ) -> BrainResult<ReceiverCompilation> {
        let mut progress = fresh_compilation();
        loop {
            let update = match compile_receiver_capability(calibration, safety, policy, &progress)
            {
                CompilationStep::Failed(error) => return Err(error),
                CompilationStep::Done(done) => return Ok(done),
                step => self.answer(step),
            };
            update(&mut progress);
        }
    }
}

fn receiver_solution(functional: &[f64]) -> Vec<f64> {
    vec![
        2.0 * functional[0] + functional[1] - 0.5 * functional[2] + 0.1,
        -functional[0] + 1.5 * functional[2] + functional[3] - 0.2,
        0.5 * functional[1] + 2.0 * functional[3] + 0.3,
        functional[0] - functional[1] + functional[2] - functional[3] + 0.4,
        0.7 * functional[0] + 0.2 * functional[1] + 0.3 * functional[2] + 0.9 * functional[3] - 0.1,
    ]
}

fn calibration() -> Vec<Vec<f64>> {
    vec![
        vec![1.0, 0.0, 0.0, 1.0],
        vec![1.0, 0.0, 1.0, 0.0],
        vec![0.0, 1.0, 0.0, 1.0],
        vec![1.0, 1.0, 0.0, 0.0],
        vec![0.0, 0.0, 1.0, 1.0],
        vec![1.0, 0.5, 0.5, 1.0],
        vec![0.2, 1.0, 1.0, 0.2],
        vec![1.2, -0.2, 0.4, 0.8],
    ]
}

fn solutions(functional: &[Vec<f64>]) -> Vec<Vec<f64>> {
    functional.iter().map(|row| receiver_solution(row)).collect()
}

fn calibration_set(functional: &[Vec<f64>], wrong: &[usize]) -> ReceiverCalibrationSet {
    ReceiverCalibrationSet {
        receiver_snapshot_binding_sha256: Sha256Digest::zero(),
        functional_signatures: matrix(functional),
        receiver_solutions: matrix(&solutions(functional)),
        wrong_functional_signatures: wrong
            .iter()
            .map(|index| scalars(&functional[*index]))
            .collect(),
    }
}

fn strict_policy() -> ReceiverCompilerPolicy {
    ReceiverCompilerPolicy {
        schema: "cerebro.tidex.receiver_compiler_policy/v1".to_string(),
        ridge: scalar(1e-10),
        minimum_decoder_loo_r2: scalar(0.999),
        minimum_encoder_loo_r2: scalar(0.999),
        minimum_decoder_loo_cosine: scalar(0.999),
        maximum_functional_relative_error: scalar(1e-4),
        minimum_identity_margin: scalar(0.05),
        maximum_quadratic_cost: scalar(1e6),
    }
}

const SAFETY: SafetyShape = SafetyShape {
    protected_parameters: 5,
    risk_rows: 5,
    risk_columns: 5,
};

fn score(
    expected: &[f64],
    virgin: &[f64],
    direct: &[f64],
    transferred: &[f64],
    wrong: &[f64],
) -> BrainResult<ReceiverPortabilityMetrics> {
    let rows = [
        scalars(expected),
        scalars(virgin),
        scalars(direct),
        scalars(transferred),
        scalars(wrong),
    ];
    let behaviours = Behaviours {
        expected: &rows[0],
        virgin: &rows[1],
        direct: &rows[2],
        transferred: &rows[3],
        wrong: &rows[4],
    };
    let mut progress = fresh_portability();
    loop {
        let update = match evaluate_portability(behaviours, &progress) {
            PortabilityStep::Failed(error) => return Err(error),
            PortabilityStep::Done(done) => return Ok(done),
            step => answer_portability(step),
        };
        update(&mut progress);
    }
}

fn fresh_portability() -> PortabilityProgress {
    PortabilityProgress {
        expected_norm: None,
        scores: None,
        direct_gain: None,
        gains: None,
    }
}

fn answer_portability(step: PortabilityStep) -> Box<dyn Fn(&mut PortabilityProgress)> {
    match step {
        PortabilityStep::MeasureExpected(row) => {
            let value = norm(&numbers(row));
            Box::new(move |p| p.expected_norm = Some(Ok(scalar(value))))
        }
        PortabilityStep::Score(behaviours) => {
            let expected = numbers(behaviours.expected);
            let one = |row: &Vec<Scalar>| {
                let residual: Vec<f64> = numbers(row)
                    .iter()
                    .zip(&expected)
                    .map(|(a, b)| a - b)
                    .collect();
                1.0 - norm(&residual) / norm(&expected).max(1e-15)
            };
            let values = [
                one(behaviours.virgin),
                one(behaviours.direct),
                one(behaviours.transferred),
                one(behaviours.wrong),
            ];
            Box::new(move |p| {
                p.scores = Some(PortabilityScores {
                    virgin: Ok(scalar(values[0])),
                    direct: Ok(scalar(values[1])),
                    transferred: Ok(scalar(values[2])),
                    wrong: Ok(scalar(values[3])),
                })
            })
        }
        PortabilityStep::Subtract(a, b) => {
            let value = scalar(number(a) - number(b));
            Box::new(move |p| p.direct_gain = Some(value))
        }
        PortabilityStep::Recover {
            transferred,
            virgin,
            direct_gain,
            wrong,
        } => {
            let gains = PortabilityGains {
                recovered_gain: scalar(
                    (number(transferred) - number(virgin)) / number(direct_gain),
                ),
                correct_wrong_advantage: scalar(number(transferred) - number(wrong)),
            };
            Box::new(move |p| p.gains = Some(gains))
        }
        PortabilityStep::Failed(error) => panic!("{error:?}"),
        PortabilityStep::Done(done) => panic!("{done:?}"),
    }
}

#[test]
fn held_out_receiver_compilation_recovers_capability_without_donor_weights() {
    let functional = calibration();
    let receiver = solutions(&functional);
    let set = calibration_set(&functional, &[0, 2]);
    let expected = vec![0.0, 1.0, 1.0, 0.0];
    let mut engine = Engine::new(expected.clone(), 0.0);
    let compilation = engine.compile(&set, SAFETY, &strict_policy()).unwrap();
    assert!(compilation.allowed, "{compilation:#?}");
    assert!(number(compilation.functional_relative_error) < 1e-4);
    assert!(compilation.operational_verification.allowed);

    let direct = receiver_solution(&expected);
    let encoder = Affine::learn(&receiver, &functional, 1e-10);
    let virgin_behavior = encoder.apply(&[1e-6; 5]);
    let direct_behavior = encoder.apply(&direct);
    let wrong_delta = Affine::learn(&functional, &receiver, 1e-10).apply(&functional[0]);
    let wrong_behavior = encoder.apply(&wrong_delta);
    let metrics = score(
        &expected,
        &virgin_behavior,
        &direct_behavior,
        &numbers(&compilation.predicted_functional_signature),
        &wrong_behavior,
    )
    .unwrap();
    assert!(number(metrics.recovered_gain) > 0.99, "{metrics:#?}");
    assert!(
        number(metrics.correct_wrong_advantage) > 0.05,
        "{metrics:#?}"
    );
}

#[test]
fn receiver_compiler_fails_promotion_when_protection_destroys_contract() {
    let functional = calibration();
    let set = calibration_set(&functional, &[0]);
    let policy = ReceiverCompilerPolicy {
        schema: "cerebro.tidex.receiver_compiler_policy/v1".to_string(),
        ridge: scalar(1e-10),
        minimum_decoder_loo_r2: scalar(0.9),
        minimum_encoder_loo_r2: scalar(0.9),
        minimum_decoder_loo_cosine: scalar(0.9),
        maximum_functional_relative_error: scalar(0.01),
        minimum_identity_margin: scalar(0.01),
        maximum_quadratic_cost: scalar(1e6),
    };
    let mut engine = Engine::new(vec![0.0, 1.0, 1.0, 0.0], 1000.0);
    let compilation = engine.compile(&set, SAFETY, &policy).unwrap();
    assert!(!compilation.allowed);
    assert!(number(compilation.functional_relative_error) > 0.01);
}

fn fresh_holdout() -> HoldoutProgress {
    HoldoutProgress {
        decoder: None,
        encoder: None,
        transferred_delta: None,
        transferred_behavior: None,
        direct_behavior: None,
        virgin_behavior: None,
        wrong_delta: None,
        wrong_behavior: None,
        portability: fresh_portability(),
    }
}

fn benchmark(
    input: &ReceiverPortabilityBenchmarkInput,
) -> BrainResult<ReceiverPortabilityBenchmarkReport> {
    let mut progress = BenchmarkProgress {
        norms: Vec::new(),
        holdouts: Vec::new(),
        means: None,
    };
    let mut decoder: Option<Affine> = None;
    let mut encoder: Option<Affine> = None;
    loop {
        let update: Box<dyn Fn(&mut BenchmarkProgress)> =
            match benchmark_receiver_portability_leave_one_out(input, &progress) {
                BenchmarkStep::Failed(error) => return Err(error),
                BenchmarkStep::Done(report) => return Ok(report),
                BenchmarkStep::MeasureCase(row) => {
                    let value = norm(&numbers(row));
                    Box::new(move |p| p.norms.push(Ok(scalar(value))))
                }
                BenchmarkStep::BeginHoldout(holdout) => Box::new(move |p| {
                    assert_eq!(p.holdouts.len(), holdout);
                    p.holdouts.push(fresh_holdout());
                }),
                BenchmarkStep::Average {
                    recovered_gains,
                    correct_wrong_advantages,
                } => {
                    let mean = |row: &[Scalar]| {
                        scalar(numbers(row).iter().sum::<f64>() / row.len() as f64)
                    };
                    let means = BenchmarkMeans {
                        recovered_gain: mean(&recovered_gains),
                        correct_wrong_advantage: mean(&correct_wrong_advantages),
                    };
                    Box::new(move |p| p.means = Some(means))
                }
                BenchmarkStep::Holdout(at, step) => match step {
                    HoldoutStep::LearnDecoder { from, to, ridge } => {
                        assert_eq!(from.len(), input.cases.len() - 1);
                        let (from, to) = (rows_of(&from), rows_of(&to));
                        let quality = Affine::quality(&from, &to, number(ridge));
                        decoder = Some(Affine::learn(&from, &to, number(ridge)));
                        Box::new(move |p| p.holdouts[at].decoder = Some(Ok(quality)))
                    }
                    HoldoutStep::LearnEncoder { from, to, ridge } => {
                        let (from, to) = (rows_of(&from), rows_of(&to));
                        let quality = Affine::quality(&from, &to, number(ridge));
                        encoder = Some(Affine::learn(&from, &to, number(ridge)));
                        Box::new(move |p| p.holdouts[at].encoder = Some(Ok(quality)))
                    }
                    HoldoutStep::Transplant(row) => {
                        let out = decoder.as_ref().unwrap().apply(&numbers(row));
                        Box::new(move |p| {
                            p.holdouts[at].transferred_delta = Some(Ok(scalars(&out)))
                        })
                    }
                    HoldoutStep::ApplyTransferred(row) => {
                        let out = encoder.as_ref().unwrap().apply(&numbers(row));
                        Box::new(move |p| {
                            p.holdouts[at].transferred_behavior = Some(Ok(scalars(&out)))
                        })
                    }
                    HoldoutStep::ApplyDirect(row) => {
                        let out = encoder.as_ref().unwrap().apply(&numbers(row));
                        Box::new(move |p| p.holdouts[at].direct_behavior = Some(Ok(scalars(&out))))
                    }
                    HoldoutStep::ApplyVirgin(dimension) => {
                        let out = encoder.as_ref().unwrap().apply(&vec![0.0; dimension]);
                        Box::new(move |p| p.holdouts[at].virgin_behavior = Some(Ok(scalars(&out))))
                    }
                    HoldoutStep::TransplantWrong(row) => {
                        let out = decoder.as_ref().unwrap().apply(&numbers(row));
                        Box::new(move |p| p.holdouts[at].wrong_delta = Some(Ok(scalars(&out))))
                    }
                    HoldoutStep::ApplyWrong(row) => {
                        let out = encoder.as_ref().unwrap().apply(&numbers(row));
                        Box::new(move |p| p.holdouts[at].wrong_behavior = Some(Ok(scalars(&out))))
                    }
                    HoldoutStep::Compare(step) => {
                        let update = answer_portability(step);
                        Box::new(move |p| update(&mut p.holdouts[at].portability))
                    }
                    HoldoutStep::Failed(error) => panic!("{error:?}"),
                    HoldoutStep::Done(report) => panic!("{report:?}"),
                },
            };
        update(&mut progress);
    }
}

fn benchmark_input(changed: bool) -> ReceiverPortabilityBenchmarkInput {
    let mut cases: Vec<ReceiverPortabilityCase> = calibration()
        .iter()
        .enumerate()
        .map(|(index, signature)| ReceiverPortabilityCase {
            skill_id: format!("calibration-{index}"),
            functional_signature: scalars(signature),
            direct_receiver_solution: scalars(&receiver_solution(signature)),
        })
        .collect();
    let mut direct = receiver_solution(&[0.0, 1.0, 1.0, 0.0]);
    if changed {
        for value in &mut direct {
            *value = *value * 1.05 + 0.01;
        }
    }
    cases.push(ReceiverPortabilityCase {
        skill_id: "toggle-held-out".to_string(),
        functional_signature: scalars(&[0.0, 1.0, 1.0, 0.0]),
        direct_receiver_solution: scalars(&direct),
    });
    ReceiverPortabilityBenchmarkInput {
        schema: "cerebro.tidex.receiver_portability_benchmark_input/v1".to_string(),
        ridge: scalar(1e-10),
        cases,
    }
}

#[test]
fn leave_one_skill_out_benchmark_never_trains_on_the_held_out_receiver_solution() {
    let report = benchmark(&benchmark_input(false)).unwrap();
    assert_eq!(report.case_count, 9);
    assert!(report.all_resolved, "{report:#?}");
    assert!(number(report.mean_recovered_gain) > 0.99, "{report:#?}");
    assert!(number(report.minimum_recovered_gain) > 0.98, "{report:#?}");
    assert!(
        number(report.mean_correct_wrong_advantage) > 0.05,
        "{report:#?}"
    );

    let changed_report = benchmark(&benchmark_input(true)).unwrap();
    assert_eq!(
        report.cases[8].compiled_receiver_solution,
        changed_report.cases[8].compiled_receiver_solution
    );
}

#[test]
fn benchmark_inputs_are_checked() {
    let refused = |input: &ReceiverPortabilityBenchmarkInput| code(&benchmark(input).unwrap_err());
    let mut input = benchmark_input(false);
    input.schema = "other".to_string();
    assert_eq!(
        refused(&input),
        "receiver_portability_benchmark_input_invalid"
    );
    let mut input = benchmark_input(false);
    input.ridge = scalar(0.0);
    assert_eq!(
        refused(&input),
        "receiver_portability_benchmark_input_invalid"
    );
    let mut input = benchmark_input(false);
    input.cases.truncate(5);
    assert_eq!(
        refused(&input),
        "receiver_portability_benchmark_input_invalid"
    );
    let mut input = benchmark_input(false);
    input.cases[0].functional_signature.clear();
    assert_eq!(
        refused(&input),
        "receiver_portability_benchmark_dimension_invalid"
    );
    let mut input = benchmark_input(false);
    input.cases[3].skill_id = "calibration-1".to_string();
    assert_eq!(
        refused(&input),
        "receiver_portability_benchmark_case_invalid"
    );
    let mut input = benchmark_input(false);
    input.cases[2].skill_id = "x".repeat(257);
    assert_eq!(
        refused(&input),
        "receiver_portability_benchmark_case_invalid"
    );
    let mut input = benchmark_input(false);
    input.cases[2].functional_signature = scalars(&[0.0; 4]);
    assert_eq!(
        refused(&input),
        "receiver_portability_benchmark_case_invalid"
    );
    let mut input = benchmark_input(false);
    input.cases[2].direct_receiver_solution[0] = scalar(f64::NAN);
    assert_eq!(
        refused(&input),
        "receiver_portability_benchmark_case_invalid"
    );
}

#[test]
fn portability_needs_regular_signatures_and_a_gain() {
    let unit = [1.0, 0.0];
    assert_eq!(
        code(&score(&[], &[], &[], &[], &[]).unwrap_err()),
        "receiver_portability_signature_invalid"
    );
    assert_eq!(
        code(&score(&[0.0, 0.0], &unit, &unit, &unit, &unit).unwrap_err()),
        "receiver_portability_signature_invalid"
    );
    assert_eq!(
        code(&score(&unit, &[1.0], &unit, &unit, &unit).unwrap_err()),
        "receiver_portability_signature_invalid"
    );
    assert_eq!(
        code(&score(&unit, &unit, &unit, &unit, &unit).unwrap_err()),
        "receiver_portability_direct_oracle_has_no_gain"
    );
    let metrics = score(&unit, &[0.0, 0.0], &unit, &[0.5, 0.0], &[0.0, 0.0]).unwrap();
    assert_eq!(number(metrics.recovered_gain), 0.5);
    assert_eq!(number(metrics.correct_wrong_advantage), 0.5);
    assert_eq!(
        metrics.schema,
        "cerebro.tidex.receiver_portability_metrics/v1"
    );
}

#[test]
fn recovery_is_one_for_the_oracle_and_zero_for_the_untouched_receiver() {
    let expected = [1.0, -0.5, 0.25];
    let virgin = [0.125, 0.0, 0.5];
    let direct = [0.75, -0.375, 0.25];
    let wrong = [-1.0, 0.0, 0.0];
    let gain = |transferred: &[f64]| {
        let metrics = score(&expected, &virgin, &direct, transferred, &wrong).unwrap();
        number(metrics.recovered_gain)
    };
    assert_eq!(gain(&direct), 1.0);
    assert_eq!(gain(&virgin), 0.0);
    assert_eq!(
        code(&score(&expected, &virgin, &virgin, &direct, &wrong).unwrap_err()),
        "receiver_portability_direct_oracle_has_no_gain"
    );
}

fn refusal(
    change: &dyn Fn(&mut ReceiverCalibrationSet, &mut ReceiverCompilerPolicy, &mut SafetyShape),
) -> String {
    let mut set = calibration_set(&calibration(), &[0, 2]);
    let mut policy = strict_policy();
    let mut safety = SAFETY;
    change(&mut set, &mut policy, &mut safety);
    let mut engine = Engine::new(vec![0.0, 1.0, 1.0, 0.0], 0.0);
    code(&engine.compile(&set, safety, &policy).unwrap_err())
}

#[test]
fn compilation_refusals_are_told_apart() {
    assert_eq!(
        refusal(&|_, policy, _| policy.ridge = scalar(0.0)),
        "receiver_compiler_policy_invalid"
    );
    assert_eq!(
        refusal(&|_, policy, _| policy.minimum_decoder_loo_cosine = scalar(1.5)),
        "receiver_compiler_policy_invalid"
    );
    assert_eq!(
        refusal(&|_, policy, _| policy.minimum_identity_margin = scalar(-2.5)),
        "receiver_compiler_policy_invalid"
    );
    assert_eq!(
        refusal(&|_, policy, _| policy.maximum_quadratic_cost = scalar(f64::INFINITY)),
        "receiver_compiler_policy_invalid"
    );
    assert_eq!(
        refusal(&|set, _, _| set.functional_signatures.truncate(4)),
        "receiver_compiler_calibration_count"
    );
    assert_eq!(
        refusal(&|set, _, _| set.functional_signatures[3].truncate(3)),
        "receiver_compiler_functional_anchors_shape"
    );
    assert_eq!(
        refusal(&|set, _, _| set.receiver_solutions[3][0] = scalar(f64::NAN)),
        "receiver_compiler_receiver_anchors_shape"
    );
    assert_eq!(
        refusal(&|set, _, _| set.wrong_functional_signatures.clear()),
        "receiver_compiler_wrong_skill_set_empty"
    );
    assert_eq!(
        refusal(&|set, _, _| set.wrong_functional_signatures[0].truncate(1)),
        "receiver_compiler_wrong_signatures_shape"
    );
    assert_eq!(
        refusal(&|set, _, _| set.wrong_functional_signatures[1] = scalars(&[0.0; 4])),
        "receiver_compiler_wrong_signature_degenerate"
    );
    assert_eq!(
        refusal(&|_, _, safety| safety.risk_columns = 4),
        "receiver_compiler_safety_shape"
    );
}

#[test]
fn degenerate_queries_are_refused() {
    let set = calibration_set(&calibration(), &[0, 2]);
    let mut engine = Engine::new(vec![0.0; 4], 0.0);
    assert_eq!(
        code(&engine.compile(&set, SAFETY, &strict_policy()).unwrap_err()),
        "receiver_compiler_query_degenerate"
    );
}

#[test]
fn trust_region_is_handed_the_protected_vector() {
    let set = calibration_set(&calibration(), &[0, 2]);
    let policy = strict_policy();
    let mut engine = Engine::new(vec![0.0, 1.0, 1.0, 0.0], 0.0);
    let mut progress = fresh_compilation();
    loop {
        let update = match compile_receiver_capability(&set, SAFETY, &policy, &progress) {
            CompilationStep::ApplyTrustRegion { vector, .. } => {
                assert_eq!(vector, &scalars(&[7.0; 5]));
                break;
            }
            step => engine.answer(step),
        };
        update(&mut progress);
        if let Some(Ok(protection)) = &mut progress.protection {
            protection.projected = scalars(&[7.0; 5]);
        }
    }
}

#[test]
fn rows_must_be_regular() {
    let rows = matrix(&[vec![1.0, 2.0], vec![3.0, 4.0]]);
    assert_eq!(validate_rows(&rows, None, "rows").unwrap(), 2);
    assert_eq!(
        code(&validate_rows(&rows, Some(3), "rows").unwrap_err()),
        "rows_shape"
    );
    assert_eq!(
        code(&validate_rows(&Vec::new(), None, "rows").unwrap_err()),
        "rows_empty"
    );
    assert_eq!(
        code(&validate_rows(&vec![Vec::new()], None, "rows").unwrap_err()),
        "rows_shape"
    );
}

#[test]
fn extremes_are_taken_over_all_numbers() {
    let measured = vec![Ok(scalar(-3.0)), Ok(scalar(f64::NAN)), Ok(scalar(-2.0))];
    assert_eq!(number(maximum_of(&measured).unwrap()), -2.0);
    assert_eq!(number(maximum_of(&Vec::new()).unwrap()), f64::NEG_INFINITY);
    assert!(maximum_of(&vec![Ok(scalar(1.0)), Err(BrainError::Io)]).is_err());
    assert_eq!(number(minimum_of(&scalars(&[4.0, -1.0, 2.0]))), -1.0);
    assert_eq!(number(minimum_of(&Vec::new())), f64::INFINITY);
}

fn fresh_universal() -> UniversalProgress {
    UniversalProgress {
        request_sha256: None,
        risk_metric: None,
        envelope: None,
        capability_ir: None,
        operational: None,
        compilation: fresh_compilation(),
    }
}

fn sources() -> CapabilitySources {
    CapabilitySources {
        system_envelope_sha256: SystemEnvelopeDigest {
            text: "envelope".to_string(),
        },
        capability_ir_sha256: CapabilityIrDigest {
            text: "capability".to_string(),
        },
    }
}

fn compilation_request() -> UniversalCapabilityCompilationRequest {
    UniversalCapabilityCompilationRequest {
        schema: "cerebro.tidex.universal_capability_compilation_request/v1".to_string(),
        sources: sources(),
        calibration: calibration_set(&calibration(), &[0, 2]),
        protected_cortex: ProtectedCortex {
            parameter_importance: scalars(&[0.0; 5]),
            directions: Vec::new(),
            max_damage_ratio: scalar(0.01),
        },
        risk_metric_rows: matrix(
            &(0..5)
                .map(|row| (0..5).map(|column| f64::from(row == column)).collect())
                .collect::<Vec<Vec<f64>>>(),
        ),
        policy: strict_policy(),
    }
}

fn answer_need(engine: &mut Engine, need: Need) -> Box<dyn Fn(&mut UniversalProgress)> {
    match need {
        Need::DigestRequest => Box::new(|p| {
            p.request_sha256 = Some(Ok(Sha256Digest {
                text: "request".to_string(),
            }))
        }),
        Need::ReadRiskMetric(_) => Box::new(|p| p.risk_metric = Some(Ok(()))),
        Need::VerifyEnvelope => Box::new(|p| p.envelope = Some(Ok(()))),
        Need::ValidateCapabilityIr => Box::new(|p| p.capability_ir = Some(Ok(()))),
        Need::ValidateOperational => Box::new(|p| p.operational = Some(Ok(()))),
        Need::Compile(step) => {
            let update = engine.answer(step);
            Box::new(move |p| update(&mut p.compilation))
        }
        other => panic!("{other:?}"),
    }
}

fn toggle_engine() -> Engine {
    Engine::new(vec![0.0, 1.0, 1.0, 0.0], 0.0)
}

fn compile_request(
    request: &UniversalCapabilityCompilationRequest,
    progress: &mut UniversalProgress,
) -> BrainResult<UniversalCapabilityCompilation> {
    let mut engine = toggle_engine();
    loop {
        let update = match compile_experimental_universal_capability_request(request, progress) {
            Stage::Failed(error) => return Err(error),
            Stage::Done(done) => return Ok(done),
            Stage::Needs(need) => answer_need(&mut engine, need),
        };
        update(progress);
    }
}

fn execute_request(
    request: &UniversalCapabilityCompilationRequest,
    progress: &mut UniversalProgress,
) -> BrainResult<UniversalCapabilityCompilationReceipt> {
    let mut engine = toggle_engine();
    loop {
        let update = match execute_experimental_universal_capability_request(request, progress) {
            Stage::Failed(error) => return Err(error),
            Stage::Done(done) => return Ok(done),
            Stage::Needs(need) => answer_need(&mut engine, need),
        };
        update(progress);
    }
}

#[test]
fn binds_existing_verified_components_without_donor_parameters() {
    let set = calibration_set(&calibration(), &[0, 2]);
    let policy = strict_policy();
    let sources = sources();
    let mut progress = fresh_universal();
    let mut engine = toggle_engine();
    let compilation = loop {
        let update = match compile_experimental_universal_capability(
            &sources, &set, SAFETY, &policy, &progress,
        ) {
            Stage::Failed(error) => panic!("{error:?}"),
            Stage::Done(done) => break done,
            Stage::Needs(need) => answer_need(&mut engine, need),
        };
        update(&mut progress);
    };
    assert!(compilation.is_experimentally_usable(), "{compilation:#?}");
    assert_eq!(compilation.source_envelope_sha256.as_str(), "envelope");
    assert_eq!(compilation.capability_ir_sha256.as_str(), "capability");
}

#[test]
fn serialized_request_is_executable_and_rejects_a_nonsquare_risk_metric() {
    let restored = compilation_request();
    let mut progress = fresh_universal();
    assert!(compile_request(&restored, &mut progress)
        .unwrap()
        .is_experimentally_usable());
    let receipt = execute_request(&restored, &mut progress).unwrap();
    assert!(matches!(
        replay_experimental_universal_capability_request(&restored, &receipt, &progress),
        Stage::Done(_)
    ));

    let mut altered_receipt = execute_request(&restored, &mut progress).unwrap();
    altered_receipt.compilation.disposition = UniversalCapabilityDisposition::Rejected;
    match replay_experimental_universal_capability_request(&restored, &altered_receipt, &progress)
    {
        Stage::Failed(error) => assert_eq!(
            code(&error),
            "universal_capability_compilation_replay_mismatch"
        ),
        other => panic!("{other:?}"),
    }

    let mut malformed = restored;
    malformed.risk_metric_rows.pop();
    assert_eq!(
        code(&compile_request(&malformed, &mut fresh_universal()).unwrap_err()),
        "universal_capability_compilation_risk_metric_shape"
    );
}

#[test]
fn risk_metrics_are_finite_and_square() {
    let refused = |change: &dyn Fn(&mut Vec<Vec<Scalar>>)| {
        let mut request = compilation_request();
        change(&mut request.risk_metric_rows);
        code(&compile_request(&request, &mut fresh_universal()).unwrap_err())
    };
    let shape = "universal_capability_compilation_risk_metric_shape";
    assert_eq!(refused(&|rows| rows.clear()), shape);
    assert_eq!(refused(&|rows| rows[2][3] = scalar(f64::NAN)), shape);
    assert_eq!(
        refused(&|rows| {
            rows[1].pop();
        }),
        shape
    );
    let square = |size: usize| vec![scalars(&vec![1.0; size]); size];
    assert_eq!(
        refused(&|rows| *rows = square(4)),
        "receiver_compiler_safety_shape"
    );
}

#[test]
fn replays_refuse_foreign_receipts() {
    let request = compilation_request();
    let mut progress = fresh_universal();
    let refused = |receipt: &UniversalCapabilityCompilationReceipt, progress: &UniversalProgress| {
        match replay_experimental_universal_capability_request(&request, receipt, progress) {
            Stage::Failed(error) => code(&error),
            other => panic!("{other:?}"),
        }
    };
    let mut receipt = execute_request(&request, &mut progress).unwrap();
    receipt.schema = "other".to_string();
    assert_eq!(
        refused(&receipt, &progress),
        "universal_capability_compilation_receipt_schema"
    );
    let mut receipt = execute_request(&request, &mut progress).unwrap();
    receipt.request_sha256 = Sha256Digest::zero();
    assert_eq!(
        refused(&receipt, &progress),
        "universal_capability_compilation_request_digest_mismatch"
    );
    let mut receipt = execute_request(&request, &mut progress).unwrap();
    receipt.compilation.receiver.target_delta[0] = scalar(f64::NAN);
    assert_eq!(
        refused(&receipt, &progress),
        "universal_capability_compilation_replay_mismatch"
    );
    let mut receipt = execute_request(&request, &mut progress).unwrap();
    assert_eq!(receipt.compilation.receiver.trust_region.details, "trust");
    receipt.compilation.receiver.trust_region.details = "other".to_string();
    assert_eq!(
        refused(&receipt, &progress),
        "universal_capability_compilation_replay_mismatch"
    );
    let mut receipt = execute_request(&request, &mut progress).unwrap();
    receipt
        .compilation
        .receiver
        .operational_verification
        .details = "open".to_string();
    assert_eq!(
        refused(&receipt, &progress),
        "universal_capability_compilation_replay_mismatch"
    );
    let mut wrong = compilation_request();
    wrong.schema = "other".to_string();
    assert_eq!(
        code(&compile_request(&wrong, &mut fresh_universal()).unwrap_err()),
        "universal_capability_compilation_request_schema"
    );
}

#[test]
fn request_frames_carry_their_domain() {
    let framed = frame_request(b"{}");
    let mut expected = b"CEREBRO:TIDEX:UNIVERSAL-CAPABILITY-COMPILATION-REQUEST:v1\0".to_vec();
    expected.extend_from_slice(b"{}");
    assert_eq!(framed, expected);
    let labels = [
        DigestDomain::SafeTensorsSnapshot,
        DigestDomain::InspectedReceiverArtifacts,
        DigestDomain::CompilationRequest,
        DigestDomain::PlanningRequest,
        DigestDomain::ShadowMaterializationPlan,
        DigestDomain::ShadowReceiverCoordinates,
    ]
    .map(|domain| domain.label());
    for (index, label) in labels.iter().enumerate() {
        assert!(label.ends_with(":v1\0"));
        assert!(!labels[..index].contains(label));
    }
}

fn planning_request(dimension: u64) -> UniversalCapabilityPlanningRequest {
    let mut compilation = compilation_request();
    compilation.calibration.receiver_snapshot_binding_sha256 = Sha256Digest {
        text: "a".repeat(64),
    };
    UniversalCapabilityPlanningRequest {
        schema: "cerebro.tidex.universal_capability_planning_request/v1".to_string(),
        compilation,
        receiver_profile: ReceiverProfile {
            schema: "cerebro.tidex.receiver_profile/v1".to_string(),
            model_id: ModelId {
                text: "receiver".to_string(),
            },
            architecture_id: ArchitectureId {
                text: "architecture".to_string(),
            },
            architecture: ReceiverArchitecture::Transformer,
            modalities: vec![CapabilityModality::Text],
            supports_persistent_state: false,
            parameter_dimension: dimension,
            regions: Vec::new(),
        },
        requested_strategy: MaterializationStrategy::DenseDelta,
        affected_regions: vec![TensorId {
            text: "w".to_string(),
        }],
    }
}

fn fresh_planning() -> PlanningProgress {
    PlanningProgress {
        planning_request_sha256: None,
        compilation: fresh_universal(),
        requirements: None,
        compatibility: None,
        plan: None,
    }
}

fn answer_planning(engine: &mut Engine, need: Need) -> Box<dyn Fn(&mut PlanningProgress)> {
    match need {
        Need::DigestPlanningRequest => Box::new(|p| {
            p.planning_request_sha256 = Some(Ok(Sha256Digest {
                text: "planning".to_string(),
            }))
        }),
        Need::ValidateRequirements => Box::new(|p| p.requirements = Some(Ok(()))),
        Need::AssessCompatibility => Box::new(|p| {
            p.compatibility = Some(Ok(CompatibilityAssessment {
                text: "compatible".to_string(),
            }))
        }),
        Need::CreatePlan {
            request_sha256,
            strategy,
            affected_regions,
        } => {
            assert_eq!(request_sha256.as_str(), "request");
            assert_eq!(affected_regions.len(), 1);
            Box::new(move |p| {
                p.plan = Some(Ok(MaterializationPlan {
                    schema: "cerebro.tidex.materialization_plan/v1".to_string(),
                    receiver_profile_sha256: Sha256Digest::zero(),
                    lifecycle: PlanLifecycle::ShadowOnly,
                    strategy,
                    details: "w".to_string(),
                }))
            })
        }
        other => {
            let update = answer_need(engine, other);
            Box::new(move |p| update(&mut p.compilation))
        }
    }
}

fn plan_refusal(request: &UniversalCapabilityPlanningRequest, engine: &mut Engine) -> String {
    let mut progress = fresh_planning();
    loop {
        let update = match compile_and_plan_experimental_universal_capability(request, &progress) {
            Stage::Failed(error) => return code(&error),
            Stage::Done(done) => panic!("{done:?}"),
            Stage::Needs(need) => answer_planning(engine, need),
        };
        update(&mut progress);
    }
}

#[test]
fn planning_executes_and_replays() {
    let request = planning_request(5);
    let mut engine = toggle_engine();
    let mut progress = fresh_planning();
    let mut receipt = loop {
        let update = match execute_universal_capability_shadow_plan(&request, &progress) {
            Stage::Failed(error) => panic!("{error:?}"),
            Stage::Done(done) => break done,
            Stage::Needs(need) => answer_planning(&mut engine, need),
        };
        update(&mut progress);
    };
    assert_eq!(
        receipt.schema,
        "cerebro.tidex.universal_capability_shadow_plan_receipt/v1"
    );
    assert!(receipt
        .shadow_plan
        .compilation_receipt
        .compilation
        .is_experimentally_usable());
    assert!(matches!(
        replay_universal_capability_shadow_plan(&request, &receipt, &progress),
        Stage::Done(_)
    ));
    receipt.shadow_plan.materialization_plan.details = "v".to_string();
    match replay_universal_capability_shadow_plan(&request, &receipt, &progress) {
        Stage::Failed(error) => assert_eq!(
            code(&error),
            "universal_capability_shadow_plan_replay_mismatch"
        ),
        other => panic!("{other:?}"),
    }
    receipt.planning_request_sha256 = Sha256Digest::zero();
    match replay_universal_capability_shadow_plan(&request, &receipt, &progress) {
        Stage::Failed(error) => assert_eq!(
            code(&error),
            "universal_capability_shadow_plan_request_digest_mismatch"
        ),
        other => panic!("{other:?}"),
    }
    receipt.schema = "other".to_string();
    match replay_universal_capability_shadow_plan(&request, &receipt, &progress) {
        Stage::Failed(error) => assert_eq!(
            code(&error),
            "universal_capability_shadow_plan_receipt_schema"
        ),
        other => panic!("{other:?}"),
    }
}

#[test]
fn draft_calibrations_are_not_planned() {
    let mut draft = planning_request(5);
    draft.compilation.calibration.receiver_snapshot_binding_sha256 = Sha256Digest::zero();
    let mut engine = toggle_engine();
    assert_eq!(
        plan_refusal(&draft, &mut engine),
        "universal_capability_planning_calibration_unbound"
    );
    assert!(matches!(
        compile_and_plan_experimental_universal_capability(&draft, &fresh_planning()),
        Stage::Failed(BrainError::Integrity(_))
    ));
    let mut progress = fresh_planning();
    progress.planning_request_sha256 = Some(Ok(Sha256Digest::zero()));
    assert!(matches!(
        execute_universal_capability_shadow_plan(&draft, &progress),
        Stage::Failed(BrainError::Integrity(_))
    ));
}

#[test]
fn plans_that_leave_the_shadow_are_refused() {
    let request = planning_request(5);
    let mut engine = toggle_engine();
    let mut progress = fresh_planning();
    let refused = loop {
        let update = match compile_and_plan_experimental_universal_capability(&request, &progress) {
            Stage::Failed(error) => break code(&error),
            Stage::Done(done) => panic!("{done:?}"),
            Stage::Needs(need) => answer_planning(&mut engine, need),
        };
        update(&mut progress);
        if let Some(Ok(plan)) = &mut progress.plan {
            plan.lifecycle = PlanLifecycle::Other;
        }
    };
    assert_eq!(refused, "universal_capability_plan_not_shadow_only");
}

#[test]
fn rejected_compilations_are_not_planned() {
    let mut wrong = planning_request(5);
    wrong.schema = "other".to_string();
    assert_eq!(
        plan_refusal(&wrong, &mut toggle_engine()),
        "universal_capability_planning_request_schema"
    );
    assert_eq!(
        plan_refusal(&planning_request(6), &mut toggle_engine()),
        "receiver_profile_compilation_dimension_mismatch"
    );
    let mut destroyed = Engine::new(vec![0.0, 1.0, 1.0, 0.0], 1000.0);
    assert_eq!(
        plan_refusal(&planning_request(5), &mut destroyed),
        "universal_capability_compilation_not_usable"
    );
}

use cerebro_tidex::error::{BrainError, BrainResult};
use cerebro_tidex::low_rank_shadow_materializer::{
    factor_dense_delta_verified, scale_of, FactorProgress, FactorStep, FactorTrial,
    LowRankShadowPolicy, RankProgress, ReconstructionErrors, SpectralComponent,
    VerifiedLowRankFactors,
};
use cerebro_tidex::scalar::Scalar;

fn scalar(value: f64) -> Scalar {
    Scalar::from_bits(value.to_bits())
}

fn number(value: Scalar) -> f64 {
    f64::from_bits(value.bits)
}

fn scalars(row: &[f64]) -> Vec<Scalar> {
    row.iter().map(|value| scalar(*value)).collect()
}

fn numbers(row: &[Scalar]) -> Vec<f64> {
    row.iter().map(|value| number(*value)).collect()
}

fn norm(row: &[f64]) -> f64 {
    row.iter().map(|value| value * value).sum::<f64>().sqrt()
}

fn code(error: &BrainError) -> String {
    error.code().unwrap_or("").to_string()
}

fn policy(maximum_rank: usize) -> LowRankShadowPolicy {
    LowRankShadowPolicy {
        schema: "cerebro.tidex.low_rank_shadow_policy/v1".to_string(),
        maximum_rank,
        relative_reconstruction_tolerance: scalar(1.0e-10),
        absolute_reconstruction_tolerance: scalar(1.0e-10),
        minimum_parameter_reduction_ratio: scalar(0.4),
        maximum_svd_sweeps: 100,
    }
}

/// The eigenpairs of a symmetric matrix, largest value first.
fn jacobi(mut matrix: Vec<Vec<f64>>, rotations: usize) -> Vec<(f64, Vec<f64>)> {
    let size = matrix.len();
    let mut vectors: Vec<Vec<f64>> = (0..size)
        .map(|row| (0..size).map(|column| f64::from(row == column)).collect())
        .collect();
    for _ in 0..rotations {
        let mut largest = (0, 0, 0.0);
        for row in 0..size {
            for column in row + 1..size {
                if matrix[row][column].abs() > largest.2 {
                    largest = (row, column, matrix[row][column].abs());
                }
            }
        }
        let (p, q, magnitude) = largest;
        if magnitude <= 1.0e-15 {
            break;
        }
        let angle = 0.5 * (2.0 * matrix[p][q]).atan2(matrix[p][p] - matrix[q][q]);
        let (sine, cosine) = angle.sin_cos();
        for row in matrix.iter_mut() {
            let (a, b) = (row[p], row[q]);
            row[p] = cosine * a + sine * b;
            row[q] = cosine * b - sine * a;
        }
        for column in 0..size {
            let (a, b) = (matrix[p][column], matrix[q][column]);
            matrix[p][column] = cosine * a + sine * b;
            matrix[q][column] = cosine * b - sine * a;
        }
        for row in vectors.iter_mut() {
            let (a, b) = (row[p], row[q]);
            row[p] = cosine * a + sine * b;
            row[q] = cosine * b - sine * a;
        }
    }
    let mut pairs: Vec<(f64, Vec<f64>)> = (0..size)
        .map(|index| {
            (
                matrix[index][index].max(0.0),
                vectors.iter().map(|row| row[index]).collect(),
            )
        })
        .collect();
    pairs.sort_by(|a, b| b.0.total_cmp(&a.0));
    pairs
}

fn product(rows: usize, columns: usize, rank: usize, left: &[f64], right: &[f64]) -> Vec<f64> {
    let mut dense = Vec::new();
    for row in 0..rows {
        for column in 0..columns {
            dense.push(
                (0..rank)
                    .map(|k| left[row * rank + k] * right[k * columns + column])
                    .sum(),
            );
        }
    }
    dense
}

fn materialized(factors: &VerifiedLowRankFactors) -> Vec<f64> {
    product(
        factors.rows,
        factors.columns,
        factors.rank,
        &numbers(&factors.left),
        &numbers(&factors.right),
    )
}

fn fresh() -> FactorProgress {
    FactorProgress {
        target_norm: None,
        spectrum: None,
        ranks: Vec::new(),
    }
}

fn factored(
    rows: usize,
    columns: usize,
    dense: &[f64],
    policy: &LowRankShadowPolicy,
) -> BrainResult<VerifiedLowRankFactors> {
    let delta = scalars(dense);
    let mut progress = fresh();
    let mut eigen: Vec<(f64, Vec<f64>)> = Vec::new();
    let mut target = 0.0;
    loop {
        match factor_dense_delta_verified(rows, columns, &delta, policy, &progress) {
            FactorStep::Failed(error) => return Err(error),
            FactorStep::Done(factors) => return Ok(factors),
            FactorStep::MeasureTarget => {
                target = norm(dense);
                progress.target_norm = Some(Ok(scalar(target)));
            }
            FactorStep::Decompose {
                scale,
                of_rows,
                dimension,
                tolerance,
                rotations,
            } => {
                assert_eq!(number(tolerance), 1.0e-12);
                let scale = number(scale);
                let at = |index: usize, other: usize| {
                    if of_rows {
                        dense[index * columns + other] / scale
                    } else {
                        dense[other * columns + index] / scale
                    }
                };
                let others = if of_rows { columns } else { rows };
                let gram = (0..dimension)
                    .map(|a| {
                        (0..dimension)
                            .map(|b| (0..others).map(|k| at(a, k) * at(b, k)).sum())
                            .collect()
                    })
                    .collect();
                eigen = jacobi(gram, rotations);
                progress.spectrum = Some(Ok(eigen
                    .iter()
                    .map(|(value, _)| SpectralComponent {
                        scaled_sigma: scalar(value.sqrt()),
                        balanced_scale: scalar(scale.sqrt() * value.sqrt().sqrt()),
                    })
                    .collect()));
            }
            FactorStep::Reduce {
                factor_count,
                dense_count,
            } => progress.ranks.push(RankProgress {
                reduction_ratio: scalar(1.0 - factor_count as f64 / dense_count as f64),
                trial: None,
            }),
            FactorStep::Factor { rank, scale } => {
                let scale = number(scale);
                let mut left = vec![0.0; rows * rank];
                let mut right = vec![0.0; rank * columns];
                for k in 0..rank {
                    let sigma = eigen[k].0.sqrt();
                    let vector = &eigen[k].1;
                    let balanced = scale.sqrt() * sigma.sqrt();
                    for row in 0..rows {
                        left[row * rank + k] = balanced
                            * if rows <= columns {
                                vector[row]
                            } else {
                                (0..columns)
                                    .map(|c| dense[row * columns + c] / scale * vector[c] / sigma)
                                    .sum()
                            };
                    }
                    for column in 0..columns {
                        right[k * columns + column] = balanced
                            * if rows <= columns {
                                (0..rows)
                                    .map(|r| {
                                        vector[r] * (dense[r * columns + column] / scale) / sigma
                                    })
                                    .sum()
                            } else {
                                vector[column]
                            };
                    }
                }
                let rebuilt = product(rows, columns, rank, &left, &right);
                let residual: Vec<f64> = dense.iter().zip(&rebuilt).map(|(a, b)| a - b).collect();
                progress.ranks[rank - 1].trial = Some(FactorTrial {
                    left: scalars(&left),
                    right: scalars(&right),
                    reconstruction: Ok(ReconstructionErrors {
                        absolute: scalar(norm(&residual)),
                        relative: scalar(norm(&residual) / target),
                    }),
                });
            }
        }
    }
}

#[test]
fn exact_low_rank_delta_is_factored_and_full_rank_delta_is_rejected() {
    let left = [1.0, 2.0, 3.0, 4.0];
    let right = [0.5, -1.0, 2.0, 0.25];
    let dense = left
        .iter()
        .flat_map(|left| right.iter().map(move |right| left * right))
        .collect::<Vec<_>>();
    let factors = factored(4, 4, &dense, &policy(1)).unwrap();
    assert_eq!(factors.rank, 1);
    assert!(number(factors.parameter_reduction_ratio) >= 0.4);
    let reconstructed = materialized(&factors);
    assert!(dense
        .iter()
        .zip(reconstructed)
        .all(|(expected, actual)| (expected - actual).abs() < 1.0e-10));

    let identity = (0..16)
        .map(|index| f64::from(index / 4 == index % 4))
        .collect::<Vec<_>>();
    assert!(factored(4, 4, &identity, &policy(1)).is_err());
}

#[test]
fn rectangular_orientations_and_finite_scaling_reconstruct() {
    for (rows, columns, scale) in [(3, 8, 1.0e100_f64), (8, 3, 1.0e-100)] {
        let left = (0..rows)
            .map(|index| (index + 1) as f64 * scale)
            .collect::<Vec<_>>();
        let right = (0..columns)
            .map(|index| (index as f64 + 0.5) / scale.sqrt())
            .collect::<Vec<_>>();
        let dense = (0..rows)
            .flat_map(|row| {
                let left = &left;
                let right = &right;
                (0..columns).map(move |column| left[row] * right[column])
            })
            .collect::<Vec<_>>();
        let factors = factored(rows, columns, &dense, &policy(1)).unwrap();
        assert_eq!(factors.rank, 1);
        assert!(number(factors.relative_reconstruction_error) < 1.0e-10);
        assert!(materialized(&factors).iter().all(|value| value.is_finite()));
    }
}

#[test]
fn smallest_sufficient_rank_is_taken() {
    let mut dense = vec![0.0; 64];
    dense[0] = 3.0;
    dense[9] = 2.0;
    let mut loose = policy(8);
    loose.minimum_parameter_reduction_ratio = scalar(0.0);
    let factors = factored(8, 8, &dense, &loose).unwrap();
    assert_eq!(
        factors.schema,
        "cerebro.tidex.verified_low_rank_factors/v1"
    );
    assert_eq!(factors.rank, 2);
    assert_eq!(factors.dense_parameter_count, 64);
    assert_eq!(factors.factor_parameter_count, 32);
    assert_eq!(number(factors.parameter_reduction_ratio), 0.5);
    assert_eq!(factors.left.len(), 16);
    assert_eq!(factors.right.len(), 16);
    assert_eq!(
        code(&factored(8, 8, &dense, &policy(1)).unwrap_err()),
        "low_rank_factorization_not_admissible"
    );
}

#[test]
fn ranks_that_save_too_little_are_passed_over() {
    let dense = [1.0, 2.0, 3.0, 4.0];
    let error = factored(2, 2, &dense, &policy(2)).unwrap_err();
    assert_eq!(code(&error), "low_rank_factorization_not_admissible");
    assert!(matches!(error, BrainError::Numerical(_)));
}

#[test]
fn policies_are_bounded() {
    let refused = |change: &dyn Fn(&mut LowRankShadowPolicy)| {
        let mut changed = policy(4);
        change(&mut changed);
        code(&changed.validate().unwrap_err()) == "low_rank_shadow_policy_invalid"
    };
    assert!(policy(1).validate().is_ok());
    assert!(policy(64).validate().is_ok());
    assert!(refused(&|p| p.schema = "other".to_string()));
    assert!(refused(&|p| p.maximum_rank = 0));
    assert!(refused(&|p| p.maximum_rank = 65));
    assert!(refused(&|p| p.relative_reconstruction_tolerance = scalar(-1.0)));
    assert!(refused(&|p| p.absolute_reconstruction_tolerance = scalar(f64::NAN)));
    assert!(refused(&|p| {
        p.relative_reconstruction_tolerance = scalar(0.0);
        p.absolute_reconstruction_tolerance = scalar(-0.0);
    }));
    assert!(refused(&|p| p.minimum_parameter_reduction_ratio = scalar(1.0)));
    assert!(refused(&|p| p.minimum_parameter_reduction_ratio = scalar(f64::NAN)));
    assert!(refused(&|p| p.maximum_svd_sweeps = 0));
    let mut relative_only = policy(4);
    relative_only.absolute_reconstruction_tolerance = scalar(0.0);
    relative_only.minimum_parameter_reduction_ratio = scalar(-0.0);
    assert!(relative_only.validate().is_ok());
}

#[test]
fn deltas_are_bounded() {
    let refused = |rows, columns, dense: &[f64], policy: &LowRankShadowPolicy| {
        code(&factored(rows, columns, dense, policy).unwrap_err())
    };
    assert_eq!(
        refused(1, 1, &[1.0], &policy(0)),
        "low_rank_shadow_policy_invalid"
    );
    assert_eq!(
        refused(usize::MAX, 2, &[], &policy(1)),
        "low_rank_dense_shape_overflow"
    );
    assert_eq!(
        refused(1, usize::MAX, &[], &policy(1)),
        "low_rank_identity_shape_overflow"
    );
    assert_eq!(
        refused(0, 4, &[], &policy(1)),
        "low_rank_dense_input_invalid"
    );
    assert_eq!(
        refused(2, 2, &[1.0; 3], &policy(1)),
        "low_rank_dense_input_invalid"
    );
    assert_eq!(
        refused(1, 5000, &[1.0; 5000], &policy(1)),
        "low_rank_dense_input_invalid"
    );
    assert_eq!(
        refused(1, 2, &[1.0, f64::INFINITY], &policy(1)),
        "low_rank_dense_input_invalid"
    );
    assert_eq!(
        refused(2, 2, &[0.0, -0.0, 0.0, 0.0], &policy(1)),
        "low_rank_zero_delta_has_no_factors"
    );
    let mut endless = policy(1);
    endless.maximum_svd_sweeps = usize::MAX;
    assert_eq!(
        refused(2, 2, &[1.0; 4], &endless),
        "low_rank_svd_work_overflow"
    );
}

#[test]
fn degenerate_spectra_are_refused() {
    let dense = scalars(&[1.0; 16]);
    let progress = |sigma: f64, balanced: f64| FactorProgress {
        target_norm: Some(Ok(scalar(4.0))),
        spectrum: Some(Ok(vec![
            SpectralComponent {
                scaled_sigma: scalar(sigma),
                balanced_scale: scalar(balanced),
            };
            4
        ])),
        ranks: vec![RankProgress {
            reduction_ratio: scalar(0.5),
            trial: None,
        }],
    };
    for (sigma, balanced) in [(0.0, 1.0), (f64::NAN, 1.0), (1.0, f64::INFINITY), (1.0, -1.0)] {
        match factor_dense_delta_verified(4, 4, &dense, &policy(1), &progress(sigma, balanced)) {
            FactorStep::Failed(error) => {
                assert_eq!(code(&error), "low_rank_singular_value_invalid")
            }
            other => panic!("{other:?}"),
        }
    }
    assert!(matches!(
        factor_dense_delta_verified(4, 4, &dense, &policy(1), &progress(1.0, 1.0)),
        FactorStep::Factor { rank: 1, scale } if number(scale) == 1.0
    ));
}

#[test]
fn reported_shapes_and_ratios_are_checked() {
    let dense = scalars(&[1.0; 16]);
    let sound = SpectralComponent {
        scaled_sigma: scalar(1.0),
        balanced_scale: scalar(1.0),
    };
    let refused = |components: usize, ratio: f64, left: usize, right: usize| {
        let progress = FactorProgress {
            target_norm: Some(Ok(scalar(4.0))),
            spectrum: Some(Ok(vec![sound; components])),
            ranks: vec![RankProgress {
                reduction_ratio: scalar(ratio),
                trial: Some(FactorTrial {
                    left: scalars(&vec![1.0; left]),
                    right: scalars(&vec![1.0; right]),
                    reconstruction: Ok(ReconstructionErrors {
                        absolute: scalar(0.0),
                        relative: scalar(0.0),
                    }),
                }),
            }],
        };
        match factor_dense_delta_verified(4, 4, &dense, &policy(1), &progress) {
            FactorStep::Failed(error) => code(&error),
            FactorStep::Done(_) => "done".to_string(),
            other => panic!("{other:?}"),
        }
    };
    assert_eq!(refused(4, 0.5, 4, 4), "done");
    assert_eq!(refused(3, 0.5, 4, 4), "done");
    assert_eq!(
        refused(0, 0.5, 4, 4),
        "low_rank_factorization_not_admissible"
    );
    assert_eq!(
        refused(4, f64::NAN, 4, 4),
        "low_rank_reduction_ratio_invalid"
    );
    assert_eq!(refused(4, 0.5, 3, 4), "low_rank_factor_shape_invalid");
    assert_eq!(refused(4, 0.5, 4, 5), "low_rank_factor_shape_invalid");
}

#[test]
fn single_rows_and_columns_are_refused() {
    let mut loose = policy(4);
    loose.minimum_parameter_reduction_ratio = scalar(0.0);
    for (rows, columns) in [(1, 5), (5, 1), (1, 1)] {
        let dense = vec![1.0; rows * columns];
        assert_eq!(
            code(&factored(rows, columns, &dense, &loose).unwrap_err()),
            "low_rank_factorization_not_admissible"
        );
    }
    let even = factored(2, 2, &[1.0; 4], &loose).unwrap();
    assert_eq!(even.rank, 1);
    assert_eq!(number(even.parameter_reduction_ratio), 0.0);
}

#[test]
fn outside_failures_are_passed_on() {
    let dense = scalars(&[1.0; 16]);
    let mut progress = fresh();
    progress.target_norm = Some(Err(BrainError::numerical("norm_failed")));
    match factor_dense_delta_verified(4, 4, &dense, &policy(1), &progress) {
        FactorStep::Failed(error) => assert_eq!(code(&error), "norm_failed"),
        other => panic!("{other:?}"),
    }
    progress.target_norm = Some(Ok(scalar(4.0)));
    progress.spectrum = Some(Err(BrainError::numerical("jacobi_failed")));
    match factor_dense_delta_verified(4, 4, &dense, &policy(1), &progress) {
        FactorStep::Failed(error) => assert_eq!(code(&error), "jacobi_failed"),
        other => panic!("{other:?}"),
    }
}

#[test]
fn scale_is_the_largest_magnitude() {
    assert_eq!(number(scale_of(&scalars(&[1.0, -7.5, 3.0]))), 7.5);
    assert_eq!(number(scale_of(&Vec::new())), 0.0);
}

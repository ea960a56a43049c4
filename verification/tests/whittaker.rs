use eokit::batch::BatchPlan;
use eokit::error::{BatchError, ErrorKind};
use eokit::scalar::Scalar;
use eokit::smoothers::whittaker::{
    diagonal, diff, multiple_whittakers, single_whittaker, weighted, Triplet, WhittakerSystem,
};
use sprs::FillInReduction::ReverseCuthillMcKee;
use sprs::{CsMat, DontCheckSymmetry, TriMat};
use sprs_ldl::Ldl;

#[derive(Clone, Copy, Debug, PartialEq)]
struct Real(f64);

impl Scalar for Real {
    fn from_int_spec(n: i64) -> Real {
        Real(n as f64)
    }

    fn add_spec(self, rhs: Real) -> Real {
        Real(self.0 + rhs.0)
    }

    fn sub_spec(self, rhs: Real) -> Real {
        Real(self.0 - rhs.0)
    }

    fn mul_spec(self, rhs: Real) -> Real {
        Real(self.0 * rhs.0)
    }

    fn from_int(n: i64) -> Real {
        Real(n as f64)
    }

    fn add(self, rhs: Real) -> Real {
        Real(self.0 + rhs.0)
    }

    fn sub(self, rhs: Real) -> Real {
        Real(self.0 - rhs.0)
    }

    fn mul(self, rhs: Real) -> Real {
        Real(self.0 * rhs.0)
    }
}

fn sparse(rows: usize, cols: usize, entries: &[Triplet<Real>]) -> TriMat<f64> {
    TriMat::from_triplets(
        (rows, cols),
        entries.iter().map(|t| t.row).collect(),
        entries.iter().map(|t| t.col).collect(),
        entries.iter().map(|t| t.value.0).collect(),
    )
}

/// Forms `W + lambda * D'D` and solves it for the weighted samples.
fn solve(system: &WhittakerSystem<Real>, lambda: f64) -> Result<Vec<Real>, ErrorKind> {
    let diff_mat: CsMat<f64> =
        sparse(system.difference_rows, system.size, &system.difference).to_csr();
    let weights_matrix: CsMat<f64> = sparse(system.size, system.size, &system.weights).to_csc();
    let to_solve: CsMat<f64> =
        &weights_matrix + &(&(&diff_mat.transpose_view() * &diff_mat) * lambda);
    let ldl = Ldl::new()
        .fill_in_reduction(ReverseCuthillMcKee)
        .check_symmetry(DontCheckSymmetry)
        .numeric(to_solve.view())
        .map_err(|_| ErrorKind::SingularSystem)?;
    let rhs: Vec<f64> = system.rhs.iter().map(|v| v.0).collect();
    Ok(ldl.solve(rhs).into_iter().map(Real).collect())
}

fn parabola() -> (Vec<Real>, Vec<Real>) {
    let mut input_y: Vec<Real> = Vec::with_capacity(20);
    let mut weights: Vec<Real> = Vec::with_capacity(20);
    for i in 0..20 {
        input_y.push(Real((i as f64).powf(2.)));
        weights.push(Real(1.0));
    }
    (input_y, weights)
}

fn entries(list: &[Triplet<i64>]) -> Vec<(usize, usize, i64)> {
    list.iter().map(|t| (t.row, t.col, t.value)).collect()
}

#[test]
fn test_whittaker_smoother() {
    let (input_y, weights) = parabola();
    let data_length = input_y.len();

    let system = single_whittaker(&input_y, &weights, 3).unwrap();
    let whittaker_output: Vec<f64> = solve(&system, 5.0).unwrap().iter().map(|v| v.0).collect();

    println!("Whittaker_output: {:?}", whittaker_output);
    assert_eq!(whittaker_output.len(), data_length);
}

#[test]
fn third_differences_of_a_parabola_are_not_penalised() {
    // a parabola has no third differences, so it is its own smoothing,
    // however large the penalty
    let (y, weights) = parabola();
    let system = single_whittaker(&y, &weights, 3).unwrap();
    for lambda in [5.0, 1e4, 1e8] {
        let out = solve(&system, lambda).unwrap();
        for i in 0..20 {
            assert!((out[i].0 - y[i].0).abs() < 1e-4);
        }
    }
}

#[test]
fn no_penalty_returns_the_series() {
    let (y, weights) = parabola();
    let system = single_whittaker(&y, &weights, 3).unwrap();
    let once = solve(&system, 0.0).unwrap();
    assert_eq!(once, y);
    let again = single_whittaker(&once, &weights, 3).unwrap();
    assert_eq!(solve(&again, 0.0).unwrap(), once);
}

#[test]
fn zero_weights_without_penalty_are_singular() {
    let (y, _) = parabola();
    let weights = vec![Real(0.); 20];
    let system = single_whittaker(&y, &weights, 3).unwrap();
    assert_eq!(solve(&system, 0.0), Err(ErrorKind::SingularSystem));
}

#[test]
fn difference_operator_entries() {
    assert_eq!(
        entries(&diff::<i64>(3, 0).unwrap()),
        vec![(0, 0, 1), (1, 1, 1), (2, 2, 1)]
    );
    assert_eq!(
        entries(&diff::<i64>(3, 1).unwrap()),
        vec![(0, 0, -1), (0, 1, 1), (1, 1, -1), (1, 2, 1)]
    );
    assert_eq!(
        entries(&diff::<i64>(4, 2).unwrap()),
        vec![(0, 0, 1), (0, 1, -2), (0, 2, 1), (1, 1, 1), (1, 2, -2), (1, 3, 1)]
    );
    assert_eq!(
        entries(&diff::<i64>(4, 3).unwrap()),
        vec![(0, 0, -1), (0, 1, 3), (0, 2, -3), (0, 3, 1)]
    );
}

#[test]
fn difference_operator_needs_more_samples_than_its_order() {
    assert_eq!(diff::<i64>(3, 3).err(), Some(ErrorKind::InvalidParameters));
    assert_eq!(diff::<i64>(3, 4).err(), Some(ErrorKind::InvalidParameters));
    assert_eq!(diff::<i64>(3, -1).err(), Some(ErrorKind::InvalidParameters));
    assert_eq!(diff::<i64>(0, 0).err(), Some(ErrorKind::InvalidParameters));
}

#[test]
fn weights_and_right_hand_side() {
    let y: Vec<i64> = vec![1, 2, 3];
    let w: Vec<i64> = vec![2, 0, 5];
    assert_eq!(entries(&diagonal(&w)), vec![(0, 0, 2), (1, 1, 0), (2, 2, 5)]);
    assert_eq!(weighted(&w, &y), vec![2, 0, 15]);
    let system = single_whittaker(&y, &w, 1).unwrap();
    assert_eq!(system.size, 3);
    assert_eq!(system.difference_rows, 2);
    assert_eq!(
        entries(&system.difference),
        vec![(0, 0, -1), (0, 1, 1), (1, 1, -1), (1, 2, 1)]
    );
    assert_eq!(entries(&system.weights), vec![(0, 0, 2), (1, 1, 0), (2, 2, 5)]);
    assert_eq!(system.rhs, vec![2, 0, 15]);
}

#[test]
fn system_rejects_bad_parameters() {
    let y: Vec<i64> = vec![1, 2, 3];
    assert_eq!(
        single_whittaker(&y, &vec![1, 1], 1).err(),
        Some(ErrorKind::InvalidParameters)
    );
    assert_eq!(
        single_whittaker(&y, &vec![1, 1, 1], 3).err(),
        Some(ErrorKind::InvalidParameters)
    );
    assert_eq!(
        single_whittaker(&y, &vec![1, 1, 1], -1).err(),
        Some(ErrorKind::InvalidParameters)
    );
}

#[test]
fn batch_of_copies_matches_the_single_call() {
    let (series, series_weights) = parabola();
    let single = solve(&single_whittaker(&series, &series_weights, 2).unwrap(), 3.0).unwrap();

    let copies = 3;
    let mut y: Vec<Real> = Vec::new();
    let mut weights: Vec<Real> = Vec::new();
    let mut boundaries: Vec<usize> = Vec::new();
    for k in 0..copies {
        boundaries.push(k * series.len());
        y.extend(series.iter());
        weights.extend(series_weights.iter());
    }
    let (plan, systems) = multiple_whittakers(&y, &weights, &boundaries, 2).ok().unwrap();
    let results: Vec<Result<Vec<Real>, ErrorKind>> =
        systems.iter().map(|s| solve(s, 3.0)).collect();
    let mut output = vec![Real(0.); y.len()];
    assert_eq!(plan.collect(&results, &mut output), Ok(()));
    for k in 0..copies {
        let segment = &output[k * series.len()..(k + 1) * series.len()];
        let same = segment.iter().zip(&single).all(|(a, b)| a.0.to_bits() == b.0.to_bits());
        assert!(same);
    }
}

#[test]
fn batch_reports_the_first_short_segment() {
    let y: Vec<i64> = vec![1, 2, 3, 4, 5, 6];
    let w: Vec<i64> = vec![1; 6];
    // the segments hold 3, 2 and 1 samples
    let r = multiple_whittakers(&y, &w, &vec![0, 3, 5], 2);
    assert_eq!(
        r.err(),
        Some(BatchError { kind: ErrorKind::InvalidParameters, segment: 1 })
    );
    let r = multiple_whittakers(&y, &w, &vec![0, 3, 5], 1);
    assert_eq!(
        r.err(),
        Some(BatchError { kind: ErrorKind::InvalidParameters, segment: 2 })
    );
    let r = multiple_whittakers(&y, &vec![1; 5], &vec![0, 3], 2);
    assert_eq!(
        r.err(),
        Some(BatchError { kind: ErrorKind::InvalidParameters, segment: 0 })
    );
    let r = multiple_whittakers(&y, &w, &vec![0, 6], 2);
    assert_eq!(r.err(), Some(BatchError { kind: ErrorKind::BoundsError, segment: 1 }));
}

#[test]
fn batch_of_integer_systems() {
    let y: Vec<i64> = vec![1, 2, 3, 4, 5];
    let w: Vec<i64> = vec![1, 2, 3, 4, 5];
    let (plan, systems): (BatchPlan, Vec<WhittakerSystem<i64>>) =
        multiple_whittakers(&y, &w, &vec![0, 2], 1).ok().unwrap();
    assert_eq!(plan.segment_count(), 2);
    assert_eq!(plan.output_offset(1), 2);
    assert_eq!(systems.len(), 2);
    assert_eq!(systems[0].rhs, vec![1, 4]);
    assert_eq!(systems[1].rhs, vec![9, 16, 25]);
    assert_eq!(systems[1].size, 3);
    assert_eq!(systems[1].difference_rows, 2);
}

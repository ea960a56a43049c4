use eokit::error::{BatchError, ErrorKind};
use eokit::gaussian_processes::gp::{multiple_gps, single_gp, GpJob};
use eokit::scalar::Scalar;
use rusty_machine::learning::gp::{ConstMean, GaussianProcess};
use rusty_machine::learning::toolkit::kernel;
use rusty_machine::learning::SupModel;
use rusty_machine::linalg::{Matrix, Vector};

#[derive(Clone, Copy, Debug, PartialEq)]
struct Real(f64);

impl Scalar for Real {
    fn from_int_spec(n: i64) -> Real {
        Real(n as f64)
    }

    fn add_spec(self, rhs: Real) -> Real {
        Real(self.0 + rhs.0)
    }

    fn sub_spec(self, rhs: Real) -> Real {
        Real(self.0 - rhs.0)
    }

    fn mul_spec(self, rhs: Real) -> Real {
        Real(self.0 * rhs.0)
    }

    fn from_int(n: i64) -> Real {
        Real(n as f64)
    }

    fn add(self, rhs: Real) -> Real {
        Real(self.0 + rhs.0)
    }

    fn sub(self, rhs: Real) -> Real {
        Real(self.0 - rhs.0)
    }

    fn mul(self, rhs: Real) -> Real {
        Real(self.0 * rhs.0)
    }
}

fn floats(values: &[Real]) -> Vec<f64> {
    values.iter().map(|v| v.0).collect()
}

/// Fits a Gaussian process to the job's series and evaluates its mean.
fn run(job: &GpJob<Real>) -> Result<Vec<Real>, ErrorKind> {
    let ker = kernel::SquaredExp::new(2., 1.);
    let mut gp = GaussianProcess::new(ker, ConstMean::default(), 0.1);
    let training_x = Matrix::new(job.inputs.len(), 1, floats(&job.inputs));
    let training_y = Vector::new(floats(&job.targets));
    gp.train(&training_x, &training_y).map_err(|_| ErrorKind::ModelFitError)?;
    let queries = Matrix::new(job.queries.len(), 1, floats(&job.queries));
    let mean = gp.predict(&queries).map_err(|_| ErrorKind::PredictError)?;
    Ok(mean.into_vec().into_iter().map(Real).collect())
}

#[test]
fn queries_continue_the_series() {
    let x: Vec<i64> = vec![0, 1, 2];
    let y: Vec<i64> = vec![5, 6, 7];
    let job = single_gp(&x, &y, 2, 3).ok().unwrap();
    assert_eq!(job.inputs, vec![0, 1, 2]);
    assert_eq!(job.targets, vec![5, 6, 7]);
    assert_eq!(job.queries, vec![0, 1, 2, 4, 6, 8]);
    let job = single_gp(&x, &y, -1, 2).ok().unwrap();
    assert_eq!(job.queries, vec![0, 1, 2, 1, 0]);
    let job = single_gp(&x, &y, 4, 0).ok().unwrap();
    assert_eq!(job.queries, vec![0, 1, 2]);
    let x = vec![Real(0.5), Real(1.5)];
    let y = vec![Real(0.), Real(0.)];
    let job = single_gp(&x, &y, 10, 2).ok().unwrap();
    assert_eq!(floats(&job.queries), vec![0.5, 1.5, 11.5, 21.5]);
}

#[test]
fn job_rejects_bad_parameters() {
    let x: Vec<i64> = vec![0, 1, 2];
    let y: Vec<i64> = vec![5, 6, 7];
    let invalid = Some(ErrorKind::InvalidParameters);
    assert_eq!(single_gp(&x, &vec![5, 6], 1, 1).err(), invalid);
    assert_eq!(single_gp(&Vec::<i64>::new(), &Vec::new(), 1, 1).err(), invalid);
    assert_eq!(single_gp(&x, &y, 1, -1).err(), invalid);
    assert_eq!(single_gp(&x, &y, i64::MAX, 2).err(), invalid);
}

#[test]
fn forecast_has_one_value_per_query() {
    let x: Vec<Real> = (0..10).map(|i| Real(i as f64)).collect();
    let y: Vec<Real> = (0..10).map(|i| Real((i as f64 * 0.5).sin())).collect();
    let job = single_gp(&x, &y, 1, 4).ok().unwrap();
    let out = run(&job).unwrap();
    assert_eq!(out.len(), 14);
    for i in 0..10 {
        assert!((out[i].0 - y[i].0).abs() < 0.5);
    }
}

#[test]
fn batch_results_start_at_boundary_plus_forecasts_before() {
    let n = 6;
    let copies = 3;
    let forecast = 2;
    let series_x: Vec<Real> = (0..n).map(|i| Real(i as f64)).collect();
    let series_y: Vec<Real> = (0..n).map(|i| Real((i as f64 * 0.7).cos())).collect();
    let single = run(&single_gp(&series_x, &series_y, 3, forecast as i64).ok().unwrap()).unwrap();
    assert_eq!(single.len(), n + forecast);

    let mut x: Vec<Real> = Vec::new();
    let mut y: Vec<Real> = Vec::new();
    let mut boundaries: Vec<usize> = Vec::new();
    for k in 0..copies {
        boundaries.push(k * n);
        x.extend(series_x.iter());
        y.extend(series_y.iter());
    }
    let (plan, jobs) = multiple_gps(&x, &y, &boundaries, 3, forecast as i64).ok().unwrap();
    assert_eq!(jobs.len(), copies);
    assert_eq!(plan.output_len(), copies * (n + forecast));
    let results: Vec<Result<Vec<Real>, ErrorKind>> = jobs.iter().map(run).collect();
    let mut output = vec![Real(-1.); plan.output_len()];
    assert_eq!(plan.collect(&results, &mut output), Ok(()));
    for k in 0..copies {
        let start = boundaries[k] + k * forecast;
        assert_eq!(plan.output_offset(k), start);
        let segment = &output[start..start + n + forecast];
        let same = segment.iter().zip(&single).all(|(a, b)| a.0.to_bits() == b.0.to_bits());
        assert!(same);
    }
}

#[test]
fn batch_jobs_on_integers() {
    let x: Vec<i64> = vec![0, 1, 2, 10, 20];
    let y: Vec<i64> = vec![1, 1, 1, 2, 2];
    let (plan, jobs) = multiple_gps(&x, &y, &vec![0, 3], 5, 2).ok().unwrap();
    assert_eq!(jobs.len(), 2);
    assert_eq!(jobs[0].inputs, vec![0, 1, 2]);
    assert_eq!(jobs[0].targets, vec![1, 1, 1]);
    assert_eq!(jobs[0].queries, vec![0, 1, 2, 7, 12]);
    assert_eq!(jobs[1].inputs, vec![10, 20]);
    assert_eq!(jobs[1].targets, vec![2, 2]);
    assert_eq!(jobs[1].queries, vec![10, 20, 25, 30]);
    assert_eq!(plan.output_offset(0), 0);
    assert_eq!(plan.output_offset(1), 3 + 2);
    assert_eq!(plan.output_len(), 5 + 2 * 2);
}

#[test]
fn batch_rejects_bad_parameters() {
    let x: Vec<i64> = vec![0, 1, 2, 10, 20];
    let y: Vec<i64> = vec![1, 1, 1, 2, 2];
    let invalid = Some(BatchError { kind: ErrorKind::InvalidParameters, segment: 0 });
    assert_eq!(multiple_gps(&x, &y, &vec![0, 3], 5, -1).err(), invalid);
    assert_eq!(multiple_gps(&x, &vec![1, 1], &vec![0, 3], 5, 1).err(), invalid);
    assert_eq!(multiple_gps(&x, &y, &vec![0, 3], i64::MAX, 2).err(), invalid);
    assert_eq!(
        multiple_gps(&x, &y, &vec![0, 5], 5, 1).err(),
        Some(BatchError { kind: ErrorKind::BoundsError, segment: 1 })
    );
}

#[test]
fn failed_fit_fails_the_batch() {
    let x: Vec<i64> = vec![0, 1, 2, 10, 20];
    let y: Vec<i64> = vec![1, 1, 1, 2, 2];
    let (plan, _) = multiple_gps(&x, &y, &vec![0, 3], 5, 1).ok().unwrap();
    let results: Vec<Result<Vec<i64>, ErrorKind>> =
        vec![Ok(vec![1, 1, 1, 1]), Err(ErrorKind::ModelFitError)];
    let mut output: Vec<i64> = vec![0; 7];
    assert_eq!(
        plan.collect(&results, &mut output),
        Err(BatchError { kind: ErrorKind::ModelFitError, segment: 1 })
    );
    assert_eq!(output, vec![0; 7]);
}

//! Gaussian-process forecasting: fit a series, then evaluate the fit at the
//! series' own abscissas and at equally spaced ones beyond its end.
//!
//! Fitting and evaluating are the work of a Gaussian-process model. This
//! module decides what the model is fitted to and where it is evaluated.

use vstd::prelude::*;
use crate::batch::{boundaries_well_formed, check_boundaries, copy_segment, first_misplaced};
use crate::batch::{segment_of, BatchPlan, Segment};
use crate::error::{BatchError, ErrorKind};
use crate::scalar::Scalar;

verus! {

/// What a model is fitted to, and where it is then evaluated.
pub struct GpJob<T> {
    /// The abscissas of the series.
    pub inputs: Vec<T>,
    /// The ordinates of the series.
    pub targets: Vec<T>,
    /// The abscissas of the result: those of the series, followed by the
    /// forecast abscissas.
    pub queries: Vec<T>,
}

/// The abscissa of forecast step `i`, counted from 1: the integer
/// `i * spacing`, taken as a scalar, plus the last abscissa of the series.
pub open spec fn forecast_query<T: Scalar>(last: T, spacing: int, i: int) -> T {
    T::from_int_spec((i * spacing) as i64).add_spec(last)
}

/// The abscissas at which a forecast over `amount` steps of `spacing` is
/// evaluated: those of the series, then the forecast steps 1 to `amount`.
pub open spec fn queries_spec<T: Scalar>(x: Seq<T>, spacing: int, amount: int) -> Seq<T> {
    x + Seq::new(amount as nat, |i: int| forecast_query(x.last(), spacing, i + 1))
}

/// A series of `n` abscissas and `n_targets` ordinates can be forecast: it is
/// not empty, has one ordinate per abscissa, the number of steps is not
/// negative, the farthest step is an `i64`, and the result's length a
/// `usize`.
pub open spec fn forecast_valid(n: int, n_targets: int, spacing: int, amount: int) -> bool {
    &&& n >= 1
    &&& n == n_targets
    &&& amount >= 0
    &&& i64::MIN <= amount * spacing <= i64::MAX
    &&& n + amount <= usize::MAX
}

/// A batch of `count` segments over `n` abscissas and `n_targets` ordinates
/// can be forecast: what [`forecast_valid`] asks of each segment holds, and
/// the whole output's length is a `usize`.
pub open spec fn batch_forecast_valid(
    n: int,
    n_targets: int,
    count: int,
    spacing: int,
    amount: int,
) -> bool {
    &&& n == n_targets
    &&& 0 <= amount <= usize::MAX
    &&& i64::MIN <= amount * spacing <= i64::MAX
    &&& n + count * amount <= usize::MAX
}

impl<T: Scalar> GpJob<T> {
    /// This is the job for the series `(x, y)` and a forecast over `amount`
    /// steps of `spacing`.
    pub open spec fn describes(self, x: Seq<T>, y: Seq<T>, spacing: int, amount: int) -> bool {
        &&& self.inputs@ == x
        &&& self.targets@ == y
        &&& self.queries@ == queries_spec(x, spacing, amount)
    }
}

/// No step of a forecast lies farther out than the last one.
proof fn lemma_step_fits(i: int, amount: int, spacing: int)
    requires
        1 <= i <= amount,
        i64::MIN <= amount * spacing <= i64::MAX,
    ensures
        i64::MIN <= i * spacing <= i64::MAX,
{
    if spacing >= 0 {
        assert(0 <= i * spacing <= amount * spacing) by (nonlinear_arith)
            requires
                1 <= i <= amount,
                spacing >= 0,
        ;
    } else {
        assert(amount * spacing <= i * spacing <= 0) by (nonlinear_arith)
            requires
                1 <= i <= amount,
                spacing < 0,
        ;
    }
}

/// Sets up the job of one series: the series itself to fit, and its
/// abscissas followed by `forecast_amount` further ones, `forecast_spacing`
/// apart, to evaluate.
///
/// Fails with `InvalidParameters` unless [`forecast_valid`] holds.
pub fn single_gp<T: Scalar>(
    x: &Vec<T>,
    y: &Vec<T>,
    forecast_spacing: i64,
    forecast_amount: i64,
) -> (r: Result<GpJob<T>, ErrorKind>)
    ensures
        r is Ok <==> forecast_valid(
            x.len() as int,
            y.len() as int,
            forecast_spacing as int,
            forecast_amount as int,
        ),
        r matches Ok(job) ==> job.describes(
            x@,
            y@,
            forecast_spacing as int,
            forecast_amount as int,
        ) && job.queries.len() == x.len() + forecast_amount,
        r matches Err(e) ==> e == ErrorKind::InvalidParameters,
{
    let n = x.len();
    if n == 0 || y.len() != n || forecast_amount < 0 {
        return Err(ErrorKind::InvalidParameters);
    }
    if forecast_amount.checked_mul(forecast_spacing).is_none() {
        return Err(ErrorKind::InvalidParameters);
    }
    if forecast_amount as u64 > (usize::MAX - n) as u64 {
        return Err(ErrorKind::InvalidParameters);
    }
    let last = x[n - 1];
    let whole = Segment { start: 0, end: n };
    let inputs = copy_segment(x, whole);
    let targets = copy_segment(y, whole);
    let mut queries = copy_segment(x, whole);
    assert(inputs@ =~= x@);
    assert(targets@ =~= y@);
    assert(queries@ =~= x@);
    let mut done: i64 = 0;
    while done < forecast_amount
        invariant
            n == x.len() >= 1,
            last == x@.last(),
            0 <= done <= forecast_amount,
            i64::MIN <= forecast_amount * forecast_spacing <= i64::MAX,
            n + forecast_amount <= usize::MAX,
            queries.len() == n + done,
            forall|p: int| 0 <= p < n ==> queries[p] == x[p],
            forall|q: int|
                n <= q < n + done ==> #[trigger] queries[q] == forecast_query(
                    last,
                    forecast_spacing as int,
                    q - n + 1,
                ),
        decreases forecast_amount - done,
    {
        let step = done + 1;
        proof {
            lemma_step_fits(step as int, forecast_amount as int, forecast_spacing as int);
        }
        queries.push(T::from_int(step * forecast_spacing).add(last));
        done = step;
    }
    assert(queries@ =~= queries_spec(x@, forecast_spacing as int, forecast_amount as int));
    Ok(GpJob { inputs, targets, queries })
}

/// Sets up one job per segment, and the plan by which their results go to
/// the output buffer: each result is `forecast_amount` samples longer than
/// its segment, so the result of segment `i` starts at
/// `boundaries[i] + i * forecast_amount`.
///
/// Job `i` is what [`single_gp`] sets up for segment `i` of `x` and of `y`
/// alone.
///
/// A malformed boundary set is reported as a `BoundsError` at the place
/// where it first goes wrong; anything else that [`batch_forecast_valid`]
/// asks for, with `InvalidParameters` at segment 0.
pub fn multiple_gps<T: Scalar>(
    x: &Vec<T>,
    y: &Vec<T>,
    boundaries: &Vec<usize>,
    forecast_spacing: i64,
    forecast_amount: i64,
) -> (r: Result<(BatchPlan, Vec<GpJob<T>>), BatchError>)
    ensures
        match r {
            Ok((plan, jobs)) => {
                &&& boundaries_well_formed(boundaries@, x.len() as nat)
                &&& batch_forecast_valid(
                    x.len() as int,
                    y.len() as int,
                    boundaries.len() as int,
                    forecast_spacing as int,
                    forecast_amount as int,
                )
                &&& plan.wf()
                &&& plan.boundaries() == boundaries@
                &&& plan.buffer_len() == x.len()
                &&& plan.forecast() == forecast_amount
                &&& jobs.len() == boundaries.len()
                &&& forall|i: int|
                    0 <= i < boundaries.len() ==> (#[trigger] jobs[i]).describes(
                        segment_of(x@, boundaries@, i),
                        segment_of(y@, boundaries@, i),
                        forecast_spacing as int,
                        forecast_amount as int,
                    )
            },
            Err(e) => {
                if !boundaries_well_formed(boundaries@, x.len() as nat) {
                    &&& e.kind == ErrorKind::BoundsError
                    &&& first_misplaced(boundaries@, x.len() as nat, e.segment as int)
                } else {
                    &&& e == (BatchError { kind: ErrorKind::InvalidParameters, segment: 0 })
                    &&& !batch_forecast_valid(
                        x.len() as int,
                        y.len() as int,
                        boundaries.len() as int,
                        forecast_spacing as int,
                        forecast_amount as int,
                    )
                }
            },
        },
{
    match check_boundaries(boundaries, x.len()) {
        Err(e) => {
            return Err(e);
        },
        Ok(()) => {},
    }
    let invalid = BatchError { kind: ErrorKind::InvalidParameters, segment: 0 };
    if y.len() != x.len() || forecast_amount < 0 || forecast_amount as u64 > usize::MAX as u64 {
        return Err(invalid);
    }
    if forecast_amount.checked_mul(forecast_spacing).is_none() {
        return Err(invalid);
    }
    let plan = match BatchPlan::new(boundaries, x.len(), forecast_amount as usize) {
        Ok(plan) => plan,
        Err(_) => {
            return Err(invalid);
        },
    };
    let k = plan.segment_count();
    let mut jobs: Vec<GpJob<T>> = Vec::new();
    let mut i: usize = 0;
    while i < k
        invariant
            plan.wf(),
            boundaries_well_formed(boundaries@, x.len() as nat),
            plan.boundaries() == boundaries@,
            plan.buffer_len() == x.len() == y.len(),
            plan.forecast() == forecast_amount,
            0 <= forecast_amount,
            i64::MIN <= forecast_amount * forecast_spacing <= i64::MAX,
            x.len() + k * forecast_amount <= usize::MAX,
            k == boundaries.len(),
            i <= k,
            jobs.len() == i,
            forall|j: int|
                0 <= j < i ==> (#[trigger] jobs[j]).describes(
                    segment_of(x@, boundaries@, j),
                    segment_of(y@, boundaries@, j),
                    forecast_spacing as int,
                    forecast_amount as int,
                ),
        decreases k - i,
    {
        let segment = plan.segment(i);
        let inputs = copy_segment(x, segment);
        let targets = copy_segment(y, segment);
        proof {
            assert(forecast_amount <= k * forecast_amount) by (nonlinear_arith)
                requires
                    1 <= k,
                    0 <= forecast_amount,
            ;
        }
        match single_gp(&inputs, &targets, forecast_spacing, forecast_amount) {
            Ok(job) => {
                jobs.push(job);
            },
            Err(_) => {
                return Err(invalid);
            },
        }
        i = i + 1;
    }
    Ok((plan, jobs))
}

} // verus!

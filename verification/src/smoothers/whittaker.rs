//! Whittaker smoothing: penalised least squares with a roughness penalty on
//! the finite differences of the smoothed series.
//!
//! The smoothed series `x` solves `(W + lambda * D'D) x = W y`, where `W` is
//! the diagonal matrix of the weights and `D` the difference operator. This
//! module builds `D`, `W` and the right-hand side, entry by entry; forming
//! the product and solving the system is left to a sparse solver.

use vstd::prelude::*;
use crate::batch::{boundaries_well_formed, copy_segment, edge, first_misplaced, segment_of};
use crate::batch::BatchPlan;
use crate::error::{BatchError, ErrorKind};
use crate::scalar::{one, zero, Scalar};

verus! {

/// One stored entry of a sparse matrix.
#[derive(Debug)]
pub struct Triplet<T> {
    pub row: usize,
    pub col: usize,
    pub value: T,
}

/// Entry `j` of a stencil, and zero on either side of it.
pub open spec fn stencil_entry<T: Scalar>(stencil: Seq<T>, j: int) -> T {
    if 0 <= j < stencil.len() {
        stencil[j]
    } else {
        zero::<T>()
    }
}

/// The `order + 1` coefficients that every row of the difference operator
/// of that order holds, from the diagonal to the right. Order 0 has the
/// single coefficient one; each further order subtracts the stencil from
/// itself moved one place to the right.
pub open spec fn stencil_spec<T: Scalar>(order: nat) -> Seq<T>
    decreases order,
{
    if order == 0 {
        seq![one::<T>()]
    } else {
        let lower = stencil_spec::<T>((order - 1) as nat);
        Seq::new(
            order + 1,
            |j: int| stencil_entry(lower, j - 1).sub_spec(stencil_entry(lower, j)),
        )
    }
}

/// Entry `(r, c)` of the difference operator as row differencing defines
/// it: order 0 is the identity, and row `r` of each further order is row
/// `r + 1` minus row `r` of the order below.
pub open spec fn difference_entry<T: Scalar>(order: nat, r: int, c: int) -> T
    decreases order,
{
    if order == 0 {
        if r == c {
            one::<T>()
        } else {
            zero::<T>()
        }
    } else {
        difference_entry::<T>((order - 1) as nat, r + 1, c).sub_spec(
            difference_entry::<T>((order - 1) as nat, r, c),
        )
    }
}

/// The stencil has one coefficient more than its order.
pub proof fn lemma_stencil_len<T: Scalar>(order: nat)
    ensures
        stencil_spec::<T>(order).len() == order + 1,
{
}

/// Row differencing gives a band matrix: where zero minus zero is zero,
/// entry `(r, c)` of the difference operator is the stencil's coefficient
/// `c - r`, and zero outside the band.
pub proof fn lemma_difference_is_banded<T: Scalar>(order: nat, r: int, c: int)
    requires
        zero::<T>().sub_spec(zero::<T>()) == zero::<T>(),
    ensures
        difference_entry::<T>(order, r, c) == stencil_entry(stencil_spec::<T>(order), c - r),
    decreases order,
{
    if order > 0 {
        lemma_difference_is_banded::<T>((order - 1) as nat, r + 1, c);
        lemma_difference_is_banded::<T>((order - 1) as nat, r, c);
        lemma_stencil_len::<T>((order - 1) as nat);
    }
}

/// The stored entries of the first `rows` rows of the band matrix with the
/// given stencil, row by row: row `r` holds the stencil in the columns `r`
/// to `r + stencil.len() - 1`.
pub open spec fn band_spec<T: Scalar>(rows: nat, stencil: Seq<T>) -> Seq<Triplet<T>>
    decreases rows,
{
    if rows == 0 {
        Seq::empty()
    } else {
        band_spec((rows - 1) as nat, stencil) + Seq::new(
            stencil.len(),
            |j: int|
                Triplet { row: (rows - 1) as usize, col: (rows - 1 + j) as usize, value: stencil[j] },
        )
    }
}

/// The stored entries of the diagonal matrix of the weights.
pub open spec fn diagonal_spec<T: Scalar>(weights: Seq<T>) -> Seq<Triplet<T>> {
    Seq::new(weights.len(), |i: int| Triplet { row: i as usize, col: i as usize, value: weights[i] })
}

/// The right-hand side: each sample multiplied by its weight, the weight
/// on the left.
pub open spec fn weighted_spec<T: Scalar>(weights: Seq<T>, y: Seq<T>) -> Seq<T> {
    Seq::new(y.len(), |i: int| weights[i].mul_spec(y[i]))
}

/// A series of `n` samples with `n_weights` weights can be smoothed with a
/// penalty on differences of the given order: there is one weight per
/// sample, and the order is not negative and below the number of samples.
pub open spec fn whittaker_valid(n: int, n_weights: int, order: int) -> bool {
    n == n_weights && 0 <= order < n
}

/// The ingredients of one penalised system.
pub struct WhittakerSystem<T> {
    /// The number of samples, and of unknowns.
    pub size: usize,
    /// The number of rows of the difference operator: `size` less the order.
    pub difference_rows: usize,
    /// The stored entries of the difference operator, `difference_rows` by
    /// `size`.
    pub difference: Vec<Triplet<T>>,
    /// The stored entries of the weight matrix, `size` by `size`.
    pub weights: Vec<Triplet<T>>,
    /// The weighted samples.
    pub rhs: Vec<T>,
}

impl<T: Scalar> WhittakerSystem<T> {
    /// This is the system for the series `y` with these weights and a
    /// penalty on differences of the given order.
    pub open spec fn describes(self, y: Seq<T>, weights: Seq<T>, order: int) -> bool {
        &&& self.size == y.len()
        &&& self.difference_rows == y.len() - order
        &&& self.difference@ == band_spec(
            (y.len() - order) as nat,
            stencil_spec::<T>(order as nat),
        )
        &&& self.weights@ == diagonal_spec(weights)
        &&& self.rhs@ == weighted_spec(weights, y)
    }
}

/// Computes the stencil of the difference operator of the given order, one
/// order after the other.
fn difference_stencil<T: Scalar>(order: usize) -> (stencil: Vec<T>)
    requires
        order < usize::MAX,
    ensures
        stencil@ == stencil_spec::<T>(order as nat),
        stencil.len() == order + 1,
{
    let nothing = T::from_int(0);
    let mut stencil: Vec<T> = Vec::new();
    stencil.push(T::from_int(1));
    assert(stencil@ =~= stencil_spec::<T>(0));
    let mut k: usize = 0;
    while k < order
        invariant
            k <= order < usize::MAX,
            nothing == zero::<T>(),
            stencil@ == stencil_spec::<T>(k as nat),
            stencil.len() == k + 1,
        decreases order - k,
    {
        let mut next: Vec<T> = Vec::new();
        let mut j: usize = 0;
        while j < k + 2
            invariant
                k < order < usize::MAX,
                j <= k + 2,
                nothing == zero::<T>(),
                stencil.len() == k + 1,
                next.len() == j,
                forall|i: int|
                    0 <= i < j ==> next[i] == stencil_entry(stencil@, i - 1).sub_spec(
                        stencil_entry(stencil@, i),
                    ),
            decreases k + 2 - j,
        {
            let left = if j >= 1 { stencil[j - 1] } else { nothing };
            let right = if j < k + 1 { stencil[j] } else { nothing };
            next.push(left.sub(right));
            j = j + 1;
        }
        assert(next@ =~= stencil_spec::<T>((k + 1) as nat));
        stencil = next;
        k = k + 1;
    }
    stencil
}

/// Builds the difference operator of the given order for a series of `n`
/// samples, as the list of its stored entries: a matrix of `n - order` rows
/// and `n` columns.
///
/// Fails with `InvalidParameters` unless `0 <= order < n`.
pub fn diff<T: Scalar>(n: usize, order: i64) -> (r: Result<Vec<Triplet<T>>, ErrorKind>)
    ensures
        r is Ok <==> 0 <= order < n,
        r matches Ok(entries) ==> entries@ == band_spec(
            (n - order) as nat,
            stencil_spec::<T>(order as nat),
        ),
        r matches Err(e) ==> e == ErrorKind::InvalidParameters,
{
    if order < 0 || order as u64 >= n as u64 {
        return Err(ErrorKind::InvalidParameters);
    }
    let d = order as usize;
    let stencil = difference_stencil::<T>(d);
    let rows = n - d;
    let mut entries: Vec<Triplet<T>> = Vec::new();
    let mut r: usize = 0;
    while r < rows
        invariant
            rows == n - d,
            r <= rows,
            stencil.len() == d + 1,
            entries@ == band_spec(r as nat, stencil@),
        decreases rows - r,
    {
        let ghost before = entries@;
        let mut j: usize = 0;
        while j < d + 1
            invariant
                rows == n - d,
                r < rows,
                j <= d + 1,
                stencil.len() == d + 1,
                entries@ == before + Seq::new(
                    j as nat,
                    |i: int| Triplet { row: r, col: (r + i) as usize, value: stencil[i] },
                ),
            decreases d + 1 - j,
        {
            entries.push(Triplet { row: r, col: r + j, value: stencil[j] });
            assert(entries@ =~= before + Seq::new(
                (j + 1) as nat,
                |i: int| Triplet { row: r, col: (r + i) as usize, value: stencil[i] },
            ));
            j = j + 1;
        }
        assert(entries@ =~= band_spec((r + 1) as nat, stencil@));
        r = r + 1;
    }
    Ok(entries)
}

/// Lists the stored entries of the diagonal matrix of the weights.
pub fn diagonal<T: Scalar>(weights: &Vec<T>) -> (entries: Vec<Triplet<T>>)
    ensures
        entries@ == diagonal_spec(weights@),
{
    let mut entries: Vec<Triplet<T>> = Vec::new();
    let mut i: usize = 0;
    while i < weights.len()
        invariant
            i <= weights.len(),
            entries.len() == i,
            forall|p: int|
                0 <= p < i ==> entries[p] == (Triplet {
                    row: p as usize,
                    col: p as usize,
                    value: weights[p],
                }),
        decreases weights.len() - i,
    {
        entries.push(Triplet { row: i, col: i, value: weights[i] });
        i = i + 1;
    }
    assert(entries@ =~= diagonal_spec(weights@));
    entries
}

/// Multiplies each sample by its weight.
pub fn weighted<T: Scalar>(weights: &Vec<T>, y: &Vec<T>) -> (rhs: Vec<T>)
    requires
        weights.len() == y.len(),
    ensures
        rhs@ == weighted_spec(weights@, y@),
{
    let mut rhs: Vec<T> = Vec::new();
    let mut i: usize = 0;
    while i < y.len()
        invariant
            weights.len() == y.len(),
            i <= y.len(),
            rhs.len() == i,
            forall|p: int| 0 <= p < i ==> rhs[p] == weights[p].mul_spec(y[p]),
        decreases y.len() - i,
    {
        rhs.push(weights[i].mul(y[i]));
        i = i + 1;
    }
    assert(rhs@ =~= weighted_spec(weights@, y@));
    rhs
}

/// Sets up the penalised system of one series: the difference operator of
/// order `d`, the weight matrix and the weighted right-hand side.
///
/// Fails with `InvalidParameters` unless there is one weight per sample and
/// `0 <= d < y.len()`.
pub fn single_whittaker<T: Scalar>(y: &Vec<T>, weights: &Vec<T>, d: i64) -> (r: Result<
    WhittakerSystem<T>,
    ErrorKind,
>)
    ensures
        r is Ok <==> whittaker_valid(y.len() as int, weights.len() as int, d as int),
        r matches Ok(system) ==> system.describes(y@, weights@, d as int),
        r matches Err(e) ==> e == ErrorKind::InvalidParameters,
{
    if weights.len() != y.len() {
        return Err(ErrorKind::InvalidParameters);
    }
    let difference = match diff::<T>(y.len(), d) {
        Ok(difference) => difference,
        Err(e) => {
            return Err(e);
        },
    };
    Ok(
        WhittakerSystem {
            size: y.len(),
            difference_rows: y.len() - d as usize,
            difference,
            weights: diagonal(weights),
            rhs: weighted(weights, y),
        },
    )
}

/// Segment `i` of a buffer of `n` samples is long enough for differences
/// of the given order.
pub open spec fn segment_smoothable(boundaries: Seq<usize>, n: nat, i: int, order: int) -> bool {
    0 <= order < edge(boundaries, n, i + 1) - edge(boundaries, n, i)
}

/// Sets up one penalised system per segment, and the plan by which their
/// solutions go to the output buffer.
///
/// System `i` is what [`single_whittaker`] sets up for segment `i` of `y`
/// and of `weights` alone.
///
/// A malformed boundary set is reported as a `BoundsError` at the place
/// where it first goes wrong. Weights that are not as many as the samples
/// are reported with `InvalidParameters` at segment 0, and so is the first
/// segment that is not longer than `d`, at its own index.
pub fn multiple_whittakers<T: Scalar>(
    y: &Vec<T>,
    weights: &Vec<T>,
    boundaries: &Vec<usize>,
    d: i64,
) -> (r: Result<(BatchPlan, Vec<WhittakerSystem<T>>), BatchError>)
    ensures
        match r {
            Ok((plan, systems)) => {
                &&& boundaries_well_formed(boundaries@, y.len() as nat)
                &&& weights.len() == y.len()
                &&& plan.wf()
                &&& plan.boundaries() == boundaries@
                &&& plan.buffer_len() == y.len()
                &&& plan.forecast() == 0
                &&& systems.len() == boundaries.len()
                &&& forall|i: int|
                    0 <= i < boundaries.len() ==> #[trigger] segment_smoothable(
                        boundaries@,
                        y.len() as nat,
                        i,
                        d as int,
                    )
                &&& forall|i: int|
                    0 <= i < boundaries.len() ==> (#[trigger] systems[i]).describes(
                        segment_of(y@, boundaries@, i),
                        segment_of(weights@, boundaries@, i),
                        d as int,
                    )
            },
            Err(e) => {
                if !boundaries_well_formed(boundaries@, y.len() as nat) {
                    &&& e.kind == ErrorKind::BoundsError
                    &&& first_misplaced(boundaries@, y.len() as nat, e.segment as int)
                } else if weights.len() != y.len() {
                    e == (BatchError { kind: ErrorKind::InvalidParameters, segment: 0 })
                } else {
                    &&& e.kind == ErrorKind::InvalidParameters
                    &&& e.segment < boundaries.len()
                    &&& !segment_smoothable(boundaries@, y.len() as nat, e.segment as int, d as int)
                    &&& forall|j: int|
                        0 <= j < e.segment ==> #[trigger] segment_smoothable(
                            boundaries@,
                            y.len() as nat,
                            j,
                            d as int,
                        )
                }
            },
        },
{
    let plan = match BatchPlan::new(boundaries, y.len(), 0) {
        Ok(plan) => plan,
        Err(e) => {
            assert(y.len() + boundaries.len() * 0 <= usize::MAX);
            return Err(e);
        },
    };
    if weights.len() != y.len() {
        return Err(BatchError { kind: ErrorKind::InvalidParameters, segment: 0 });
    }
    let k = plan.segment_count();
    let mut systems: Vec<WhittakerSystem<T>> = Vec::new();
    let mut i: usize = 0;
    while i < k
        invariant
            plan.wf(),
            boundaries_well_formed(boundaries@, y.len() as nat),
            plan.boundaries() == boundaries@,
            plan.buffer_len() == y.len() == weights.len(),
            k == boundaries.len(),
            i <= k,
            systems.len() == i,
            forall|j: int|
                0 <= j < i ==> #[trigger] segment_smoothable(
                    boundaries@,
                    y.len() as nat,
                    j,
                    d as int,
                ),
            forall|j: int|
                0 <= j < i ==> (#[trigger] systems[j]).describes(
                    segment_of(y@, boundaries@, j),
                    segment_of(weights@, boundaries@, j),
                    d as int,
                ),
        decreases k - i,
    {
        let segment = plan.segment(i);
        let samples = copy_segment(y, segment);
        let sample_weights = copy_segment(weights, segment);
        match single_whittaker(&samples, &sample_weights, d) {
            Ok(system) => {
                systems.push(system);
            },
            Err(kind) => {
                return Err(BatchError { kind, segment: i });
            },
        }
        i = i + 1;
    }
    Ok((plan, systems))
}

} // verus!

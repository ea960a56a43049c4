//! Savitzky-Golay filtering: a local polynomial least-squares fit, applied
//! as one convolution kernel.
//!
//! The kernel depends on the window, the polynomial order, the derivative
//! and the sample spacing, never on the data. It is one row of the
//! pseudo-inverse of the design matrix, scaled and reversed. This module
//! builds the design matrix and does everything that follows the
//! pseudo-inverse: the caller computes the pseudo-inverse itself and hands
//! in the row that belongs to the derivative.

use vstd::prelude::*;
use crate::batch::{boundaries_well_formed, copy_segment, edge, first_misplaced, segment_of};
use crate::batch::BatchPlan;
use crate::error::{BatchError, ErrorKind};
use crate::math_utils::convolve::{convolve_1d, convolve_valid, sum, valid_terms, ConvType};
use crate::scalar::{neutral_elements, one, pow, pow_spec, zero, Scalar};

verus! {

/// The product of the integers from 1 to `n`; 1 where there are none.
pub open spec fn factorial_spec(n: int) -> int
    decreases n,
{
    if n <= 0 {
        1
    } else {
        n * factorial_spec(n - 1)
    }
}

/// The factorial is at least 1 and does not decrease.
pub proof fn lemma_factorial_increases(i: int, j: int)
    requires
        i <= j,
    ensures
        1 <= factorial_spec(i) <= factorial_spec(j),
    decreases j,
{
    if j <= 0 {
    } else if i == j {
        lemma_factorial_increases(i - 1, j - 1);
        assert(1 <= j * factorial_spec(j - 1)) by (nonlinear_arith)
            requires
                1 <= j,
                1 <= factorial_spec(j - 1),
        ;
    } else {
        lemma_factorial_increases(i, j - 1);
        assert(factorial_spec(j - 1) <= j * factorial_spec(j - 1)) by (nonlinear_arith)
            requires
                1 <= j,
                1 <= factorial_spec(j - 1),
        ;
    }
}

/// 20 is the largest number whose factorial an `i64` holds.
pub proof fn lemma_factorial_20()
    ensures
        factorial_spec(20) == 2432902008176640000,
        factorial_spec(20) <= i64::MAX < factorial_spec(21),
{
    reveal_with_fuel(factorial_spec, 5);
    assert(factorial_spec(4) == 24);
    assert(factorial_spec(8) == 40320);
    assert(factorial_spec(12) == 479001600);
    assert(factorial_spec(16) == 20922789888000);
    assert(factorial_spec(20) == 2432902008176640000);
}

/// The factorial of `num`: the product of the integers from 1 to `num`,
/// which is 1 for every `num` below 1.
pub fn factorial(num: i64) -> (r: i64)
    requires
        num <= 20,
    ensures
        r == factorial_spec(num as int),
{
    let mut acc: i64 = 1;
    let mut k: i64 = 1;
    while k <= num
        invariant
            1 <= k <= 21,
            num >= 1 ==> k <= num + 1,
            num < 1 ==> k == 1,
            num <= 20,
            acc == factorial_spec(k - 1),
        decreases 21 - k,
    {
        proof {
            lemma_factorial_increases(k as int, 20);
            lemma_factorial_increases(k - 1, k as int);
            lemma_factorial_20();
            assert(factorial_spec(k as int) == k * factorial_spec(k - 1));
            assert(acc * k == k * acc) by (nonlinear_arith);
        }
        acc = acc * k;
        k = k + 1;
    }
    acc
}

/// The number of samples on either side of the centre of a window of
/// `window_size` samples: `floor((window_size - 1) / 2)`.
pub open spec fn half_window_spec(window_size: int) -> int {
    (window_size - 1) / 2
}

/// The window holds at least one sample, and its `2h + 1` offsets can be
/// counted in a `usize`.
pub open spec fn window_valid(window_size: int) -> bool {
    window_size >= 1 && 2 * half_window_spec(window_size) + 1 <= usize::MAX
}

/// Window and polynomial order give a design matrix: the order is not
/// negative and lies below the window size.
pub open spec fn design_valid(window_size: int, order: int) -> bool {
    window_valid(window_size) && 0 <= order < window_size
}

/// A series of `n` samples can be filtered with these parameters: they give
/// a design matrix, the derivative is one of the fitted polynomial's and its
/// factorial fits an `i64`, and the series reaches from its first sample
/// over one half-window, so that both ends can be padded.
pub open spec fn sav_golay_valid(n: int, window_size: int, order: int, deriv: int) -> bool {
    &&& design_valid(window_size, order)
    &&& 0 <= deriv <= order
    &&& deriv <= 20
    &&& n >= half_window_spec(window_size) + 1
    &&& n + 2 * half_window_spec(window_size) <= usize::MAX
}

/// Entry `(r, c)` of the design matrix: the offset `r - h` of row `r` from
/// the centre of the window, raised to the power `c`.
pub open spec fn design_entry<T: Scalar>(half_window: int, r: int, c: int) -> T {
    pow_spec(T::from_int_spec((r - half_window) as i64), c as nat)
}

/// `b` is the design matrix of a window with `half_window` samples on
/// either side and a polynomial of the given order: `2h + 1` rows of
/// `order + 1` entries each.
pub open spec fn is_design_matrix<T: Scalar>(b: Seq<Vec<T>>, half_window: int, order: int) -> bool {
    &&& b.len() == 2 * half_window + 1
    &&& forall|r: int| 0 <= r < b.len() ==> (#[trigger] b[r]).len() == order + 1
    &&& forall|r: int, c: int|
        0 <= r < b.len() && 0 <= c <= order ==> #[trigger] b[r][c] == design_entry::<T>(
            half_window,
            r,
            c,
        )
}

/// The convolution kernel: the row of the pseudo-inverse, each entry
/// multiplied by `delta^deriv` and then by `deriv!`, in reverse order.
pub open spec fn kernel_spec<T: Scalar>(pinv_row: Seq<T>, deriv: int, delta: T) -> Seq<T> {
    Seq::new(
        pinv_row.len(),
        |i: int|
            pinv_row[pinv_row.len() - 1 - i].mul_spec(pow_spec(delta, deriv as nat)).mul_spec(
                T::from_int_spec(factorial_spec(deriv) as i64),
            ),
    )
}

/// The series with `half_window` samples added at either end, each the
/// reflection of a sample through the end value. On the left, position `p`
/// holds `y[0] - (y[h - p] - y[0])`; on the right, the `k`-th added sample
/// is `y[n - 1] + (y[n - 1 - k] - y[n - 1])`.
pub open spec fn pad_spec<T: Scalar>(y: Seq<T>, half_window: int) -> Seq<T> {
    let n = y.len() as int;
    Seq::new(
        (n + 2 * half_window) as nat,
        |p: int|
            if p < half_window {
                y[0].sub_spec(y[half_window - p].sub_spec(y[0]))
            } else if p < half_window + n {
                y[p - half_window]
            } else {
                y[n - 1].add_spec(y[n - 1 - (p - (half_window + n) + 1)].sub_spec(y[n - 1]))
            },
    )
}

/// The filtered series: the padded series convolved, in valid mode, with
/// the kernel.
pub open spec fn sav_golay_spec<T: Scalar>(
    y: Seq<T>,
    pinv_row: Seq<T>,
    window_size: int,
    deriv: int,
    delta: T,
) -> Seq<T> {
    convolve_valid(
        kernel_spec(pinv_row, deriv, delta),
        pad_spec(y, half_window_spec(window_size)),
    )
}

/// The half-window of a valid window.
fn half_window(window_size: i64) -> (r: Option<usize>)
    ensures
        r is Some <==> window_valid(window_size as int),
        r matches Some(h) ==> h == half_window_spec(window_size as int),
{
    if window_size < 1 {
        return None;
    }
    let h: i64 = (window_size - 1) / 2;
    if h as u64 > ((usize::MAX - 1) / 2) as u64 {
        None
    } else {
        Some(h as usize)
    }
}

/// Builds the design matrix of the polynomial fit, row by row: row `r`
/// holds the powers 0 to `order` of the offset `r - h`.
///
/// Fails with `InvalidParameters` unless `design_valid(window_size, order)`.
pub fn design_matrix<T: Scalar>(window_size: i64, order: i64) -> (r: Result<
    Vec<Vec<T>>,
    ErrorKind,
>)
    ensures
        r is Ok <==> design_valid(window_size as int, order as int),
        r matches Ok(b) ==> is_design_matrix(
            b@,
            half_window_spec(window_size as int),
            order as int,
        ),
        r matches Err(e) ==> e == ErrorKind::InvalidParameters,
{
    let h = match half_window(window_size) {
        Some(h) => h,
        None => {
            return Err(ErrorKind::InvalidParameters);
        },
    };
    if order < 0 || order >= window_size {
        return Err(ErrorKind::InvalidParameters);
    }
    let rows = 2 * h + 1;
    let mut b: Vec<Vec<T>> = Vec::new();
    let mut r: usize = 0;
    while r < rows
        invariant
            rows == 2 * h + 1,
            h == half_window_spec(window_size as int),
            0 <= order < window_size,
            r <= rows,
            b.len() == r,
            forall|q: int| 0 <= q < r ==> (#[trigger] b[q]).len() == order + 1,
            forall|q: int, c: int|
                0 <= q < r && 0 <= c <= order ==> #[trigger] b[q][c] == design_entry::<T>(
                    h as int,
                    q,
                    c,
                ),
        decreases rows - r,
    {
        let base = T::from_int(r as i64 - h as i64);
        let mut power = T::from_int(1);
        let mut row: Vec<T> = Vec::new();
        row.push(power);
        let mut c: i64 = 0;
        while c < order
            invariant
                0 <= c <= order,
                row.len() == c + 1,
                base == T::from_int_spec((r - h) as i64),
                power == pow_spec(base, c as nat),
                forall|d: int| 0 <= d <= c ==> row[d] == pow_spec(base, d as nat),
            decreases order - c,
        {
            power = power.mul(base);
            row.push(power);
            c = c + 1;
        }
        b.push(row);
        r = r + 1;
    }
    Ok(b)
}

/// Turns the row of the pseudo-inverse that belongs to the derivative into
/// the convolution kernel: every entry times `delta^deriv`, times `deriv!`,
/// and the whole in reverse order.
///
/// Fails with `InvalidParameters` for a negative derivative and for one
/// above 20, whose factorial no `i64` holds.
pub fn filter_kernel<T: Scalar>(pinv_row: &Vec<T>, deriv: i64, delta: T) -> (r: Result<
    Vec<T>,
    ErrorKind,
>)
    ensures
        r is Ok <==> 0 <= deriv <= 20,
        r matches Ok(kernel) ==> kernel@ == kernel_spec(pinv_row@, deriv as int, delta),
        r matches Err(e) ==> e == ErrorKind::InvalidParameters,
{
    if deriv < 0 || deriv > 20 {
        return Err(ErrorKind::InvalidParameters);
    }
    let spacing = pow(delta, deriv as usize);
    let count = T::from_int(factorial(deriv));
    let n = pinv_row.len();
    let mut kernel: Vec<T> = Vec::new();
    let mut i: usize = 0;
    while i < n
        invariant
            n == pinv_row.len(),
            i <= n,
            kernel.len() == i,
            spacing == pow_spec(delta, deriv as nat),
            count == T::from_int_spec(factorial_spec(deriv as int) as i64),
            forall|p: int|
                0 <= p < i ==> kernel[p] == pinv_row[n - 1 - p].mul_spec(spacing).mul_spec(count),
        decreases n - i,
    {
        kernel.push(pinv_row[n - 1 - i].mul(spacing).mul(count));
        i = i + 1;
    }
    assert(kernel@ =~= kernel_spec(pinv_row@, deriv as int, delta));
    Ok(kernel)
}

/// Pads the series at both ends with `half_window` reflected samples.
///
/// Fails with `InvalidParameters` if the series has fewer than
/// `half_window + 1` samples, or if no `usize` holds the padded length.
pub fn reflect_pad<T: Scalar>(y: &Vec<T>, half_window: usize) -> (r: Result<Vec<T>, ErrorKind>)
    ensures
        r is Ok <==> y.len() >= half_window + 1 && y.len() + 2 * half_window <= usize::MAX,
        r matches Ok(padded) ==> padded@ == pad_spec(y@, half_window as int),
        r matches Err(e) ==> e == ErrorKind::InvalidParameters,
{
    let n = y.len();
    let h = half_window;
    if n <= h || h > (usize::MAX - n) / 2 {
        return Err(ErrorKind::InvalidParameters);
    }
    let first = y[0];
    let last = y[n - 1];
    let mut padded: Vec<T> = Vec::new();
    let mut p: usize = 0;
    while p < h
        invariant
            n == y.len() > h,
            p <= h,
            first == y[0],
            padded.len() == p,
            forall|q: int| 0 <= q < p ==> padded[q] == pad_spec(y@, h as int)[q],
        decreases h - p,
    {
        padded.push(first.sub(y[h - p].sub(first)));
        p = p + 1;
    }
    let mut i: usize = 0;
    while i < n
        invariant
            n == y.len() > h,
            n + 2 * h <= usize::MAX,
            i <= n,
            padded.len() == h + i,
            forall|q: int| 0 <= q < h + i ==> padded[q] == pad_spec(y@, h as int)[q],
        decreases n - i,
    {
        padded.push(y[i]);
        i = i + 1;
    }
    let mut k: usize = 1;
    while k <= h
        invariant
            n == y.len() > h,
            n + 2 * h <= usize::MAX,
            1 <= k <= h + 1,
            last == y[n - 1],
            padded.len() == h + n + k - 1,
            forall|q: int| 0 <= q < h + n + k - 1 ==> padded[q] == pad_spec(y@, h as int)[q],
        decreases h + 1 - k,
    {
        padded.push(last.add(y[n - 1 - k].sub(last)));
        k = k + 1;
    }
    assert(padded@ =~= pad_spec(y@, h as int));
    Ok(padded)
}

/// Filters one series.
///
/// `pinv_row` is row `deriv` of the pseudo-inverse of the design matrix that
/// [`design_matrix`] builds for `window_size` and `order`. The result has
/// one sample for each sample of `y`.
///
/// Fails with `InvalidParameters` unless the parameters are valid for a
/// series of this length and the row has one entry per sample of the window.
pub fn single_sav_golay<T: Scalar>(
    y: &Vec<T>,
    pinv_row: &Vec<T>,
    window_size: i64,
    order: i64,
    deriv: i64,
    delta: T,
) -> (r: Result<Vec<T>, ErrorKind>)
    ensures
        r is Ok <==> sav_golay_valid(
            y.len() as int,
            window_size as int,
            order as int,
            deriv as int,
        ) && pinv_row.len() == 2 * half_window_spec(window_size as int) + 1,
        r matches Ok(out) ==> out@ == sav_golay_spec(
            y@,
            pinv_row@,
            window_size as int,
            deriv as int,
            delta,
        ) && out.len() == y.len(),
        r matches Err(e) ==> e == ErrorKind::InvalidParameters,
{
    let h = match half_window(window_size) {
        Some(h) => h,
        None => {
            return Err(ErrorKind::InvalidParameters);
        },
    };
    if order < 0 || order >= window_size || deriv > order || pinv_row.len() != 2 * h + 1 {
        return Err(ErrorKind::InvalidParameters);
    }
    let kernel = match filter_kernel(pinv_row, deriv, delta) {
        Ok(kernel) => kernel,
        Err(e) => {
            return Err(e);
        },
    };
    let padded = match reflect_pad(y, h) {
        Ok(padded) => padded,
        Err(e) => {
            return Err(e);
        },
    };
    convolve_1d(&kernel, &padded, ConvType::Valid)
}

/// Segment `i` of a buffer of `n` samples can be filtered: the parameters
/// are valid for its length and the row has one entry per sample of the
/// window.
pub open spec fn segment_filterable(
    boundaries: Seq<usize>,
    n: nat,
    i: int,
    row_len: nat,
    window_size: int,
    order: int,
    deriv: int,
) -> bool {
    &&& sav_golay_valid(
        edge(boundaries, n, i + 1) - edge(boundaries, n, i),
        window_size,
        order,
        deriv,
    )
    &&& row_len == 2 * half_window_spec(window_size) + 1
}

/// Filters every segment of `y` and writes each result over the segment's
/// positions in `output`.
///
/// Segment `i` of the output is what [`single_sav_golay`] returns for
/// segment `i` of `y` alone. Positions before the first boundary, and
/// positions past the length of `y`, keep what they held.
///
/// Nothing is written unless every segment can be filtered. A malformed
/// boundary set is reported as a `BoundsError` at the place where it first
/// goes wrong; otherwise the first segment that cannot be filtered is
/// reported with `InvalidParameters`.
pub fn multiple_sav_golays<T: Scalar>(
    y: &Vec<T>,
    boundaries: &Vec<usize>,
    output: &mut Vec<T>,
    pinv_row: &Vec<T>,
    window_size: i64,
    order: i64,
    deriv: i64,
    delta: T,
) -> (r: Result<(), BatchError>)
    requires
        old(output).len() >= y.len(),
    ensures
        final(output).len() == old(output).len(),
        match r {
            Ok(()) => {
                &&& boundaries_well_formed(boundaries@, y.len() as nat)
                &&& forall|i: int|
                    0 <= i < boundaries.len() ==> #[trigger] segment_filterable(
                        boundaries@,
                        y.len() as nat,
                        i,
                        pinv_row.len() as nat,
                        window_size as int,
                        order as int,
                        deriv as int,
                    )
                &&& forall|i: int|
                    0 <= i < boundaries.len() ==> #[trigger] segment_of(
                        final(output)@.take(y.len() as int),
                        boundaries@,
                        i,
                    ) == sav_golay_spec(
                        segment_of(y@, boundaries@, i),
                        pinv_row@,
                        window_size as int,
                        deriv as int,
                        delta,
                    )
                &&& forall|p: int|
                    0 <= p < old(output).len() && !(edge(boundaries@, y.len() as nat, 0) <= p
                        < y.len()) ==> final(output)[p] == old(output)[p]
            },
            Err(e) => {
                &&& final(output)@ == old(output)@
                &&& if boundaries_well_formed(boundaries@, y.len() as nat) {
                    &&& e.kind == ErrorKind::InvalidParameters
                    &&& e.segment < boundaries.len()
                    &&& !segment_filterable(
                        boundaries@,
                        y.len() as nat,
                        e.segment as int,
                        pinv_row.len() as nat,
                        window_size as int,
                        order as int,
                        deriv as int,
                    )
                    &&& forall|j: int|
                        0 <= j < e.segment ==> #[trigger] segment_filterable(
                            boundaries@,
                            y.len() as nat,
                            j,
                            pinv_row.len() as nat,
                            window_size as int,
                            order as int,
                            deriv as int,
                        )
                } else {
                    &&& e.kind == ErrorKind::BoundsError
                    &&& first_misplaced(boundaries@, y.len() as nat, e.segment as int)
                }
            },
        },
{
    let plan = match BatchPlan::new(boundaries, y.len(), 0) {
        Ok(plan) => plan,
        Err(e) => {
            assert(y.len() + boundaries.len() * 0 <= usize::MAX);
            return Err(e);
        },
    };
    let k = plan.segment_count();
    let mut results: Vec<Result<Vec<T>, ErrorKind>> = Vec::new();
    let mut i: usize = 0;
    while i < k
        invariant
            plan.wf(),
            boundaries_well_formed(boundaries@, y.len() as nat),
            plan.boundaries() == boundaries@,
            plan.buffer_len() == y.len(),
            plan.forecast() == 0,
            k == boundaries.len(),
            i <= k,
            results.len() == i,
            forall|j: int|
                0 <= j < i ==> #[trigger] segment_filterable(
                    boundaries@,
                    y.len() as nat,
                    j,
                    pinv_row.len() as nat,
                    window_size as int,
                    order as int,
                    deriv as int,
                ),
            forall|j: int|
                0 <= j < i ==> (#[trigger] results[j]) is Ok && results[j]->Ok_0@
                    == sav_golay_spec(
                    segment_of(y@, boundaries@, j),
                    pinv_row@,
                    window_size as int,
                    deriv as int,
                    delta,
                ) && results[j]->Ok_0.len() == plan.region_len(j),
        decreases k - i,
    {
        let segment = plan.segment(i);
        let part = copy_segment(y, segment);
        match single_sav_golay(&part, pinv_row, window_size, order, deriv, delta) {
            Ok(smoothed) => {
                results.push(Ok(smoothed));
            },
            Err(kind) => {
                return Err(BatchError { kind, segment: i });
            },
        }
        i = i + 1;
    }
    match plan.collect(&results, output) {
        Ok(()) => {
            proof {
                assert forall|i: int| 0 <= i < boundaries.len() implies #[trigger] segment_of(
                    output@.take(y.len() as int),
                    boundaries@,
                    i,
                ) == sav_golay_spec(
                    segment_of(y@, boundaries@, i),
                    pinv_row@,
                    window_size as int,
                    deriv as int,
                    delta,
                ) by {
                    plan.lemma_regions_adjacent(i);
                    plan.lemma_regions_disjoint(i, k as int);
                    assert(i * 0 == 0);
                    assert(segment_of(output@.take(y.len() as int), boundaries@, i)
                        =~= plan.region(output@, i));
                }
            }
            Ok(())
        },
        Err(e) => {
            assert(!plan.job_failed(results@, e.segment as int));
            Err(e)
        },
    }
}

/// A window of one sample leaves the series as it is: where zero and one
/// are neutral, filtering with the unit kernel, without a derivative,
/// returns the series itself, so that filtering a filtered series again
/// changes nothing.
pub proof fn lemma_unit_window_is_identity<T: Scalar>(y: Seq<T>, delta: T)
    requires
        neutral_elements::<T>(),
        y.len() > 0,
    ensures
        sav_golay_spec(y, seq![one::<T>()], 1, 0, delta) == y,
{
    let kernel = kernel_spec(seq![one::<T>()], 0, delta);
    let padded = pad_spec(y, 0);
    assert(padded =~= y);
    assert(factorial_spec(0) == 1);
    assert(pow_spec(delta, 0) == one::<T>());
    assert(kernel =~= seq![one::<T>()]);
    let out = convolve_valid(kernel, padded);
    assert forall|i: int| 0 <= i < y.len() implies out[i] == y[i] by {
        let terms = if y.len() > 1 {
            valid_terms(kernel, padded, i)
        } else {
            valid_terms(padded, kernel, i)
        };
        assert(terms.drop_last() =~= Seq::<T>::empty());
        assert(sum(terms) == sum(terms.drop_last()).add_spec(terms.last()));
        assert(sum(terms.drop_last()) == zero::<T>());
    }
    assert(out =~= y);
}

} // verus!

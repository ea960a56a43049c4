//! The batch scheduler's bookkeeping: from boundary indices to segments, and
//! from the segments' results to their places in the output buffer.
//!
//! A batch is planned before anything runs and is written out after
//! everything has run. What runs in between, and on how many threads, is the
//! caller's business: the plan only asks for one result per segment, in
//! segment order.

use vstd::prelude::*;
use crate::error::{BatchError, ErrorKind};

verus! {

/// One sub-series of a flat buffer: the index range `start..end`.
#[derive(Clone, Copy, Debug, PartialEq, Eq, Structural)]
pub struct Segment {
    pub start: usize,
    pub end: usize,
}

/// Boundary `i` lies past the end of the buffer, or does not lie after
/// boundary `i - 1`.
pub open spec fn boundary_misplaced(boundaries: Seq<usize>, buffer_len: nat, i: int) -> bool {
    boundaries[i] >= buffer_len || (i > 0 && boundaries[i] <= boundaries[i - 1])
}

/// The buffer is not empty and the boundaries are strictly increasing
/// offsets into it.
pub open spec fn boundaries_well_formed(boundaries: Seq<usize>, buffer_len: nat) -> bool {
    &&& buffer_len > 0
    &&& forall|i: int|
        0 <= i < boundaries.len() ==> !#[trigger] boundary_misplaced(boundaries, buffer_len, i)
}

/// `at` is where a malformed boundary set first goes wrong: 0 for an empty
/// buffer, else the index of the first misplaced boundary.
pub open spec fn first_misplaced(boundaries: Seq<usize>, buffer_len: nat, at: int) -> bool {
    if buffer_len == 0 {
        at == 0
    } else {
        &&& 0 <= at < boundaries.len()
        &&& boundary_misplaced(boundaries, buffer_len, at)
        &&& forall|j: int| 0 <= j < at ==> !#[trigger] boundary_misplaced(boundaries, buffer_len, j)
    }
}

/// Where segment `i` starts; for `i` equal to the number of segments, where
/// the last one ends.
pub open spec fn edge(boundaries: Seq<usize>, buffer_len: nat, i: int) -> nat {
    if i < boundaries.len() {
        boundaries[i] as nat
    } else {
        buffer_len
    }
}

/// In a well-formed boundary set the edges increase strictly, the end of the
/// buffer included.
pub proof fn lemma_edges_increase(boundaries: Seq<usize>, buffer_len: nat, i: int, j: int)
    requires
        boundaries_well_formed(boundaries, buffer_len),
        0 <= i < j <= boundaries.len(),
    ensures
        edge(boundaries, buffer_len, i) < edge(boundaries, buffer_len, j),
    decreases j - i,
{
    assert(!boundary_misplaced(boundaries, buffer_len, i));
    if j == boundaries.len() {
    } else if j == i + 1 {
        assert(!boundary_misplaced(boundaries, buffer_len, j));
    } else {
        lemma_edges_increase(boundaries, buffer_len, i, j - 1);
        assert(!boundary_misplaced(boundaries, buffer_len, j));
    }
}

/// Position `p` of the buffer belongs to segment `i`.
pub open spec fn in_segment(boundaries: Seq<usize>, buffer_len: nat, i: int, p: int) -> bool {
    edge(boundaries, buffer_len, i) <= p < edge(boundaries, buffer_len, i + 1)
}

/// Segments never overlap and their union is the buffer from the first
/// boundary on: every position at or after the first boundary lies in
/// exactly one segment.
pub proof fn lemma_segments_partition(boundaries: Seq<usize>, buffer_len: nat, p: int)
    requires
        boundaries_well_formed(boundaries, buffer_len),
        boundaries.len() > 0,
        boundaries[0] <= p < buffer_len,
    ensures
        exists|i: int| 0 <= i < boundaries.len() && in_segment(boundaries, buffer_len, i, p),
        forall|i: int, j: int|
            0 <= i < boundaries.len() && 0 <= j < boundaries.len() && #[trigger] in_segment(
                boundaries,
                buffer_len,
                i,
                p,
            ) && #[trigger] in_segment(boundaries, buffer_len, j, p) ==> i == j,
{
    lemma_segment_exists(boundaries, buffer_len, p, boundaries.len() as int);
    assert forall|i: int, j: int|
        0 <= i < boundaries.len() && 0 <= j < boundaries.len() && #[trigger] in_segment(
            boundaries,
            buffer_len,
            i,
            p,
        ) && #[trigger] in_segment(boundaries, buffer_len, j, p) implies i == j by {
        if i + 1 < j {
            lemma_edges_increase(boundaries, buffer_len, i + 1, j);
        }
        if j + 1 < i {
            lemma_edges_increase(boundaries, buffer_len, j + 1, i);
        }
    }
}

proof fn lemma_segment_exists(boundaries: Seq<usize>, buffer_len: nat, p: int, n: int)
    requires
        boundaries_well_formed(boundaries, buffer_len),
        0 < n <= boundaries.len(),
        boundaries[0] <= p < edge(boundaries, buffer_len, n),
    ensures
        exists|i: int| 0 <= i < n && in_segment(boundaries, buffer_len, i, p),
    decreases n,
{
    if edge(boundaries, buffer_len, n - 1) <= p {
        assert(in_segment(boundaries, buffer_len, n - 1, p));
    } else {
        lemma_segment_exists(boundaries, buffer_len, p, n - 1);
    }
}

/// The elements of segment `i` of a buffer.
pub open spec fn segment_of<T>(buffer: Seq<T>, boundaries: Seq<usize>, i: int) -> Seq<T> {
    buffer.subrange(
        edge(boundaries, buffer.len(), i) as int,
        edge(boundaries, buffer.len(), i + 1) as int,
    )
}

/// `copies` copies of `series`, one behind the other.
pub open spec fn repeated<T>(series: Seq<T>, copies: nat) -> Seq<T>
    decreases copies,
{
    if copies == 0 {
        Seq::empty()
    } else {
        repeated(series, (copies - 1) as nat) + series
    }
}

/// The boundaries of `copies` segments of `len` elements each.
pub open spec fn even_boundaries(len: nat, copies: nat) -> Seq<usize> {
    Seq::new(copies, |i: int| (i * len) as usize)
}

/// `copies` copies of a series have `copies` times its length.
pub proof fn lemma_repeated_len<T>(series: Seq<T>, copies: nat)
    ensures
        repeated(series, copies).len() == copies * series.len(),
    decreases copies,
{
    let n = series.len() as int;
    if copies == 0 {
        assert(0 * n == 0);
    } else {
        lemma_repeated_len(series, (copies - 1) as nat);
        assert(copies * n == (copies - 1) * n + n) by (nonlinear_arith);
    }
}

/// Copy `j` of `copies` copies of `len` elements starts at `j * len` and
/// ends, at `j * len + len`, inside the whole.
proof fn lemma_copy_bounds(j: int, copies: int, len: int)
    requires
        0 <= j < copies,
        0 <= len,
    ensures
        0 <= j * len,
        (j + 1) * len == j * len + len,
        j * len + len <= copies * len,
{
    assert(0 <= j * len && (j + 1) * len == j * len + len && j * len + len <= copies * len)
        by (nonlinear_arith)
        requires
            0 <= j < copies,
            0 <= len,
    ;
}

/// A batch over copies of one series sees that series in every segment:
/// with a boundary at the start of each copy, the boundary set is well
/// formed and segment `i` is the series itself. What a batch call computes
/// for a segment is therefore what the single call computes for the series.
pub proof fn lemma_segments_of_copies<T>(series: Seq<T>, copies: nat, i: int)
    requires
        series.len() > 0,
        copies * series.len() <= usize::MAX,
        0 <= i < copies,
    ensures
        boundaries_well_formed(
            even_boundaries(series.len(), copies),
            repeated(series, copies).len(),
        ),
        segment_of(repeated(series, copies), even_boundaries(series.len(), copies), i)
            == series,
    decreases copies,
{
    let n = series.len() as int;
    let all = repeated(series, copies);
    let boundaries = even_boundaries(series.len(), copies);
    lemma_repeated_len(series, copies);
    lemma_repeated_len(series, (copies - 1) as nat);
    assert forall|j: int| 0 <= j < boundaries.len() implies !#[trigger] boundary_misplaced(
        boundaries,
        all.len(),
        j,
    ) by {
        lemma_copy_bounds(j, copies as int, n);
        if j > 0 {
            lemma_copy_bounds(j - 1, copies as int, n);
        }
    }
    lemma_copy_bounds(i, copies as int, n);
    if i + 1 < copies {
        lemma_copy_bounds(i + 1, copies as int, n);
    }
    assert(edge(boundaries, all.len(), i) == i * n);
    assert(edge(boundaries, all.len(), i + 1) == i * n + n);
    if i == copies - 1 {
        assert(all.subrange(i * n, i * n + n) =~= series);
    } else {
        let fewer = repeated(series, (copies - 1) as nat);
        let fewer_boundaries = even_boundaries(series.len(), (copies - 1) as nat);
        lemma_copy_bounds(copies - 1, copies as int, n);
        lemma_segments_of_copies(series, (copies - 1) as nat, i);
        lemma_copy_bounds(i, copies - 1, n);
        if i + 1 < copies - 1 {
            lemma_copy_bounds(i + 1, copies - 1, n);
        }
        assert(edge(fewer_boundaries, fewer.len(), i) == i * n);
        assert(edge(fewer_boundaries, fewer.len(), i + 1) == i * n + n);
        assert(all.subrange(i * n, i * n + n) =~= fewer.subrange(i * n, i * n + n));
    }
}

/// Tests a boundary set against a buffer of `buffer_len` elements.
pub fn check_boundaries(boundaries: &Vec<usize>, buffer_len: usize) -> (r: Result<
    (),
    BatchError,
>)
    ensures
        r is Ok <==> boundaries_well_formed(boundaries@, buffer_len as nat),
        r matches Err(e) ==> e.kind == ErrorKind::BoundsError && first_misplaced(
            boundaries@,
            buffer_len as nat,
            e.segment as int,
        ),
{
    if buffer_len == 0 {
        return Err(BatchError { kind: ErrorKind::BoundsError, segment: 0 });
    }
    let mut i: usize = 0;
    while i < boundaries.len()
        invariant
            i <= boundaries.len(),
            buffer_len > 0,
            forall|j: int|
                0 <= j < i ==> !#[trigger] boundary_misplaced(boundaries@, buffer_len as nat, j),
        decreases boundaries.len() - i,
    {
        if boundaries[i] >= buffer_len || (i > 0 && boundaries[i] <= boundaries[i - 1]) {
            assert(boundary_misplaced(boundaries@, buffer_len as nat, i as int));
            return Err(BatchError { kind: ErrorKind::BoundsError, segment: i });
        }
        i = i + 1;
    }
    Ok(())
}

/// Copies the elements `segment.start..segment.end` of `buffer`.
pub fn copy_segment<T: Copy>(buffer: &Vec<T>, segment: Segment) -> (out: Vec<T>)
    requires
        segment.start <= segment.end <= buffer.len(),
    ensures
        out@ == buffer@.subrange(segment.start as int, segment.end as int),
{
    let mut out: Vec<T> = Vec::new();
    let mut i: usize = segment.start;
    while i < segment.end
        invariant
            segment.start <= i <= segment.end <= buffer.len(),
            out@ == buffer@.subrange(segment.start as int, i as int),
        decreases segment.end - i,
    {
        out.push(buffer[i]);
        i = i + 1;
    }
    out
}

/// Writes `values` into `output` from position `offset` on, element by
/// element, and leaves every other position as it was.
pub fn place<T: Copy>(output: &mut Vec<T>, offset: usize, values: &Vec<T>)
    requires
        offset + values.len() <= old(output).len(),
    ensures
        final(output).len() == old(output).len(),
        forall|t: int| 0 <= t < values.len() ==> final(output)[offset + t] == values[t],
        forall|p: int|
            0 <= p < old(output).len() && !(offset <= p < offset + values.len())
                ==> final(output)[p] == old(output)[p],
{
    let mut t: usize = 0;
    while t < values.len()
        invariant
            t <= values.len(),
            offset + values.len() <= output.len(),
            output.len() == old(output).len(),
            forall|s: int| 0 <= s < t ==> output[offset + s] == values[s],
            forall|p: int|
                0 <= p < output.len() && !(offset <= p < offset + t)
                    ==> output[p] == old(output)[p],
        decreases values.len() - t,
    {
        output[offset + t] = values[t];
        t = t + 1;
    }
}

/// Reads a worker-count hint: a negative hint leaves the size of the pool to
/// the runtime, any other asks for exactly that many workers (for as many
/// as a `usize` counts, where the hint is larger than that).
pub fn worker_count(hint: i64) -> (workers: Option<usize>)
    ensures
        workers is None <==> hint < 0,
        workers matches Some(n) ==> n == if hint <= usize::MAX {
            hint as int
        } else {
            usize::MAX as int
        },
{
    if hint < 0 {
        None
    } else if hint as u64 > usize::MAX as u64 {
        Some(usize::MAX)
    } else {
        Some(hint as usize)
    }
}

/// A batch that has been laid out: one segment per boundary, and for each
/// segment the region of the output buffer that its result goes to.
///
/// A result is `forecast` elements longer than its segment, so the region of
/// segment `i` starts `i * forecast` elements after the segment itself.
pub struct BatchPlan {
    boundaries: Vec<usize>,
    buffer_len: usize,
    forecast: usize,
}

impl BatchPlan {
    #[verifier::type_invariant]
    spec fn inv(self) -> bool {
        self.wf()
    }

    /// The boundaries are well formed and the output length fits a `usize`.
    pub closed spec fn wf(self) -> bool {
        &&& boundaries_well_formed(self.boundaries@, self.buffer_len as nat)
        &&& self.buffer_len + self.boundaries.len() * self.forecast <= usize::MAX
    }

    /// The boundary indices that the plan was made from.
    pub closed spec fn boundaries(self) -> Seq<usize> {
        self.boundaries@
    }

    /// The length of the input buffer.
    pub closed spec fn buffer_len(self) -> nat {
        self.buffer_len as nat
    }

    /// By how many elements each result is longer than its segment.
    pub closed spec fn forecast(self) -> nat {
        self.forecast as nat
    }

    /// The number of segments.
    pub open spec fn count(self) -> nat {
        self.boundaries().len()
    }

    /// The number of elements of segment `i`.
    pub open spec fn segment_len(self, i: int) -> int {
        edge(self.boundaries(), self.buffer_len(), i + 1) - edge(
            self.boundaries(),
            self.buffer_len(),
            i,
        )
    }

    /// Where the region of segment `i` starts in the output buffer; for `i`
    /// equal to the number of segments, where the last region ends.
    pub open spec fn offset(self, i: int) -> int {
        edge(self.boundaries(), self.buffer_len(), i) + i * self.forecast()
    }

    /// The number of elements that the result of segment `i` must have.
    pub open spec fn region_len(self, i: int) -> int {
        self.segment_len(i) + self.forecast()
    }

    /// The number of elements that the output buffer must at least have.
    pub open spec fn total_len(self) -> int {
        (self.buffer_len() + self.count() * self.forecast()) as int
    }

    /// The part of `output` that belongs to segment `i`.
    pub open spec fn region<T>(self, output: Seq<T>, i: int) -> Seq<T> {
        output.subrange(self.offset(i), self.offset(i) + self.region_len(i))
    }

    /// Segment `i` has no usable result: its job failed, or what it returned
    /// does not have the length of the segment's region.
    pub open spec fn job_failed<T>(self, results: Seq<Result<Vec<T>, ErrorKind>>, i: int) -> bool {
        match results[i] {
            Err(_) => true,
            Ok(values) => values.len() != self.region_len(i),
        }
    }

    /// The kind of failure that segment `i` is reported with.
    pub open spec fn failure_kind<T>(
        self,
        results: Seq<Result<Vec<T>, ErrorKind>>,
        i: int,
    ) -> ErrorKind {
        match results[i] {
            Err(kind) => kind,
            Ok(_) => ErrorKind::BoundsError,
        }
    }

    /// What every plan satisfies.
    pub proof fn lemma_well_formed(self)
        requires
            self.wf(),
        ensures
            boundaries_well_formed(self.boundaries(), self.buffer_len()),
            self.total_len() <= usize::MAX,
            self.offset(self.count() as int) == self.total_len(),
    {
    }

    /// The regions lie one behind the other: region `i` ends where region
    /// `i + 1` starts, and it holds at least `forecast + 1` elements.
    pub proof fn lemma_regions_adjacent(self, i: int)
        requires
            self.wf(),
            0 <= i < self.count(),
        ensures
            self.offset(i + 1) == self.offset(i) + self.region_len(i),
            self.segment_len(i) >= 1,
    {
        lemma_edges_increase(self.boundaries(), self.buffer_len(), i, i + 1);
        assert((i + 1) * self.forecast() == i * self.forecast() + self.forecast())
            by (nonlinear_arith);
    }

    /// The result of segment `i` starts at the segment's boundary plus one
    /// forecast for each segment before it, which is directly behind the
    /// result of segment `i - 1`.
    pub proof fn lemma_offset(self, i: int)
        requires
            self.wf(),
            0 <= i < self.count(),
        ensures
            self.offset(i) == self.boundaries()[i] + i * self.forecast(),
            i > 0 ==> self.offset(i) == self.offset(i - 1) + self.region_len(i - 1),
    {
        if i > 0 {
            self.lemma_regions_adjacent(i - 1);
        }
    }

    /// Offsets do not decrease with the segment index.
    pub proof fn lemma_offsets_increase(self, i: int, j: int)
        requires
            self.wf(),
            0 <= i <= j <= self.count(),
        ensures
            self.offset(i) <= self.offset(j),
        decreases j - i,
    {
        if i < j {
            self.lemma_regions_adjacent(i);
            self.lemma_offsets_increase(i + 1, j);
        }
    }

    /// No two regions overlap, and none reaches past `total_len`: the region
    /// of an earlier segment ends before the region of a later one starts.
    pub proof fn lemma_regions_disjoint(self, i: int, j: int)
        requires
            self.wf(),
            0 <= i < j <= self.count(),
        ensures
            self.offset(i) + self.region_len(i) <= self.offset(j),
            self.offset(j) <= self.total_len(),
    {
        self.lemma_regions_adjacent(i);
        self.lemma_offsets_increase(i + 1, j);
        self.lemma_offsets_increase(j, self.count() as int);
    }

    /// Lays out a batch over a buffer of `buffer_len` elements, with results
    /// that are `forecast` elements longer than their segments.
    ///
    /// A malformed boundary set is reported as a `BoundsError` at the place
    /// where it first goes wrong; an output length that no `usize` can hold,
    /// as `InvalidParameters`.
    pub fn new(boundaries: &Vec<usize>, buffer_len: usize, forecast: usize) -> (r: Result<
        BatchPlan,
        BatchError,
    >)
        ensures
            match r {
                Ok(plan) => {
                    &&& plan.wf()
                    &&& plan.boundaries() == boundaries@
                    &&& plan.buffer_len() == buffer_len
                    &&& plan.forecast() == forecast
                },
                Err(e) => {
                    if boundaries_well_formed(boundaries@, buffer_len as nat) {
                        &&& buffer_len + boundaries.len() * forecast > usize::MAX
                        &&& e == (BatchError { kind: ErrorKind::InvalidParameters, segment: 0 })
                    } else {
                        &&& e.kind == ErrorKind::BoundsError
                        &&& first_misplaced(boundaries@, buffer_len as nat, e.segment as int)
                    }
                },
            },
            r is Ok <==> boundaries_well_formed(boundaries@, buffer_len as nat) && buffer_len
                + boundaries.len() * forecast <= usize::MAX,
    {
        let ghost old_boundaries = boundaries@;
        match check_boundaries(boundaries, buffer_len) {
            Err(e) => {
                return Err(e);
            },
            Ok(()) => {},
        }
        let growth = match boundaries.len().checked_mul(forecast) {
            Some(growth) => growth,
            None => {
                return Err(BatchError { kind: ErrorKind::InvalidParameters, segment: 0 });
            },
        };
        if buffer_len.checked_add(growth).is_none() {
            return Err(BatchError { kind: ErrorKind::InvalidParameters, segment: 0 });
        }
        let whole = Segment { start: 0, end: boundaries.len() };
        let boundaries = copy_segment(boundaries, whole);
        assert(boundaries@ =~= old_boundaries);
        Ok(BatchPlan { boundaries, buffer_len, forecast })
    }

    /// The number of segments.
    pub fn segment_count(&self) -> (k: usize)
        ensures
            k == self.count(),
    {
        self.boundaries.len()
    }

    /// The index range of segment `i` in the input buffer: from its boundary
    /// to the next one, or to the end of the buffer for the last segment.
    pub fn segment(&self, i: usize) -> (s: Segment)
        requires
            i < self.count(),
        ensures
            s.start == self.boundaries()[i as int],
            s.end == edge(self.boundaries(), self.buffer_len(), i + 1),
            s.start < s.end <= self.buffer_len(),
    {
        proof {
            use_type_invariant(self);
            lemma_edges_increase(self.boundaries@, self.buffer_len as nat, i as int, i + 1);
            if i + 1 < self.boundaries.len() {
                assert(!boundary_misplaced(self.boundaries@, self.buffer_len as nat, i + 1));
            }
        }
        let end = if i + 1 < self.boundaries.len() {
            self.boundaries[i + 1]
        } else {
            self.buffer_len
        };
        Segment { start: self.boundaries[i], end }
    }

    /// Where the result of segment `i` starts in the output buffer: at the
    /// segment's boundary, moved on by the forecasts of the segments before.
    pub fn output_offset(&self, i: usize) -> (offset: usize)
        requires
            i < self.count(),
        ensures
            offset == self.boundaries()[i as int] + i * self.forecast(),
            offset == self.offset(i as int),
    {
        proof {
            use_type_invariant(self);
            self.lemma_offsets_increase(i as int, self.count() as int);
            assert(0 <= i * self.forecast) by (nonlinear_arith);
            assert(self.offset(i as int) == self.boundaries@[i as int] + i * self.forecast);
            assert(self.offset(self.count() as int) == self.total_len());
            assert(self.total_len() <= usize::MAX);
        }
        self.boundaries[i] + i * self.forecast
    }

    /// The number of elements that the result of segment `i` must have: the
    /// segment's length plus the forecast.
    pub fn result_len(&self, i: usize) -> (len: usize)
        requires
            i < self.count(),
        ensures
            len == self.region_len(i as int),
    {
        proof {
            use_type_invariant(self);
            self.lemma_regions_disjoint(i as int, self.count() as int);
            self.lemma_regions_adjacent(i as int);
            assert(0 <= i * self.forecast) by (nonlinear_arith);
        }
        let s = self.segment(i);
        s.end - s.start + self.forecast
    }

    /// The number of elements that the output buffer must at least have: the
    /// input's length plus one forecast per segment.
    pub fn output_len(&self) -> (len: usize)
        ensures
            len == self.total_len(),
    {
        proof {
            use_type_invariant(self);
        }
        self.buffer_len + self.boundaries.len() * self.forecast
    }

    /// Writes the results of all segments to their regions of `output`, or
    /// none of them.
    ///
    /// `results[i]` is what the job of segment `i` returned. If every job
    /// succeeded with a result of the right length, region `i` of the output
    /// becomes `results[i]` and everything outside the regions is left as it
    /// was. Otherwise the output is left untouched and the error names the
    /// first segment without a usable result.
    pub fn collect<T: Copy>(
        &self,
        results: &Vec<Result<Vec<T>, ErrorKind>>,
        output: &mut Vec<T>,
    ) -> (r: Result<(), BatchError>)
        requires
            results.len() == self.count(),
            old(output).len() >= self.total_len(),
        ensures
            final(output).len() == old(output).len(),
            match r {
                Ok(()) => {
                    &&& forall|i: int|
                        0 <= i < self.count() ==> !#[trigger] self.job_failed(results@, i)
                    &&& forall|i: int|
                        0 <= i < self.count() ==> #[trigger] self.region(final(output)@, i)
                            == results[i]->Ok_0@
                    &&& forall|p: int|
                        0 <= p < old(output).len() && !(self.offset(0) <= p < self.total_len())
                            ==> final(output)[p] == old(output)[p]
                },
                Err(e) => {
                    &&& final(output)@ == old(output)@
                    &&& e.segment < self.count()
                    &&& self.job_failed(results@, e.segment as int)
                    &&& e.kind == self.failure_kind(results@, e.segment as int)
                    &&& forall|j: int|
                        0 <= j < e.segment ==> !#[trigger] self.job_failed(results@, j)
                },
            },
    {
        proof {
            use_type_invariant(self);
        }
        let k = self.boundaries.len();
        let mut i: usize = 0;
        while i < k
            invariant
                self.wf(),
                i <= k == self.count() == results.len(),
                forall|j: int| 0 <= j < i ==> !#[trigger] self.job_failed(results@, j),
            decreases k - i,
        {
            let expected = self.result_len(i);
            match &results[i] {
                Err(kind) => {
                    return Err(BatchError { kind: *kind, segment: i });
                },
                Ok(values) => {
                    if values.len() != expected {
                        return Err(BatchError { kind: ErrorKind::BoundsError, segment: i });
                    }
                },
            }
            i = i + 1;
        }
        let mut i: usize = 0;
        while i < k
            invariant
                self.wf(),
                i <= k == self.count() == results.len(),
                output.len() == old(output).len() >= self.total_len(),
                forall|j: int| 0 <= j < k ==> !#[trigger] self.job_failed(results@, j),
                forall|j: int|
                    0 <= j < i ==> #[trigger] self.region(output@, j) == results[j]->Ok_0@,
                forall|p: int|
                    0 <= p < output.len() && !(self.offset(0) <= p < self.offset(i as int))
                        ==> output[p] == old(output)[p],
            decreases k - i,
        {
            let offset = self.output_offset(i);
            let ghost before = output@;
            proof {
                assert(!self.job_failed(results@, i as int));
                self.lemma_regions_adjacent(i as int);
                self.lemma_regions_disjoint(i as int, k as int);
                self.lemma_offsets_increase(0, i as int);
            }
            match &results[i] {
                Ok(values) => {
                    place(output, offset, values);
                    proof {
                        assert(self.region(output@, i as int) =~= values@);
                        assert forall|j: int| 0 <= j < i implies #[trigger] self.region(
                            output@,
                            j,
                        ) == results[j]->Ok_0@ by {
                            self.lemma_regions_disjoint(j, i as int);
                            self.lemma_regions_adjacent(j);
                            assert(self.region(output@, j) =~= self.region(before, j));
                        }
                    }
                },
                Err(_) => {},
            }
            i = i + 1;
        }
        Ok(())
    }
}

} // verus!

//! What can go wrong, and where.

use vstd::prelude::*;

verus! {

/// The kinds of failure that a smoothing or forecasting call reports.
#[derive(Clone, Copy, Debug, PartialEq, Eq, Structural)]
pub enum ErrorKind {
    /// Window, order, derivative or difference order do not fit each other
    /// or the length of the series.
    InvalidParameters,
    /// The pseudo-inverse of the design matrix could not be computed.
    SingularMatrix,
    /// The penalised system could not be factorised.
    SingularSystem,
    /// The Gaussian process could not be fitted to the series.
    ModelFitError,
    /// The fitted Gaussian process could not be evaluated.
    PredictError,
    /// The boundary indices are not strictly increasing, point past the end
    /// of the buffer, or the buffer is empty.
    BoundsError,
}

/// A failure of a batch call: its kind and the index of the segment (or, for
/// a `BoundsError`, of the boundary) that caused it.
#[derive(Clone, Copy, Debug, PartialEq, Eq, Structural)]
pub struct BatchError {
    pub kind: ErrorKind,
    pub segment: usize,
}

} // verus!

//! Batch smoothing and forecasting of concatenated time series.
//!
//! One or more series lie one behind the other in a flat buffer, with an
//! array of boundary indices that says where each of them starts. Every
//! series is smoothed or forecast on its own, and the results go to a flat
//! output buffer: [`batch`] lays this out. The backends are
//! [`smoothers::sav_golay`], [`smoothers::whittaker`] and
//! [`gaussian_processes::gp`], over the convolution of
//! [`math_utils::convolve`], all written over the number type of [`scalar`].

pub mod batch;
pub mod error;
pub mod gaussian_processes;
pub mod math_utils;
pub mod scalar;
pub mod smoothers;

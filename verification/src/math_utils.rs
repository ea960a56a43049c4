//! Numerical primitives shared by the smoothers.

pub mod convolve;

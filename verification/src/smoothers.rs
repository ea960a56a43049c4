//! The smoothing backends.

pub mod sav_golay;
pub mod whittaker;

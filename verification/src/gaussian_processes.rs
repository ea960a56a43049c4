//! The forecasting backend.

pub mod gp;

//! The registry of validator weights per era, and the arithmetic of finality
//! thresholds.

pub mod fraction;
pub mod wide;
pub mod era_weights;
pub mod matrix;

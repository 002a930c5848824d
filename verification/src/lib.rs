//! Incremental builder for conic optimisation models.
//!
//! A model collects decision variables, a quadratic objective and linear
//! constraints, each constraint row tagged with the cone its residual lies in.
//! Matrices are sparse and grow by block concatenation.

pub mod cone;
pub mod lowering;
pub mod matrix;
pub mod model;
pub mod scalar;
pub mod solution;

//! Statistically notable random locations inside a circle on the Earth's surface.
//!
//! The library holds the exact, integer part of the engine: density grids with
//! Poisson z-scores, per-circle anomaly extraction, cross-circle winner selection,
//! request validation and the seven-circle layout. Coordinates are fixed-point
//! (nanodegrees) and z-scores are exact quotients, so every comparison is exact.

pub mod text;
pub mod zscore;
pub mod density;

pub mod error;
pub mod coord;
pub mod anomaly;
pub mod flower;
pub mod qrng;
pub mod format;
pub mod config;
pub mod history;

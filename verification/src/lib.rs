//! A 2D position/velocity state estimator that fuses high-rate inertial
//! (acceleration) readings with sparse absolute-position readings.
//!
//! The estimator is a fixed-dimension Kalman filter over exact rational
//! arithmetic: every prediction and correction step is an exact, verified
//! computation, and numerical failure modes (a singular innovation
//! covariance, an unrepresentable intermediate value) are surfaced as typed
//! errors instead of undefined results.

pub mod ekf;
pub mod laws;
pub mod rat;

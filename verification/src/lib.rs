//! Correlation-based predictive coding for multi-agent fleets.
//!
//! Each agent of a fleet emits a time series. A `FleetPredictor` keeps, for every
//! ordered pair of agents, the lag at which the first agent's past best predicts
//! the second one's future, and answers queries over what it has learned.
//!
//! Scores are held as integers: a correlation or an accuracy is stored as the
//! IEEE-754 bit pattern of its `f64` value. Accuracies are never negative, and
//! the bit patterns of non-negative doubles order exactly as the doubles do, so
//! every selection this library makes on accuracies is made on those integers.

pub mod model;
pub mod prediction;
pub mod predictor;
pub mod horizon;

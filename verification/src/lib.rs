//! Statistical hypothesis testing of behavioral difference between two event
//! logs, based on the Earth Mover's Distance (EMD) between their stochastic
//! languages.
//!
//! All numeric quantities are kept exact: empirical frequencies are stored as
//! integer counts over a total, and variant dissimilarities as integer
//! numerators over a per-metric scale ([`fraction::Fraction`]). The
//! transportation solver that turns an [`emd::EmdInstance`] into a single
//! distance value is an external collaborator supplied by the caller.

pub mod attributes;
pub mod binning;
pub mod bootstrap;
pub mod control_flow;
pub mod distance;
pub mod emd;
pub mod extraction;
pub mod fraction;
pub mod kmeans;
pub mod language;
pub mod matrix;
pub mod order;
pub mod percentile;
pub mod permutation;
pub mod retain;
pub mod rng;
pub mod sampling;
pub mod timed_levenshtein;
pub mod tokens;

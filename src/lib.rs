//! Equilibrium sampling of a one-dimensional Ising ring by single-site
//! heat-bath (Gibbs) updates, with exact integer statistics.
//!
//! Spins are `+1` or `-1`. The up-probability of a site depends only on the
//! sum of its two neighbours, which is `-2`, `0` or `2`; the three
//! probabilities are supplied as integer thresholds over uniform 64-bit
//! draws (see [`heat_bath::HeatBath`]). Every statistic is kept as exact
//! integer sums, so its value is a ratio of integers.
pub mod chain;
pub mod correlation;
pub mod heat_bath;
pub mod moments;
pub mod random;
pub mod sampler;

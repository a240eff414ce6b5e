//! The stores that samples are dispatched into, and the meters that they are
//! rendered into.

pub mod allans;
pub mod counters;
pub mod heatmaps;
pub mod histograms;
pub mod meters;
pub mod quantiles;
pub mod sample;

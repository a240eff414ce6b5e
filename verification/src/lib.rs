//! The aggregation core of a telemetry pipeline for latency- and
//! rate-sensitive workloads.
//!
//! Producers describe operations on named channels by samples: two readings
//! of a counter and a number of events. A [`Sender`] collects samples into
//! batches; a [`Receiver`] dispatches each sample of a batch into its stores
//! (event totals, latency histograms, Allan series and heatmaps), renders the
//! subscribed statistics into [`Meters`] at the end of every window, and
//! hands out traces and waterfalls at the end of every run.
//!
//! Every function is verified against a contract over the model in
//! [`model`]; what holds across functions is proved in [`laws`] and
//! [`consistency`]. The clock, the hash maps of the meters and the pool of
//! empty batches come from other crates; [`clock`], [`data::meters`] and
//! [`pool`] state what is taken on trust of them.

pub mod arith;
pub mod clock;
pub mod common;
pub mod config;
pub mod consistency;
pub mod data;
pub mod laws;
pub mod model;
pub mod pool;
pub mod receiver;
pub mod scrape;
pub mod sender;
pub mod table;
pub mod text;

pub use common::ControlMessage;
pub use common::Interest;
pub use common::Percentile;
pub use config::Config;
pub use data::meters::Meters;
pub use data::sample::Sample;
pub use receiver::Artifact;
pub use receiver::Receiver;
pub use receiver::RunStep;
pub use sender::Sender;

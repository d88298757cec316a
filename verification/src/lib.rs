//! Client library for MetCo, a metric collection server: builds the text lines of the MetCo
//! protocol (`name;tag=value|type|value`) and hands them to a transport.
pub mod client;
pub mod metrics;
pub mod prelude;
pub mod protocol;
pub mod transport;
pub mod types;
pub mod utils;

pub use client::{Client, ClientBuilder};
pub use metrics::{
    Counter, Gauge, GaugeHandle, GaugeOperation, Histogram, Metric, Timer, Timing, TimingResolution,
};
pub use types::Tags;

//! A module containing all the types and traits needed to use the library.
pub use crate::client::{Client, ClientBuilder};
pub use crate::metrics::{
    Counter, Gauge, GaugeHandle, GaugeOperation, Histogram, Metric, Timer, Timing, TimingResolution,
};
pub use crate::types::Tags;

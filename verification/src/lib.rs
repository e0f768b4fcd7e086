//! Verified core of the Zenoh-Flow performance suite: the stream framing and
//! the message statistics of the capture analyzer, the wire encoding of the
//! benchmark payloads, the settings, decisions and reports of the benchmark
//! nodes, and what a runtime loads and starts.

pub mod capture;
pub mod config;
pub mod data;
pub mod encoding;
pub mod framing;
pub mod nodes;
pub mod report;
pub mod runtime;
pub mod stats;
pub mod time;

pub use data::{CriterionData, LatData, Latency, ThrData};
pub use time::get_epoch_us;

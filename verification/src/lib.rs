//! Experiment planning for hierarchical constant-bandwidth scheduling measurements.

pub mod codec;
pub mod driver;
pub mod generator;
pub mod grid;
pub mod metrics;
pub mod model;
pub mod naming;
pub mod order;
pub mod planner;
pub mod session;
pub mod sorting;
pub mod table;
pub mod text;
pub mod time;
pub mod workload;

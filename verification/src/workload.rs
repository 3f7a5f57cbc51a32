//! What the two workloads are started with and what they report.

pub mod periodic_thread;
pub mod rt_app;

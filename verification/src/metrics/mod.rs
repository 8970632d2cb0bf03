//! Metrics as they are exposed to Prometheus.

pub mod controller_metrics;
pub mod forwarder_metrics;
pub mod lb_metrics;
pub mod registry;

//! What holds of the crate's operations, over all inputs, in terms of the
//! bytes, fields and instants that go in and come out.

pub mod bgp;
pub mod configuration;
pub mod control;
pub mod devices;
pub mod forwarding;
pub mod hashing;
pub mod health;
pub mod metrics;
pub mod packets;
pub mod stages;
pub mod texts;
pub mod tracing;
pub mod tracking;
pub mod tunnel;
pub mod values;

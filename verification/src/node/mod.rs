//! The rules of a node: start-up, readiness and the trace client's arguments.

pub mod ops_server;
pub mod setup;
pub mod trace_args;

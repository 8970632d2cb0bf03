//! A Maglev layer-4 load balancer: packet parsing, consistent hashing,
//! connection tracking, GRE encapsulation, health tracking, BGP sessions and
//! the controller that ties them together.
//!
//! Everything here is plain computation on values. Sockets, threads, clocks
//! and configuration files live in the application that uses this crate.

pub mod base;
pub mod bgp;
pub mod config_manager;
pub mod controller;
pub mod forwarder;
pub mod hashing;
pub mod health;
pub mod io;
pub mod laws;
pub mod metrics;
pub mod node;
pub mod types;

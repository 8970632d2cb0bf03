//! Configuration and packet types.

pub mod backend;
pub mod config;
pub mod error;
pub mod mtu;
pub mod packet;
pub mod vip;

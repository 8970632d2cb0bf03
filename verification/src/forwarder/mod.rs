//! The data plane: what happens to a packet between receive and transmit.

pub mod arena;
pub mod conn_table;
pub mod engine;
pub mod fragment_table;
pub mod gre;
pub mod icmp;
pub mod metrics;
pub mod mss_clamp;
pub mod packet_pool;
pub mod pipeline;
pub mod rewriter;
pub mod steering;
pub mod tracer;
pub mod tracking;
pub mod vip_matcher;

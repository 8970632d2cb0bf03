//! MTU parameters of the GRE tunnel.

use vstd::prelude::*;

use crate::base::text::{decimal, push_decimal};
use crate::types::error::LbError;

verus! {

/// GRE encapsulation overhead: 20-byte outer IPv4 + 4-byte GRE header.
pub const GRE_OVERHEAD: u16 = 24;

/// Minimum IP + TCP header size (no options).
pub const IP_TCP_HEADER_SIZE: u16 = 40;

/// RFC 879 minimum MSS.
pub const MIN_MSS: u16 = 536;

/// The smallest link MTU that carries meaningful IP traffic.
pub const MIN_NETWORK_MTU: u16 = 1280;

/// Derived MTU parameters for GRE tunneling.
///
/// Constructed from a single `network_mtu` value; all other parameters are
/// derived automatically.
#[derive(Debug, Clone, Copy, PartialEq, Eq, Structural)]
pub struct MtuConfig {
    /// The link MTU configured by the operator.
    pub network_mtu: u16,
    /// Maximum inner packet size that fits after GRE encapsulation.
    pub effective_inner_mtu: u16,
    /// Maximum MSS value to allow in TCP SYN/SYN-ACK packets.
    pub tcp_mss_clamp: u16,
}

impl MtuConfig {
    /// Derive all tunnel parameters from `network_mtu`.
    ///
    /// Returns an error if `network_mtu` is below 1280. From there on the
    /// derived MSS clamp is never below the RFC 879 minimum.
    pub fn new(network_mtu: u16) -> (r: Result<MtuConfig, LbError>)
        ensures
            match r {
                Ok(c) => {
                    &&& network_mtu >= MIN_NETWORK_MTU
                    &&& c.network_mtu == network_mtu
                    &&& c.effective_inner_mtu == network_mtu - GRE_OVERHEAD
                    &&& c.tcp_mss_clamp == network_mtu - GRE_OVERHEAD - IP_TCP_HEADER_SIZE
                    &&& c.tcp_mss_clamp >= MIN_MSS
                },
                Err(e) => {
                    &&& network_mtu < MIN_NETWORK_MTU
                    &&& e matches LbError::Config(m) && m@ == "network_mtu "@ + decimal(
                        network_mtu as int,
                    ) + " is below minimum 1280"@
                },
            },
    {
        if network_mtu < MIN_NETWORK_MTU {
            let mut m = "network_mtu ".to_owned();
            push_decimal(&mut m, network_mtu as u64);
            m.append(" is below minimum 1280");
            return Err(LbError::Config(m));
        }
        let effective_inner_mtu: u16 = network_mtu - GRE_OVERHEAD;
        let tcp_mss_clamp: u16 = effective_inner_mtu - IP_TCP_HEADER_SIZE;
        Ok(MtuConfig { network_mtu, effective_inner_mtu, tcp_mss_clamp })
    }
}

} // verus!

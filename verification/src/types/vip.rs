//! Virtual IP addresses and the services on them.

use vstd::prelude::*;

use crate::base::net::IpAddr;

verus! {

/// Unique identifier for a VIP.
#[derive(Debug, PartialEq, Eq, Hash)]
pub struct VipId(pub String);

impl Clone for VipId {
    fn clone(&self) -> (r: VipId)
        ensures
            r == *self,
    {
        VipId(self.0.clone())
    }
}

/// A Virtual IP address announced via BGP.
#[derive(Debug)]
pub struct Vip {
    pub id: VipId,
    pub address: IpAddr,
    pub services: Vec<VipService>,
    pub owner: String,
    pub description: String,
}

/// L4 protocol discriminator matching IP protocol numbers.
#[derive(Debug, Clone, Copy, PartialEq, Eq, Hash, Structural)]
pub enum Protocol {
    Tcp,
    Udp,
}

/// A (protocol, port) service bound to a VIP, mapping to a backend pool.
#[derive(Debug, PartialEq, Eq, Hash)]
pub struct VipService {
    pub protocol: Protocol,
    pub port: u16,
    pub backend_pool: String,
}

impl Clone for VipService {
    fn clone(&self) -> (r: VipService)
        ensures
            r == *self,
    {
        VipService {
            protocol: self.protocol,
            port: self.port,
            backend_pool: self.backend_pool.clone(),
        }
    }
}

impl Protocol {
    /// The IP protocol number.
    pub open spec fn number(self) -> u8 {
        match self {
            Protocol::Tcp => 6,
            Protocol::Udp => 17,
        }
    }

    /// The IP protocol number.
    pub fn to_ip_proto(&self) -> (n: u8)
        ensures
            n == self.number(),
    {
        match self {
            Protocol::Tcp => 6,
            Protocol::Udp => 17,
        }
    }

    /// The protocol with IP protocol number `proto`.
    pub open spec fn of_number(proto: u8) -> Option<Protocol> {
        if proto == 6 {
            Some(Protocol::Tcp)
        } else if proto == 17 {
            Some(Protocol::Udp)
        } else {
            None
        }
    }

    pub fn from_ip_proto(proto: u8) -> (r: Option<Protocol>)
        ensures
            r == Protocol::of_number(proto),
    {
        match proto {
            6 => Some(Protocol::Tcp),
            17 => Some(Protocol::Udp),
            _ => None,
        }
    }
}

/// A protocol is found again under its own number, and under no other.
pub proof fn protocol_number_round_trip(p: Protocol, n: u8)
    ensures
        Protocol::of_number(n) == Some(p) <==> n == p.number(),
{
}

} // verus!

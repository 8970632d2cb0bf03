//! Backends and the pools they form.

use vstd::prelude::*;

use crate::base::assoc::MapKey;
use crate::base::net::IpAddr;
use crate::base::text::{decimal, push_decimal};
use crate::types::config::HealthCheckConfig;

verus! {

/// Unique identifier for a backend pool.
#[derive(Debug, PartialEq, Eq, Hash)]
pub struct BackendPoolId(pub String);

impl View for BackendPoolId {
    type V = Seq<char>;

    /// The identifier's text.
    open spec fn view(&self) -> Seq<char> {
        self.0@
    }
}

impl MapKey for BackendPoolId {
    fn same(&self, other: &BackendPoolId) -> (b: bool) {
        self.0 == other.0
    }
}

impl Clone for BackendPoolId {
    fn clone(&self) -> (r: BackendPoolId)
        ensures
            r == *self,
    {
        BackendPoolId(self.0.clone())
    }
}

/// Health status of a backend as determined by the health checker.
#[derive(Debug, Clone, Copy, PartialEq, Eq, Structural)]
pub enum HealthStatus {
    Unknown,
    Healthy,
    Unhealthy,
}

/// A single backend server in a pool.
///
/// `drain` takes a backend out of the next table rebuild, so that no new flows
/// land on it, without marking it unhealthy: flows that are already pinned to
/// it complete on their own timeline.
#[derive(Debug, Clone, Copy, PartialEq, Eq, Hash, Structural)]
pub struct Backend {
    pub ip: IpAddr,
    pub port: u16,
    pub weight: u32,
    pub drain: bool,
}

/// The weight of a backend for which none is given.
pub fn default_weight() -> (w: u32)
    ensures
        w == 1,
{
    1
}

impl Backend {
    pub fn new(ip: IpAddr, port: u16) -> (b: Backend)
        ensures
            b == (Backend { ip, port, weight: 1, drain: false }),
    {
        Backend { ip, port, weight: default_weight(), drain: false }
    }

    /// The address, a colon and the port.
    pub open spec fn name_text(self) -> Seq<char> {
        self.ip.text() + ":"@ + decimal(self.port as int)
    }

    /// Stable name used for Maglev hashing permutation derivation.
    pub fn name(&self) -> (s: String)
        ensures
            s@ == self.name_text(),
    {
        let mut s = self.ip.to_text();
        s.append(":");
        push_decimal(&mut s, self.port as u64);
        s
    }
}

/// An ordered set of backend endpoints serving a VIP service.
#[derive(Debug)]
pub struct BackendPool {
    pub id: BackendPoolId,
    pub backends: Vec<Backend>,
    pub health_check: Option<HealthCheckConfig>,
}

impl Clone for BackendPool {
    fn clone(&self) -> (r: BackendPool)
        ensures
            r.id == self.id,
            r.backends@ == self.backends@,
            r.health_check == self.health_check,
    {
        let mut backends: Vec<Backend> = Vec::with_capacity(self.backends.len());
        let mut i: usize = 0;
        while i < self.backends.len()
            invariant
                i <= self.backends@.len(),
                backends@ == self.backends@.take(i as int),
            decreases self.backends@.len() - i,
        {
            backends.push(self.backends[i]);
            i = i + 1;
            assert(backends@ =~= self.backends@.take(i as int));
        }
        assert(self.backends@.take(i as int) =~= self.backends@);
        BackendPool { id: self.id.clone(), backends, health_check: self.health_check }
    }
}

} // verus!

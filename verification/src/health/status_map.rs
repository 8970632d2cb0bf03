//! The last known health of each backend address.

use dashmap::DashMap;
use vstd::prelude::*;

use crate::base::net::IpAddr;
use crate::types::backend::HealthStatus;

verus! {

#[verifier::external_type_specification]
#[verifier::external_body]
#[verifier::reject_recursive_types(K)]
#[verifier::reject_recursive_types(V)]
#[verifier::reject_recursive_types(S)]
pub struct ExDashMap<K, V, S>(DashMap<K, V, S>);

/// What a map holds, keyed by address family and address bits.
pub uninterp spec fn map_entries(m: DashMap<(u8, u64, u64), u8>) -> Map<(u8, u64, u64), u8>;

/// Calls `dashmap::DashMap::new`. Claims that the map is empty.
#[verifier::external_body]
fn map_new() -> (m: DashMap<(u8, u64, u64), u8>)
    ensures
        map_entries(m).dom() == Set::<(u8, u64, u64)>::empty(),
{
    DashMap::new()
}

/// Calls `dashmap::DashMap::insert` on a map that no one else holds. Claims
/// that the key is then mapped to the value, and every other key as before.
#[verifier::external_body]
fn map_insert(m: &mut DashMap<(u8, u64, u64), u8>, key: (u8, u64, u64), value: u8)
    ensures
        map_entries(*final(m)) == map_entries(*old(m)).insert(key, value),
{
    let _ = m.insert(key, value);
}

/// Calls `dashmap::DashMap::get` on a map that no one changes meanwhile.
/// Claims that it gives the value that the key is mapped to.
#[verifier::external_body]
fn map_get(m: &DashMap<(u8, u64, u64), u8>, key: (u8, u64, u64)) -> (r: Option<u8>)
    ensures
        r == (if map_entries(*m).contains_key(key) {
            Some(map_entries(*m)[key])
        } else {
            None
        }),
{
    m.get(&key).map(|v| *v)
}

/// The key of an address: its family and its bits.
pub open spec fn address_key(ip: IpAddr) -> (u8, u64, u64) {
    match ip {
        IpAddr::V4(v4) => (4, 0, v4.number() as u64),
        IpAddr::V6(v6) => (6, v6.halves().0 as u64, v6.halves().1 as u64),
    }
}

/// The status for a number.
pub open spec fn status_of_code(c: u8) -> HealthStatus {
    if c == 1 {
        HealthStatus::Healthy
    } else if c == 2 {
        HealthStatus::Unhealthy
    } else {
        HealthStatus::Unknown
    }
}

/// The last known health of each backend address.
pub struct HealthMap {
    map: DashMap<(u8, u64, u64), u8>,
}

impl View for HealthMap {
    type V = Map<IpAddr, HealthStatus>;

    closed spec fn view(&self) -> Map<IpAddr, HealthStatus> {
        Map::new(
            |ip: IpAddr| map_entries(self.map).contains_key(address_key(ip)),
            |ip: IpAddr| status_of_code(map_entries(self.map)[address_key(ip)]),
        )
    }
}

proof fn lemma_address_key_injective(x: IpAddr, y: IpAddr)
    ensures
        address_key(x) == address_key(y) ==> x == y,
{
    if address_key(x) == address_key(y) {
        match (x, y) {
            (IpAddr::V4(a), IpAddr::V4(b)) => {
                crate::base::net::lemma_ipv4_number_injective(a, b);
            },
            (IpAddr::V6(a), IpAddr::V6(b)) => {
                crate::base::net::lemma_ipv6_halves_injective(a, b);
            },
            _ => {},
        }
    }
}

fn key_of(ip: IpAddr) -> (k: (u8, u64, u64))
    ensures
        k == address_key(ip),
{
    match ip {
        IpAddr::V4(v4) => (4, 0, v4.to_number() as u64),
        IpAddr::V6(v6) => {
            let h = v6.to_halves();
            (6, h.0, h.1)
        },
    }
}

/// Whether traffic may go to a backend address: it is not known to be
/// unhealthy.
pub open spec fn usable(health: Map<IpAddr, HealthStatus>, ip: IpAddr) -> bool {
    !(health.contains_key(ip) && health[ip] is Unhealthy)
}

impl HealthMap {
    pub fn new() -> (m: HealthMap)
        ensures
            m@ == Map::<IpAddr, HealthStatus>::empty(),
    {
        let m = HealthMap { map: map_new() };
        assert(m@ =~= Map::<IpAddr, HealthStatus>::empty());
        m
    }

    /// Records the status of an address.
    pub fn insert(&mut self, ip: IpAddr, status: HealthStatus)
        ensures
            final(self)@ == old(self)@.insert(ip, status),
    {
        let code: u8 = match status {
            HealthStatus::Unknown => 0,
            HealthStatus::Healthy => 1,
            HealthStatus::Unhealthy => 2,
        };
        map_insert(&mut self.map, key_of(ip), code);
        proof {
            assert forall|x: IpAddr| address_key(x) == address_key(ip) implies x == ip by {
                lemma_address_key_injective(x, ip);
            }
            assert(self@ =~= old(self)@.insert(ip, status));
        }
    }

    /// The status of an address, if one was recorded.
    pub fn get(&self, ip: &IpAddr) -> (r: Option<HealthStatus>)
        ensures
            r == (if self@.contains_key(*ip) {
                Some(self@[*ip])
            } else {
                None
            }),
    {
        match map_get(&self.map, key_of(*ip)) {
            Some(1) => Some(HealthStatus::Healthy),
            Some(2) => Some(HealthStatus::Unhealthy),
            Some(_) => Some(HealthStatus::Unknown),
            None => None,
        }
    }

    /// Whether traffic may go to an address. One whose health is not known
    /// yet is treated as healthy.
    pub fn is_usable(&self, ip: &IpAddr) -> (b: bool)
        ensures
            b == usable(self@, *ip),
    {
        match self.get(ip) {
            Some(HealthStatus::Unhealthy) => false,
            _ => true,
        }
    }
}

impl Default for HealthMap {
    fn default() -> (m: HealthMap)
        ensures
            m@ == Map::<IpAddr, HealthStatus>::empty(),
    {
        HealthMap::new()
    }
}

} // verus!

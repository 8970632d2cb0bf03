//! Which backend pool serves a destination.

use vstd::prelude::*;

use crate::base::assoc::{AssocMap, MapKey};
use crate::base::net::IpAddr;
use crate::types::backend::BackendPoolId;
use crate::types::vip::Protocol;

verus! {

/// Key for VIP matching: (destination IP, protocol, port).
#[derive(Debug, Clone, Copy, PartialEq, Eq, Hash, Structural)]
pub struct VipKey {
    pub ip: IpAddr,
    pub protocol: Protocol,
    pub port: u16,
}

impl View for VipKey {
    type V = VipKey;

    open spec fn view(&self) -> VipKey {
        *self
    }
}

impl MapKey for VipKey {
    fn same(&self, other: &VipKey) -> (b: bool) {
        *self == *other
    }
}

/// The mapping that a list of entries describes. Where two entries have the
/// same key, the later one holds.
pub open spec fn entries_map(
    entries: Seq<(IpAddr, Protocol, u16, BackendPoolId)>,
) -> Map<VipKey, BackendPoolId>
    decreases entries.len(),
{
    if entries.len() == 0 {
        Map::empty()
    } else {
        let (ip, protocol, port, pool) = entries.last();
        entries_map(entries.drop_last()).insert(VipKey { ip, protocol, port }, pool)
    }
}

/// Matches incoming packets against configured VIPs.
///
/// Immutable after construction. Swap it as a whole on config change.
pub struct VipMatcher {
    table: AssocMap<VipKey, BackendPoolId>,
}

impl View for VipMatcher {
    type V = Map<VipKey, BackendPoolId>;

    closed spec fn view(&self) -> Map<VipKey, BackendPoolId> {
        self.table@
    }
}

impl VipMatcher {
    pub closed spec fn wf(self) -> bool {
        self.table.wf()
    }

    pub fn new() -> (m: VipMatcher)
        ensures
            m.wf(),
            m@ == Map::<VipKey, BackendPoolId>::empty(),
    {
        VipMatcher { table: AssocMap::new() }
    }

    /// Build a VipMatcher from a list of (ip, protocol, port, pool_id) tuples.
    pub fn from_entries(entries: Vec<(IpAddr, Protocol, u16, BackendPoolId)>) -> (m: VipMatcher)
        ensures
            m.wf(),
            m@ == entries_map(entries@),
    {
        let mut table: AssocMap<VipKey, BackendPoolId> = AssocMap::new();
        let mut i: usize = 0;
        while i < entries.len()
            invariant
                i <= entries@.len(),
                table.wf(),
                table@ == entries_map(entries@.take(i as int)),
            decreases entries@.len() - i,
        {
            let e = &entries[i];
            table.insert(VipKey { ip: e.0, protocol: e.1, port: e.2 }, e.3.clone());
            proof {
                assert(entries@.take(i + 1).drop_last() =~= entries@.take(i as int));
            }
            i = i + 1;
        }
        assert(entries@.take(i as int) =~= entries@);
        VipMatcher { table }
    }

    /// Match a packet's destination to a backend pool.
    pub fn match_packet(
        &self,
        dst_ip: IpAddr,
        protocol: Protocol,
        dst_port: u16,
    ) -> (r: Option<&BackendPoolId>)
        requires
            self.wf(),
        ensures
            ({
                let key = VipKey { ip: dst_ip, protocol, port: dst_port };
                match r {
                    Some(pool) => self@.contains_key(key) && *pool == self@[key],
                    None => !self@.contains_key(key),
                }
            }),
    {
        self.table.get(&VipKey { ip: dst_ip, protocol, port: dst_port })
    }
}

impl Default for VipMatcher {
    fn default() -> (m: VipMatcher)
        ensures
            m.wf(),
            m@ == Map::<VipKey, BackendPoolId>::empty(),
    {
        VipMatcher::new()
    }
}

} // verus!

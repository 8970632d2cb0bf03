//! From the load balancer configuration to the forwarder's tables.

use vstd::prelude::*;

use crate::base::net::IpAddr;
use crate::config_manager::applier::{table_views, tables_wf, LookupTables};
use crate::config_manager::loader::LbConfig;
use crate::forwarder::vip_matcher::{entries_map, VipMatcher};
use crate::hashing::lookup_table::{
    active_backends, default_table_size_is_prime, maglev_entries, LookupTable, TableView,
    DEFAULT_TABLE_SIZE,
};
use crate::types::backend::{BackendPool, BackendPoolId};
use crate::types::vip::{Protocol, Vip, VipService};

verus! {

/// An entry of the VIP matcher.
pub type VipEntry = (IpAddr, Protocol, u16, BackendPoolId);

/// The entries of one VIP, one for each service.
pub open spec fn service_entries(address: IpAddr, services: Seq<VipService>) -> Seq<VipEntry> {
    Seq::new(
        services.len(),
        |j: int|
            (
                address,
                services[j].protocol,
                services[j].port,
                BackendPoolId(services[j].backend_pool),
            ),
    )
}

/// The entries of all VIPs, in order.
pub open spec fn vip_entries(vips: Seq<Vip>) -> Seq<VipEntry>
    decreases vips.len(),
{
    if vips.len() == 0 {
        Seq::empty()
    } else {
        vip_entries(vips.drop_last()) + service_entries(
            vips.last().address,
            vips.last().services@,
        )
    }
}

/// Build VIP matcher entries from LB config.
pub fn build_vip_matcher(config: &LbConfig) -> (m: VipMatcher)
    ensures
        m.wf(),
        m@ == entries_map(vip_entries(config.vips@)),
{
    let mut entries: Vec<VipEntry> = Vec::new();
    let mut i: usize = 0;
    while i < config.vips.len()
        invariant
            i <= config.vips@.len(),
            entries@ == vip_entries(config.vips@.take(i as int)),
        decreases config.vips@.len() - i,
    {
        let vip: &Vip = &config.vips[i];
        let ghost before = entries@;
        let mut j: usize = 0;
        while j < vip.services.len()
            invariant
                j <= vip.services@.len(),
                entries@ =~= before + service_entries(vip.address, vip.services@).take(j as int),
            decreases vip.services@.len() - j,
        {
            let svc: &VipService = &vip.services[j];
            entries.push(
                (
                    vip.address,
                    svc.protocol,
                    svc.port,
                    BackendPoolId(svc.backend_pool.clone()),
                ),
            );
            j = j + 1;
        }
        assert(service_entries(vip.address, vip.services@).take(j as int) =~= service_entries(
            vip.address,
            vip.services@,
        ));
        assert(config.vips@.take(i + 1).drop_last() =~= config.vips@.take(i as int));
        i = i + 1;
    }
    assert(config.vips@.take(i as int) =~= config.vips@);
    VipMatcher::from_entries(entries)
}

/// The tables before any health is known: one for each pool that has a backend
/// with a weight above zero, drained backends included.
pub open spec fn initial_tables(
    before: Map<Seq<char>, TableView>,
    pools: Seq<BackendPool>,
) -> Map<Seq<char>, TableView>
    decreases pools.len(),
{
    if pools.len() == 0 {
        before
    } else {
        let t = initial_tables(before, pools.drop_last());
        let members = active_backends(pools.last().backends@);
        if members.len() == 0 {
            t
        } else {
            t.insert(
                pools.last().id@,
                TableView { members, slots: maglev_entries(members, DEFAULT_TABLE_SIZE as int) },
            )
        }
    }
}

/// Apply an LB config: build lookup tables and update VIP matcher.
pub fn apply_lb_config(
    config: &LbConfig,
    lookup_tables: &mut LookupTables,
    vip_matcher: &mut VipMatcher,
)
    requires
        tables_wf(*old(lookup_tables)),
    ensures
        tables_wf(*final(lookup_tables)),
        table_views(final(lookup_tables)@) == initial_tables(
            table_views(old(lookup_tables)@),
            config.pools@,
        ),
        final(vip_matcher).wf(),
        final(vip_matcher)@ == entries_map(vip_entries(config.vips@)),
{
    proof {
        default_table_size_is_prime();
    }
    let ghost first = table_views(lookup_tables@);
    let mut i: usize = 0;
    while i < config.pools.len()
        invariant
            i <= config.pools@.len(),
            crate::hashing::permutation::is_prime(DEFAULT_TABLE_SIZE as int),
            tables_wf(*lookup_tables),
            table_views(lookup_tables@) == initial_tables(first, config.pools@.take(i as int)),
        decreases config.pools@.len() - i,
    {
        let pool: &BackendPool = &config.pools[i];
        let ghost before = *lookup_tables;
        if let Ok(table) = LookupTable::build(pool.backends.as_slice(), DEFAULT_TABLE_SIZE) {
            let ghost tv = table@;
            lookup_tables.insert(pool.id.clone(), table);
            assert(table_views(lookup_tables@) =~= table_views(before@).insert(pool.id@, tv));
            assert(tables_wf(*lookup_tables)) by {
                assert forall|id: Seq<char>| #[trigger]
                    lookup_tables@.contains_key(id) implies lookup_tables@[id].wf() by {
                    if id != pool.id@ {
                        assert(before@.contains_key(id));
                    }
                }
            }
        }
        assert(config.pools@.take(i + 1).drop_last() =~= config.pools@.take(i as int));
        i = i + 1;
    }
    assert(config.pools@.take(i as int) =~= config.pools@);
    *vip_matcher = build_vip_matcher(config);
}

} // verus!

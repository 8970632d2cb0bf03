//! Which addresses are announced, which tables are built, and when.

use vstd::prelude::*;

use crate::base::net::{IpAddr, Ipv4Addr};
use crate::base::time::Instant;
use crate::config_manager::applier::{
    all_pool_tables, available_backends, candidate_backends, has_address, indexed, is_index_of,
    partial_rebuild_agrees, pool_table, pool_tables, pools_of_address,
};
use crate::config_manager::loader::LbConfig;
use crate::config_manager::pool_set::PoolSet;
use crate::controller::{
    any_usable, configured, desired_vips, flushed, flushed_if_due, health_changed, pool_serves,
    vip_serves, wants_announced, BgpUpdate, ControllerState,
};
use crate::hashing::lookup_table::{active_backends, maglev_entries, zero_weight_is_excluded};
use crate::health::status_map::usable;
use crate::types::backend::{Backend, BackendPool, HealthStatus};

verus! {

/// Whether the `i`-th VIP stands at address `a`, its `j`-th service names the
/// `p`-th pool, no later pool has that name, and the `b`-th backend of the pool
/// is not known to be unhealthy.
pub open spec fn backed_by(
    c: LbConfig,
    health: Map<IpAddr, HealthStatus>,
    a: Ipv4Addr,
    i: int,
    j: int,
    p: int,
    b: int,
) -> bool {
    &&& 0 <= i < c.vips@.len()
    &&& c.vips@[i].address == IpAddr::V4(a)
    &&& 0 <= j < c.vips@[i].services@.len()
    &&& 0 <= p < c.pools@.len()
    &&& c.pools@[p].id@ == c.vips@[i].services@[j].backend_pool@
    &&& forall|q: int|
        p < q < c.pools@.len() ==> (#[trigger] c.pools@[q]).id@
            != c.vips@[i].services@[j].backend_pool@
    &&& 0 <= b < c.pools@[p].backends@.len()
    &&& !(health.contains_key(c.pools@[p].backends@[b].ip)
        && health[c.pools@[p].backends@[b].ip] is Unhealthy)
}

proof fn lemma_pool_serves(
    pools: Seq<BackendPool>,
    health: Map<IpAddr, HealthStatus>,
    name: Seq<char>,
) -> (p: int)
    ensures
        pool_serves(pools, health, name) ==> {
            &&& 0 <= p < pools.len()
            &&& pools[p].id@ == name
            &&& forall|q: int| p < q < pools.len() ==> (#[trigger] pools[q]).id@ != name
            &&& any_usable(pools[p].backends@, health)
        },
    decreases pools.len(),
{
    if pools.len() == 0 {
        0
    } else if pools.last().id@ == name {
        pools.len() - 1
    } else {
        let p = lemma_pool_serves(pools.drop_last(), health, name);
        if pool_serves(pools, health, name) {
            assert(pools.drop_last()[p] == pools[p]);
            assert forall|q: int| p < q < pools.len() implies (#[trigger] pools[q]).id@ != name by {
                if q < pools.len() - 1 {
                    assert(pools.drop_last()[q] == pools[q]);
                }
            }
        }
        p
    }
}

proof fn lemma_last_pool_serves(
    pools: Seq<BackendPool>,
    health: Map<IpAddr, HealthStatus>,
    name: Seq<char>,
    p: int,
)
    requires
        0 <= p < pools.len(),
        pools[p].id@ == name,
        forall|q: int| p < q < pools.len() ==> (#[trigger] pools[q]).id@ != name,
    ensures
        pool_serves(pools, health, name) == any_usable(pools[p].backends@, health),
    decreases pools.len(),
{
    if p < pools.len() - 1 {
        assert(pools[pools.len() - 1].id@ != name);
        let r = pools.drop_last();
        assert forall|q: int| p < q < r.len() implies (#[trigger] r[q]).id@ != name by {
            assert(pools[q].id@ != name);
        }
        lemma_last_pool_serves(r, health, name, p);
    }
}

/// An IPv4 address is to be announced if and only if a VIP stands at it, one of
/// the VIP's services, wherever in its list, names a pool, and a backend of that
/// pool, the last of its name, is not known to be unhealthy. Without a
/// configuration nothing is.
pub proof fn announced_addresses_have_a_backend(
    c: LbConfig,
    health: Map<IpAddr, HealthStatus>,
    a: Ipv4Addr,
)
    ensures
        desired_vips(Some(c), health).contains(a) <==> exists|i: int, j: int, p: int, b: int|
            backed_by(c, health, a, i, j, p, b),
        !desired_vips(None, health).contains(a),
{
    if desired_vips(Some(c), health).contains(a) {
        let i = choose|i: int|
            0 <= i < c.vips@.len() && (#[trigger] c.vips@[i]).address == IpAddr::V4(a)
                && vip_serves(c.vips@[i].services@, c.pools@, health);
        let services = c.vips@[i].services@;
        let j = choose|j: int|
            0 <= j < services.len() && pool_serves(
                c.pools@,
                health,
                (#[trigger] services[j]).backend_pool@,
            );
        let p = lemma_pool_serves(c.pools@, health, services[j].backend_pool@);
        let bs = c.pools@[p].backends@;
        let b = choose|b: int|
            0 <= b < bs.len() && usable(health, (#[trigger] bs[b]).ip);
        assert(backed_by(c, health, a, i, j, p, b));
    }
    if exists|i: int, j: int, p: int, b: int| backed_by(c, health, a, i, j, p, b) {
        let (i, j, p, b) = choose|i: int, j: int, p: int, b: int|
            backed_by(c, health, a, i, j, p, b);
        let services = c.vips@[i].services@;
        lemma_last_pool_serves(c.pools@, health, services[j].backend_pool@, p);
        assert(any_usable(c.pools@[p].backends@, health)) by {
            assert(usable(health, c.pools@[p].backends@[b].ip));
        }
        assert(pool_serves(c.pools@, health, services[j].backend_pool@));
        assert(vip_serves(services, c.pools@, health));
        assert(wants_announced(c.vips@, c.pools@, health, a)) by {
            assert(c.vips@[i].address == IpAddr::V4(a));
        }
    }
}

/// Adding services to VIPs, and VIPs to a configuration, takes no address out of
/// the announced set.
pub proof fn more_services_withdraw_nothing(
    c: LbConfig,
    e: LbConfig,
    health: Map<IpAddr, HealthStatus>,
    a: Ipv4Addr,
)
    requires
        e.pools@ == c.pools@,
        e.vips@.len() >= c.vips@.len(),
        forall|i: int|
            0 <= i < c.vips@.len() ==> (#[trigger] c.vips@[i]).address == e.vips@[i].address,
        forall|i: int, j: int|
            0 <= i < c.vips@.len() && 0 <= j < c.vips@[i].services@.len() ==> exists|k: int|
                0 <= k < e.vips@[i].services@.len() && (
                #[trigger] e.vips@[i].services@[k]).backend_pool@ == (
                #[trigger] c.vips@[i].services@[j]).backend_pool@,
        desired_vips(Some(c), health).contains(a),
    ensures
        desired_vips(Some(e), health).contains(a),
{
    announced_addresses_have_a_backend(c, health, a);
    announced_addresses_have_a_backend(e, health, a);
    let (i, j, p, b) = choose|i: int, j: int, p: int, b: int| backed_by(c, health, a, i, j, p, b);
    let k = choose|k: int|
        0 <= k < e.vips@[i].services@.len() && (#[trigger] e.vips@[i].services@[k]).backend_pool@
            == c.vips@[i].services@[j].backend_pool@;
    assert(c.vips@[i].address == e.vips@[i].address);
    assert(backed_by(e, health, a, i, k, p, b));
}

/// While a backend's health changes to anything but unhealthy, no address leaves
/// the announced set; while it changes to unhealthy, none joins it.
pub proof fn announcements_move_with_health(
    c: LbConfig,
    health: Map<IpAddr, HealthStatus>,
    ip: IpAddr,
    status: HealthStatus,
    a: Ipv4Addr,
)
    ensures
        !(status is Unhealthy) && desired_vips(Some(c), health).contains(a) ==> desired_vips(
            Some(c),
            health.insert(ip, status),
        ).contains(a),
        status is Unhealthy && desired_vips(Some(c), health.insert(ip, status)).contains(a)
            ==> desired_vips(Some(c), health).contains(a),
{
    let after = health.insert(ip, status);
    announced_addresses_have_a_backend(c, health, a);
    announced_addresses_have_a_backend(c, after, a);
    if !(status is Unhealthy) && desired_vips(Some(c), health).contains(a) {
        let (i, j, p, b) = choose|i: int, j: int, p: int, b: int|
            backed_by(c, health, a, i, j, p, b);
        assert(backed_by(c, after, a, i, j, p, b));
    }
    if status is Unhealthy && desired_vips(Some(c), after).contains(a) {
        let (i, j, p, b) = choose|i: int, j: int, p: int, b: int|
            backed_by(c, after, a, i, j, p, b);
        assert(backed_by(c, health, a, i, j, p, b));
    }
}

/// An update announces what is new and withdraws what is gone, each address once
/// and in ascending order, and nothing else.
pub proof fn updates_name_the_difference(u: BgpUpdate, from: Set<Ipv4Addr>, to: Set<Ipv4Addr>, a: Ipv4Addr)
    requires
        u.leads(from, to),
    ensures
        u.announce@.contains(a) <==> to.contains(a) && !from.contains(a),
        u.withdraw@.contains(a) <==> from.contains(a) && !to.contains(a),
        forall|i: int, j: int|
            0 <= i < j < u.announce@.len() ==> (#[trigger] u.announce@[i]).number() < (
            #[trigger] u.announce@[j]).number(),
        forall|i: int, j: int|
            0 <= i < j < u.withdraw@.len() ==> (#[trigger] u.withdraw@[i]).number() < (
            #[trigger] u.withdraw@[j]).number(),
{
    assert(to.difference(from).contains(a) <==> to.contains(a) && !from.contains(a));
    assert(from.difference(to).contains(a) <==> from.contains(a) && !to.contains(a));
}

/// A backend is available for a new table if it is not drained and not known to
/// be unhealthy; the available ones keep their order, and if there is none, all
/// of them stand in.
pub proof fn tables_are_built_from_available_backends(
    s: Seq<Backend>,
    b: Backend,
    health: Map<IpAddr, HealthStatus>,
)
    ensures
        available_backends(Seq::<Backend>::empty(), health) == Seq::<Backend>::empty(),
        available_backends(s.push(b), health) == (if !b.drain && !(health.contains_key(b.ip)
            && health[b.ip] is Unhealthy) {
            available_backends(s, health).push(b)
        } else {
            available_backends(s, health)
        }),
        available_backends(s, health).len() > 0 ==> candidate_backends(s, health)
            == available_backends(s, health),
        available_backends(s, health).len() == 0 ==> candidate_backends(s, health) == s,
{
    assert(s.push(b).drop_last() =~= s);
    assert(s.push(b).last() == b);
}

/// A pool has a table exactly if one of its candidates has a weight above zero;
/// its table is the Maglev table of those candidates.
pub proof fn pools_with_weight_have_a_table(
    s: Seq<Backend>,
    health: Map<IpAddr, HealthStatus>,
    m: int,
)
    ensures
        ({
            let c = candidate_backends(s, health);
            &&& pool_table(s, health, m) is Some <==> exists|i: int|
                0 <= i < c.len() && (#[trigger] c[i]).weight > 0
            &&& pool_table(s, health, m) matches Some(t) ==> t.members == active_backends(c)
                && t.slots == maglev_entries(t.members, m)
        }),
{
    let c = candidate_backends(s, health);
    let a = active_backends(c);
    if a.len() > 0 {
        zero_weight_is_excluded(c, a[0]);
        assert(a.contains(a[0]));
        let i = choose|i: int| 0 <= i < c.len() && c[i] == a[0];
        assert(c[i].weight > 0);
    }
    if exists|i: int| 0 <= i < c.len() && (#[trigger] c[i]).weight > 0 {
        let i = choose|i: int| 0 <= i < c.len() && (#[trigger] c[i]).weight > 0;
        zero_weight_is_excluded(c, c[i]);
        assert(c.contains(c[i]));
        assert(a.contains(c[i]));
    }
}

/// The table of a pool's name is that of the last pool of the name that has one;
/// a name without such a pool has none. With only some pools wanted, the others
/// get none.
pub proof fn last_pool_of_a_name_counts(
    pools: Seq<BackendPool>,
    wanted: spec_fn(Seq<char>) -> bool,
    health: Map<IpAddr, HealthStatus>,
    m: int,
    name: Seq<char>,
    p: int,
)
    ensures
        (!wanted(name) || forall|i: int|
            0 <= i < pools.len() && (#[trigger] pools[i]).id@ == name ==> pool_table(
                pools[i].backends@,
                health,
                m,
            ) is None) ==> !pool_tables(pools, wanted, health, m).contains_key(name),
        wanted(name) && 0 <= p < pools.len() && pools[p].id@ == name && (pool_table(
            pools[p].backends@,
            health,
            m,
        ) is Some) && (forall|i: int|
            p < i < pools.len() && (#[trigger] pools[i]).id@ == name ==> pool_table(
                pools[i].backends@,
                health,
                m,
            ) is None) ==> {
            let t = pool_tables(pools, wanted, health, m);
            t.contains_key(name) && Some(t[name]) == pool_table(pools[p].backends@, health, m)
        },
        wanted(name) ==> (all_pool_tables(pools, health, m).contains_key(name) <==> pool_tables(
            pools,
            wanted,
            health,
            m,
        ).contains_key(name)),
    decreases pools.len(),
{
    partial_rebuild_agrees(pools, wanted, health, m, name);
    if pools.len() > 0 {
        let r = pools.drop_last();
        last_pool_of_a_name_counts(r, wanted, health, m, name, p);
        assert(pools[pools.len() - 1] == pools.last());
        assert(forall|i: int| 0 <= i < r.len() ==> #[trigger] r[i] == pools[i]);
    }
}

/// The index of a configuration names for each address the pools with a backend
/// at it, all of them and no others.
pub proof fn index_names_the_pools_of_an_address(
    index: Map<IpAddr, PoolSet>,
    pools: Seq<BackendPool>,
    ip: IpAddr,
    name: Seq<char>,
)
    requires
        is_index_of(index, pools),
    ensures
        (index.contains_key(ip) && index[ip]@.contains(name)) <==> exists|p: int, b: int|
            0 <= p < pools.len() && pools[p].id@ == name && 0 <= b < pools[p].backends@.len() && (
            #[trigger] pools[p].backends@[b]).ip == ip,
        pools_of_address(pools, ip).contains(name) <==> exists|p: int, b: int|
            0 <= p < pools.len() && pools[p].id@ == name && 0 <= b < pools[p].backends@.len() && (
            #[trigger] pools[p].backends@[b]).ip == ip,
{
    assert(indexed(index, ip) == pools_of_address(pools, ip));
    if pools_of_address(pools, ip).contains(name) {
        let p = choose|p: int|
            0 <= p < pools.len() && (#[trigger] pools[p]).id@ == name && has_address(
                pools[p].backends@,
                ip,
            );
        let b = choose|b: int|
            0 <= b < pools[p].backends@.len() && (#[trigger] pools[p].backends@[b]).ip == ip;
        assert(pools[p].backends@[b].ip == ip);
    }
    if exists|p: int, b: int|
        0 <= p < pools.len() && pools[p].id@ == name && 0 <= b < pools[p].backends@.len() && (
        #[trigger] pools[p].backends@[b]).ip == ip {
        let (p, b) = choose|p: int, b: int|
            0 <= p < pools.len() && pools[p].id@ == name && 0 <= b < pools[p].backends@.len() && (
            #[trigger] pools[p].backends@[b]).ip == ip;
        assert(has_address(pools[p].backends@, ip));
        assert(pools[p].id@ == name);
    }
}

/// A health change is recorded and announced at once. The pools of the address
/// wait for their rebuild until 50 milliseconds after the first change that is
/// waiting; then all that wait are rebuilt and nothing waits.
pub proof fn rebuilds_wait_fifty_milliseconds(
    s: ControllerState,
    ip: IpAddr,
    status: HealthStatus,
    now: Instant,
    name: Seq<char>,
)
    ensures
        ({
            let after = health_changed(s, ip, status, now);
            let touched = s.config matches Some(c) && exists|p: int, b: int|
                0 <= p < c.pools@.len() && 0 <= b < c.pools@[p].backends@.len() && (
                #[trigger] c.pools@[p].backends@[b]).ip == ip;
            let since = if s.pending_since is Some {
                s.pending_since
            } else if touched {
                Some(now)
            } else {
                None
            };
            let due = since matches Some(t) && now.nanos >= t.nanos + 50_000_000;
            &&& after.health == s.health.insert(ip, status)
            &&& after.config == s.config && after.table_size == s.table_size && after.bgp == s.bgp
            &&& after.announced == (if s.bgp {
                desired_vips(s.config, s.health.insert(ip, status))
            } else {
                s.announced
            })
            &&& !due ==> {
                &&& after.tables == s.tables
                &&& after.pending_since == since
                &&& after.pending.contains(name) <==> s.pending.contains(name) || (
                s.config matches Some(c) && pools_of_address(c.pools@, ip).contains(name))
            }
            &&& due ==> after.pending_since is None && !after.pending.contains(name)
        }),
{
    if let Some(c) = s.config {
        let affected = pools_of_address(c.pools@, ip);
        if exists|p: int, b: int|
            0 <= p < c.pools@.len() && 0 <= b < c.pools@[p].backends@.len() && (
            #[trigger] c.pools@[p].backends@[b]).ip == ip {
            let (p, b) = choose|p: int, b: int|
                0 <= p < c.pools@.len() && 0 <= b < c.pools@[p].backends@.len() && (
                #[trigger] c.pools@[p].backends@[b]).ip == ip;
            assert(has_address(c.pools@[p].backends@, ip));
            assert(affected.contains(c.pools@[p].id@)) by {
                assert(c.pools@[p].id@ == c.pools@[p].id@);
            }
        } else {
            assert(affected =~= Set::<Seq<char>>::empty()) by {
                assert forall|x: Seq<char>| !affected.contains(x) by {
                    if affected.contains(x) {
                        let p = choose|p: int|
                            0 <= p < c.pools@.len() && (#[trigger] c.pools@[p]).id@ == x
                                && has_address(c.pools@[p].backends@, ip);
                        let b = choose|b: int|
                            0 <= b < c.pools@[p].backends@.len() && (
                            #[trigger] c.pools@[p].backends@[b]).ip == ip;
                        assert(c.pools@[p].backends@[b].ip == ip);
                    }
                }
            }
        }
    }
}

/// A tick rebuilds what waits if and only if 50 milliseconds have gone by since
/// the first change that waits, and does nothing else.
pub proof fn ticks_rebuild_what_is_due(s: ControllerState, now: Instant)
    ensures
        s.pending_since is None ==> flushed_if_due(s, now) == s,
        s.pending_since matches Some(t) ==> {
            &&& now.nanos < t.nanos + 50_000_000 ==> flushed_if_due(s, now) == s
            &&& now.nanos >= t.nanos + 50_000_000 ==> flushed_if_due(s, now) == flushed(s)
        },
{
}

/// A rebuild gives each pool that waits the table that the configuration and the
/// health as known give it, and leaves the rest of what the controller remembers
/// alone.
pub proof fn rebuilds_use_current_health(s: ControllerState, c: LbConfig, name: Seq<char>)
    requires
        s.config == Some(c),
    ensures
        ({
            let after = flushed(s);
            let fresh = all_pool_tables(c.pools@, s.health, s.table_size);
            &&& s.pending.contains(name) && fresh.contains_key(name) ==> after.tables.contains_key(
                name,
            ) && after.tables[name] == fresh[name]
            &&& !s.pending.contains(name) || !fresh.contains_key(name) ==> (
            after.tables.contains_key(name) <==> s.tables.contains_key(name)) && (
            after.tables.contains_key(name) ==> after.tables[name] == s.tables[name])
            &&& after.pending == Set::<Seq<char>>::empty() && after.pending_since is None
            &&& after.health == s.health && after.config == s.config && after.announced
                == s.announced && after.bgp == s.bgp && after.table_size == s.table_size
        }),
{
    partial_rebuild_agrees(
        c.pools@,
        |id: Seq<char>| s.pending.contains(id),
        s.health,
        s.table_size,
        name,
    );
}

/// Applying a configuration builds every pool's table anew from it and the health
/// as known, drops the tables of all other pools, and brings the announcements in
/// line at once; health and table size stay as they are.
pub proof fn configurations_rebuild_everything(s: ControllerState, c: LbConfig)
    ensures
        ({
            let after = configured(s, c);
            &&& after.tables == all_pool_tables(c.pools@, s.health, s.table_size)
            &&& after.config == Some(c)
            &&& after.health == s.health && after.table_size == s.table_size && after.bgp == s.bgp
            &&& after.pending == Set::<Seq<char>>::empty() && after.pending_since is None
            &&& after.announced == (if s.bgp {
                desired_vips(Some(c), s.health)
            } else {
                s.announced
            })
        }),
{
}

} // verus!

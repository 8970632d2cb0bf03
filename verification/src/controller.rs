//! The control-plane orchestrator: keeps lookup tables and announced VIPs in
//! step with configuration and backend health.

use vstd::prelude::*;

use crate::base::addr_set::{is_listing, listing_is_unique, AddrSet};
use crate::base::assoc::{AssocMap, MapKey};
use crate::base::net::{IpAddr, Ipv4Addr};
use crate::base::time::{elapsed_nanos, Instant, NANOS_PER_MILLI};
use crate::bgp::session::SessionCmd;
use crate::config_manager::applier::{
    agree_on, all_pool_tables, apply_tables, build_backend_pool_index, build_lookup_tables,
    build_tables,
    health_change_is_local, indexed, is_index_of, only_configured_pools_have_tables,
    partial_rebuild_agrees, pool_tables, pools_of_address, replace_tables,
    table_views, tables_wf, BackendPoolIndex, LookupTables,
};
use crate::config_manager::loader::LbConfig;
use crate::config_manager::pool_set::PoolSet;
use crate::hashing::lookup_table::TableView;
use crate::hashing::permutation::is_prime;
use crate::health::status_map::{usable, HealthMap};
use crate::types::backend::{Backend, BackendPool, HealthStatus};
use crate::types::vip::{Vip, VipService};

verus! {

/// Health change events within this window are batched into a single rebuild
/// per affected pool. Limits redundant work when correlated failures (e.g., a
/// rack switch dying) take multiple backends offline simultaneously.
pub const DEBOUNCE_WINDOW_MILLIS: u128 = 50;

/// Whether some backend is not known to be unhealthy.
pub open spec fn any_usable(s: Seq<Backend>, health: Map<IpAddr, HealthStatus>) -> bool {
    exists|i: int| 0 <= i < s.len() && usable(health, (#[trigger] s[i]).ip)
}

/// Whether the pool named `name` has a usable backend. Of two pools with one
/// name the later counts; a pool that does not exist has none.
pub open spec fn pool_serves(
    pools: Seq<BackendPool>,
    health: Map<IpAddr, HealthStatus>,
    name: Seq<char>,
) -> bool
    decreases pools.len(),
{
    if pools.len() == 0 {
        false
    } else if pools.last().id@ == name {
        any_usable(pools.last().backends@, health)
    } else {
        pool_serves(pools.drop_last(), health, name)
    }
}

/// Whether some service of a VIP has a pool with a usable backend.
pub open spec fn vip_serves(
    services: Seq<VipService>,
    pools: Seq<BackendPool>,
    health: Map<IpAddr, HealthStatus>,
) -> bool {
    exists|j: int|
        0 <= j < services.len() && pool_serves(
            pools,
            health,
            (#[trigger] services[j]).backend_pool@,
        )
}

/// Whether a VIP at address `a` is to be announced.
pub open spec fn wants_announced(
    vips: Seq<Vip>,
    pools: Seq<BackendPool>,
    health: Map<IpAddr, HealthStatus>,
    a: Ipv4Addr,
) -> bool {
    exists|i: int|
        0 <= i < vips.len() && (#[trigger] vips[i]).address == IpAddr::V4(a) && vip_serves(
            vips[i].services@,
            pools,
            health,
        )
}

/// The addresses to announce: IPv4 VIPs with a usable backend behind them.
pub open spec fn desired_vips(
    config: Option<LbConfig>,
    health: Map<IpAddr, HealthStatus>,
) -> Set<Ipv4Addr> {
    match config {
        Some(c) => Set::new(|a: Ipv4Addr| wants_announced(c.vips@, c.pools@, health, a)),
        None => Set::empty(),
    }
}

/// What the controller remembers.
pub struct ControllerState {
    pub tables: Map<Seq<char>, TableView>,
    pub health: Map<IpAddr, HealthStatus>,
    pub config: Option<LbConfig>,
    pub pending: Set<Seq<char>>,
    pub pending_since: Option<Instant>,
    pub table_size: int,
    pub bgp: bool,
    pub announced: Set<Ipv4Addr>,
}

/// The pools that an address belongs to, by the current configuration.
pub open spec fn affected_pools(config: Option<LbConfig>, ip: IpAddr) -> Set<Seq<char>> {
    match config {
        Some(c) => pools_of_address(c.pools@, ip),
        None => Set::empty(),
    }
}

/// The controller after its announcements follow configuration and health.
pub open spec fn synced(s: ControllerState) -> ControllerState {
    if s.bgp {
        ControllerState { announced: desired_vips(s.config, s.health), ..s }
    } else {
        s
    }
}

/// The controller after all pending rebuilds.
pub open spec fn flushed(s: ControllerState) -> ControllerState {
    ControllerState {
        tables: match s.config {
            Some(c) => s.tables.union_prefer_right(
                pool_tables(
                    c.pools@,
                    |id: Seq<char>| s.pending.contains(id),
                    s.health,
                    s.table_size,
                ),
            ),
            None => s.tables,
        },
        pending: Set::empty(),
        pending_since: None,
        ..s
    }
}

/// The controller after pending rebuilds whose window has run out by `now`.
pub open spec fn flushed_if_due(s: ControllerState, now: Instant) -> ControllerState {
    match s.pending_since {
        Some(since) => if elapsed_nanos(since, now) >= DEBOUNCE_WINDOW_MILLIS * NANOS_PER_MILLI {
            flushed(s)
        } else {
            s
        },
        None => s,
    }
}

/// The controller after the health of `ip` changed, before any rebuild.
pub open spec fn health_noted(
    s: ControllerState,
    ip: IpAddr,
    status: HealthStatus,
    now: Instant,
) -> ControllerState {
    let affected = affected_pools(s.config, ip);
    ControllerState {
        health: s.health.insert(ip, status),
        pending: s.pending.union(affected),
        pending_since: if s.pending_since is None && affected != Set::<Seq<char>>::empty() {
            Some(now)
        } else {
            s.pending_since
        },
        ..s
    }
}

/// The controller after the health of `ip` changed.
pub open spec fn health_changed(
    s: ControllerState,
    ip: IpAddr,
    status: HealthStatus,
    now: Instant,
) -> ControllerState {
    flushed_if_due(synced(health_noted(s, ip, status, now)), now)
}

/// The controller after a configuration was applied.
pub open spec fn configured(s: ControllerState, config: LbConfig) -> ControllerState {
    synced(
        ControllerState {
            tables: all_pool_tables(config.pools@, s.health, s.table_size),
            config: Some(config),
            pending: Set::empty(),
            pending_since: None,
            ..s
        },
    )
}

/// What the BGP speaker is to announce and to withdraw.
pub struct BgpUpdate {
    pub announce: Vec<Ipv4Addr>,
    pub withdraw: Vec<Ipv4Addr>,
}

impl BgpUpdate {
    /// Whether the update takes the announced set from `from` to `to`: what is
    /// new is announced, what is gone is withdrawn, each in ascending order.
    pub open spec fn leads(self, from: Set<Ipv4Addr>, to: Set<Ipv4Addr>) -> bool {
        &&& is_listing(self.announce@, to.difference(from))
        &&& is_listing(self.withdraw@, from.difference(to))
    }

    /// The commands that carry the update out: announcements first. An empty
    /// list needs no command.
    pub fn commands(self) -> (cmds: Vec<SessionCmd>)
        ensures
            cmds@ == (if self.announce@.len() > 0 {
                seq![SessionCmd::Announce(self.announce)]
            } else {
                Seq::empty()
            }) + (if self.withdraw@.len() > 0 {
                seq![SessionCmd::Withdraw(self.withdraw)]
            } else {
                Seq::empty()
            }),
    {
        let mut cmds: Vec<SessionCmd> = Vec::new();
        if self.announce.len() > 0 {
            cmds.push(SessionCmd::Announce(self.announce));
        }
        if self.withdraw.len() > 0 {
            cmds.push(SessionCmd::Withdraw(self.withdraw));
        }
        cmds
    }
}

fn no_update() -> (u: BgpUpdate)
    ensures
        u.announce@.len() == 0,
        u.withdraw@.len() == 0,
        forall|s: Set<Ipv4Addr>| #[trigger] u.leads(s, s),
{
    let u = BgpUpdate { announce: Vec::new(), withdraw: Vec::new() };
    assert forall|s: Set<Ipv4Addr>| #[trigger] u.leads(s, s) by {
        assert(s.difference(s) =~= Set::<Ipv4Addr>::empty());
    }
    u
}

/// The control-plane orchestrator. Coordinates health checking, BGP, and config.
pub struct Controller {
    /// Lookup tables (controller writes, forwarder reads).
    lookup_tables: LookupTables,
    /// Health status (controller writes, forwarder reads).
    health_status: HealthMap,
    /// Current config.
    config: Option<LbConfig>,
    /// Reverse index: backend IP -> pool IDs that contain it.
    /// Rebuilt on config change so health flaps only rebuild affected pools.
    backend_pool_index: BackendPoolIndex,
    /// Pool IDs that need a lookup table rebuild. Accumulated across multiple
    /// `on_health_change` calls and flushed after the debounce window.
    pending_pools: PoolSet,
    /// When the first change in the current debounce window arrived.
    /// `None` means no pending changes.
    pending_since: Option<Instant>,
    /// Local cache path.
    cache_path: Option<String>,
    /// Maglev table size.
    table_size: usize,
    /// Whether a BGP speaker is attached. When it is, the controller keeps
    /// the set of announced VIPs in sync with the set of VIPs whose backing
    /// pool has at least one healthy backend.
    bgp: bool,
    /// VIPs the controller believes are currently announced. Only IPv4 VIPs
    /// are tracked — IPv6 BGP announcement is out of scope.
    vips_announced: AddrSet,
}

impl View for Controller {
    type V = ControllerState;

    closed spec fn view(&self) -> ControllerState {
        ControllerState {
            tables: table_views(self.lookup_tables@),
            health: self.health_status@,
            config: self.config,
            pending: self.pending_pools@,
            pending_since: self.pending_since,
            table_size: self.table_size as int,
            bgp: self.bgp,
            announced: self.vips_announced@,
        }
    }
}

fn has_usable_backend(pool: &BackendPool, health: &HealthMap) -> (b: bool)
    ensures
        b == any_usable(pool.backends@, health@),
{
    let mut i: usize = 0;
    while i < pool.backends.len()
        invariant
            i <= pool.backends@.len(),
            forall|j: int| 0 <= j < i ==> !usable(health@, (#[trigger] pool.backends@[j]).ip),
        decreases pool.backends@.len() - i,
    {
        if health.is_usable(&pool.backends[i].ip) {
            assert(usable(health@, pool.backends@[i as int].ip));
            return true;
        }
        i = i + 1;
    }
    false
}

fn pool_is_served(pools: &Vec<BackendPool>, health: &HealthMap, name: &String) -> (b: bool)
    ensures
        b == pool_serves(pools@, health@, name@),
{
    let mut k: usize = pools.len();
    assert(pools@.take(k as int) =~= pools@);
    while k > 0
        invariant
            k <= pools@.len(),
            pool_serves(pools@, health@, name@) == pool_serves(
                pools@.take(k as int),
                health@,
                name@,
            ),
        decreases k,
    {
        assert(pools@.take(k as int).drop_last() =~= pools@.take(k - 1));
        if pools[k - 1].id.0.same(name) {
            return has_usable_backend(&pools[k - 1], health);
        }
        k = k - 1;
    }
    false
}

fn vip_is_served(vip: &Vip, pools: &Vec<BackendPool>, health: &HealthMap) -> (b: bool)
    ensures
        b == vip_serves(vip.services@, pools@, health@),
{
    let mut j: usize = 0;
    while j < vip.services.len()
        invariant
            j <= vip.services@.len(),
            forall|i: int|
                0 <= i < j ==> !pool_serves(
                    pools@,
                    health@,
                    (#[trigger] vip.services@[i]).backend_pool@,
                ),
        decreases vip.services@.len() - j,
    {
        if pool_is_served(pools, health, &vip.services[j].backend_pool) {
            assert(pool_serves(pools@, health@, vip.services@[j as int].backend_pool@));
            return true;
        }
        j = j + 1;
    }
    false
}

/// Compute the set of VIPs that currently have at least one healthy
/// backend in their pool. Only IPv4 VIPs are considered for BGP.
pub fn desired_announced_vips(config: &Option<LbConfig>, health: &HealthMap) -> (s: AddrSet)
    ensures
        s.wf(),
        s@ == desired_vips(*config, health@),
{
    let mut out = AddrSet::new();
    match config {
        None => {
            assert(out@ =~= desired_vips(*config, health@));
            out
        },
        Some(c) => {
            let mut i: usize = 0;
            assert(out@ =~= Set::new(
                |a: Ipv4Addr| wants_announced(c.vips@.take(0), c.pools@, health@, a),
            ));
            while i < c.vips.len()
                invariant
                    i <= c.vips@.len(),
                    out.wf(),
                    out@ == Set::new(
                        |a: Ipv4Addr|
                            wants_announced(c.vips@.take(i as int), c.pools@, health@, a),
                    ),
                decreases c.vips@.len() - i,
            {
                let vip: &Vip = &c.vips[i];
                let ghost before = out@;
                let served = vip_is_served(vip, &c.pools, health);
                if let IpAddr::V4(v4) = vip.address {
                    if served {
                        out.insert(v4);
                    }
                }
                proof {
                    let was = c.vips@.take(i as int);
                    let now = c.vips@.take(i + 1);
                    assert forall|a: Ipv4Addr| out@.contains(a) <==> wants_announced(
                        now,
                        c.pools@,
                        health@,
                        a,
                    ) by {
                        assert(before.contains(a) <==> wants_announced(
                            was,
                            c.pools@,
                            health@,
                            a,
                        ));
                        if wants_announced(was, c.pools@, health@, a) {
                            let k = choose|k: int|
                                0 <= k < was.len() && (#[trigger] was[k]).address == IpAddr::V4(a)
                                    && vip_serves(was[k].services@, c.pools@, health@);
                            assert(now[k].address == IpAddr::V4(a));
                        }
                        if wants_announced(now, c.pools@, health@, a) {
                            let k = choose|k: int|
                                0 <= k < now.len() && (#[trigger] now[k]).address == IpAddr::V4(a)
                                    && vip_serves(now[k].services@, c.pools@, health@);
                            if k < i {
                                assert(was[k].address == IpAddr::V4(a));
                            }
                        }
                        if vip.address == IpAddr::V4(a) && served {
                            assert(now[i as int].address == IpAddr::V4(a));
                        }
                    }
                    assert(out@ =~= Set::new(
                        |a: Ipv4Addr| wants_announced(now, c.pools@, health@, a),
                    ));
                }
                i = i + 1;
            }
            assert(c.vips@.take(i as int) =~= c.vips@);
            out
        },
    }
}

impl Controller {
    /// The tables can be looked up in, the index belongs to the configuration,
    /// and a debounce window is open exactly while rebuilds are pending.
    pub closed spec fn wf(self) -> bool {
        &&& tables_wf(self.lookup_tables)
        &&& self.backend_pool_index.wf()
        &&& is_prime(self.table_size as int)
        &&& self.vips_announced.wf()
        &&& match self.config {
            Some(c) => is_index_of(self.backend_pool_index@, c.pools@),
            None => self.backend_pool_index@ == Map::<IpAddr, PoolSet>::empty(),
        }
        &&& self.pending_since is Some <==> self.pending_pools@ != Set::<Seq<char>>::empty()
    }

    /// `table_size` must be prime.
    pub fn new(lookup_tables: LookupTables, health_status: HealthMap, table_size: usize) -> (c:
        Controller)
        requires
            tables_wf(lookup_tables),
            is_prime(table_size as int),
        ensures
            c.wf(),
            c@ == (ControllerState {
                tables: table_views(lookup_tables@),
                health: health_status@,
                config: None,
                pending: Set::empty(),
                pending_since: None,
                table_size: table_size as int,
                bgp: false,
                announced: Set::empty(),
            }),
    {
        Controller {
            lookup_tables,
            health_status,
            config: None,
            backend_pool_index: AssocMap::new(),
            pending_pools: PoolSet::new(),
            pending_since: None,
            cache_path: None,
            table_size,
            bgp: false,
            vips_announced: AddrSet::new(),
        }
    }

    /// Where applied configurations are cached.
    pub closed spec fn cache(self) -> Option<String> {
        self.cache_path
    }

    pub fn with_cache_path(self, path: String) -> (c: Controller)
        ensures
            self.wf() ==> c.wf(),
            c@ == self@,
            c.cache() == Some(path),
    {
        Controller {
            lookup_tables: self.lookup_tables,
            health_status: self.health_status,
            config: self.config,
            backend_pool_index: self.backend_pool_index,
            pending_pools: self.pending_pools,
            pending_since: self.pending_since,
            cache_path: Some(path),
            table_size: self.table_size,
            bgp: self.bgp,
            vips_announced: self.vips_announced,
        }
    }

    /// Where applied configurations are to be cached.
    pub fn cache_path(&self) -> (p: Option<&String>)
        ensures
            match p {
                Some(s) => self.cache() == Some(*s),
                None => self.cache() is None,
            },
    {
        match &self.cache_path {
            Some(s) => Some(s),
            None => None,
        }
    }

    /// Attach a BGP speaker. Every subsequent config or health change will
    /// diff the set of VIPs-with-healthy-pool against `vips_announced` and
    /// say what to announce and withdraw.
    pub fn with_bgp(self) -> (c: Controller)
        ensures
            self.wf() ==> c.wf(),
            c@ == (ControllerState { bgp: true, ..self@ }),
            c.cache() == self.cache(),
    {
        Controller {
            lookup_tables: self.lookup_tables,
            health_status: self.health_status,
            config: self.config,
            backend_pool_index: self.backend_pool_index,
            pending_pools: self.pending_pools,
            pending_since: self.pending_since,
            cache_path: self.cache_path,
            table_size: self.table_size,
            bgp: true,
            vips_announced: self.vips_announced,
        }
    }

    /// Re-announce every VIP in the current desired set. Call after the BGP
    /// speaker reports a peer has (re)connected, so that peer gets the full
    /// announcement state even if individual commands were dropped while it
    /// was down.
    pub fn reannounce_all(&self) -> (v: Vec<Ipv4Addr>)
        requires
            self.wf(),
        ensures
            self@.bgp ==> is_listing(v@, self@.announced),
            !self@.bgp ==> v@.len() == 0,
    {
        if self.bgp {
            self.vips_announced.to_list()
        } else {
            Vec::new()
        }
    }

    /// Withdraw every VIP currently believed-announced. Call this on graceful
    /// shutdown so the upstream router removes this node from ECMP *before*
    /// the process exits.
    ///
    /// Clears `vips_announced`; any later re-announce path (e.g.
    /// `reannounce_all`) therefore has nothing to fire.
    pub fn withdraw_all(&mut self) -> (v: Vec<Ipv4Addr>)
        requires
            old(self).wf(),
        ensures
            final(self).wf(),
            final(self)@ == (ControllerState { announced: Set::empty(), ..old(self)@ }),
            final(self).cache() == old(self).cache(),
            old(self)@.bgp ==> is_listing(v@, old(self)@.announced),
            !old(self)@.bgp ==> v@.len() == 0,
    {
        let v = self.reannounce_all();
        self.vips_announced = AddrSet::new();
        v
    }

    /// Apply a new configuration. Rebuilds all lookup tables and swaps them.
    ///
    /// Any pending debounced rebuilds are discarded since we're rebuilding everything.
    pub fn apply_config(&mut self, config: LbConfig) -> (u: BgpUpdate)
        requires
            old(self).wf(),
        ensures
            final(self).wf(),
            final(self)@ == configured(old(self)@, config),
            final(self).cache() == old(self).cache(),
            u.leads(old(self)@.announced, final(self)@.announced),
    {
        self.pending_pools = PoolSet::new();
        self.pending_since = None;
        let new_tables = build_lookup_tables(&config, &self.health_status, self.table_size);
        // Pools that the new config no longer mentions are dropped.
        replace_tables(new_tables, &mut self.lookup_tables);
        self.backend_pool_index = build_backend_pool_index(&config);
        self.config = Some(config);
        self.sync_bgp_announcements()
    }

    /// Diff desired VIPs against currently-announced VIPs. No-op if no BGP
    /// speaker is attached.
    fn sync_bgp_announcements(&mut self) -> (u: BgpUpdate)
        requires
            old(self).wf(),
        ensures
            final(self).wf(),
            final(self)@ == synced(old(self)@),
            final(self).cache() == old(self).cache(),
            u.leads(old(self)@.announced, final(self)@.announced),
    {
        if !self.bgp {
            return no_update();
        }
        let desired = desired_announced_vips(&self.config, &self.health_status);
        let announce = desired.minus(&self.vips_announced);
        let withdraw = self.vips_announced.minus(&desired);
        self.vips_announced = desired;
        BgpUpdate { announce, withdraw }
    }

    /// Record a backend health status change.
    ///
    /// The health status is updated immediately so the rewriter's per-packet
    /// health check sees it right away. The lookup table rebuild is debounced:
    /// affected pool IDs are accumulated and flushed after the debounce window
    /// (50ms) has elapsed since the first pending change. This coalesces
    /// correlated failures into a single rebuild per affected pool.
    ///
    /// Call [`Self::tick`] periodically to flush pending rebuilds if no further
    /// `on_health_change` calls arrive.
    pub fn on_health_change(
        &mut self,
        backend_ip: IpAddr,
        status: HealthStatus,
        now: Instant,
    ) -> (u: BgpUpdate)
        requires
            old(self).wf(),
        ensures
            final(self).wf(),
            final(self)@ == health_changed(old(self)@, backend_ip, status, now),
            final(self).cache() == old(self).cache(),
            u.leads(old(self)@.announced, final(self)@.announced),
    {
        self.health_status.insert(backend_ip, status);
        let ghost affected = affected_pools(self.config, backend_ip);
        assert(indexed(self.backend_pool_index@, backend_ip) == affected);
        match self.backend_pool_index.get(&backend_ip) {
            Some(pool_ids) => {
                assert(affected != Set::<Seq<char>>::empty());
                self.pending_pools.extend(pool_ids);
                if self.pending_since.is_none() {
                    self.pending_since = Some(now);
                }
                proof {
                    let name = affected.choose();
                    assert(affected.contains(name)) by {
                        if forall|x: Seq<char>| !affected.contains(x) {
                            assert(affected =~= Set::<Seq<char>>::empty());
                        }
                    }
                    assert(self.pending_pools@.contains(name));
                }
            },
            None => {
                assert(affected =~= Set::<Seq<char>>::empty());
                assert(self.pending_pools@.union(affected) =~= self.pending_pools@);
            },
        }
        assert(self@ == health_noted(old(self)@, backend_ip, status, now));
        // BGP announcements are reconciled eagerly (not debounced): a VIP
        // with zero healthy backends must be withdrawn immediately so the
        // router stops sending it traffic.
        let u = self.sync_bgp_announcements();
        self.maybe_flush(now);
        u
    }

    /// Drive pending debounced rebuilds. Call this periodically from the
    /// control-plane event loop so that changes are flushed even if no further
    /// `on_health_change` calls arrive after a burst.
    pub fn tick(&mut self, now: Instant)
        requires
            old(self).wf(),
        ensures
            final(self).wf(),
            final(self)@ == flushed_if_due(old(self)@, now),
            final(self).cache() == old(self).cache(),
    {
        self.maybe_flush(now);
    }

    /// Returns true if there are pending pool rebuilds waiting for the
    /// debounce window to elapse.
    pub fn has_pending_rebuilds(&self) -> (b: bool)
        requires
            self.wf(),
        ensures
            b == (self@.pending_since is Some),
            b == (self@.pending != Set::<Seq<char>>::empty()),
    {
        self.pending_since.is_some()
    }

    /// Flush all pending pool rebuilds immediately, ignoring the debounce window.
    /// Useful for shutdown or testing.
    pub fn flush_pending(&mut self)
        requires
            old(self).wf(),
        ensures
            final(self).wf(),
            final(self)@ == flushed(old(self)@),
            final(self).cache() == old(self).cache(),
    {
        self.flush();
    }

    /// Get the current config.
    pub fn config(&self) -> (c: Option<&LbConfig>)
        ensures
            match c {
                Some(x) => self@.config == Some(*x),
                None => self@.config is None,
            },
    {
        match &self.config {
            Some(x) => Some(x),
            None => None,
        }
    }

    /// The lookup tables as they stand.
    pub fn lookup_tables(&self) -> (t: &LookupTables)
        requires
            self.wf(),
        ensures
            tables_wf(*t),
            table_views(t@) == self@.tables,
    {
        &self.lookup_tables
    }

    /// The health of the backends as known.
    pub fn health_status(&self) -> (h: &HealthMap)
        ensures
            h@ == self@.health,
    {
        &self.health_status
    }

    fn maybe_flush(&mut self, now: Instant)
        requires
            old(self).wf(),
        ensures
            final(self).wf(),
            final(self)@ == flushed_if_due(old(self)@, now),
            final(self).cache() == old(self).cache(),
    {
        if let Some(since) = self.pending_since {
            if now.duration_since(since).nanos >= DEBOUNCE_WINDOW_MILLIS * NANOS_PER_MILLI {
                self.flush();
            }
        }
    }

    fn flush(&mut self)
        requires
            old(self).wf(),
        ensures
            final(self).wf(),
            final(self)@ == flushed(old(self)@),
            final(self).cache() == old(self).cache(),
    {
        if let Some(config) = &self.config {
            let new_tables = build_tables(
                config.pools.as_slice(),
                Some(&self.pending_pools),
                &self.health_status,
                self.table_size,
            );
            apply_tables(new_tables, &mut self.lookup_tables);
        }
        self.pending_pools = PoolSet::new();
        self.pending_since = None;
    }
}

/// Whether every pool that is not waiting for a rebuild has the table that the
/// configuration and the known health give it.
pub open spec fn in_step(s: ControllerState) -> bool {
    s.config matches Some(c) ==> forall|name: Seq<char>|
        !s.pending.contains(name) && #[trigger] all_pool_tables(
            c.pools@,
            s.health,
            s.table_size,
        ).contains_key(name) ==> s.tables.contains_key(name) && s.tables[name] == all_pool_tables(
            c.pools@,
            s.health,
            s.table_size,
        )[name]
}

/// A flush rebuilds the pending pools to what a full rebuild would give them,
/// leaves all other tables alone, and leaves nothing pending.
pub proof fn flush_is_local(s: ControllerState, name: Seq<char>)
    ensures
        flushed(s).pending == Set::<Seq<char>>::empty(),
        flushed(s).pending_since is None,
        !s.pending.contains(name) ==> agree_on(flushed(s).tables, s.tables, name),
        s.config matches Some(c) ==> (s.pending.contains(name) && all_pool_tables(
            c.pools@,
            s.health,
            s.table_size,
        ).contains_key(name) ==> agree_on(
            flushed(s).tables,
            all_pool_tables(c.pools@, s.health, s.table_size),
            name,
        )),
{
    if let Some(c) = s.config {
        partial_rebuild_agrees(
            c.pools@,
            |id: Seq<char>| s.pending.contains(id),
            s.health,
            s.table_size,
            name,
        );
    }
}

/// Debounced rebuilds lose nothing: applying a configuration, a health change
/// and a flush all leave every pool without a pending rebuild with the table
/// that a full rebuild would give it.
pub proof fn tables_stay_in_step(
    s: ControllerState,
    config: LbConfig,
    ip: IpAddr,
    status: HealthStatus,
    now: Instant,
)
    ensures
        in_step(configured(s, config)),
        in_step(s) ==> in_step(health_changed(s, ip, status, now)),
        in_step(s) ==> in_step(flushed_if_due(s, now)),
        in_step(s) ==> in_step(flushed(s)),
{
    let noted = health_noted(s, ip, status, now);
    if in_step(s) {
        lemma_flush_in_step(s);
        if let Some(c) = s.config {
            assert forall|name: Seq<char>|
                !noted.pending.contains(name) && #[trigger] all_pool_tables(
                    c.pools@,
                    noted.health,
                    s.table_size,
                ).contains_key(name) implies noted.tables.contains_key(name) && noted.tables[name]
                == all_pool_tables(c.pools@, noted.health, s.table_size)[name] by {
                assert(!affected_pools(s.config, ip).contains(name));
                health_change_is_local(c.pools@, s.health, s.table_size, ip, status, name);
                assert(all_pool_tables(c.pools@, s.health, s.table_size).contains_key(name));
            }
        }
        assert(in_step(synced(noted)));
        lemma_flush_in_step(synced(noted));
    }
}

proof fn lemma_flush_in_step(s: ControllerState)
    requires
        in_step(s),
    ensures
        in_step(flushed(s)),
{
    if let Some(c) = s.config {
        let full = all_pool_tables(c.pools@, s.health, s.table_size);
        assert forall|name: Seq<char>| #[trigger] full.contains_key(name) implies flushed(
            s,
        ).tables.contains_key(name) && flushed(s).tables[name] == full[name] by {
            flush_is_local(s, name);
        }
    }
}

/// A configuration replaces all tables: a pool that it does not mention has
/// none, and nothing stays pending.
pub proof fn configuration_replaces_tables(s: ControllerState, config: LbConfig, name: Seq<char>)
    ensures
        configured(s, config).pending == Set::<Seq<char>>::empty(),
        configured(s, config).pending_since is None,
        configured(s, config).tables.contains_key(name) ==> exists|i: int|
            0 <= i < config.pools@.len() && (#[trigger] config.pools@[i]).id@ == name,
{
    only_configured_pools_have_tables(config.pools@, s.health, s.table_size, name);
}

/// Health changes are known at once, but rebuild no table before the debounce
/// window of the first of them has run out; then all pending pools are
/// rebuilt together.
pub proof fn health_changes_are_debounced(
    s: ControllerState,
    ip: IpAddr,
    status: HealthStatus,
    now: Instant,
)
    ensures
        health_changed(s, ip, status, now).health == s.health.insert(ip, status),
        ({
            let since = health_noted(s, ip, status, now).pending_since;
            let due = since matches Some(t) && elapsed_nanos(t, now) >= DEBOUNCE_WINDOW_MILLIS
                * NANOS_PER_MILLI;
            let after = health_changed(s, ip, status, now);
            &&& !due ==> after.tables == s.tables && after.pending == s.pending.union(
                affected_pools(s.config, ip),
            )
            &&& due ==> after.pending == Set::<Seq<char>>::empty() && after.pending_since is None
        }),
        affected_pools(s.config, ip) == Set::<Seq<char>>::empty() && s.pending_since is None
            ==> health_changed(s, ip, status, now).pending_since is None && health_changed(
            s,
            ip,
            status,
            now,
        ).tables == s.tables,
{
}

/// With a BGP speaker attached, after every configuration and health change
/// exactly those IPv4 VIPs are announced that have a usable backend.
pub proof fn announcements_follow_health(
    s: ControllerState,
    config: LbConfig,
    ip: IpAddr,
    status: HealthStatus,
    now: Instant,
)
    requires
        s.bgp,
    ensures
        configured(s, config).announced == desired_vips(Some(config), s.health),
        health_changed(s, ip, status, now).announced == desired_vips(
            s.config,
            s.health.insert(ip, status),
        ),
{
}

/// Applying a configuration a second time changes nothing, and there is
/// nothing to announce or withdraw.
pub proof fn reapplying_is_quiet(s: ControllerState, config: LbConfig, u: BgpUpdate)
    ensures
        configured(configured(s, config), config) == configured(s, config),
        u.leads(
            configured(s, config).announced,
            configured(configured(s, config), config).announced,
        ) ==> u.announce@.len() == 0 && u.withdraw@.len() == 0,
{
    if u.leads(
        configured(s, config).announced,
        configured(configured(s, config), config).announced,
    ) {
        unchanged_set_is_quiet(u, configured(s, config).announced);
    }
}

/// While the announced set stays as it is there is nothing to send.
pub proof fn unchanged_set_is_quiet(u: BgpUpdate, announced: Set<Ipv4Addr>)
    requires
        u.leads(announced, announced),
    ensures
        u.announce@.len() == 0,
        u.withdraw@.len() == 0,
{
    let none = announced.difference(announced);
    if u.announce@.len() > 0 {
        assert(u.announce@.contains(u.announce@[0]));
        assert(none.contains(u.announce@[0]));
    }
    if u.withdraw@.len() > 0 {
        assert(u.withdraw@.contains(u.withdraw@[0]));
        assert(none.contains(u.withdraw@[0]));
    }
}

/// Once everything is withdrawn, there is nothing left to withdraw or to
/// announce again.
pub proof fn withdrawn_is_final(s: ControllerState, v: Seq<Ipv4Addr>)
    requires
        is_listing(v, (ControllerState { announced: Set::empty(), ..s }).announced),
    ensures
        v.len() == 0,
{
    if v.len() > 0 {
        assert(v.contains(v[0]));
    }
}

/// What is sent to the speaker is fixed by the announced sets before and after.
pub proof fn update_is_determined(
    u: BgpUpdate,
    w: BgpUpdate,
    from: Set<Ipv4Addr>,
    to: Set<Ipv4Addr>,
)
    requires
        u.leads(from, to),
        w.leads(from, to),
    ensures
        u.announce@ == w.announce@,
        u.withdraw@ == w.withdraw@,
{
    listing_is_unique(u.announce@, w.announce@, to.difference(from));
    listing_is_unique(u.withdraw@, w.withdraw@, from.difference(to));
}

} // verus!

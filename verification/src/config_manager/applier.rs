//! From configuration and health to lookup tables.

use vstd::prelude::*;

use crate::base::assoc::{key_at, AssocMap, MapKey};
use crate::base::net::IpAddr;
use crate::config_manager::loader::LbConfig;
use crate::config_manager::pool_set::PoolSet;
use crate::hashing::lookup_table::{active_backends, maglev_entries, LookupTable, TableView};
use crate::hashing::permutation::is_prime;
use crate::health::status_map::{usable, HealthMap};
use crate::types::backend::{Backend, BackendPool, BackendPoolId, HealthStatus};

verus! {

/// The lookup table of each pool.
pub type LookupTables = AssocMap<BackendPoolId, LookupTable>;

/// Whether every table can be looked up in.
pub open spec fn tables_wf(t: LookupTables) -> bool {
    &&& t.wf()
    &&& forall|id: Seq<char>| #[trigger] t@.contains_key(id) ==> t@[id].wf()
}

/// What the tables say.
pub open spec fn table_views(t: Map<Seq<char>, LookupTable>) -> Map<Seq<char>, TableView> {
    Map::new(|id: Seq<char>| t.contains_key(id), |id: Seq<char>| t[id]@)
}

/// Whether a backend belongs into a new table: it is neither drained nor
/// unhealthy.
pub open spec fn available(b: Backend, health: Map<IpAddr, HealthStatus>) -> bool {
    !b.drain && usable(health, b.ip)
}

/// The available ones among some backends.
pub open spec fn available_backends(
    s: Seq<Backend>,
    health: Map<IpAddr, HealthStatus>,
) -> Seq<Backend>
    decreases s.len(),
{
    if s.len() == 0 {
        Seq::empty()
    } else if available(s.last(), health) {
        available_backends(s.drop_last(), health).push(s.last())
    } else {
        available_backends(s.drop_last(), health)
    }
}

/// The backends that a pool's table is built from: the available ones, or all
/// of them if none is, so that traffic still has somewhere to go.
pub open spec fn candidate_backends(
    s: Seq<Backend>,
    health: Map<IpAddr, HealthStatus>,
) -> Seq<Backend> {
    if available_backends(s, health).len() == 0 {
        s
    } else {
        available_backends(s, health)
    }
}

/// The table of a pool with backends `s`. There is none if no candidate has a
/// weight above zero.
pub open spec fn pool_table(
    s: Seq<Backend>,
    health: Map<IpAddr, HealthStatus>,
    m: int,
) -> Option<TableView> {
    let members = active_backends(candidate_backends(s, health));
    if members.len() == 0 {
        None
    } else {
        Some(TableView { members, slots: maglev_entries(members, m) })
    }
}

/// The tables of those pools whose identifier is wanted. Of two pools with one
/// identifier the later table holds.
pub open spec fn pool_tables(
    pools: Seq<BackendPool>,
    wanted: spec_fn(Seq<char>) -> bool,
    health: Map<IpAddr, HealthStatus>,
    m: int,
) -> Map<Seq<char>, TableView>
    decreases pools.len(),
{
    if pools.len() == 0 {
        Map::empty()
    } else {
        let before = pool_tables(pools.drop_last(), wanted, health, m);
        let pool = pools.last();
        if !wanted(pool.id@) {
            before
        } else {
            match pool_table(pool.backends@, health, m) {
                Some(t) => before.insert(pool.id@, t),
                None => before,
            }
        }
    }
}

/// The tables of all pools.
pub open spec fn all_pool_tables(
    pools: Seq<BackendPool>,
    health: Map<IpAddr, HealthStatus>,
    m: int,
) -> Map<Seq<char>, TableView> {
    pool_tables(pools, |id: Seq<char>| true, health, m)
}

/// Which pools to build: all, or those in a set.
pub open spec fn wants(only: Option<&PoolSet>) -> spec_fn(Seq<char>) -> bool {
    match only {
        Some(set) => |id: Seq<char>| set@.contains(id),
        None => |id: Seq<char>| true,
    }
}

fn build_pool_table(pool: &BackendPool, health_status: &HealthMap, table_size: usize) -> (r: Option<
    LookupTable,
>)
    requires
        is_prime(table_size as int),
    ensures
        match r {
            Some(t) => t.wf() && pool_table(pool.backends@, health_status@, table_size as int)
                == Some(t@),
            None => pool_table(pool.backends@, health_status@, table_size as int) is None,
        },
{
    let mut active: Vec<Backend> = Vec::new();
    let mut i: usize = 0;
    while i < pool.backends.len()
        invariant
            i <= pool.backends@.len(),
            active@ == available_backends(pool.backends@.take(i as int), health_status@),
        decreases pool.backends@.len() - i,
    {
        let b: Backend = pool.backends[i];
        if !b.drain && health_status.is_usable(&b.ip) {
            active.push(b);
        }
        assert(pool.backends@.take(i + 1).drop_last() =~= pool.backends@.take(i as int));
        i = i + 1;
    }
    assert(pool.backends@.take(i as int) =~= pool.backends@);
    let built = if active.len() == 0 {
        // No usable backends — fall back to *all* of them, so traffic still
        // has somewhere to go: a misconfigured pool prefers best-effort
        // routing over total drop.
        LookupTable::build(pool.backends.as_slice(), table_size)
    } else {
        LookupTable::build(active.as_slice(), table_size)
    };
    match built {
        Ok(t) => Some(t),
        Err(_) => None,
    }
}

/// Builds the tables of all pools, or of those in `only`.
pub(crate) fn build_tables(
    pools: &[BackendPool],
    only: Option<&PoolSet>,
    health_status: &HealthMap,
    table_size: usize,
) -> (tables: LookupTables)
    requires
        is_prime(table_size as int),
    ensures
        tables_wf(tables),
        table_views(tables@) == pool_tables(
            pools@,
            wants(only),
            health_status@,
            table_size as int,
        ),
{
    let mut tables: LookupTables = AssocMap::new();
    let mut i: usize = 0;
    assert(table_views(tables@) =~= Map::<Seq<char>, TableView>::empty());
    while i < pools.len()
        invariant
            i <= pools@.len(),
            is_prime(table_size as int),
            tables_wf(tables),
            table_views(tables@) == pool_tables(
                pools@.take(i as int),
                wants(only),
                health_status@,
                table_size as int,
            ),
        decreases pools@.len() - i,
    {
        let pool: &BackendPool = &pools[i];
        let ghost before = tables;
        let ghost next = pools@.take(i + 1);
        assert(next.drop_last() =~= pools@.take(i as int));
        let selected = match only {
            Some(set) => set.contains(&pool.id),
            None => true,
        };
        if selected {
            if let Some(t) = build_pool_table(pool, health_status, table_size) {
                let ghost tv = t@;
                tables.insert(pool.id.clone(), t);
                assert(table_views(tables@) =~= table_views(before@).insert(pool.id@, tv));
                assert(tables_wf(tables)) by {
                    assert forall|id: Seq<char>| #[trigger]
                        tables@.contains_key(id) implies tables@[id].wf() by {
                        if id != pool.id@ {
                            assert(before@.contains_key(id));
                        }
                    }
                }
            }
        }
        i = i + 1;
    }
    assert(pools@.take(i as int) =~= pools@);
    tables
}

/// Build new lookup tables from config, filtering out unhealthy backends.
pub fn build_lookup_tables(config: &LbConfig, health_status: &HealthMap, table_size: usize) -> (
tables: LookupTables)
    requires
        is_prime(table_size as int),
    ensures
        tables_wf(tables),
        table_views(tables@) == all_pool_tables(
            config.pools@,
            health_status@,
            table_size as int,
        ),
{
    build_lookup_tables_for_pools(config.pools.as_slice(), health_status, table_size)
}

/// Build lookup tables for only the specified pools.
pub fn build_lookup_tables_for_pools(
    pools: &[BackendPool],
    health_status: &HealthMap,
    table_size: usize,
) -> (tables: LookupTables)
    requires
        is_prime(table_size as int),
    ensures
        tables_wf(tables),
        table_views(tables@) == all_pool_tables(pools@, health_status@, table_size as int),
{
    build_tables(pools, None, health_status, table_size)
}

impl View for IpAddr {
    type V = IpAddr;

    open spec fn view(&self) -> IpAddr {
        *self
    }
}

impl MapKey for IpAddr {
    fn same(&self, other: &IpAddr) -> (b: bool) {
        *self == *other
    }
}

/// Whether a backend with address `ip` is among `s`.
pub open spec fn has_address(s: Seq<Backend>, ip: IpAddr) -> bool {
    exists|i: int| 0 <= i < s.len() && (#[trigger] s[i]).ip == ip
}

/// Whether a pool named `name` has a backend with address `ip`.
pub open spec fn serves_address(pools: Seq<BackendPool>, ip: IpAddr, name: Seq<char>) -> bool {
    exists|i: int|
        0 <= i < pools.len() && (#[trigger] pools[i]).id@ == name && has_address(
            pools[i].backends@,
            ip,
        )
}

/// The names of the pools that have a backend with address `ip`.
pub open spec fn pools_of_address(pools: Seq<BackendPool>, ip: IpAddr) -> Set<Seq<char>> {
    Set::new(|name: Seq<char>| serves_address(pools, ip, name))
}

/// Backend IP -> set of pool IDs that contain it.
pub type BackendPoolIndex = AssocMap<IpAddr, PoolSet>;

/// What an index says of an address: the empty set where it has no entry.
pub open spec fn indexed(index: Map<IpAddr, PoolSet>, ip: IpAddr) -> Set<Seq<char>> {
    if index.contains_key(ip) {
        index[ip]@
    } else {
        Set::empty()
    }
}

/// Whether an index lists the pools of every address, and only addresses that
/// occur.
pub open spec fn is_index_of(index: Map<IpAddr, PoolSet>, pools: Seq<BackendPool>) -> bool {
    forall|ip: IpAddr| #[trigger]
        indexed(index, ip) == pools_of_address(pools, ip) && (index.contains_key(ip) ==> indexed(
            index,
            ip,
        ) != Set::<Seq<char>>::empty())
}

/// The index without the pools' backends from the `k`-th pool's `j`-th on.
spec fn partly_serves(
    pools: Seq<BackendPool>,
    k: int,
    j: int,
    ip: IpAddr,
    name: Seq<char>,
) -> bool {
    serves_address(pools.take(k), ip, name) || (pools[k].id@ == name && has_address(
        pools[k].backends@.take(j),
        ip,
    ))
}

/// Build a reverse index: backend IP -> set of pool IDs that contain it.
///
/// With hundreds of pools, a single health flap should only rebuild the pools
/// that actually contain the flapping backend, not all pools.
pub fn build_backend_pool_index(config: &LbConfig) -> (index: BackendPoolIndex)
    ensures
        index.wf(),
        is_index_of(index@, config.pools@),
{
    let mut index: BackendPoolIndex = AssocMap::new();
    let ghost pools = config.pools@;
    let mut k: usize = 0;
    proof {
        assert forall|ip: IpAddr| #[trigger] indexed(index@, ip) == pools_of_address(
            pools.take(0),
            ip,
        ) by {
            assert(indexed(index@, ip) =~= pools_of_address(pools.take(0), ip));
        }
    }
    while k < config.pools.len()
        invariant
            k <= pools.len(),
            pools == config.pools@,
            index.wf(),
            is_index_of(index@, pools.take(k as int)),
        decreases pools.len() - k,
    {
        let pool: &BackendPool = &config.pools[k];
        let mut j: usize = 0;
        proof {
            assert forall|ip: IpAddr, name: Seq<char>| #[trigger]
                indexed(index@, ip).contains(name) <==> partly_serves(
                pools,
                k as int,
                0,
                ip,
                name,
            ) by {
                assert(indexed(index@, ip) == pools_of_address(pools.take(k as int), ip));
            }
            assert forall|ip: IpAddr| #[trigger] index@.contains_key(ip) implies index@[ip]@
                != Set::<Seq<char>>::empty() by {
                assert(indexed(index@, ip) == pools_of_address(pools.take(k as int), ip));
            }
        }
        while j < pool.backends.len()
            invariant
                j <= pool.backends@.len(),
                k < pools.len(),
                *pool == pools[k as int],
                index.wf(),
                forall|ip: IpAddr, name: Seq<char>| #[trigger]
                    indexed(index@, ip).contains(name) <==> partly_serves(
                        pools,
                        k as int,
                        j as int,
                        ip,
                        name,
                    ),
                forall|ip: IpAddr| #[trigger]
                    index@.contains_key(ip) ==> index@[ip]@ != Set::<Seq<char>>::empty(),
            decreases pool.backends@.len() - j,
        {
            let ip: IpAddr = pool.backends[j].ip;
            let ghost before = index@;
            let mut set: PoolSet = match index.get(&ip) {
                Some(s) => s.clone(),
                None => PoolSet::new(),
            };
            assert(set@ == indexed(before, ip));
            set.insert(pool.id.clone());
            let ghost sv = set@;
            index.insert(ip, set);
            proof {
                let bs = pool.backends@;
                assert forall|x: IpAddr, name: Seq<char>| #[trigger]
                    indexed(index@, x).contains(name) <==> partly_serves(
                    pools,
                    k as int,
                    j + 1,
                    x,
                    name,
                ) by {
                    assert(indexed(before, x).contains(name) <==> partly_serves(
                        pools,
                        k as int,
                        j as int,
                        x,
                        name,
                    ));
                    assert(has_address(bs.take(j + 1), x) <==> (has_address(bs.take(j as int), x)
                        || x == ip)) by {
                        if has_address(bs.take(j as int), x) {
                            let i = choose|i: int|
                                0 <= i < j && (#[trigger] bs.take(j as int)[i]).ip == x;
                            assert(bs.take(j + 1)[i].ip == x);
                        }
                        if has_address(bs.take(j + 1), x) {
                            let i = choose|i: int|
                                0 <= i < j + 1 && (#[trigger] bs.take(j + 1)[i]).ip == x;
                            if i < j {
                                assert(bs.take(j as int)[i].ip == x);
                            }
                        }
                        if x == ip {
                            assert(bs.take(j + 1)[j as int].ip == x);
                        }
                    }
                }
                assert(sv.contains(pool.id@));
                assert forall|x: IpAddr| #[trigger] index@.contains_key(x) implies index@[x]@
                    != Set::<Seq<char>>::empty() by {
                    if x != ip {
                        assert(before.contains_key(x));
                    }
                }
            }
            j = j + 1;
        }
        proof {
            let bs = pool.backends@;
            assert(bs.take(j as int) =~= bs);
            let now = pools.take(k + 1);
            let was = pools.take(k as int);
            assert forall|ip: IpAddr| #[trigger] indexed(index@, ip) == pools_of_address(now, ip)
                && (index@.contains_key(ip) ==> indexed(index@, ip)
                != Set::<Seq<char>>::empty()) by {
                assert forall|name: Seq<char>| indexed(index@, ip).contains(name)
                    <==> serves_address(now, ip, name) by {
                    if serves_address(was, ip, name) {
                        let i = choose|i: int|
                            0 <= i < was.len() && (#[trigger] was[i]).id@ == name && has_address(
                                was[i].backends@,
                                ip,
                            );
                        assert(now[i].id@ == name);
                    }
                    if pool.id@ == name && has_address(bs, ip) {
                        assert(now[k as int].id@ == name);
                    }
                    if serves_address(now, ip, name) {
                        let i = choose|i: int|
                            0 <= i < now.len() && (#[trigger] now[i]).id@ == name && has_address(
                                now[i].backends@,
                                ip,
                            );
                        if i < k {
                            assert(was[i].id@ == name);
                        }
                    }
                }
                assert(indexed(index@, ip) =~= pools_of_address(now, ip));
            }
        }
        k = k + 1;
    }
    assert(pools.take(k as int) =~= pools);
    index
}

/// Merge `updates` into the lookup-table map. Any existing pool not
/// mentioned in `updates` is preserved — this is the path used by health-
/// driven rebuilds where we only have entries for the affected pools.
/// Use [`replace_tables`] when applying a fresh full config.
pub fn apply_tables(updates: LookupTables, shared: &mut LookupTables)
    requires
        tables_wf(updates),
        tables_wf(*old(shared)),
    ensures
        tables_wf(*final(shared)),
        final(shared)@ == old(shared)@.union_prefer_right(updates@),
        table_views(final(shared)@) == table_views(old(shared)@).union_prefer_right(
            table_views(updates@),
        ),
{
    let ghost before = shared@;
    let ghost new = updates@;
    shared.extend(updates);
    proof {
        assert forall|id: Seq<char>| #[trigger] shared@.contains_key(id) implies shared@[id].wf() by {
            if new.contains_key(id) {
                assert(shared@[id] == new[id]);
            } else {
                assert(before.contains_key(id));
            }
        }
        assert(table_views(shared@) =~= table_views(before).union_prefer_right(table_views(new)));
    }
}

/// Replace the entire lookup-table map. Used on full `apply_config` calls
/// where the operator's intent is "every pool now looks like this and removed
/// pools should disappear".
pub fn replace_tables(new_tables: LookupTables, shared: &mut LookupTables)
    ensures
        *final(shared) == new_tables,
{
    *shared = new_tables;
}

/// A copy of the tables that says the same, for readers to keep while the
/// originals are rebuilt.
pub fn copy_tables(tables: &LookupTables) -> (copy: LookupTables)
    requires
        tables_wf(*tables),
    ensures
        tables_wf(copy),
        table_views(copy@) == table_views(tables@),
{
    let mut copy: LookupTables = AssocMap::new();
    let ghost items = tables.items();
    let mut i: usize = 0;
    while i < tables.len()
        invariant
            i <= items.len(),
            items == tables.items(),
            tables_wf(*tables),
            copy.wf(),
            forall|j: int|
                0 <= j < i ==> copy@.contains_key((#[trigger] items[j]).0@) && copy@[items[j].0@]@
                    == items[j].1@,
            forall|id: Seq<char>| #[trigger]
                copy@.contains_key(id) ==> copy@[id].wf() && exists|j: int|
                    0 <= j < i && (#[trigger] items[j]).0@ == id,
        decreases items.len() - i,
    {
        let (id, table) = tables.item(i);
        let ghost before = copy@;
        proof {
            tables.lemma_item(i as int);
            assert(tables@.contains_key(items[i as int].0@));
        }
        copy.insert(id.clone(), table.clone());
        proof {
            assert forall|j: int| 0 <= j < i + 1 implies copy@.contains_key(
                (#[trigger] items[j]).0@,
            ) && copy@[items[j].0@]@ == items[j].1@ by {
                if j < i {
                    assert(items[j].0@ != items[i as int].0@);
                }
            }
            assert forall|x: Seq<char>| #[trigger] copy@.contains_key(x) implies copy@[x].wf()
                && exists|j: int| 0 <= j < i + 1 && (#[trigger] items[j]).0@ == x by {
                if x == items[i as int].0@ {
                    assert(copy@[x]@ == items[i as int].1@);
                    assert(items[i as int].1.wf());
                } else {
                    assert(before.contains_key(x));
                    let j = choose|j: int| 0 <= j < i && (#[trigger] items[j]).0@ == x;
                    assert(items[j].0@ == x);
                }
            }
        }
        i = i + 1;
    }
    proof {
        assert forall|x: Seq<char>| tables@.contains_key(x) <==> copy@.contains_key(x) by {
            tables.lemma_view();
            if tables@.contains_key(x) {
                let j = choose|j: int| key_at(items, x, j);
                assert(items[j].0@ == x);
            }
            if copy@.contains_key(x) {
                let j = choose|j: int| 0 <= j < items.len() && (#[trigger] items[j]).0@ == x;
                tables.lemma_item(j);
            }
        }
        assert forall|x: Seq<char>| tables@.contains_key(x) implies tables@[x]@ == copy@[x]@ by {
            assert(copy@.contains_key(x));
            let j = choose|j: int| 0 <= j < items.len() && (#[trigger] items[j]).0@ == x;
            tables.lemma_item(j);
        }
        assert(table_views(copy@) =~= table_views(tables@));
    }
    copy
}

proof fn lemma_available(s: Seq<Backend>, health: Map<IpAddr, HealthStatus>)
    ensures
        forall|i: int|
            0 <= i < available_backends(s, health).len() ==> available(
                #[trigger] available_backends(s, health)[i],
                health,
            ),
        available_backends(s, health).len() == 0 <==> forall|i: int|
            0 <= i < s.len() ==> !available(#[trigger] s[i], health),
    decreases s.len(),
{
    if s.len() > 0 {
        let p = s.drop_last();
        lemma_available(p, health);
        if available_backends(s, health).len() == 0 {
            assert forall|i: int| 0 <= i < s.len() implies !available(#[trigger] s[i], health) by {
                if i < p.len() {
                    assert(p[i] == s[i]);
                }
            }
        } else if !available(s.last(), health) {
            let i = choose|i: int| 0 <= i < p.len() && available(#[trigger] p[i], health);
            assert(s[i] == p[i]);
        } else {
            assert(s[s.len() - 1] == s.last());
        }
    }
}

/// A rebuilt table sends traffic only to backends that are neither drained nor
/// unhealthy, as long as the pool has any; if it has none, the table is built
/// from all of them.
pub proof fn rebuilt_table_prefers_available(
    s: Seq<Backend>,
    health: Map<IpAddr, HealthStatus>,
    m: int,
)
    ensures
        pool_table(s, health, m) matches Some(t) ==> {
            let any = exists|i: int| 0 <= i < s.len() && available(#[trigger] s[i], health);
            &&& any ==> forall|i: int|
                0 <= i < t.members.len() ==> available(#[trigger] t.members[i], health)
            &&& !any ==> t.members == active_backends(s)
        },
{
    lemma_available(s, health);
    let c = candidate_backends(s, health);
    if pool_table(s, health, m) is Some {
        let t = pool_table(s, health, m)->0;
        assert forall|i: int|
            0 <= i < t.members.len() && available_backends(s, health).len() > 0 implies available(
            #[trigger] t.members[i],
            health,
        ) by {
            crate::hashing::lookup_table::zero_weight_is_excluded(c, t.members[i]);
            assert(active_backends(c).contains(t.members[i]));
            assert(c.contains(t.members[i]));
            let k = choose|k: int| 0 <= k < c.len() && c[k] == t.members[i];
            assert(available(c[k], health));
        }
    }
}

/// Two collections of tables agree on the pool `name`.
pub open spec fn agree_on(
    t: Map<Seq<char>, TableView>,
    u: Map<Seq<char>, TableView>,
    name: Seq<char>,
) -> bool {
    &&& t.contains_key(name) == u.contains_key(name)
    &&& t.contains_key(name) ==> t[name] == u[name]
}

/// Rebuilding some pools gives each of them the table that a full rebuild
/// gives it, and no table to any other pool.
pub proof fn partial_rebuild_agrees(
    pools: Seq<BackendPool>,
    wanted: spec_fn(Seq<char>) -> bool,
    health: Map<IpAddr, HealthStatus>,
    m: int,
    name: Seq<char>,
)
    ensures
        wanted(name) ==> agree_on(
            pool_tables(pools, wanted, health, m),
            all_pool_tables(pools, health, m),
            name,
        ),
        !wanted(name) ==> !pool_tables(pools, wanted, health, m).contains_key(name),
    decreases pools.len(),
{
    if pools.len() > 0 {
        partial_rebuild_agrees(pools.drop_last(), wanted, health, m, name);
    }
}

/// Only pools of the configuration get a table.
pub proof fn only_configured_pools_have_tables(
    pools: Seq<BackendPool>,
    health: Map<IpAddr, HealthStatus>,
    m: int,
    name: Seq<char>,
)
    ensures
        all_pool_tables(pools, health, m).contains_key(name) ==> exists|i: int|
            0 <= i < pools.len() && (#[trigger] pools[i]).id@ == name,
    decreases pools.len(),
{
    if pools.len() > 0 {
        let p = pools.drop_last();
        only_configured_pools_have_tables(p, health, m, name);
        if all_pool_tables(p, health, m).contains_key(name) {
            let i = choose|i: int| 0 <= i < p.len() && (#[trigger] p[i]).id@ == name;
            assert(pools[i].id@ == name);
        } else if all_pool_tables(pools, health, m).contains_key(name) {
            assert(pools[pools.len() - 1].id@ == name);
        }
    }
}

proof fn lemma_available_local(
    s: Seq<Backend>,
    health: Map<IpAddr, HealthStatus>,
    ip: IpAddr,
    status: HealthStatus,
)
    requires
        !has_address(s, ip),
    ensures
        available_backends(s, health) == available_backends(s, health.insert(ip, status)),
    decreases s.len(),
{
    if s.len() > 0 {
        let p = s.drop_last();
        assert forall|i: int| 0 <= i < p.len() implies (#[trigger] p[i]).ip != ip by {
            assert(s[i].ip != ip);
        }
        lemma_available_local(p, health, ip, status);
        assert(s[s.len() - 1].ip != ip);
    }
}

/// A change of one backend's health leaves the tables of all pools alone that
/// the backend is not in.
pub proof fn health_change_is_local(
    pools: Seq<BackendPool>,
    health: Map<IpAddr, HealthStatus>,
    m: int,
    ip: IpAddr,
    status: HealthStatus,
    name: Seq<char>,
)
    requires
        !serves_address(pools, ip, name),
    ensures
        agree_on(
            all_pool_tables(pools, health, m),
            all_pool_tables(pools, health.insert(ip, status), m),
            name,
        ),
    decreases pools.len(),
{
    if pools.len() > 0 {
        let p = pools.drop_last();
        assert forall|i: int|
            0 <= i < p.len() && (#[trigger] p[i]).id@ == name implies !has_address(
            p[i].backends@,
            ip,
        ) by {
            assert(pools[i].id@ == name);
        }
        health_change_is_local(p, health, m, ip, status, name);
        let pool = pools.last();
        assert(pools[pools.len() - 1] == pool);
        if pool.id@ == name {
            lemma_available_local(pool.backends@, health, ip, status);
        }
    }
}

} // verus!

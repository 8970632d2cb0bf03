//! Consistency of the load balancer configuration.

use vstd::prelude::*;

use crate::base::assoc::{key_at, AssocMap};
use crate::config_manager::loader::LbConfig;
use crate::forwarder::tracer::texts;
use crate::types::backend::{Backend, BackendPool};
use crate::types::vip::{Vip, VipService};

verus! {

#[derive(Debug)]
pub struct ValidationError {
    pub errors: Vec<String>,
}

/// Pools by name.
pub type PoolMap = AssocMap<String, BackendPool>;

/// The complaint about a service whose pool does not exist.
pub open spec fn dangling_text(vip: Seq<char>, pool: Seq<char>) -> Seq<char> {
    "VIP '"@ + vip + "' references pool '"@ + pool + "' which does not exist"@
}

/// The complaint about a pool without backends.
pub open spec fn empty_text(pool: Seq<char>) -> Seq<char> {
    "pool '"@ + pool + "' has no backends"@
}

/// The complaint about a VIP ID that was used before.
pub open spec fn duplicate_text(vip: Seq<char>) -> Seq<char> {
    "duplicate VIP ID '"@ + vip + "'"@
}

/// The services of a VIP whose pool is not among `pools`.
pub open spec fn dangling_services(
    vip: Seq<char>,
    services: Seq<VipService>,
    pools: Set<Seq<char>>,
) -> Seq<Seq<char>>
    decreases services.len(),
{
    if services.len() == 0 {
        Seq::empty()
    } else {
        let before = dangling_services(vip, services.drop_last(), pools);
        let pool = services.last().backend_pool@;
        if pools.contains(pool) {
            before
        } else {
            before.push(dangling_text(vip, pool))
        }
    }
}

/// The complaints about dangling pool references.
pub open spec fn dangling_refs(vips: Seq<Vip>, pools: Set<Seq<char>>) -> Seq<Seq<char>>
    decreases vips.len(),
{
    if vips.len() == 0 {
        Seq::empty()
    } else {
        dangling_refs(vips.drop_last(), pools) + dangling_services(
            vips.last().id.0@,
            vips.last().services@,
            pools,
        )
    }
}

/// The complaints about pools without backends.
pub open spec fn empty_pools(items: Seq<(String, BackendPool)>) -> Seq<Seq<char>>
    decreases items.len(),
{
    if items.len() == 0 {
        Seq::empty()
    } else if items.last().1.backends@.len() == 0 {
        empty_pools(items.drop_last()).push(empty_text(items.last().0@))
    } else {
        empty_pools(items.drop_last())
    }
}

/// Whether some VIP has ID `id`.
pub open spec fn has_vip_id(vips: Seq<Vip>, id: Seq<char>) -> bool {
    exists|i: int| 0 <= i < vips.len() && (#[trigger] vips[i]).id.0@ == id
}

/// The complaints about VIP IDs that were used before.
pub open spec fn duplicate_ids(vips: Seq<Vip>) -> Seq<Seq<char>>
    decreases vips.len(),
{
    if vips.len() == 0 {
        Seq::empty()
    } else {
        let before = duplicate_ids(vips.drop_last());
        let id = vips.last().id.0@;
        if has_vip_id(vips.drop_last(), id) {
            before.push(duplicate_text(id))
        } else {
            before
        }
    }
}

/// All complaints: dangling references, empty pools, duplicate VIP IDs.
pub open spec fn complaints(vips: Seq<Vip>, pools: PoolMap) -> Seq<Seq<char>> {
    dangling_refs(vips, pools@.dom()) + empty_pools(pools.items()) + duplicate_ids(vips)
}

/// A configuration is consistent if every service's pool exists, every pool
/// has a backend, and no two VIPs share an ID.
pub open spec fn consistent(vips: Seq<Vip>, pools: Map<Seq<char>, BackendPool>) -> bool {
    &&& forall|i: int, j: int|
        #![trigger vips[i].services@[j]]
        0 <= i < vips.len() && 0 <= j < vips[i].services@.len() ==> pools.contains_key(
            vips[i].services@[j].backend_pool@,
        )
    &&& forall|name: Seq<char>| #[trigger]
        pools.contains_key(name) ==> pools[name].backends@.len() > 0
    &&& forall|i: int, j: int|
        #![trigger vips[i], vips[j]]
        0 <= i < j < vips.len() ==> vips[i].id.0@ != vips[j].id.0@
}

proof fn lemma_dangling_services(vip: Seq<char>, services: Seq<VipService>, pools: Set<Seq<char>>)
    ensures
        dangling_services(vip, services, pools).len() == 0 <==> forall|j: int|
            0 <= j < services.len() ==> pools.contains((#[trigger] services[j]).backend_pool@),
    decreases services.len(),
{
    if services.len() > 0 {
        let p = services.drop_last();
        lemma_dangling_services(vip, p, pools);
        if forall|j: int|
            0 <= j < services.len() ==> pools.contains((#[trigger] services[j]).backend_pool@) {
            assert(pools.contains(services[services.len() - 1].backend_pool@));
            assert forall|j: int| 0 <= j < p.len() implies pools.contains(
                (#[trigger] p[j]).backend_pool@,
            ) by {
                assert(p[j] == services[j]);
            }
        }
        if dangling_services(vip, services, pools).len() == 0 {
            assert forall|j: int| 0 <= j < services.len() implies pools.contains(
                (#[trigger] services[j]).backend_pool@,
            ) by {
                if j < p.len() {
                    assert(p[j] == services[j]);
                }
            }
        }
    }
}

proof fn lemma_dangling_refs(vips: Seq<Vip>, pools: Set<Seq<char>>)
    ensures
        dangling_refs(vips, pools).len() == 0 <==> forall|i: int, j: int|
            #![trigger vips[i].services@[j]]
            0 <= i < vips.len() && 0 <= j < vips[i].services@.len() ==> pools.contains(
                vips[i].services@[j].backend_pool@,
            ),
    decreases vips.len(),
{
    if vips.len() > 0 {
        let p = vips.drop_last();
        let n = vips.len() - 1;
        lemma_dangling_refs(p, pools);
        lemma_dangling_services(vips.last().id.0@, vips.last().services@, pools);
        if dangling_refs(vips, pools).len() == 0 {
            assert forall|i: int, j: int|
                #![trigger vips[i].services@[j]]
                0 <= i < vips.len() && 0 <= j < vips[i].services@.len() implies pools.contains(
                vips[i].services@[j].backend_pool@,
            ) by {
                if i < n {
                    assert(p[i] == vips[i]);
                    assert(pools.contains(p[i].services@[j].backend_pool@));
                }
            }
        }
        if forall|i: int, j: int|
            #![trigger vips[i].services@[j]]
            0 <= i < vips.len() && 0 <= j < vips[i].services@.len() ==> pools.contains(
                vips[i].services@[j].backend_pool@,
            ) {
            assert forall|i: int, j: int|
                #![trigger p[i].services@[j]]
                0 <= i < p.len() && 0 <= j < p[i].services@.len() implies pools.contains(
                p[i].services@[j].backend_pool@,
            ) by {
                assert(pools.contains(vips[i].services@[j].backend_pool@));
            }
            assert forall|j: int| 0 <= j < vips.last().services@.len() implies pools.contains(
                (#[trigger] vips.last().services@[j]).backend_pool@,
            ) by {
                assert(pools.contains(vips[n].services@[j].backend_pool@));
            }
        }
    }
}

proof fn lemma_empty_pools(items: Seq<(String, BackendPool)>)
    ensures
        empty_pools(items).len() == 0 <==> forall|i: int|
            0 <= i < items.len() ==> (#[trigger] items[i]).1.backends@.len() > 0,
    decreases items.len(),
{
    if items.len() > 0 {
        let p = items.drop_last();
        lemma_empty_pools(p);
        if empty_pools(items).len() == 0 {
            assert forall|i: int| 0 <= i < items.len() implies (
            #[trigger] items[i]).1.backends@.len() > 0 by {
                if i < p.len() {
                    assert(p[i] == items[i]);
                }
            }
        }
        if forall|i: int|
            0 <= i < items.len() ==> (#[trigger] items[i]).1.backends@.len() > 0 {
            assert forall|i: int| 0 <= i < p.len() implies (#[trigger] p[i]).1.backends@.len()
                > 0 by {
                assert(p[i] == items[i]);
            }
            assert(items[items.len() - 1].1.backends@.len() > 0);
        }
    }
}

proof fn lemma_duplicate_ids(vips: Seq<Vip>)
    ensures
        duplicate_ids(vips).len() == 0 <==> forall|i: int, j: int|
            #![trigger vips[i], vips[j]]
            0 <= i < j < vips.len() ==> vips[i].id.0@ != vips[j].id.0@,
    decreases vips.len(),
{
    if vips.len() > 0 {
        let p = vips.drop_last();
        let n = vips.len() - 1;
        lemma_duplicate_ids(p);
        if duplicate_ids(vips).len() == 0 {
            assert forall|i: int, j: int|
                #![trigger vips[i], vips[j]]
                0 <= i < j < vips.len() implies vips[i].id.0@ != vips[j].id.0@ by {
                if j < n {
                    assert(p[i] == vips[i] && p[j] == vips[j]);
                } else {
                    assert(p[i] == vips[i]);
                }
            }
        }
        if forall|i: int, j: int|
            #![trigger vips[i], vips[j]]
            0 <= i < j < vips.len() ==> vips[i].id.0@ != vips[j].id.0@ {
            assert forall|i: int, j: int|
                #![trigger p[i], p[j]]
                0 <= i < j < p.len() implies p[i].id.0@ != p[j].id.0@ by {
                assert(vips[i].id.0@ != vips[j].id.0@);
            }
            assert(!has_vip_id(p, vips.last().id.0@)) by {
                if has_vip_id(p, vips.last().id.0@) {
                    let i = choose|i: int|
                        0 <= i < p.len() && (#[trigger] p[i]).id.0@ == vips.last().id.0@;
                    assert(vips[i].id.0@ != vips[n].id.0@);
                }
            }
        }
    }
}

/// There is nothing to complain about if and only if the configuration is
/// consistent.
pub proof fn complaints_mean_inconsistency(vips: Seq<Vip>, pools: PoolMap)
    requires
        pools.wf(),
    ensures
        complaints(vips, pools).len() == 0 <==> consistent(vips, pools@),
{
    lemma_dangling_refs(vips, pools@.dom());
    lemma_empty_pools(pools.items());
    lemma_duplicate_ids(vips);
    pools.lemma_view();
    if forall|i: int|
        0 <= i < pools.items().len() ==> (#[trigger] pools.items()[i]).1.backends@.len() > 0 {
        assert forall|name: Seq<char>| #[trigger] pools@.contains_key(name) implies pools@[name].backends@.len()
            > 0 by {
            let i = choose|i: int| key_at(pools.items(), name, i);
            pools.lemma_item(i);
        }
    }
    if forall|name: Seq<char>| #[trigger]
        pools@.contains_key(name) ==> pools@[name].backends@.len() > 0 {
        assert forall|i: int| 0 <= i < pools.items().len() implies (
        #[trigger] pools.items()[i]).1.backends@.len() > 0 by {
            pools.lemma_item(i);
        }
    }
    assert(consistent(vips, pools@) ==> forall|i: int, j: int|
        #![trigger vips[i].services@[j]]
        0 <= i < vips.len() && 0 <= j < vips[i].services@.len() ==> pools@.dom().contains(
            vips[i].services@[j].backend_pool@,
        ));
}

fn quoted(before: &str, a: &str, between: &str, b: &str, after: &str) -> (s: String)
    ensures
        s@ == before@ + a@ + between@ + b@ + after@,
{
    let mut s = before.to_owned();
    s.append(a);
    s.append(between);
    s.append(b);
    s.append(after);
    s
}

fn wrapped(before: &str, a: &str, after: &str) -> (s: String)
    ensures
        s@ == before@ + a@ + after@,
{
    let mut s = before.to_owned();
    s.append(a);
    s.append(after);
    s
}

fn push_text(errors: &mut Vec<String>, s: String)
    ensures
        texts(final(errors)@) == texts(old(errors)@).push(s@),
{
    errors.push(s);
    assert(texts(errors@) =~= texts(old(errors)@).push(s@));
}

fn check_services(vip: &Vip, pools: &PoolMap, errors: &mut Vec<String>)
    requires
        pools.wf(),
    ensures
        texts(final(errors)@) == texts(old(errors)@) + dangling_services(
            vip.id.0@,
            vip.services@,
            pools@.dom(),
        ),
{
    let ghost start = texts(errors@);
    let mut j: usize = 0;
    assert(start + dangling_services(vip.id.0@, vip.services@.take(0), pools@.dom()) =~= start);
    while j < vip.services.len()
        invariant
            j <= vip.services@.len(),
            pools.wf(),
            texts(errors@) == start + dangling_services(
                vip.id.0@,
                vip.services@.take(j as int),
                pools@.dom(),
            ),
        decreases vip.services@.len() - j,
    {
        let svc: &VipService = &vip.services[j];
        assert(vip.services@.take(j + 1).drop_last() =~= vip.services@.take(j as int));
        if !pools.contains_key(&svc.backend_pool) {
            let ghost before = texts(errors@);
            push_text(
                errors,
                quoted(
                    "VIP '",
                    vip.id.0.as_str(),
                    "' references pool '",
                    svc.backend_pool.as_str(),
                    "' which does not exist",
                ),
            );
            assert(texts(errors@) =~= start + dangling_services(
                vip.id.0@,
                vip.services@.take(j + 1),
                pools@.dom(),
            ));
        }
        j = j + 1;
    }
    assert(vip.services@.take(j as int) =~= vip.services@);
}

fn id_used_before(vips: &[Vip], n: usize) -> (b: bool)
    requires
        n < vips@.len(),
    ensures
        b == has_vip_id(vips@.take(n as int), vips@[n as int].id.0@),
{
    let ghost seen = vips@.take(n as int);
    let mut i: usize = 0;
    while i < n
        invariant
            i <= n < vips@.len(),
            seen == vips@.take(n as int),
            forall|j: int| 0 <= j < i ==> (#[trigger] seen[j]).id.0@ != vips@[n as int].id.0@,
        decreases n - i,
    {
        if vips[i].id.0 == vips[n].id.0 {
            assert(seen[i as int].id.0@ == vips@[n as int].id.0@);
            return true;
        }
        i = i + 1;
    }
    false
}

/// Validate a complete LB configuration.
pub fn validate(vips: &[Vip], pools: &PoolMap) -> (r: Result<(), ValidationError>)
    requires
        pools.wf(),
    ensures
        match r {
            Ok(_) => consistent(vips@, pools@),
            Err(e) => !consistent(vips@, pools@) && texts(e.errors@) == complaints(vips@, *pools),
        },
{
    let mut errors: Vec<String> = Vec::new();
    assert(texts(errors@) =~= Seq::<Seq<char>>::empty());
    // Dangling pool references in VIP services
    let mut i: usize = 0;
    while i < vips.len()
        invariant
            i <= vips@.len(),
            pools.wf(),
            texts(errors@) == dangling_refs(vips@.take(i as int), pools@.dom()),
        decreases vips@.len() - i,
    {
        assert(vips@.take(i + 1).drop_last() =~= vips@.take(i as int));
        check_services(&vips[i], pools, &mut errors);
        i = i + 1;
    }
    assert(vips@.take(i as int) =~= vips@);
    // Empty backend pools
    let ghost first = texts(errors@);
    let mut k: usize = 0;
    assert(first + empty_pools(pools.items().take(0)) =~= first);
    while k < pools.len()
        invariant
            k <= pools.items().len(),
            texts(errors@) == first + empty_pools(pools.items().take(k as int)),
        decreases pools.items().len() - k,
    {
        assert(pools.items().take(k + 1).drop_last() =~= pools.items().take(k as int));
        let (id, pool) = pools.item(k);
        if pool.backends.len() == 0 {
            push_text(&mut errors, wrapped("pool '", id.as_str(), "' has no backends"));
            assert(texts(errors@) =~= first + empty_pools(pools.items().take(k + 1)));
        }
        k = k + 1;
    }
    assert(pools.items().take(k as int) =~= pools.items());
    // Duplicate VIP IDs
    let ghost second = texts(errors@);
    let mut n: usize = 0;
    assert(second + duplicate_ids(vips@.take(0)) =~= second);
    while n < vips.len()
        invariant
            n <= vips@.len(),
            texts(errors@) == second + duplicate_ids(vips@.take(n as int)),
        decreases vips@.len() - n,
    {
        assert(vips@.take(n + 1).drop_last() =~= vips@.take(n as int));
        if id_used_before(vips, n) {
            push_text(&mut errors, wrapped("duplicate VIP ID '", vips[n].id.0.as_str(), "'"));
            assert(texts(errors@) =~= second + duplicate_ids(vips@.take(n + 1)));
        }
        n = n + 1;
    }
    assert(vips@.take(n as int) =~= vips@);
    proof {
        complaints_mean_inconsistency(vips@, *pools);
        assert(texts(errors@).len() == errors@.len());
    }
    if errors.len() == 0 {
        Ok(())
    } else {
        Err(ValidationError { errors })
    }
}

/// The pools of a configuration by name: of two pools with one name the later
/// holds.
pub open spec fn pool_backends(pools: Seq<BackendPool>) -> Map<Seq<char>, Seq<Backend>>
    decreases pools.len(),
{
    if pools.len() == 0 {
        Map::empty()
    } else {
        pool_backends(pools.drop_last()).insert(pools.last().id@, pools.last().backends@)
    }
}

/// The backends of each pool in a map.
pub open spec fn backends_by_name(
    m: Map<Seq<char>, BackendPool>,
) -> Map<Seq<char>, Seq<Backend>> {
    Map::new(|name: Seq<char>| m.contains_key(name), |name: Seq<char>| m[name].backends@)
}

/// Whether a configuration is consistent.
pub open spec fn config_consistent(c: LbConfig) -> bool {
    let pools = pool_backends(c.pools@);
    let vips = c.vips@;
    &&& forall|i: int, j: int|
        #![trigger vips[i].services@[j]]
        0 <= i < vips.len() && 0 <= j < vips[i].services@.len() ==> pools.contains_key(
            vips[i].services@[j].backend_pool@,
        )
    &&& forall|name: Seq<char>| #[trigger] pools.contains_key(name) ==> pools[name].len() > 0
    &&& forall|i: int, j: int|
        #![trigger vips[i], vips[j]]
        0 <= i < j < vips.len() ==> vips[i].id.0@ != vips[j].id.0@
}

/// Validate a configuration as loaded. The error lists every complaint.
pub fn validate_config(config: &LbConfig) -> (r: Result<(), ValidationError>)
    ensures
        match r {
            Ok(_) => config_consistent(*config),
            Err(e) => !config_consistent(*config) && exists|pools: PoolMap|
                pools.wf() && backends_by_name(pools@) == pool_backends(config.pools@) && texts(
                    e.errors@,
                ) == #[trigger] complaints(config.vips@, pools),
        },
{
    let mut pools: PoolMap = AssocMap::new();
    let mut i: usize = 0;
    assert(backends_by_name(pools@) =~= pool_backends(config.pools@.take(0)));
    while i < config.pools.len()
        invariant
            i <= config.pools@.len(),
            pools.wf(),
            backends_by_name(pools@) == pool_backends(config.pools@.take(i as int)),
        decreases config.pools@.len() - i,
    {
        let p: &BackendPool = &config.pools[i];
        let ghost before = pools@;
        pools.insert(p.id.0.clone(), p.clone());
        proof {
            assert(config.pools@.take(i + 1).drop_last() =~= config.pools@.take(i as int));
            assert(backends_by_name(pools@) =~= backends_by_name(before).insert(
                p.id@,
                p.backends@,
            ));
        }
        i = i + 1;
    }
    proof {
        assert(config.pools@.take(i as int) =~= config.pools@);
        let v = backends_by_name(pools@);
        assert forall|name: Seq<char>| #[trigger] pools@.contains_key(name) <==> v.contains_key(
            name,
        ) by {}
        assert(consistent(config.vips@, pools@) <==> config_consistent(*config)) by {
            if consistent(config.vips@, pools@) {
                assert forall|name: Seq<char>| #[trigger] v.contains_key(name) implies v[name].len()
                    > 0 by {
                    assert(pools@.contains_key(name));
                }
            }
            if config_consistent(*config) {
                assert forall|name: Seq<char>| #[trigger]
                    pools@.contains_key(name) implies pools@[name].backends@.len() > 0 by {
                    assert(v.contains_key(name));
                }
            }
        }
    }
    validate(config.vips.as_slice(), &pools)
}

} // verus!

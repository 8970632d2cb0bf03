//! What configurations and arguments mean.

use vstd::prelude::*;

use crate::base::net::IpAddr;
use crate::base::text::{
    decimal, decimal_round_trip, is_white_space, number_value, trim_end, trim_start, trimmed,
    NumberError,
};
use crate::base::time::Duration;
use crate::config_manager::loader::LbConfig;
use crate::config_manager::validator::{
    complaints, complaints_mean_inconsistency, config_consistent, dangling_refs, dangling_services,
    dangling_text, duplicate_ids, duplicate_text, empty_pools, empty_text, has_vip_id,
    pool_backends, PoolMap,
};
use crate::config_manager::watcher::{relevant, ChangeKind, PathMatch};
use crate::forwarder::vip_matcher::{entries_map, VipKey};
use crate::hashing::lookup_table::{active_backends, maglev_entries, TableView};
use crate::laws::stages::last_entry_of_a_destination_counts;
use crate::laws::texts::{bases_are_ten_and_sixteen, digits_are_read_as_spelled};
use crate::node::setup::{initial_tables, service_entries, vip_entries};
use crate::node::trace_args::{
    ascii_lower, endpoint, first_at, last_at, same_ignoring_case, without_slashes,
};
use crate::types::backend::BackendPool;
use crate::types::config::{
    duration_text, duration_value, ends_with, or_default, resolved_password, resolved_peers,
    ttls_with_established, BgpConfigRaw,
};
use crate::types::vip::{Vip, VipService};

verus! {

proof fn lemma_number_with_unit(n: int, unit: Seq<char>)
    requires
        0 <= n <= u64::MAX,
        unit.len() > 0,
        !is_white_space(unit.last()),
    ensures
        ({
            let t = decimal(n) + unit;
            &&& trimmed(t) == t
            &&& t.take(t.len() - unit.len()) == decimal(n)
            &&& trimmed(decimal(n)) == decimal(n)
            &&& number_value(decimal(n), u64::MAX as int) == Ok::<int, NumberError>(n)
            &&& decimal(n).len() > 0
            &&& '0' <= decimal(n).last() <= '9'
            &&& t.last() == unit.last()
            &&& unit.len() > 1 ==> t[t.len() - 2] == unit[unit.len() - 2]
            &&& unit.len() == 1 ==> t[t.len() - 2] == decimal(n).last()
        }),
{
    decimal_round_trip(n, u64::MAX as int);
    let d = decimal(n);
    let t = d + unit;
    assert('0' <= d[0] <= '9');
    assert('0' <= d[d.len() - 1] <= '9');
    assert(t[0] == d[0]);
    assert(trim_start(t) == t);
    assert(trim_end(t) == t);
    assert(trim_start(d) == d);
    assert(trim_end(d) == d);
    assert(t.take(t.len() - unit.len()) =~= d);
}

/// A number of seconds, milliseconds or microseconds stands for that many of them.
pub proof fn durations_are_read_with_their_unit(n: int)
    requires
        0 <= n <= u64::MAX,
    ensures
        duration_value(decimal(n) + seq!['s']) == Ok::<int, Seq<char>>(n * 1_000_000_000),
        duration_value(decimal(n) + seq!['m', 's']) == Ok::<int, Seq<char>>(n * 1_000_000),
        duration_value(decimal(n) + seq!['u', 's']) == Ok::<int, Seq<char>>(n * 1_000),
{
    reveal_strlit("us");
    reveal_strlit("ms");
    reveal_strlit("s");
    lemma_number_with_unit(n, seq!['s']);
    lemma_number_with_unit(n, seq!['m', 's']);
    lemma_number_with_unit(n, seq!['u', 's']);
    let a = decimal(n) + seq!['s'];
    let b = decimal(n) + seq!['m', 's'];
    let c = decimal(n) + seq!['u', 's'];
    assert(!ends_with(a, "us"@)) by {
        if ends_with(a, "us"@) {
            assert(a.skip(a.len() - 2)[0] == "us"@[0]);
        }
    }
    assert(!ends_with(a, "ms"@)) by {
        if ends_with(a, "ms"@) {
            assert(a.skip(a.len() - 2)[0] == "ms"@[0]);
        }
    }
    assert(a.skip(a.len() - 1) =~= "s"@);
    assert(!ends_with(b, "us"@)) by {
        if ends_with(b, "us"@) {
            assert(b.skip(b.len() - 2)[0] == "us"@[0]);
        }
    }
    assert(b.skip(b.len() - 2) =~= "ms"@);
    assert(c.skip(c.len() - 2) =~= "us"@);
}

/// A text that does not end with a unit is no duration.
pub proof fn durations_need_a_unit(text: Seq<char>)
    requires
        trimmed(text).len() == 0 || trimmed(text).last() != 's',
    ensures
        duration_value(text) is Err,
{
    reveal_strlit("us");
    reveal_strlit("ms");
    reveal_strlit("s");
    let s = trimmed(text);
    if ends_with(s, "us"@) {
        assert(s.skip(s.len() - 2)[1] == "us"@[1]);
    }
    if ends_with(s, "ms"@) {
        assert(s.skip(s.len() - 2)[1] == "ms"@[1]);
    }
    if ends_with(s, "s"@) {
        assert(s.skip(s.len() - 1)[0] == "s"@[0]);
    }
}

/// A duration is written in the largest unit of which it is a whole number, down to
/// microseconds.
pub proof fn durations_are_written_in_the_largest_unit(d: Duration)
    requires
        d.nanos % 1_000 == 0,
    ensures
        ({
            let t = duration_text(d);
            &&& d.nanos % 1_000_000_000 == 0 ==> t == decimal(d.nanos as int / 1_000_000_000)
                + seq!['s']
            &&& d.nanos % 1_000_000_000 != 0 && d.nanos % 1_000_000 == 0 ==> t == decimal(
                d.nanos as int / 1_000_000,
            ) + seq!['m', 's']
            &&& d.nanos % 1_000_000 != 0 ==> t == decimal(d.nanos as int / 1_000) + seq!['u', 's']
        }),
{
    reveal_strlit("us");
    reveal_strlit("ms");
    reveal_strlit("s");
    assert("us"@ =~= seq!['u', 's']);
    assert("ms"@ =~= seq!['m', 's']);
    assert("s"@ =~= seq!['s']);
}

/// A TTL that is not given is five seconds for a handshake, ten for a flow that is
/// closing, thirty for UDP and for anything else, and the connection TTL for an
/// established flow; one that is given is that.
pub proof fn missing_ttls_have_defaults(established: Duration, given: Option<Duration>, d: Duration)
    ensures
        ({
            let t = ttls_with_established(established);
            &&& t.tcp_handshake.nanos == 5_000_000_000
            &&& t.tcp_established == established
            &&& t.tcp_closing.nanos == 10_000_000_000
            &&& t.udp.nanos == 30_000_000_000
            &&& t.other.nanos == 30_000_000_000
        }),
        given is None ==> or_default(given, d) == d,
        given matches Some(g) ==> or_default(given, d) == g,
{
}

/// A configuration names its peers either in a list, which must not be empty, or
/// in the old form by the address and the AS number of one, which then is enabled,
/// on port 179, without a hold time or a password of its own; never in both.
pub proof fn peers_come_in_one_form(raw: BgpConfigRaw)
    ensures
        ({
            let listed = raw.peers matches Some(p) && p@.len() > 0;
            let flat = raw.peer_ip is Some && raw.peer_asn is Some;
            let plain = raw.peer_ip is None && raw.peer_asn is None;
            &&& resolved_peers(raw) is Ok <==> (listed && plain) || (raw.peers is None && flat)
            &&& listed && plain ==> resolved_peers(raw) == Ok::<_, Seq<char>>(raw.peers->0@)
            &&& raw.peers is None && flat ==> (resolved_peers(raw) matches Ok(p) && p.len() == 1 && {
                &&& p[0].peer_ip == raw.peer_ip->0
                &&& p[0].peer_asn == raw.peer_asn->0
                &&& p[0].port == 179
                &&& p[0].enabled
                &&& p[0].hold_time_secs is None
                &&& p[0].communities is None
                &&& p[0].md5_password is None && p[0].md5_password_env is None
            })
        }),
{
}

/// A peer's password is the one given, or the value of the variable named, which
/// must be set and not empty; to name both is an error, and to name neither means
/// that there is none.
pub proof fn passwords_come_from_one_place(
    peer_ip: IpAddr,
    inline: Option<Seq<char>>,
    env_name: Option<Seq<char>>,
    env_value: Option<Seq<char>>,
)
    ensures
        ({
            let r = resolved_password(peer_ip, inline, env_name, env_value);
            &&& r is Err <==> (inline is Some && env_name is Some) || (inline is None && env_name
                is Some && !(env_value matches Some(v) && v.len() > 0))
            &&& inline is Some && env_name is None ==> r == Ok::<_, Seq<char>>(inline)
            &&& inline is None && env_name is None ==> r == Ok::<_, Seq<char>>(None::<Seq<char>>)
            &&& inline is None && env_name is Some && r is Ok ==> r == Ok::<_, Seq<char>>(env_value)
        }),
{
}

proof fn lemma_dangling_listed(
    vip: Seq<char>,
    services: Seq<VipService>,
    pools: Set<Seq<char>>,
    j: int,
)
    requires
        0 <= j < services.len(),
        !pools.contains(services[j].backend_pool@),
    ensures
        dangling_services(vip, services, pools).contains(
            dangling_text(vip, services[j].backend_pool@),
        ),
    decreases services.len(),
{
    let all = dangling_services(vip, services, pools);
    let text = dangling_text(vip, services[j].backend_pool@);
    if j == services.len() - 1 {
        assert(all.last() == text);
    } else {
        let p = services.drop_last();
        assert(p[j] == services[j]);
        lemma_dangling_listed(vip, p, pools, j);
        let before = dangling_services(vip, p, pools);
        let k = choose|k: int| 0 <= k < before.len() && before[k] == text;
        assert(all[k] == text);
    }
}

proof fn lemma_refs_listed(vips: Seq<Vip>, pools: Set<Seq<char>>, i: int, j: int)
    requires
        0 <= i < vips.len(),
        0 <= j < vips[i].services@.len(),
        !pools.contains(vips[i].services@[j].backend_pool@),
    ensures
        dangling_refs(vips, pools).contains(
            dangling_text(vips[i].id.0@, vips[i].services@[j].backend_pool@),
        ),
    decreases vips.len(),
{
    let all = dangling_refs(vips, pools);
    let text = dangling_text(vips[i].id.0@, vips[i].services@[j].backend_pool@);
    let before = dangling_refs(vips.drop_last(), pools);
    if i == vips.len() - 1 {
        let own = dangling_services(vips[i].id.0@, vips[i].services@, pools);
        lemma_dangling_listed(vips[i].id.0@, vips[i].services@, pools, j);
        let k = choose|k: int| 0 <= k < own.len() && own[k] == text;
        assert(all[before.len() + k] == text);
    } else {
        assert(vips.drop_last()[i] == vips[i]);
        lemma_refs_listed(vips.drop_last(), pools, i, j);
        let k = choose|k: int| 0 <= k < before.len() && before[k] == text;
        assert(all[k] == text);
    }
}

proof fn lemma_empty_listed(items: Seq<(String, BackendPool)>, i: int)
    requires
        0 <= i < items.len(),
        items[i].1.backends@.len() == 0,
    ensures
        empty_pools(items).contains(empty_text(items[i].0@)),
    decreases items.len(),
{
    let all = empty_pools(items);
    let text = empty_text(items[i].0@);
    if i == items.len() - 1 {
        assert(all.last() == text);
    } else {
        assert(items.drop_last()[i] == items[i]);
        lemma_empty_listed(items.drop_last(), i);
        let before = empty_pools(items.drop_last());
        let k = choose|k: int| 0 <= k < before.len() && before[k] == text;
        assert(all[k] == text);
    }
}

proof fn lemma_duplicate_listed(vips: Seq<Vip>, i: int, j: int)
    requires
        0 <= i < j < vips.len(),
        vips[i].id.0@ == vips[j].id.0@,
    ensures
        duplicate_ids(vips).contains(duplicate_text(vips[j].id.0@)),
    decreases vips.len(),
{
    let all = duplicate_ids(vips);
    let text = duplicate_text(vips[j].id.0@);
    let p = vips.drop_last();
    if j == vips.len() - 1 {
        assert(p[i].id.0@ == vips[j].id.0@);
        assert(has_vip_id(p, vips[j].id.0@));
        assert(all.last() == text);
    } else {
        assert(p[i] == vips[i] && p[j] == vips[j]);
        lemma_duplicate_listed(p, i, j);
        let before = duplicate_ids(p);
        let k = choose|k: int| 0 <= k < before.len() && before[k] == text;
        assert(all[k] == text);
    }
}

/// Every defect of a configuration is complained of by name: a service whose pool
/// does not exist, a pool without backends, and a VIP with the ID of an earlier one.
pub proof fn every_defect_is_named(vips: Seq<Vip>, pools: PoolMap, i: int, j: int)
    ensures
        0 <= i < vips.len() && 0 <= j < vips[i].services@.len() && !pools@.contains_key(
            vips[i].services@[j].backend_pool@,
        ) ==> complaints(vips, pools).contains(
            "VIP '"@ + vips[i].id.0@ + "' references pool '"@ + vips[i].services@[j].backend_pool@
                + "' which does not exist"@,
        ),
        0 <= i < pools.items().len() && pools.items()[i].1.backends@.len() == 0 ==> complaints(
            vips,
            pools,
        ).contains("pool '"@ + pools.items()[i].0@ + "' has no backends"@),
        0 <= i < j < vips.len() && vips[i].id.0@ == vips[j].id.0@ ==> complaints(
            vips,
            pools,
        ).contains("duplicate VIP ID '"@ + vips[j].id.0@ + "'"@),
{
    let all = complaints(vips, pools);
    let a = dangling_refs(vips, pools@.dom());
    let b = empty_pools(pools.items());
    let c = duplicate_ids(vips);
    if 0 <= i < vips.len() && 0 <= j < vips[i].services@.len() && !pools@.contains_key(
        vips[i].services@[j].backend_pool@,
    ) {
        lemma_refs_listed(vips, pools@.dom(), i, j);
        let text = dangling_text(vips[i].id.0@, vips[i].services@[j].backend_pool@);
        let k = choose|k: int| 0 <= k < a.len() && a[k] == text;
        assert(all[k] == text);
    }
    if 0 <= i < pools.items().len() && pools.items()[i].1.backends@.len() == 0 {
        lemma_empty_listed(pools.items(), i);
        let text = empty_text(pools.items()[i].0@);
        let k = choose|k: int| 0 <= k < b.len() && b[k] == text;
        assert(all[a.len() + k] == text);
    }
    if 0 <= i < j < vips.len() && vips[i].id.0@ == vips[j].id.0@ {
        lemma_duplicate_listed(vips, i, j);
        let text = duplicate_text(vips[j].id.0@);
        let k = choose|k: int| 0 <= k < c.len() && c[k] == text;
        assert(all[a.len() + b.len() + k] == text);
    }
}

/// An event calls for a reload if one of its paths, wherever it stands, is the
/// configuration file or bears its name, and the file was created, changed or
/// removed; looking at it, or anything else, calls for none.
pub proof fn changes_of_the_file_call_for_a_reload(
    kind: ChangeKind,
    paths: Seq<PathMatch>,
    p: PathMatch,
)
    ensures
        !relevant(kind, Seq::empty()),
        kind is Access || kind is Other ==> !relevant(kind, paths),
        kind is Create || kind is Modify || kind is Remove ==> (relevant(kind, paths.push(p))
            <==> relevant(kind, paths) || p.same_path || p.same_name),
{
    let more = paths.push(p);
    if relevant(kind, more) {
        let i = choose|i: int|
            0 <= i < more.len() && ((#[trigger] more[i]).same_path || more[i].same_name);
        if i < paths.len() {
            assert(paths[i] == more[i]);
        }
    }
    if relevant(kind, paths) {
        let i = choose|i: int|
            0 <= i < paths.len() && ((#[trigger] paths[i]).same_path || paths[i].same_name);
        assert(more[i] == paths[i]);
    }
    if p.same_path || p.same_name {
        assert(more[paths.len() as int] == p);
    }
}

proof fn lemma_entry_of_service(vips: Seq<Vip>, i: int, j: int) -> (k: int)
    requires
        0 <= i < vips.len(),
        0 <= j < vips[i].services@.len(),
    ensures
        0 <= k < vip_entries(vips).len(),
        vip_entries(vips)[k] == service_entries(vips[i].address, vips[i].services@)[j],
    decreases vips.len(),
{
    let before = vip_entries(vips.drop_last());
    if i == vips.len() - 1 {
        before.len() + j
    } else {
        assert(vips.drop_last()[i] == vips[i]);
        lemma_entry_of_service(vips.drop_last(), i, j)
    }
}

proof fn lemma_service_of_entry(vips: Seq<Vip>, k: int) -> (r: (int, int))
    requires
        0 <= k < vip_entries(vips).len(),
    ensures
        0 <= r.0 < vips.len(),
        0 <= r.1 < vips[r.0].services@.len(),
        vip_entries(vips)[k] == service_entries(vips[r.0].address, vips[r.0].services@)[r.1],
    decreases vips.len(),
{
    let before = vip_entries(vips.drop_last());
    if k < before.len() {
        let r = lemma_service_of_entry(vips.drop_last(), k);
        assert(vips.drop_last()[r.0] == vips[r.0]);
        r
    } else {
        (vips.len() - 1, k - before.len())
    }
}

/// A destination is served if and only if a VIP at that address has a service for
/// that protocol and port, whichever VIP and wherever among its services.
pub proof fn services_are_matched(vips: Seq<Vip>, key: VipKey)
    ensures
        entries_map(vip_entries(vips)).contains_key(key) <==> exists|i: int, j: int|
            0 <= i < vips.len() && 0 <= j < vips[i].services@.len() && vips[i].address == key.ip && (
            #[trigger] vips[i].services@[j]).protocol == key.protocol && vips[i].services@[j].port
                == key.port,
{
    let entries = vip_entries(vips);
    last_entry_of_a_destination_counts(entries, key, 0);
    if entries_map(entries).contains_key(key) {
        let k = choose|k: int|
            0 <= k < entries.len() && (#[trigger] entries[k]).0 == key.ip && entries[k].1
                == key.protocol && entries[k].2 == key.port;
        let (i, j) = lemma_service_of_entry(vips, k);
        assert(vips[i].services@[j].protocol == key.protocol);
    }
    if exists|i: int, j: int|
        0 <= i < vips.len() && 0 <= j < vips[i].services@.len() && vips[i].address == key.ip && (
        #[trigger] vips[i].services@[j]).protocol == key.protocol && vips[i].services@[j].port
            == key.port {
        let (i, j) = choose|i: int, j: int|
            0 <= i < vips.len() && 0 <= j < vips[i].services@.len() && vips[i].address == key.ip && (
            #[trigger] vips[i].services@[j]).protocol == key.protocol && vips[i].services@[j].port
                == key.port;
        let k = lemma_entry_of_service(vips, i, j);
        assert(entries[k].0 == key.ip);
    }
}

/// The services of a VIP are matched in order, behind those of the VIPs before it,
/// each with its address, protocol, port and pool.
pub proof fn services_are_listed_in_order(vips: Seq<Vip>, v: Vip, j: int)
    ensures
        vip_entries(Seq::empty()).len() == 0,
        ({
            let before = vip_entries(vips);
            let after = vip_entries(vips.push(v));
            &&& after.len() == before.len() + v.services@.len()
            &&& after.take(before.len() as int) == before
            &&& 0 <= j < v.services@.len() ==> {
                let e = after[before.len() + j];
                &&& e.0 == v.address
                &&& e.1 == v.services@[j].protocol
                &&& e.2 == v.services@[j].port
                &&& e.3@ == v.services@[j].backend_pool@
            }
        }),
{
    assert(vips.push(v).drop_last() =~= vips);
    assert(vips.push(v).last() == v);
    let before = vip_entries(vips);
    assert(vip_entries(vips.push(v)).take(before.len() as int) =~= before);
}

/// At start-up every pool with a backend of some weight gets a table of 65537 slots for
/// those backends, the last pool of a name the one that counts; other tables stay.
pub proof fn first_tables_cover_every_pool(
    before: Map<Seq<char>, TableView>,
    pools: Seq<BackendPool>,
    p: BackendPool,
    name: Seq<char>,
)
    ensures
        initial_tables(before, Seq::empty()) == before,
        ({
            let t = initial_tables(before, pools);
            let u = initial_tables(before, pools.push(p));
            let members = active_backends(p.backends@);
            &&& members.len() > 0 ==> u.contains_key(p.id@) && u[p.id@].members == members
                && u[p.id@].slots == maglev_entries(members, 65537)
            &&& members.len() == 0 || name != p.id@ ==> (u.contains_key(name) <==> t.contains_key(
                name,
            )) && (t.contains_key(name) ==> u[name] == t[name])
        }),
{
    assert(pools.push(p).drop_last() =~= pools);
    assert(pools.push(p).last() == p);
}

proof fn lemma_first_at(s: Seq<char>, c: char, n: int)
    requires
        0 <= n <= s.len(),
        forall|i: int| 0 <= i < n ==> #[trigger] s[i] != c,
        n < s.len() ==> s[n] == c,
    ensures
        first_at(s, c) == n,
    decreases s.len(),
{
    if n > 0 {
        let t = s.drop_first();
        assert(s[0] != c);
        assert forall|i: int| 0 <= i < n - 1 implies #[trigger] t[i] != c by {
            assert(s[i + 1] != c);
        }
        lemma_first_at(t, c, n - 1);
    }
}

proof fn lemma_last_at(s: Seq<char>, c: char, n: int)
    requires
        -1 <= n < s.len(),
        forall|i: int| n < i < s.len() ==> #[trigger] s[i] != c,
        n >= 0 ==> s[n] == c,
    ensures
        last_at(s, c) == n,
    decreases s.len(),
{
    if s.len() > 0 && n < s.len() - 1 {
        let t = s.drop_last();
        assert(s[s.len() - 1] != c);
        assert forall|i: int| n < i < t.len() implies #[trigger] t[i] != c by {
            assert(s[i] != c);
        }
        lemma_last_at(t, c, n);
    }
}

/// An endpoint is a host and a port behind the last colon, or a host in brackets, a
/// colon and a port. The port is a number of at most sixteen bits.
pub proof fn endpoints_are_host_and_port(host: Seq<char>, n: int)
    requires
        0 <= n,
    ensures
        n <= 65535 && (host.len() == 0 || host[0] != '[') ==> endpoint(
            host + seq![':'] + decimal(n),
        ) == Some((host, n)),
        n <= 65535 && (forall|i: int| 0 <= i < host.len() ==> #[trigger] host[i] != ']') ==> endpoint(
            seq!['['] + host + seq![']', ':'] + decimal(n),
        ) == Some((host, n)),
        (forall|i: int| 0 <= i < host.len() ==> #[trigger] host[i] != ':') && (host.len() == 0
            || host[0] != '[') ==> endpoint(host) is None,
{
    let d = decimal(n);
    let s = host + seq![':'] + d;
    let k = host.len() as int;
    if n <= 65535 && (host.len() == 0 || host[0] != '[') {
        decimal_round_trip(n, 65535);
        assert(s[k] == ':');
        assert forall|i: int| k < i < s.len() implies #[trigger] s[i] != ':' by {
            assert(s[i] == d[i - k - 1]);
        }
        lemma_last_at(s, ':', k);
        assert(s.take(k) =~= host);
        assert(s.skip(k + 1) =~= d);
        assert(host.len() > 0 ==> s[0] == host[0]);
    }
    if n <= 65535 && (forall|i: int| 0 <= i < host.len() ==> #[trigger] host[i] != ']') {
        decimal_round_trip(n, 65535);
        let b = seq!['['] + host + seq![']', ':'] + d;
        let rest = b.drop_first();
        assert forall|i: int| 0 <= i < k implies #[trigger] rest[i] != ']' by {
            assert(rest[i] == host[i]);
        }
        assert(rest[k] == ']' && rest[k + 1] == ':');
        lemma_first_at(rest, ']', k);
        assert(rest.take(k) =~= host);
        assert(rest.skip(k + 2) =~= d);
    }
    if (forall|i: int| 0 <= i < host.len() ==> #[trigger] host[i] != ':') && (host.len() == 0
        || host[0] != '[') {
        lemma_last_at(host, ':', -1);
    }
}

/// A port above sixteen bits makes no endpoint.
pub proof fn large_ports_are_refused(host: Seq<char>, n: int)
    requires
        65535 < n,
        host.len() == 0 || host[0] != '[',
    ensures
        endpoint(host + seq![':'] + decimal(n)) is None,
{
    let d = decimal(n);
    let s = host + seq![':'] + d;
    let k = host.len() as int;
    decimal_round_trip(n, n);
    bases_are_ten_and_sixteen(n);
    assert forall|i: int| 0 <= i < d.len() implies '0' <= #[trigger] d[i] <= '9' by {}
    digits_are_read_as_spelled(d, 65535);
    assert(s[k] == ':');
    assert forall|i: int| k < i < s.len() implies #[trigger] s[i] != ':' by {
        assert(s[i] == d[i - k - 1]);
    }
    lemma_last_at(s, ':', k);
    assert(s.take(k) =~= host);
    assert(s.skip(k + 1) =~= d);
    assert(host.len() > 0 ==> s[0] == host[0]);
}

/// A protocol is named by its three letters, each in upper or lower case.
pub proof fn protocols_are_named_in_any_case(s: Seq<char>)
    ensures
        same_ignoring_case(s, "tcp"@) <==> s.len() == 3 && (s[0] == 't' || s[0] == 'T') && (s[1]
            == 'c' || s[1] == 'C') && (s[2] == 'p' || s[2] == 'P'),
        same_ignoring_case(s, "udp"@) <==> s.len() == 3 && (s[0] == 'u' || s[0] == 'U') && (s[1]
            == 'd' || s[1] == 'D') && (s[2] == 'p' || s[2] == 'P'),
{
    reveal_strlit("tcp");
    reveal_strlit("udp");
    if s.len() == 3 {
        assert(ascii_lower(s[0]) == ascii_lower('t') <==> (s[0] == 't' || s[0] == 'T'));
        assert(ascii_lower(s[1]) == ascii_lower('c') <==> (s[1] == 'c' || s[1] == 'C'));
        assert(ascii_lower(s[2]) == ascii_lower('p') <==> (s[2] == 'p' || s[2] == 'P'));
        assert(ascii_lower(s[0]) == ascii_lower('u') <==> (s[0] == 'u' || s[0] == 'U'));
        assert(ascii_lower(s[1]) == ascii_lower('d') <==> (s[1] == 'd' || s[1] == 'D'));
    }
}

/// Slashes at the end of a node's address do not count, however many they are.
pub proof fn final_slashes_do_not_count(s: Seq<char>)
    ensures
        without_slashes(s + seq!['/']) == without_slashes(s),
        s.len() == 0 || s.last() != '/' ==> without_slashes(s) == s,
{
    assert((s + seq!['/']).drop_last() =~= s);
}

/// A configuration is consistent if and only if every service names a pool, the last
/// pool of every name has a backend, and no two VIPs have the same ID.
pub proof fn consistency_is_three_things(c: LbConfig)
    ensures
        config_consistent(c) <==> {
            &&& forall|i: int, j: int|
                0 <= i < c.vips@.len() && 0 <= j < c.vips@[i].services@.len() ==> exists|p: int|
                    0 <= p < c.pools@.len() && (#[trigger] c.pools@[p]).id@ == (
                    #[trigger] c.vips@[i].services@[j]).backend_pool@
            &&& forall|p: int|
                0 <= p < c.pools@.len() && (forall|q: int|
                    p < q < c.pools@.len() ==> (#[trigger] c.pools@[q]).id@ != c.pools@[p].id@)
                    ==> (#[trigger] c.pools@[p]).backends@.len() > 0
            &&& forall|i: int, j: int|
                0 <= i < j < c.vips@.len() ==> (#[trigger] c.vips@[i]).id.0@ != (
                #[trigger] c.vips@[j]).id.0@
        },
{
    let pools = pool_backends(c.pools@);
    let vips = c.vips@;
    assert forall|name: Seq<char>| #[trigger] pools.contains_key(name) <==> exists|p: int|
        0 <= p < c.pools@.len() && (#[trigger] c.pools@[p]).id@ == name by {
        lemma_pool_named(c.pools@, name, 0);
    }
    assert forall|p: int|
        0 <= p < c.pools@.len() && (forall|q: int|
            p < q < c.pools@.len() ==> (#[trigger] c.pools@[q]).id@ != c.pools@[p].id@) implies
        pools[(#[trigger] c.pools@[p]).id@] == c.pools@[p].backends@ by {
        lemma_pool_named(c.pools@, c.pools@[p].id@, p);
    }
    if config_consistent(c) {
        assert forall|i: int, j: int|
            0 <= i < vips.len() && 0 <= j < vips[i].services@.len() implies exists|p: int|
            0 <= p < c.pools@.len() && (#[trigger] c.pools@[p]).id@ == (
            #[trigger] vips[i].services@[j]).backend_pool@ by {
            assert(pools.contains_key(vips[i].services@[j].backend_pool@));
        }
        assert forall|p: int|
            0 <= p < c.pools@.len() && (forall|q: int|
                p < q < c.pools@.len() ==> (#[trigger] c.pools@[q]).id@ != c.pools@[p].id@) implies (
        #[trigger] c.pools@[p]).backends@.len() > 0 by {
            assert(pools.contains_key(c.pools@[p].id@));
        }
    }
    if (forall|i: int, j: int|
        0 <= i < vips.len() && 0 <= j < vips[i].services@.len() ==> exists|p: int|
            0 <= p < c.pools@.len() && (#[trigger] c.pools@[p]).id@ == (
            #[trigger] vips[i].services@[j]).backend_pool@) && (forall|p: int|
        0 <= p < c.pools@.len() && (forall|q: int|
            p < q < c.pools@.len() ==> (#[trigger] c.pools@[q]).id@ != c.pools@[p].id@) ==> (
        #[trigger] c.pools@[p]).backends@.len() > 0) && (forall|i: int, j: int|
        0 <= i < j < vips.len() ==> (#[trigger] vips[i]).id.0@ != (#[trigger] vips[j]).id.0@) {
        assert forall|name: Seq<char>| #[trigger] pools.contains_key(name) implies pools[name].len()
            > 0 by {
            let p = lemma_last_named(c.pools@, name);
            assert(pools[c.pools@[p].id@] == c.pools@[p].backends@);
            assert(c.pools@[p].backends@.len() > 0);
        }
        assert(config_consistent(c));
    }
}

proof fn lemma_pool_named(pools: Seq<BackendPool>, name: Seq<char>, p: int)
    ensures
        pool_backends(pools).contains_key(name) <==> exists|p: int|
            0 <= p < pools.len() && (#[trigger] pools[p]).id@ == name,
        0 <= p < pools.len() && pools[p].id@ == name && (forall|q: int|
            p < q < pools.len() ==> (#[trigger] pools[q]).id@ != name) ==> pool_backends(
            pools,
        )[name] == pools[p].backends@,
    decreases pools.len(),
{
    if pools.len() > 0 {
        let r = pools.drop_last();
        lemma_pool_named(r, name, p);
        assert(pools[pools.len() - 1] == pools.last());
        assert(forall|i: int| 0 <= i < r.len() ==> #[trigger] r[i] == pools[i]);
        if exists|i: int| 0 <= i < pools.len() && (#[trigger] pools[i]).id@ == name {
            let i = choose|i: int| 0 <= i < pools.len() && (#[trigger] pools[i]).id@ == name;
            if i < r.len() {
                assert(r[i].id@ == name);
            }
        }
        if pool_backends(r).contains_key(name) {
            let i = choose|i: int| 0 <= i < r.len() && (#[trigger] r[i]).id@ == name;
            assert(pools[i].id@ == name);
        }
    }
}

proof fn lemma_last_named(pools: Seq<BackendPool>, name: Seq<char>) -> (p: int)
    requires
        pool_backends(pools).contains_key(name),
    ensures
        0 <= p < pools.len(),
        pools[p].id@ == name,
        forall|q: int| p < q < pools.len() ==> (#[trigger] pools[q]).id@ != name,
    decreases pools.len(),
{
    if pools.last().id@ == name {
        pools.len() - 1
    } else {
        let r = pools.drop_last();
        let p = lemma_last_named(r, name);
        assert(pools[p] == r[p]);
        assert forall|q: int| p < q < pools.len() implies (#[trigger] pools[q]).id@ != name by {
            if q < r.len() {
                assert(r[q] == pools[q]);
            }
        }
        p
    }
}

/// There is nothing to complain about if and only if every service names a pool of the
/// map, every pool of it has a backend, and no two VIPs have the same ID.
pub proof fn complaints_are_about_three_things(vips: Seq<Vip>, pools: PoolMap)
    requires
        pools.wf(),
    ensures
        complaints(vips, pools).len() == 0 <==> {
            &&& forall|i: int, j: int|
                0 <= i < vips.len() && 0 <= j < vips[i].services@.len() ==> pools@.contains_key(
                    (#[trigger] vips[i].services@[j]).backend_pool@,
                )
            &&& forall|name: Seq<char>| #[trigger]
                pools@.contains_key(name) ==> pools@[name].backends@.len() > 0
            &&& forall|i: int, j: int|
                0 <= i < j < vips.len() ==> (#[trigger] vips[i]).id.0@ != (
                #[trigger] vips[j]).id.0@
        },
{
    complaints_mean_inconsistency(vips, pools);
}

} // verus!

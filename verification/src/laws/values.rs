//! What the values in memory stand for.

use vstd::prelude::*;

use crate::base::net::IpAddr;
use crate::config_manager::applier::LookupTables;
use crate::config_manager::validator::backends_by_name;
use crate::forwarder::packet_pool::FrameQueue;
use crate::forwarder::pipeline::{queue_capacities, queue_contents};
use crate::forwarder::rewriter::{emitted, forwarding_view, ProcessResult};
use crate::forwarder::steering::queue_numbers;
use crate::forwarder::vip_matcher::{VipKey, VipMatcher};
use crate::health::status_map::HealthMap;
use crate::io::packet_buf::{packets_of, PacketBuf};
use crate::types::backend::{Backend, BackendPool};

verus! {

/// A buffer holds the packet that its first bytes are, as many as its length says,
/// and a batch of buffers their packets, in order.
pub proof fn buffers_hold_their_packets(bufs: Seq<PacketBuf>, b: PacketBuf, i: int)
    requires
        b.len <= b.data@.len(),
        0 <= i < b.len,
    ensures
        b@.len() == b.len,
        b@[i] == b.data@[i],
        packets_of(Seq::<PacketBuf>::empty()) == Seq::<Seq<u8>>::empty(),
        packets_of(bufs.push(b)) == packets_of(bufs).push(b@),
{
    assert(packets_of(Seq::<PacketBuf>::empty()) =~= Seq::<Seq<u8>>::empty());
    assert(packets_of(bufs.push(b)) =~= packets_of(bufs).push(b@));
}

/// A result with a packet in it sends that packet and no other; one without a
/// packet sends nothing.
pub proof fn results_send_their_packet(p: PacketBuf)
    ensures
        emitted(ProcessResult::Forwarded(p).outcome()) == seq![p@],
        emitted(ProcessResult::Icmp(p).outcome()) == seq![p@],
        emitted(ProcessResult::OversizedRateLimited.outcome()) == Seq::<Seq<u8>>::empty(),
        emitted(ProcessResult::Dropped.outcome()) == Seq::<Seq<u8>>::empty(),
        ProcessResult::Forwarded(p).outcome() is Forwarded,
        ProcessResult::Icmp(p).outcome() is FragNeeded,
        ProcessResult::OversizedRateLimited.outcome() is OversizedRateLimited,
        ProcessResult::Dropped.outcome() is Dropped,
{
}

/// Packets are forwarded by every service of the matcher, every table and every
/// known health, and by nothing else.
pub proof fn forwarding_goes_by_all_that_is_known(
    matcher: &VipMatcher,
    tables: &LookupTables,
    health: &HealthMap,
    key: VipKey,
    name: Seq<char>,
    ip: IpAddr,
)
    ensures
        ({
            let v = forwarding_view(matcher, tables, health);
            &&& v.services.contains_key(key) == matcher@.contains_key(key)
            &&& matcher@.contains_key(key) ==> v.services[key] == matcher@[key]
            &&& v.tables.contains_key(name) == tables@.contains_key(name)
            &&& tables@.contains_key(name) ==> v.tables[name] == tables@[name]
            &&& v.health.contains_key(ip) == health@.contains_key(ip)
            &&& health@.contains_key(ip) ==> v.health[ip] == health@[ip]
        }),
{
}

/// A row of queues is told by the numbers, the contents and the capacities of the
/// queues in it, one by one.
pub proof fn queues_are_told_one_by_one(
    queues: Seq<FrameQueue>,
    q: FrameQueue,
    ns: Seq<usize>,
    n: usize,
)
    ensures
        queue_contents(queues.push(q)) == queue_contents(queues).push(q@),
        queue_capacities(queues.push(q)) == queue_capacities(queues).push(q.capacity()),
        queue_numbers(ns.push(n)) == queue_numbers(ns).push(n as int),
        queue_contents(Seq::empty()) == Seq::<Seq<u32>>::empty(),
        queue_capacities(Seq::empty()) == Seq::<nat>::empty(),
        queue_numbers(Seq::empty()) == Seq::<int>::empty(),
{
    assert(queue_contents(queues.push(q)) =~= queue_contents(queues).push(q@));
    assert(queue_capacities(queues.push(q)) =~= queue_capacities(queues).push(q.capacity()));
    assert(queue_numbers(ns.push(n)) =~= queue_numbers(ns).push(n as int));
    assert(queue_contents(Seq::empty()) =~= Seq::<Seq<u32>>::empty());
    assert(queue_capacities(Seq::empty()) =~= Seq::<nat>::empty());
    assert(queue_numbers(Seq::empty()) =~= Seq::<int>::empty());
}

/// The backends by the names of their pools: a pool's own under its name, and those
/// of the other pools as before.
pub proof fn pools_keep_their_backends(
    m: Map<Seq<char>, BackendPool>,
    name: Seq<char>,
    p: BackendPool,
)
    ensures
        backends_by_name(m.insert(name, p)) == backends_by_name(m).insert(name, p.backends@),
        backends_by_name(Map::empty()) == Map::<Seq<char>, Seq<Backend>>::empty(),
{
    assert(backends_by_name(m.insert(name, p)) =~= backends_by_name(m).insert(name, p.backends@));
    assert(backends_by_name(Map::empty()) =~= Map::<
        Seq<char>,
        Seq<Backend>,
    >::empty());
}

} // verus!

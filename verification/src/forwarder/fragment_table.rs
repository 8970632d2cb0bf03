//! Which backend the fragments of a packet go to.

use vstd::prelude::*;

use crate::base::net::IpAddr;
use crate::base::power::is_power_of_two;
use crate::base::time::{elapsed_nanos, Duration, Instant};
use crate::forwarder::conn_table::{
    inserted, insertion_hides_no_flow, insertion_is_found, insertion_keeps_other_flows, orderly,
    pinned_backend, ConnEntry, ConnTable, InsertResult,
};
use crate::types::config::ConnTtls;
use crate::types::packet::{FlowProto, TcpFlowState};

verus! {

/// One TTL for every kind of entry.
pub open spec fn uniform_ttls(ttl: Duration) -> ConnTtls {
    ConnTtls {
        tcp_handshake: ttl,
        tcp_established: ttl,
        tcp_closing: ttl,
        udp: ttl,
        other: ttl,
    }
}

/// The entry for the fragments of one packet.
pub open spec fn fragment_entry(hash: u64, backend_ip: IpAddr, now: Instant) -> ConnEntry {
    ConnEntry {
        hash,
        backend_ip,
        last_seen: now,
        proto: FlowProto::Other,
        tcp_state: TcpFlowState::NotTcp,
        occupied: true,
    }
}

/// Fixed-size table for tracking IP fragment → backend mapping.
///
/// Uses open addressing with Robin Hood hashing, in a [`ConnTable`] whose
/// entries carry no protocol state and share one TTL.
pub struct FragmentTable {
    table: ConnTable,
    ttl: Duration,
}

impl FragmentTable {
    /// The slots of the table.
    pub closed spec fn slots(self) -> Seq<ConnEntry> {
        self.table.slots()
    }

    /// The TTL by which entries expire.
    pub closed spec fn ttl(self) -> Duration {
        self.ttl
    }

    pub closed spec fn wf(self) -> bool {
        &&& self.table.wf()
        &&& self.table.ttls() == uniform_ttls(self.ttl)
    }

    /// A well-formed table has at least one slot and is orderly.
    pub proof fn lemma_wf(self)
        requires
            self.wf(),
        ensures
            self.slots().len() > 0,
            orderly(self.slots()),
    {
        self.table.lemma_wf();
    }

    /// `capacity` must be a power of two.
    pub fn new(capacity: usize, ttl: Duration) -> (t: FragmentTable)
        requires
            is_power_of_two(capacity as int),
        ensures
            t.wf(),
            t.ttl() == ttl,
            t.slots().len() == capacity,
            forall|i: int| 0 <= i < capacity ==> !(#[trigger] t.slots()[i]).occupied,
    {
        let ttls = ConnTtls {
            tcp_handshake: ttl,
            tcp_established: ttl,
            tcp_closing: ttl,
            udp: ttl,
            other: ttl,
        };
        FragmentTable { table: ConnTable::new(capacity, ttls), ttl }
    }

    /// Look up the backend for a fragment 3-tuple hash.
    ///
    /// `now` should be grabbed once per batch and reused.
    pub fn get(&self, hash: u64, now: Instant) -> (r: Option<IpAddr>)
        requires
            self.wf(),
        ensures
            r == pinned_backend(self.slots(), hash, uniform_ttls(self.ttl()), now),
    {
        self.table.get(hash, now)
    }

    /// Insert a fragment → backend mapping (for first fragments).
    ///
    /// `now` should be grabbed once per batch and reused.
    pub fn insert(&mut self, hash: u64, backend_ip: IpAddr, now: Instant)
        requires
            old(self).wf(),
        ensures
            final(self).wf(),
            final(self).ttl() == old(self).ttl(),
            final(self).slots() == inserted(
                old(self).slots(),
                fragment_entry(hash, backend_ip, now),
                uniform_ttls(old(self).ttl()),
                now,
            ).0,
    {
        let _ = self.table.insert(hash, backend_ip, FlowProto::Other, TcpFlowState::NotTcp, now);
    }
}

/// The first fragment of a packet: its hash, where it goes and when it came.
pub struct FirstFragment {
    pub hash: u64,
    pub backend_ip: IpAddr,
    pub now: Instant,
}

/// The table after some first fragments were noted, in order.
pub open spec fn noted(
    t: Seq<ConnEntry>,
    firsts: Seq<FirstFragment>,
    ttl: Duration,
) -> Seq<ConnEntry>
    decreases firsts.len(),
{
    if firsts.len() == 0 {
        t
    } else {
        let f = firsts.last();
        inserted(
            noted(t, firsts.drop_last(), ttl),
            fragment_entry(f.hash, f.backend_ip, f.now),
            uniform_ttls(ttl),
            f.now,
        ).0
    }
}

/// First fragments of other packets leave a packet's mapping alone.
proof fn lemma_noted_others(
    t: Seq<ConnEntry>,
    firsts: Seq<FirstFragment>,
    ttl: Duration,
    hash: u64,
    later: Instant,
)
    requires
        t.len() > 0,
        orderly(t),
        forall|i: int|
            0 <= i < firsts.len() ==> (#[trigger] firsts[i]).hash != hash && firsts[i].now.nanos
                <= later.nanos,
    ensures
        noted(t, firsts, ttl).len() == t.len(),
        orderly(noted(t, firsts, ttl)),
        pinned_backend(noted(t, firsts, ttl), hash, uniform_ttls(ttl), later) == pinned_backend(
            t,
            hash,
            uniform_ttls(ttl),
            later,
        ),
    decreases firsts.len(),
{
    if firsts.len() > 0 {
        let p = firsts.drop_last();
        let f = firsts.last();
        assert forall|i: int| 0 <= i < p.len() implies (#[trigger] p[i]).hash != hash
            && p[i].now.nanos <= later.nanos by {
            assert(p[i] == firsts[i]);
        }
        assert(f == firsts[firsts.len() - 1]);
        lemma_noted_others(t, p, ttl, hash, later);
        let u = noted(t, p, ttl);
        let e = fragment_entry(f.hash, f.backend_ip, f.now);
        insertion_keeps_other_flows(u, e, uniform_ttls(ttl), f.now);
        insertion_hides_no_flow(u, e, uniform_ttls(ttl), f.now, hash, later);
    }
}

/// Later fragments follow the first: once the first fragment's mapping is in
/// the table, a lookup within the TTL gives the backend that the first fragment
/// went to, whatever other packets' first fragments came in between.
pub proof fn fragments_follow_the_first(
    t: Seq<ConnEntry>,
    first: FirstFragment,
    others: Seq<FirstFragment>,
    ttl: Duration,
    later: Instant,
)
    requires
        t.len() > 0,
        orderly(t),
        inserted(
            t,
            fragment_entry(first.hash, first.backend_ip, first.now),
            uniform_ttls(ttl),
            first.now,
        ).1 != InsertResult::DroppedFull,
        forall|i: int|
            0 <= i < others.len() ==> (#[trigger] others[i]).hash != first.hash
                && others[i].now.nanos <= later.nanos,
        elapsed_nanos(first.now, later) <= ttl.nanos,
    ensures
        pinned_backend(
            noted(noted(t, seq![first], ttl), others, ttl),
            first.hash,
            uniform_ttls(ttl),
            later,
        ) == Some(first.backend_ip),
{
    let e = fragment_entry(first.hash, first.backend_ip, first.now);
    let u = inserted(t, e, uniform_ttls(ttl), first.now).0;
    assert(seq![first].drop_last() =~= Seq::<FirstFragment>::empty());
    assert(noted(t, Seq::<FirstFragment>::empty(), ttl) == t);
    assert(noted(t, seq![first], ttl) == u);
    insertion_is_found(t, e, uniform_ttls(ttl), first.now);
    insertion_keeps_other_flows(t, e, uniform_ttls(ttl), first.now);
    lemma_noted_others(u, others, ttl, first.hash, later);
}

} // verus!

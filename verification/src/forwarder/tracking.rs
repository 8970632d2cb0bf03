//! Backend selection with connection tracking.

use vstd::prelude::*;

use crate::base::net::IpAddr;
use crate::base::time::Instant;
use crate::forwarder::conn_table::{
    adjustment_is_local, adjustment_keeps_order, expired, inserted, insertion_hides_no_flow,
    insertion_is_found, insertion_keeps_other_flows, lookup, marked_closing, marked_established,
    orderly, pinned_backend, touched, ConnEntry, ConnTable, InsertResult,
};
use crate::forwarder::metrics::{count, counted, ForwarderCounts};
use crate::hashing::lookup_table::LookupTable;
use crate::health::status_map::{usable, HealthMap};
use crate::types::backend::HealthStatus;
use crate::types::config::ConnTtls;
use crate::types::packet::{FlowProto, TcpFlags, TcpFlowState};

verus! {

/// The state of a flow, judged by its first packet.
pub open spec fn first_state(flags: Option<TcpFlags>) -> TcpFlowState {
    match flags {
        None => TcpFlowState::NotTcp,
        Some(f) => if f.has(0x04) || f.has(0x01) {
            TcpFlowState::Closing
        } else if f.has(0x02) && !f.has(0x10) {
            TcpFlowState::Handshake
        } else if f.has(0x10) {
            TcpFlowState::Established
        } else {
            TcpFlowState::Handshake
        },
    }
}

/// Initial TCP flow state inferred from the first packet of a flow.
pub fn initial_tcp_state(flags: Option<TcpFlags>) -> (s: TcpFlowState)
    ensures
        s == first_state(flags),
{
    match flags {
        None => TcpFlowState::NotTcp,
        Some(f) => if f.rst() || f.fin() {
            TcpFlowState::Closing
        } else if f.syn() && !f.ack() {
            TcpFlowState::Handshake
        } else if f.ack() {
            TcpFlowState::Established
        } else {
            TcpFlowState::Handshake
        },
    }
}

/// The metrics after an insertion that ended with `r`.
pub open spec fn count_insert(m: ForwarderCounts, r: InsertResult) -> ForwarderCounts {
    match r {
        InsertResult::Inserted | InsertResult::Updated => ForwarderCounts {
            conn_table_inserts_total: counted(m.conn_table_inserts_total),
            ..m
        },
        InsertResult::EvictedExpired => ForwarderCounts {
            conn_table_inserts_total: counted(m.conn_table_inserts_total),
            eviction_expired_on_insert: counted(m.eviction_expired_on_insert),
            ..m
        },
        InsertResult::DroppedFull => ForwarderCounts {
            eviction_dropped_full: counted(m.eviction_dropped_full),
            ..m
        },
    }
}

/// A flow: its hash, protocol family and first state.
pub struct FlowKey {
    pub hash: u64,
    pub proto: FlowProto,
    pub first_state: TcpFlowState,
}

/// The entry that pins a flow to a backend.
pub open spec fn flow_entry(flow: FlowKey, backend_ip: IpAddr, now: Instant) -> ConnEntry {
    ConnEntry {
        hash: flow.hash,
        backend_ip,
        last_seen: now,
        proto: flow.proto,
        tcp_state: flow.first_state,
        occupied: true,
    }
}

/// Table and metrics after pinning a flow to a backend.
pub open spec fn pinned(
    t: Seq<ConnEntry>,
    m: ForwarderCounts,
    ttls: ConnTtls,
    flow: FlowKey,
    backend_ip: IpAddr,
    now: Instant,
) -> (Seq<ConnEntry>, ForwarderCounts) {
    let (u, r) = inserted(t, flow_entry(flow, backend_ip, now), ttls, now);
    (u, count_insert(m, r))
}

/// Pins a flow to a backend and counts what happened.
pub fn insert_tracked(
    conn_table: &mut ConnTable,
    metrics: &mut ForwarderCounts,
    flow: &FlowKey,
    backend_ip: IpAddr,
    now: Instant,
)
    requires
        old(conn_table).wf(),
    ensures
        final(conn_table).wf(),
        final(conn_table).ttls() == old(conn_table).ttls(),
        (final(conn_table).slots(), *final(metrics)) == pinned(
            old(conn_table).slots(),
            *old(metrics),
            old(conn_table).ttls(),
            *flow,
            backend_ip,
            now,
        ),
{
    match conn_table.insert(flow.hash, backend_ip, flow.proto, flow.first_state, now) {
        InsertResult::Inserted | InsertResult::Updated => {
            metrics.conn_table_inserts_total = count(metrics.conn_table_inserts_total);
        },
        InsertResult::EvictedExpired => {
            metrics.conn_table_inserts_total = count(metrics.conn_table_inserts_total);
            metrics.eviction_expired_on_insert = count(metrics.eviction_expired_on_insert);
        },
        InsertResult::DroppedFull => {
            metrics.eviction_dropped_full = count(metrics.eviction_dropped_full);
        },
    }
}

/// Table, metrics and backend after selecting the backend of a flow.
///
/// A flow stays with the backend it is pinned to while that backend is usable.
/// Otherwise the lookup table selects one and the flow is pinned to it.
pub open spec fn selection(
    t: Seq<ConnEntry>,
    m: ForwarderCounts,
    ttls: ConnTtls,
    table: LookupTable,
    health: Map<IpAddr, HealthStatus>,
    flow: FlowKey,
    now: Instant,
) -> (Seq<ConnEntry>, ForwarderCounts, IpAddr) {
    let fresh = table.selected(flow.hash).ip;
    match pinned_backend(t, flow.hash, ttls, now) {
        Some(cached) => if usable(health, cached) {
            (
                touched(t, flow.hash, now),
                ForwarderCounts { conn_table_hits: counted(m.conn_table_hits), ..m },
                cached,
            )
        } else {
            let m1 = ForwarderCounts {
                conn_table_fallback_to_maglev_total: counted(
                    m.conn_table_fallback_to_maglev_total,
                ),
                ..m
            };
            let (u, m2) = pinned(t, m1, ttls, flow, fresh, now);
            (u, m2, fresh)
        },
        None => {
            let m1 = ForwarderCounts { conn_table_misses: counted(m.conn_table_misses), ..m };
            let (u, m2) = pinned(t, m1, ttls, flow, fresh, now);
            (u, m2, fresh)
        },
    }
}

/// A flow that is pinned to a usable backend keeps it, whatever the lookup
/// table says now; any other flow gets the lookup table's choice.
pub proof fn affinity_before_lookup(
    t: Seq<ConnEntry>,
    m: ForwarderCounts,
    ttls: ConnTtls,
    table: LookupTable,
    health: Map<IpAddr, HealthStatus>,
    flow: FlowKey,
    now: Instant,
)
    ensures
        ({
            let (_, _, ip) = selection(t, m, ttls, table, health, flow, now);
            match pinned_backend(t, flow.hash, ttls, now) {
                Some(cached) => if usable(health, cached) {
                    ip == cached
                } else {
                    ip == table.selected(flow.hash).ip
                },
                None => ip == table.selected(flow.hash).ip,
            }
        }),
{
}

/// Selects the backend of a flow.
pub fn select_backend(
    conn_table: &mut ConnTable,
    metrics: &mut ForwarderCounts,
    table: &LookupTable,
    health: &HealthMap,
    flow: &FlowKey,
    now: Instant,
) -> (ip: IpAddr)
    requires
        old(conn_table).wf(),
        table.wf(),
    ensures
        final(conn_table).wf(),
        final(conn_table).ttls() == old(conn_table).ttls(),
        (final(conn_table).slots(), *final(metrics), ip) == selection(
            old(conn_table).slots(),
            *old(metrics),
            old(conn_table).ttls(),
            *table,
            health@,
            *flow,
            now,
        ),
{
    if let Some(cached_ip) = conn_table.get(flow.hash, now) {
        if health.is_usable(&cached_ip) {
            metrics.conn_table_hits = count(metrics.conn_table_hits);
            conn_table.touch(flow.hash, now);
            cached_ip
        } else {
            // Cached backend went unhealthy: fall back to a fresh Maglev
            // lookup and re-pin. Counted separately from cold misses so that
            // operators can tell TTL expiry from backend health flaps.
            metrics.conn_table_fallback_to_maglev_total =
            count(metrics.conn_table_fallback_to_maglev_total);
            let backend = table.lookup(flow.hash);
            insert_tracked(conn_table, metrics, flow, backend.ip, now);
            backend.ip
        }
    } else {
        metrics.conn_table_misses = count(metrics.conn_table_misses);
        let backend = table.lookup(flow.hash);
        insert_tracked(conn_table, metrics, flow, backend.ip, now);
        backend.ip
    }
}

/// Table and metrics after a packet with TCP flags `flags` was seen.
///
/// RST takes priority, then FIN; an ACK without SYN signals that the handshake
/// has completed.
pub open spec fn transitioned(
    t: Seq<ConnEntry>,
    m: ForwarderCounts,
    hash: u64,
    flags: Option<TcpFlags>,
    now: Instant,
) -> (Seq<ConnEntry>, ForwarderCounts) {
    match flags {
        None => (t, m),
        Some(f) => if f.has(0x04) {
            (
                marked_closing(t, hash, now),
                ForwarderCounts {
                    tcp_transition_closing_rst: counted(m.tcp_transition_closing_rst),
                    ..m
                },
            )
        } else if f.has(0x01) {
            (
                marked_closing(t, hash, now),
                ForwarderCounts {
                    tcp_transition_closing_fin: counted(m.tcp_transition_closing_fin),
                    ..m
                },
            )
        } else if f.has(0x10) && !f.has(0x02) {
            (
                marked_established(t, hash, now),
                ForwarderCounts {
                    tcp_transition_established: counted(m.tcp_transition_established),
                    ..m
                },
            )
        } else {
            (t, m)
        },
    }
}

/// Drives the TCP state of a flow by the flags of its latest packet.
pub fn apply_tcp_transitions(
    conn_table: &mut ConnTable,
    metrics: &mut ForwarderCounts,
    hash: u64,
    flags: Option<TcpFlags>,
    now: Instant,
)
    requires
        old(conn_table).wf(),
    ensures
        final(conn_table).wf(),
        final(conn_table).ttls() == old(conn_table).ttls(),
        (final(conn_table).slots(), *final(metrics)) == transitioned(
            old(conn_table).slots(),
            *old(metrics),
            hash,
            flags,
            now,
        ),
{
    if let Some(f) = flags {
        if f.rst() {
            conn_table.mark_closing(hash, now);
            metrics.tcp_transition_closing_rst = count(metrics.tcp_transition_closing_rst);
        } else if f.fin() {
            conn_table.mark_closing(hash, now);
            metrics.tcp_transition_closing_fin = count(metrics.tcp_transition_closing_fin);
        } else if f.ack() && !f.syn() {
            conn_table.mark_established(hash, now);
            metrics.tcp_transition_established = count(metrics.tcp_transition_established);
        }
    }
}

/// Whether `hash` is pinned to `ip` by an entry last seen at `now`.
pub open spec fn fresh_pin(t: Seq<ConnEntry>, hash: u64, ip: IpAddr, now: Instant) -> bool {
    lookup(t, hash) matches Some(e) && e.backend_ip == ip && e.last_seen == now
}

proof fn lemma_transition_keeps_pin(
    t: Seq<ConnEntry>,
    m: ForwarderCounts,
    hash: u64,
    flags: Option<TcpFlags>,
    ip: IpAddr,
    now: Instant,
)
    requires
        t.len() > 0,
        fresh_pin(t, hash, ip, now),
    ensures
        fresh_pin(transitioned(t, m, hash, flags, now).0, hash, ip, now),
{
    let closing = |e: ConnEntry|
        if e.proto is Tcp {
            ConnEntry { tcp_state: TcpFlowState::Closing, last_seen: now, ..e }
        } else {
            e
        };
    let established = |e: ConnEntry|
        if e.proto is Tcp && !(e.tcp_state is Closing) {
            ConnEntry { tcp_state: TcpFlowState::Established, last_seen: now, ..e }
        } else {
            e
        };
    adjustment_is_local(t, hash, closing, hash);
    adjustment_is_local(t, hash, established, hash);
}

/// Whether selecting the backend of a flow leaves the flow tracked: it was
/// pinned to a usable backend already, or the table had room for it.
pub open spec fn stays_tracked(
    t: Seq<ConnEntry>,
    ttls: ConnTtls,
    table: LookupTable,
    health: Map<IpAddr, HealthStatus>,
    flow: FlowKey,
    now: Instant,
) -> bool {
    let known = pinned_backend(t, flow.hash, ttls, now) matches Some(cached) && usable(
        health,
        cached,
    );
    let entry = flow_entry(flow, table.selected(flow.hash).ip, now);
    known || inserted(t, entry, ttls, now).1 != InsertResult::DroppedFull
}

/// A packet of a flow, and what it finds when it comes.
pub struct FlowPacket {
    pub flow: FlowKey,
    pub flags: Option<TcpFlags>,
    pub table: LookupTable,
    pub health: Map<IpAddr, HealthStatus>,
    pub now: Instant,
}

/// The connection table after a packet of a flow.
pub open spec fn tracked_one(t: Seq<ConnEntry>, ttls: ConnTtls, p: FlowPacket) -> Seq<ConnEntry> {
    let m = ForwarderCounts::zero();
    let (t1, _, _) = selection(t, m, ttls, p.table, p.health, p.flow, p.now);
    transitioned(t1, m, p.flow.hash, p.flags, p.now).0
}

/// The connection table after some packets, in order.
pub open spec fn tracked_all(
    t: Seq<ConnEntry>,
    ttls: ConnTtls,
    packets: Seq<FlowPacket>,
) -> Seq<ConnEntry>
    decreases packets.len(),
{
    if packets.len() == 0 {
        t
    } else {
        tracked_one(tracked_all(t, ttls, packets.drop_last()), ttls, packets.last())
    }
}

/// What a packet does to the tables and to where it goes does not depend on
/// the counters.
pub proof fn counters_do_not_matter(
    t: Seq<ConnEntry>,
    m: ForwarderCounts,
    ttls: ConnTtls,
    p: FlowPacket,
)
    ensures
        ({
            let (t1, m1, _) = selection(t, m, ttls, p.table, p.health, p.flow, p.now);
            transitioned(t1, m1, p.flow.hash, p.flags, p.now).0 == tracked_one(t, ttls, p)
        }),
        selection(t, m, ttls, p.table, p.health, p.flow, p.now).2 == selection(
            t,
            ForwarderCounts::zero(),
            ttls,
            p.table,
            p.health,
            p.flow,
            p.now,
        ).2,
{
}

/// A packet's flags keep the table orderly and leave every other flow alone.
pub proof fn lemma_transition_local(
    t: Seq<ConnEntry>,
    m: ForwarderCounts,
    hash: u64,
    flags: Option<TcpFlags>,
    now: Instant,
    k: u64,
)
    requires
        t.len() > 0,
        orderly(t),
    ensures
        transitioned(t, m, hash, flags, now).0.len() == t.len(),
        orderly(transitioned(t, m, hash, flags, now).0),
        k != hash ==> lookup(transitioned(t, m, hash, flags, now).0, k) == lookup(t, k),
{
    let closing = |e: ConnEntry|
        if e.proto is Tcp {
            ConnEntry { tcp_state: TcpFlowState::Closing, last_seen: now, ..e }
        } else {
            e
        };
    let established = |e: ConnEntry|
        if e.proto is Tcp && !(e.tcp_state is Closing) {
            ConnEntry { tcp_state: TcpFlowState::Established, last_seen: now, ..e }
        } else {
            e
        };
    adjustment_is_local(t, hash, closing, k);
    adjustment_is_local(t, hash, established, k);
    adjustment_keeps_order(t, hash, closing);
    adjustment_keeps_order(t, hash, established);
}

/// A packet of one flow leaves where every other flow goes as it was.
pub proof fn packets_disturb_no_other_flow(
    t: Seq<ConnEntry>,
    ttls: ConnTtls,
    p: FlowPacket,
    hash: u64,
    later: Instant,
)
    requires
        t.len() > 0,
        orderly(t),
    ensures
        tracked_one(t, ttls, p).len() == t.len(),
        orderly(tracked_one(t, ttls, p)),
        hash != p.flow.hash && p.now.nanos <= later.nanos ==> pinned_backend(
            tracked_one(t, ttls, p),
            hash,
            ttls,
            later,
        ) == pinned_backend(t, hash, ttls, later),
{
    let m = ForwarderCounts::zero();
    let (t1, _, _) = selection(t, m, ttls, p.table, p.health, p.flow, p.now);
    let touch = |e: ConnEntry| ConnEntry { last_seen: p.now, ..e };
    adjustment_is_local(t, p.flow.hash, touch, hash);
    adjustment_keeps_order(t, p.flow.hash, touch);
    let e = flow_entry(p.flow, p.table.selected(p.flow.hash).ip, p.now);
    insertion_keeps_other_flows(t, e, ttls, p.now);
    if hash != p.flow.hash && p.now.nanos <= later.nanos {
        insertion_hides_no_flow(t, e, ttls, p.now, hash, later);
    }
    lemma_transition_local(t1, m, p.flow.hash, p.flags, p.now, hash);
}

proof fn lemma_others_tracked(
    t: Seq<ConnEntry>,
    ttls: ConnTtls,
    packets: Seq<FlowPacket>,
    hash: u64,
    later: Instant,
)
    requires
        t.len() > 0,
        orderly(t),
        forall|i: int|
            0 <= i < packets.len() ==> (#[trigger] packets[i]).flow.hash != hash
                && packets[i].now.nanos <= later.nanos,
    ensures
        tracked_all(t, ttls, packets).len() == t.len(),
        orderly(tracked_all(t, ttls, packets)),
        pinned_backend(tracked_all(t, ttls, packets), hash, ttls, later) == pinned_backend(
            t,
            hash,
            ttls,
            later,
        ),
    decreases packets.len(),
{
    if packets.len() > 0 {
        let p = packets.drop_last();
        assert forall|i: int| 0 <= i < p.len() implies (#[trigger] p[i]).flow.hash != hash
            && p[i].now.nanos <= later.nanos by {
            assert(p[i] == packets[i]);
        }
        assert(packets.last() == packets[packets.len() - 1]);
        lemma_others_tracked(t, ttls, p, hash, later);
        packets_disturb_no_other_flow(
            tracked_all(t, ttls, p),
            ttls,
            packets.last(),
            hash,
            later,
        );
    }
}

/// Flow affinity: once a backend was selected for a flow and the flow is
/// tracked, the flow's next packet goes to the same backend, whatever packets of
/// other flows come in between and whatever the lookup table has become, as
/// long as the backend stays usable and the flow's TTL has not run out.
pub proof fn flow_affinity(
    t: Seq<ConnEntry>,
    ttls: ConnTtls,
    first: FlowPacket,
    others: Seq<FlowPacket>,
    later_m: ForwarderCounts,
    later: FlowPacket,
)
    requires
        t.len() > 0,
        orderly(t),
        later.flow.hash == first.flow.hash,
        forall|i: int|
            0 <= i < others.len() ==> (#[trigger] others[i]).flow.hash != first.flow.hash
                && others[i].now.nanos <= later.now.nanos,
        usable(
            later.health,
            selection(
                t,
                ForwarderCounts::zero(),
                ttls,
                first.table,
                first.health,
                first.flow,
                first.now,
            ).2,
        ),
        stays_tracked(t, ttls, first.table, first.health, first.flow, first.now),
        lookup(tracked_one(t, ttls, first), first.flow.hash) matches Some(e) ==> !expired(
            e,
            ttls,
            later.now,
        ),
    ensures
        selection(
            tracked_all(tracked_one(t, ttls, first), ttls, others),
            later_m,
            ttls,
            later.table,
            later.health,
            later.flow,
            later.now,
        ).2 == selection(
            t,
            ForwarderCounts::zero(),
            ttls,
            first.table,
            first.health,
            first.flow,
            first.now,
        ).2,
{
    let m = ForwarderCounts::zero();
    let now = first.now;
    let hash = first.flow.hash;
    let (t1, m1, ip) = selection(t, m, ttls, first.table, first.health, first.flow, now);
    let fresh = first.table.selected(hash).ip;
    let entry = flow_entry(first.flow, fresh, now);
    insertion_is_found(t, entry, ttls, now);
    insertion_keeps_other_flows(t, entry, ttls, now);
    let touch = |e: ConnEntry| ConnEntry { last_seen: now, ..e };
    adjustment_is_local(t, hash, touch, hash);
    adjustment_keeps_order(t, hash, touch);
    assert(t1.len() == t.len());
    assert(fresh_pin(t1, hash, ip, now));
    lemma_transition_keeps_pin(t1, m, hash, first.flags, ip, now);
    lemma_transition_local(t1, m, hash, first.flags, now, hash);
    lemma_others_tracked(tracked_one(t, ttls, first), ttls, others, hash, later.now);
}

} // verus!

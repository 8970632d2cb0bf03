//! How long a flow stays with its backend, and what each packet does to that.

use vstd::prelude::*;

use crate::base::net::IpAddr;
use crate::base::time::Instant;
use crate::forwarder::conn_table::{
    adjustment_is_local, adjustment_keeps_order, expired, flows, inserted, insertion_is_found,
    insertion_keeps_other_flows, insertion_needs_a_slot, insertion_reports_its_effect,
    lemma_occupancy_bound, lookup, ordered_lookup, orderly, pinned_backend, promoted, ConnEntry,
};
use crate::forwarder::metrics::{counted, ForwarderCounts};
use crate::forwarder::tracking::{first_state, flow_entry, selection, transitioned, FlowKey};
use crate::hashing::lookup_table::LookupTable;
use crate::laws::packets::flags_are_bits;
use crate::types::backend::HealthStatus;
use crate::types::config::ConnTtls;
use crate::types::packet::{FlowProto, TcpFlags, TcpFlowState};

verus! {

/// A flow stays with the backend of its entry up to the instant when its TTL
/// has run out, and no longer. The TTL is the one of its protocol; a TCP flow
/// has one for its handshake, one for when it is closing, and one for the time
/// in between.
pub proof fn pins_last_for_their_ttl(
    t: Seq<ConnEntry>,
    hash: u64,
    ttls: ConnTtls,
    later: Instant,
)
    ensures
        lookup(t, hash) is None ==> pinned_backend(t, hash, ttls, later) is None,
        lookup(t, hash) matches Some(e) ==> {
            let ttl = match (e.proto, e.tcp_state) {
                (FlowProto::Tcp, TcpFlowState::Handshake) => ttls.tcp_handshake.nanos,
                (FlowProto::Tcp, TcpFlowState::Closing) => ttls.tcp_closing.nanos,
                (FlowProto::Tcp, TcpFlowState::Established) => ttls.tcp_established.nanos,
                (FlowProto::Tcp, TcpFlowState::NotTcp) => ttls.tcp_established.nanos,
                (FlowProto::Udp, _) => ttls.udp.nanos,
                (FlowProto::Other, _) => ttls.other.nanos,
            };
            &&& later.nanos <= e.last_seen.nanos + ttl ==> pinned_backend(t, hash, ttls, later)
                == Some(e.backend_ip)
            &&& later.nanos > e.last_seen.nanos + ttl ==> pinned_backend(
                t,
                hash,
                ttls,
                later,
            ) is None
            &&& expired(e, ttls, later) <==> later.nanos > e.last_seen.nanos + ttl
        },
{
}

/// The state that the first packet of a flow puts it in: closing after a FIN or
/// RST, else established after an ACK, else in its handshake; a packet without
/// TCP flags leaves the flow without a TCP state.
pub proof fn first_packets_set_the_state(flags: Option<TcpFlags>)
    ensures
        flags is None ==> first_state(flags) is NotTcp,
        flags matches Some(f) ==> {
            &&& f.0 & 0x04 == 0x04 || f.0 & 0x01 == 0x01 ==> first_state(flags) is Closing
            &&& f.0 & 0x04 != 0x04 && f.0 & 0x01 != 0x01 ==> (f.0 & 0x10 == 0x10 ==> first_state(
                flags,
            ) is Established) && (f.0 & 0x10 != 0x10 ==> first_state(flags) is Handshake)
        },
{
    if let Some(f) = flags {
        flags_are_bits(f);
    }
}

/// What a packet's flags do to the entry of its TCP flow. After a FIN or RST the
/// entry is closing, seen now, and the flow stays with its backend for the
/// closing TTL. After an ACK without SYN, FIN and RST an entry that is not closing is
/// established, seen now, and the flow stays with its backend for the
/// established TTL. Any other packet leaves the entry as it was, and no packet
/// touches the entry of another flow.
pub proof fn flags_drive_the_entry(
    t: Seq<ConnEntry>,
    m: ForwarderCounts,
    hash: u64,
    f: TcpFlags,
    now: Instant,
    ttls: ConnTtls,
    later: Instant,
    other: u64,
)
    requires
        t.len() > 0,
        other != hash,
        lookup(t, hash) matches Some(e) && e.proto is Tcp,
    ensures
        ({
            let e = lookup(t, hash)->0;
            let (u, n) = transitioned(t, m, hash, Some(f), now);
            let closing = f.0 & 0x04 == 0x04 || f.0 & 0x01 == 0x01;
            let acked = f.0 & 0x10 == 0x10 && f.0 & 0x02 != 0x02;
            &&& lookup(u, hash) matches Some(g) && {
                &&& g.hash == e.hash && g.proto == e.proto && g.occupied == e.occupied
                &&& g.backend_ip == e.backend_ip
                &&& closing ==> g.tcp_state is Closing && g.last_seen == now
                &&& !closing && acked && !(e.tcp_state is Closing) ==> g.tcp_state is Established
                    && g.last_seen == now
                &&& !closing && (!acked || e.tcp_state is Closing) ==> g == e
            }
            &&& closing ==> {
                &&& later.nanos <= now.nanos + ttls.tcp_closing.nanos ==> pinned_backend(
                    u,
                    hash,
                    ttls,
                    later,
                ) == Some(e.backend_ip)
                &&& later.nanos > now.nanos + ttls.tcp_closing.nanos ==> pinned_backend(
                    u,
                    hash,
                    ttls,
                    later,
                ) is None
            }
            &&& !closing && acked && !(e.tcp_state is Closing) ==> {
                &&& later.nanos <= now.nanos + ttls.tcp_established.nanos ==> pinned_backend(
                    u,
                    hash,
                    ttls,
                    later,
                ) == Some(e.backend_ip)
                &&& later.nanos > now.nanos + ttls.tcp_established.nanos ==> pinned_backend(
                    u,
                    hash,
                    ttls,
                    later,
                ) is None
            }
            &&& lookup(u, other) == lookup(t, other)
            &&& n == (if f.0 & 0x04 == 0x04 {
                ForwarderCounts {
                    tcp_transition_closing_rst: counted(m.tcp_transition_closing_rst),
                    ..m
                }
            } else if f.0 & 0x01 == 0x01 {
                ForwarderCounts {
                    tcp_transition_closing_fin: counted(m.tcp_transition_closing_fin),
                    ..m
                }
            } else if acked {
                ForwarderCounts {
                    tcp_transition_established: counted(m.tcp_transition_established),
                    ..m
                }
            } else {
                m
            })
        }),
{
    flags_are_bits(f);
    let closing = |e: ConnEntry|
        if e.proto is Tcp {
            ConnEntry { tcp_state: TcpFlowState::Closing, last_seen: now, ..e }
        } else {
            e
        };
    let established = |e: ConnEntry|
        if e.proto is Tcp && !(e.tcp_state is Closing) {
            ConnEntry { tcp_state: TcpFlowState::Established, last_seen: now, ..e }
        } else {
            e
        };
    adjustment_is_local(t, hash, closing, hash);
    adjustment_is_local(t, hash, established, hash);
    adjustment_is_local(t, hash, closing, other);
    adjustment_is_local(t, hash, established, other);
    let u = transitioned(t, m, hash, Some(f), now).0;
    pins_last_for_their_ttl(u, hash, ttls, later);
}

/// A packet without TCP flags, and one of a flow that is not TCP, changes no
/// state; nor does any packet of a flow that is not tracked.
pub proof fn flagless_packets_change_no_state(
    t: Seq<ConnEntry>,
    m: ForwarderCounts,
    hash: u64,
    flags: Option<TcpFlags>,
    now: Instant,
    k: u64,
)
    requires
        t.len() > 0,
        flags is None || lookup(t, hash) is None || !(lookup(t, hash)->0.proto is Tcp),
    ensures
        lookup(transitioned(t, m, hash, flags, now).0, k) == lookup(t, k),
        flags is None ==> transitioned(t, m, hash, flags, now) == (t, m),
{
    let closing = |e: ConnEntry|
        if e.proto is Tcp {
            ConnEntry { tcp_state: TcpFlowState::Closing, last_seen: now, ..e }
        } else {
            e
        };
    let established = |e: ConnEntry|
        if e.proto is Tcp && !(e.tcp_state is Closing) {
            ConnEntry { tcp_state: TcpFlowState::Established, last_seen: now, ..e }
        } else {
            e
        };
    adjustment_is_local(t, hash, closing, k);
    adjustment_is_local(t, hash, established, k);
}

/// Where a packet goes, and what the table knows of its flow afterwards. A flow
/// whose pin has not run out and whose backend is not unhealthy stays with it,
/// and its entry is refreshed and otherwise as it was. Any other flow goes to
/// the table's choice; if the connection table has a slot that is vacant or has
/// run out, or knows the flow already, the flow is tracked from then on with that backend, seen now.
pub proof fn selection_pins_the_flow(
    t: Seq<ConnEntry>,
    m: ForwarderCounts,
    ttls: ConnTtls,
    table: LookupTable,
    health: Map<IpAddr, HealthStatus>,
    flow: FlowKey,
    now: Instant,
)
    requires
        t.len() > 0,
        orderly(t),
    ensures
        ({
            let (u, n, ip) = selection(t, m, ttls, table, health, flow, now);
            let pin = pinned_backend(t, flow.hash, ttls, now);
            let kept = pin matches Some(b) && !(health.contains_key(b) && health[b] is Unhealthy);
            let room = lookup(t, flow.hash) is Some || exists|i: int|
                0 <= i < t.len() && (!(#[trigger] t[i]).occupied || expired(t[i], ttls, now));
            &&& u.len() == t.len()
            &&& orderly(u)
            &&& kept ==> {
                &&& Some(ip) == pin
                &&& lookup(u, flow.hash) == Some(
                    ConnEntry { last_seen: now, ..lookup(t, flow.hash)->0 },
                )
                &&& n == ForwarderCounts { conn_table_hits: counted(m.conn_table_hits), ..m }
            }
            &&& !kept ==> {
                &&& ip == table.selected(flow.hash).ip
                &&& n.conn_table_hits == m.conn_table_hits
                &&& n.conn_table_misses == (if pin is None {
                    counted(m.conn_table_misses)
                } else {
                    m.conn_table_misses
                })
                &&& n.conn_table_fallback_to_maglev_total == (if pin is Some {
                    counted(m.conn_table_fallback_to_maglev_total)
                } else {
                    m.conn_table_fallback_to_maglev_total
                })
                &&& n.conn_table_inserts_total == (if room {
                    counted(m.conn_table_inserts_total)
                } else {
                    m.conn_table_inserts_total
                })
                &&& n.eviction_dropped_full == (if room {
                    m.eviction_dropped_full
                } else {
                    counted(m.eviction_dropped_full)
                })
                &&& pin is None && lookup(t, flow.hash) is Some ==> n.eviction_expired_on_insert
                    == counted(m.eviction_expired_on_insert)
                &&& pin is Some || !room ==> n.eviction_expired_on_insert
                    == m.eviction_expired_on_insert
                &&& n == ForwarderCounts {
                    conn_table_misses: n.conn_table_misses,
                    conn_table_fallback_to_maglev_total: n.conn_table_fallback_to_maglev_total,
                    conn_table_inserts_total: n.conn_table_inserts_total,
                    eviction_dropped_full: n.eviction_dropped_full,
                    eviction_expired_on_insert: n.eviction_expired_on_insert,
                    ..m
                }
            }
            &&& !kept && room ==> (lookup(u, flow.hash) matches Some(g) && {
                &&& g.hash == flow.hash && g.occupied
                &&& g.backend_ip == ip
                &&& g.last_seen == now
                &&& g.proto == flow.proto
                &&& pin is None ==> g.tcp_state == flow.first_state
            })
            &&& !kept && !room ==> u == t
        }),
{
    let touch = |e: ConnEntry| ConnEntry { last_seen: now, ..e };
    adjustment_is_local(t, flow.hash, touch, flow.hash);
    adjustment_keeps_order(t, flow.hash, touch);
    let fresh = table.selected(flow.hash).ip;
    let entry = flow_entry(flow, fresh, now);
    insertion_keeps_other_flows(t, entry, ttls, now);
    insertion_is_found(t, entry, ttls, now);
    let (u, r) = inserted(t, entry, ttls, now);
    assert(flows(t).contains_key(flow.hash) <==> lookup(t, flow.hash) is Some);
    if !(r is DroppedFull) {
        assert(flows(u).contains_key(flow.hash));
        assert(flows(u)[flow.hash] == lookup(u, flow.hash)->0);
    }
    insertion_needs_a_slot(t, entry, ttls, now);
}

/// Of two states of one TCP flow the later in its life holds: closing before
/// established, established before the others; a flow without a state stays without
/// one rather than going back to its handshake.
pub proof fn later_state_holds(x: TcpFlowState, y: TcpFlowState)
    ensures
        promoted(x, x) == x,
        promoted(x, y) == promoted(y, x),
        promoted(TcpFlowState::Closing, x) is Closing,
        !(x is Closing) ==> promoted(TcpFlowState::Established, x) is Established,
        promoted(TcpFlowState::NotTcp, TcpFlowState::Handshake) is NotTcp,
{
}

/// A flow that is inserted again while its entry has not run out takes the new
/// backend, time and protocol, and of both states the later; one whose entry has
/// run out starts afresh.
pub proof fn known_flows_are_updated(
    t: Seq<ConnEntry>,
    cur: ConnEntry,
    ttls: ConnTtls,
    now: Instant,
)
    requires
        t.len() > 0,
        orderly(t),
        cur.occupied,
        lookup(t, cur.hash) is Some,
    ensures
        ({
            let e = lookup(t, cur.hash)->0;
            let (u, r) = inserted(t, cur, ttls, now);
            &&& !expired(e, ttls, now) ==> r is Updated
            &&& expired(e, ttls, now) ==> r is EvictedExpired
            &&& lookup(u, cur.hash) matches Some(g) && {
                &&& g.backend_ip == cur.backend_ip && g.last_seen == cur.last_seen && g.proto
                    == cur.proto
                &&& expired(e, ttls, now) ==> g == cur
                &&& !expired(e, ttls, now) ==> g.tcp_state == promoted(e.tcp_state, cur.tcp_state)
            }
        }),
{
    insertion_keeps_other_flows(t, cur, ttls, now);
    let (u, r) = inserted(t, cur, ttls, now);
    assert(flows(t).contains_key(cur.hash));
    assert(flows(u).contains_key(cur.hash));
    assert(flows(u)[cur.hash] == lookup(u, cur.hash)->0);
}

/// A new flow is inserted as it is: into a vacant slot if there is no entry that has
/// run out, and in place of one that has if there is no vacant slot.
pub proof fn new_flows_are_inserted(
    t: Seq<ConnEntry>,
    cur: ConnEntry,
    ttls: ConnTtls,
    now: Instant,
)
    requires
        t.len() > 0,
        orderly(t),
        cur.occupied,
        lookup(t, cur.hash) is None,
    ensures
        ({
            let (u, r) = inserted(t, cur, ttls, now);
            let vacant = exists|i: int| 0 <= i < t.len() && !(#[trigger] t[i]).occupied;
            let run_out = exists|i: int|
                0 <= i < t.len() && (#[trigger] t[i]).occupied && expired(t[i], ttls, now);
            &&& vacant && !run_out ==> r is Inserted
            &&& !vacant && run_out ==> r is EvictedExpired
            &&& !vacant && !run_out ==> r is DroppedFull && u == t
            &&& vacant || run_out ==> lookup(u, cur.hash) == Some(cur)
        }),
{
    insertion_keeps_other_flows(t, cur, ttls, now);
    insertion_needs_a_slot(t, cur, ttls, now);
    let (u, r) = inserted(t, cur, ttls, now);
    assert(!flows(t).contains_key(cur.hash));
    if r is Inserted {
        insertion_reports_its_effect(t, cur, ttls, now);
        assert(flows(u).contains_key(cur.hash));
        assert(flows(u)[cur.hash] == lookup(u, cur.hash)->0);
        assert(exists|i: int| 0 <= i < t.len() && !(#[trigger] t[i]).occupied) by {
            if forall|i: int| 0 <= i < t.len() ==> (#[trigger] t[i]).occupied {
                lemma_occupancy_bound(t);
                lemma_occupancy_bound(u);
            }
        }
    }
    if r is EvictedExpired {
        let gone = choose|gone: u64| #[trigger]
            flows(t).contains_key(gone) && expired(flows(t)[gone], ttls, now) && (flows(
                t,
            ).contains_key(cur.hash) ==> gone == cur.hash) && flows(u) == flows(t).remove(
                gone,
            ).insert(cur.hash, cur);
        assert(flows(u).contains_key(cur.hash));
        assert(flows(u)[cur.hash] == lookup(u, cur.hash)->0);
        ordered_lookup(t, gone);
        let i = choose|i: int| 0 <= i < t.len() && (#[trigger] t[i]).occupied && t[i].hash == gone;
        assert(t[i].occupied && expired(t[i], ttls, now));
    }
}

} // verus!

//! Which packets are forwarded, where to, and what becomes of the others.

use vstd::prelude::*;

use crate::base::hash::xxh3_digest;
use crate::base::net::{IpAddr, Ipv4Addr};
use crate::base::time::Instant;
use crate::forwarder::conn_table::{
    expired, inserted, insertion_is_found, insertion_needs_a_slot, lookup, orderly, pinned_backend,
    ConnEntry,
};
use crate::forwarder::fragment_table::{fragment_entry, uniform_ttls};
use crate::forwarder::gre::encapsulated;
use crate::forwarder::icmp::{
    frag_needed_packet, limiter_step, too_big_for_tunnel, vip_step, VipLimits,
};
use crate::forwarder::metrics::{counted, ForwarderCounts};
use crate::forwarder::mss_clamp::{
    clamp_class, clamped_packet, lemma_clamped_header, lemma_clamped_len,
};
use crate::forwarder::pipeline::{left_behind, rewrite, WorkerState};
use crate::forwarder::rewriter::{
    count_clamp, flow_of, process, process_all, service_key, with_arrival, ForwardingView, Outcome,
    RewriterState,
};
use crate::forwarder::tracking::{lemma_transition_local, selection, transitioned};
use crate::forwarder::vip_matcher::VipKey;
use crate::laws::packets::{
    flow_key_is_cut_from_the_packet, fragments_stand_in_the_header, ipv4_flow_stands_in_the_header,
};
use crate::laws::tracking::{
    first_packets_set_the_state, flagless_packets_change_no_state, flags_drive_the_entry,
    pins_last_for_their_ttl, selection_pins_the_flow,
};
use crate::laws::tunnel::{
    handshakes_announce_at_most_the_limit, oversized_is_told_by_the_header,
    tunnel_packets_name_their_ends,
};
use crate::types::config::ConnTtls;
use crate::types::mtu::MtuConfig;
use crate::types::packet::ipv4_meta;
use crate::types::vip::Protocol;

verus! {

/// Where the bytes of a packet put its ports.
pub open spec fn ports_at(d: Seq<u8>) -> int {
    (d[0] % 16) * 4
}

/// Whether the bytes are an IPv4 packet of TCP or UDP with its ports.
pub open spec fn carries_a_flow(d: Seq<u8>) -> bool {
    d.len() >= 24 && d[0] / 16 == 4 && d.len() >= ports_at(d) + 4 && (d[9] == 6 || d[9] == 17)
}

/// Address, protocol and port that a packet is addressed to.
pub open spec fn addressed_to(d: Seq<u8>, k: VipKey) -> bool {
    &&& k.ip == IpAddr::V4(Ipv4Addr { a: d[16], b: d[17], c: d[18], d: d[19] })
    &&& k.protocol == (if d[9] == 6 {
        Protocol::Tcp
    } else {
        Protocol::Udp
    })
    &&& k.port == d[ports_at(d) + 2] * 256 + d[ports_at(d) + 3]
}

/// Whether a packet is addressed to the service `k`, whose pool has a table.
pub open spec fn reaches_service(d: Seq<u8>, v: ForwardingView, k: VipKey) -> bool {
    &&& carries_a_flow(d)
    &&& addressed_to(d, k)
    &&& v.services.contains_key(k)
    &&& v.tables.contains_key(v.services[k]@)
}

/// The hash of a packet's addresses, ports and protocol.
pub open spec fn hash_of_bytes(d: Seq<u8>) -> u64 {
    xxh3_digest(
        d.subrange(12, 16) + Seq::new(12, |i: int| 0u8) + d.subrange(16, 20) + Seq::new(
            12,
            |i: int| 0u8,
        ) + d.subrange(ports_at(d), ports_at(d) + 4) + seq![d[9]],
    )
}

/// Whether a packet must not be fragmented and is too long for the tunnel.
pub open spec fn cannot_pass(d: Seq<u8>, mtu: MtuConfig) -> bool {
    (d[6] / 64) % 2 == 1 && d[2] * 256 + d[3] + 24 > mtu.network_mtu
}

/// Whether a flow is pinned to a backend that is not unhealthy.
pub open spec fn keeps_backend(
    conns: Seq<ConnEntry>,
    ttls: ConnTtls,
    v: ForwardingView,
    hash: u64,
    now: Instant,
) -> bool {
    pinned_backend(conns, hash, ttls, now) matches Some(b) && !(v.health.contains_key(b)
        && v.health[b] is Unhealthy)
}

/// The backend of a packet addressed to the service `k`: the one its flow is
/// pinned to, unless that is unhealthy, else the choice of the service's table.
pub open spec fn backend_of(
    conns: Seq<ConnEntry>,
    ttls: ConnTtls,
    v: ForwardingView,
    k: VipKey,
    hash: u64,
    now: Instant,
) -> IpAddr {
    if keeps_backend(conns, ttls, v, hash, now) {
        pinned_backend(conns, hash, ttls, now)->0
    } else {
        v.tables[v.services[k]@].selected(hash).ip
    }
}

/// Whether the rate limit of a VIP grants an answer now.
pub open spec fn answer_granted(limits: VipLimits, vip: IpAddr, now: Instant) -> bool {
    if limits.per_vip.contains_key(vip) {
        limiter_step(limits.per_vip[vip], now).1
    } else {
        limits.max_per_second > 0
    }
}

proof fn lemma_parsed(d: Seq<u8>, k: VipKey)
    requires
        addressed_to(d, k),
    ensures
        carries_a_flow(d) <==> ipv4_meta(d) is Some,
        ipv4_meta(d) matches Some(m) ==> service_key(m) == k && flow_of(m).hash == hash_of_bytes(d)
            && m.dst_ip == k.ip,
{
    ipv4_flow_stands_in_the_header(d);
    if ipv4_meta(d) is Some {
        flow_key_is_cut_from_the_packet(d);
    }
}

/// What clamping leaves of a packet that carries a flow.
pub proof fn lemma_clamped(d: Seq<u8>, mtu: MtuConfig)
    requires
        carries_a_flow(d),
    ensures
        ({
            let e = clamped_packet(d, mtu.tcp_mss_clamp as int);
            &&& e.len() == d.len()
            &&& too_big_for_tunnel(e, mtu.network_mtu) == cannot_pass(d, mtu)
            &&& d[9] == 17 ==> e == d
            &&& forall|i: int| 0 <= i < 16 ==> #[trigger] e[i] == d[i]
            &&& ports_at(d) > 0 ==> forall|i: int| 0 <= i < 20 ==> #[trigger] e[i] == d[i]
        }),
{
    let e = clamped_packet(d, mtu.tcp_mss_clamp as int);
    lemma_clamped_len(d, mtu.tcp_mss_clamp);
    lemma_clamped_header(d, mtu.tcp_mss_clamp);
    handshakes_announce_at_most_the_limit(d, mtu.tcp_mss_clamp);
    oversized_is_told_by_the_header(e, mtu.network_mtu);
    assert(e[0] == d[0] && e[2] == d[2] && e[3] == d[3] && e[6] == d[6]);
}

/// What becomes of a packet, by its bytes. A packet for a service with a table,
/// TCP or UDP alike, is forwarded to its flow's backend, its MSS clamped, if it
/// can pass the tunnel and fits a buffer; it is answered if it cannot pass, as
/// far as the limit of its VIP goes. It is dropped only if it reaches no such
/// service, does not fit a buffer, or one end of its tunnel is not IPv4.
pub proof fn packets_for_services_are_forwarded(
    s: RewriterState,
    d: Seq<u8>,
    v: ForwardingView,
    now: Instant,
    k: VipKey,
)
    requires
        addressed_to(d, k),
    ensures
        ({
            let (after, o) = process(s, d, v, now);
            let hash = hash_of_bytes(d);
            let ip = backend_of(s.conns, s.ttls, v, k, hash, now);
            let e = clamped_packet(d, s.mtu.tcp_mss_clamp as int);
            let reaches = reaches_service(d, v, k);
            let fits = s.src_ip is V4 && ip is V4 && d.len() + 24 <= 2048;
            &&& o is Forwarded <==> reaches && !cannot_pass(d, s.mtu) && fits
            &&& o is FragNeeded <==> reaches && cannot_pass(d, s.mtu) && answer_granted(
                s.limits,
                k.ip,
                now,
            )
            &&& o is OversizedRateLimited <==> reaches && cannot_pass(d, s.mtu) && !answer_granted(
                s.limits,
                k.ip,
                now,
            )
            &&& o is Dropped <==> !reaches || (!cannot_pass(d, s.mtu) && !fits)
            &&& o matches Outcome::Forwarded(p) ==> p == encapsulated(
                if d[9] == 17 {
                    d
                } else {
                    e
                },
                s.src_ip->V4_0,
                ip->V4_0,
            )
            &&& o matches Outcome::FragNeeded(p) ==> p == frag_needed_packet(
                e,
                k.ip->V4_0,
                s.mtu.effective_inner_mtu,
            )
            &&& after.src_ip == s.src_ip && after.ttls == s.ttls && after.mtu == s.mtu
            &&& !reaches ==> after.conns == s.conns
            &&& !(reaches && cannot_pass(d, s.mtu)) ==> after.limits == s.limits
        }),
{
    lemma_parsed(d, k);
    if carries_a_flow(d) {
        lemma_clamped(d, s.mtu);
    }
}

/// What is forwarded reaches the backend whole: the tunnel packet goes from the
/// node's address to the backend's address, and behind its headers stands the
/// packet, byte for byte if it is UDP.
pub proof fn forwarded_packets_arrive(
    s: RewriterState,
    d: Seq<u8>,
    v: ForwardingView,
    now: Instant,
    k: VipKey,
    src: Ipv4Addr,
    dst: Ipv4Addr,
)
    requires
        reaches_service(d, v, k),
        !cannot_pass(d, s.mtu),
        s.src_ip == IpAddr::V4(src),
        backend_of(s.conns, s.ttls, v, k, hash_of_bytes(d), now) == IpAddr::V4(dst),
        d.len() + 24 <= 2048,
    ensures
        process(s, d, v, now).1 matches Outcome::Forwarded(p) && {
            &&& p.len() == d.len() + 24
            &&& p[9] == 47
            &&& p[12] == src.a && p[13] == src.b && p[14] == src.c && p[15] == src.d
            &&& p[16] == dst.a && p[17] == dst.b && p[18] == dst.c && p[19] == dst.d
            &&& p[22] == 0x08 && p[23] == 0
            &&& d[9] == 17 ==> p.skip(24) == d
            &&& d[9] == 6 && d.len() >= ports_at(d) + 14 && (d[ports_at(d) + 13] / 2) % 2 == 0
                ==> p.skip(24) == d
            &&& p.skip(24) == clamped_packet(d, s.mtu.tcp_mss_clamp as int)
        },
{
    packets_for_services_are_forwarded(s, d, v, now, k);
    lemma_clamped(d, s.mtu);
    let e = clamped_packet(d, s.mtu.tcp_mss_clamp as int);
    handshakes_announce_at_most_the_limit(d, s.mtu.tcp_mss_clamp);
    tunnel_packets_name_their_ends(e, src, dst);
    let p = encapsulated(e, src, dst);
    assert(e[0] == d[0]);
    assert(p.skip(24) =~= e) by {
        assert forall|i: int| 0 <= i < e.len() implies p.skip(24)[i] == e[i] by {
            assert(p[24 + i] == e[i]);
        }
    }
}

/// The same of the rewriters of the pipeline, for every packet that is not a
/// later fragment.
pub proof fn frames_for_services_are_forwarded(
    w: WorkerState,
    limits: VipLimits,
    d: Seq<u8>,
    v: ForwardingView,
    now: Instant,
    k: VipKey,
)
    requires
        addressed_to(d, k),
        d.len() < 20 || (d[6] % 32 == 0 && d[7] == 0),
    ensures
        ({
            let (after, left, out) = rewrite(w, limits, d, v, now);
            let hash = hash_of_bytes(d);
            let ip = backend_of(w.conns, w.ttls, v, k, hash, now);
            let e = clamped_packet(d, w.mtu.tcp_mss_clamp as int);
            let reaches = reaches_service(d, v, k);
            let fits = ip is V4 && d.len() + 24 <= 2048;
            &&& reaches && !cannot_pass(d, w.mtu) && fits ==> out == Some(
                encapsulated(
                    if d[9] == 17 {
                        d
                    } else {
                        e
                    },
                    w.src,
                    ip->V4_0,
                ),
            )
            &&& reaches && cannot_pass(d, w.mtu) && answer_granted(limits, k.ip, now) ==> out
                == Some(frag_needed_packet(e, k.ip->V4_0, w.mtu.effective_inner_mtu))
            &&& out is None <==> !reaches || (cannot_pass(d, w.mtu) && !answer_granted(
                limits,
                k.ip,
                now,
            )) || (!cannot_pass(d, w.mtu) && !fits)
            &&& after.src == w.src && after.ttls == w.ttls && after.mtu == w.mtu
            &&& after.fragment_ttl == w.fragment_ttl
            &&& !reaches ==> after.conns == w.conns && after.fragments == w.fragments
            &&& !(reaches && cannot_pass(d, w.mtu)) ==> left == limits
        }),
{
    fragments_stand_in_the_header(d);
    lemma_parsed(d, k);
    if carries_a_flow(d) {
        lemma_clamped(d, w.mtu);
    }
}

/// Whether the connection table can track the flow of `hash`: it knows the flow
/// already, or has a slot that is vacant or has run out.
pub open spec fn has_room(conns: Seq<ConnEntry>, ttls: ConnTtls, hash: u64, now: Instant) -> bool {
    lookup(conns, hash) is Some || exists|i: int|
        0 <= i < conns.len() && (!(#[trigger] conns[i]).occupied || expired(conns[i], ttls, now))
}

/// The flags byte of a TCP packet that is long enough to hold it.
pub open spec fn flags_of_bytes(d: Seq<u8>) -> Option<u8> {
    if d[9] == 6 && d.len() >= ports_at(d) + 14 {
        Some(d[ports_at(d) + 13])
    } else {
        None
    }
}

/// Whether `after` is what a packet `d` with the hash `hash`, sent to `ip`, may
/// leave of the connection table `before`.
pub open spec fn marked_by(
    before: Seq<ConnEntry>,
    after: Seq<ConnEntry>,
    ttls: ConnTtls,
    d: Seq<u8>,
    hash: u64,
    ip: IpAddr,
    kept: bool,
    now: Instant,
) -> bool {
    let pin = pinned_backend(before, hash, ttls, now);
    &&& after.len() == before.len()
    &&& orderly(after)
    &&& !kept && !has_room(before, ttls, hash, now) ==> lookup(after, hash) is None
    &&& kept || has_room(before, ttls, hash, now) ==> (lookup(after, hash) matches Some(g) && {
        &&& g.hash == hash
        &&& g.backend_ip == ip
        &&& g.last_seen == now
        &&& !kept ==> (g.proto is Tcp <==> d[9] == 6) && (g.proto is Udp <==> d[9] == 17)
        &&& kept ==> g.proto == lookup(before, hash)->0.proto
        &&& flags_of_bytes(d) is None && kept ==> g.tcp_state == lookup(before, hash)->0.tcp_state
        &&& flags_of_bytes(d) is None && pin is None ==> g.tcp_state is NotTcp
        &&& g.proto is Tcp ==> (flags_of_bytes(d) matches Some(f) ==> {
            let closing = f & 0x04 == 0x04 || f & 0x01 == 0x01;
            let was_closing = pin is Some && lookup(before, hash)->0.tcp_state is Closing;
            &&& closing ==> g.tcp_state is Closing
            &&& !closing && f & 0x10 == 0x10 && f & 0x02 != 0x02 && !was_closing
                ==> g.tcp_state is Established
            &&& !closing && pin is None ==> (g.tcp_state is Established <==> f & 0x10 == 0x10) && (
            g.tcp_state is Handshake <==> f & 0x10 != 0x10)
            &&& !closing && kept && (f & 0x10 != 0x10 || f & 0x02 == 0x02) ==> g.tcp_state
                == lookup(before, hash)->0.tcp_state
            &&& kept && was_closing ==> g.tcp_state is Closing
        })
    })
}

proof fn lemma_marked(
    conns: Seq<ConnEntry>,
    m: ForwarderCounts,
    ttls: ConnTtls,
    d: Seq<u8>,
    v: ForwardingView,
    k: VipKey,
    now: Instant,
)
    requires
        reaches_service(d, v, k),
        conns.len() > 0,
        orderly(conns),
    ensures
        ({
            let meta = ipv4_meta(d)->0;
            let hash = hash_of_bytes(d);
            let flow = flow_of(meta);
            let (c1, m1, ip) = selection(
                conns,
                m,
                ttls,
                v.tables[v.services[k]@],
                v.health,
                flow,
                now,
            );
            let c2 = transitioned(c1, m1, flow.hash, meta.tcp_flags, now).0;
            &&& ip == backend_of(conns, ttls, v, k, hash, now)
            &&& marked_by(
                conns,
                c2,
                ttls,
                d,
                hash,
                ip,
                keeps_backend(conns, ttls, v, hash, now),
                now,
            )
        }),
{
    lemma_parsed(d, k);
    ipv4_flow_stands_in_the_header(d);
    let meta = ipv4_meta(d)->0;
    let flow = flow_of(meta);
    let hash = flow.hash;
    let table = v.tables[v.services[k]@];
    let (c1, m1, ip) = selection(conns, m, ttls, table, v.health, flow, now);
    selection_pins_the_flow(conns, m, ttls, table, v.health, flow, now);
    first_packets_set_the_state(meta.tcp_flags);
    lemma_transition_local(c1, m1, hash, meta.tcp_flags, now, hash);
    let c2 = transitioned(c1, m1, hash, meta.tcp_flags, now).0;
    if lookup(c1, hash) is Some && lookup(c1, hash)->0.proto is Tcp && meta.tcp_flags is Some {
        let f = meta.tcp_flags->0;
        flags_drive_the_entry(c1, m1, hash, f, now, ttls, now, if hash == 0 {
            1
        } else {
            0
        });
    } else {
        flagless_packets_change_no_state(c1, m1, hash, meta.tcp_flags, now, hash);
    }
}

/// What a forwarded or answered packet leaves in the connection table: its flow
/// is tracked with the backend that the packet went to, seen now, in the state
/// that its flags and the state before give it.
pub proof fn packets_leave_their_mark(
    s: RewriterState,
    d: Seq<u8>,
    v: ForwardingView,
    now: Instant,
    k: VipKey,
)
    requires
        reaches_service(d, v, k),
        s.conns.len() > 0,
        orderly(s.conns),
    ensures
        marked_by(
            s.conns,
            process(s, d, v, now).0.conns,
            s.ttls,
            d,
            hash_of_bytes(d),
            backend_of(s.conns, s.ttls, v, k, hash_of_bytes(d), now),
            keeps_backend(s.conns, s.ttls, v, hash_of_bytes(d), now),
            now,
        ),
{
    lemma_parsed(d, k);
    let m = count_clamp(s.metrics, d, s.mtu);
    lemma_marked(s.conns, m, s.ttls, d, v, k, now);
}

/// The same of the rewriters of the pipeline, for every packet that is not a
/// later fragment.
pub proof fn frames_leave_their_mark(
    w: WorkerState,
    limits: VipLimits,
    d: Seq<u8>,
    v: ForwardingView,
    now: Instant,
    k: VipKey,
)
    requires
        reaches_service(d, v, k),
        d[6] % 32 == 0 && d[7] == 0,
        w.conns.len() > 0,
        orderly(w.conns),
    ensures
        marked_by(
            w.conns,
            rewrite(w, limits, d, v, now).0.conns,
            w.ttls,
            d,
            hash_of_bytes(d),
            backend_of(w.conns, w.ttls, v, k, hash_of_bytes(d), now),
            keeps_backend(w.conns, w.ttls, v, hash_of_bytes(d), now),
            now,
        ),
{
    fragments_stand_in_the_header(d);
    lemma_parsed(d, k);
    let received = ForwarderCounts {
        packets_received: counted(w.metrics.packets_received),
        ..w.metrics
    };
    lemma_marked(w.conns, count_clamp(received, d, w.mtu), w.ttls, d, v, k, now);
}

/// The hash of what all fragments of an IPv4 packet share: the addresses and the
/// identification.
pub open spec fn fragment_hash_of_bytes(d: Seq<u8>) -> u64 {
    xxh3_digest(
        d.subrange(12, 16) + Seq::new(12, |i: int| 0u8) + d.subrange(16, 20) + Seq::new(
            12,
            |i: int| 0u8,
        ) + d.subrange(4, 6),
    )
}

/// A later fragment follows the first: after a first fragment was forwarded and
/// the fragment table had room for it, another fragment of the same packet that
/// comes within the TTL goes to the same backend, as it came.
pub proof fn later_fragments_follow_the_first(
    w: WorkerState,
    limits: VipLimits,
    first: Seq<u8>,
    v: ForwardingView,
    now: Instant,
    k: VipKey,
    left: VipLimits,
    later: Seq<u8>,
    u: ForwardingView,
    then: Instant,
)
    requires
        reaches_service(first, v, k),
        !cannot_pass(first, w.mtu),
        ports_at(first) > 0 || first[9] == 17,
        first[6] % 32 == 0 && first[7] == 0,
        (first[6] / 32) % 2 == 1,
        w.fragments.len() > 0,
        orderly(w.fragments),
        has_room(
            w.fragments,
            ConnTtls {
                tcp_handshake: w.fragment_ttl,
                tcp_established: w.fragment_ttl,
                tcp_closing: w.fragment_ttl,
                udp: w.fragment_ttl,
                other: w.fragment_ttl,
            },
            fragment_hash_of_bytes(first),
            now,
        ),
        later.len() >= 20,
        later[0] / 16 == 4,
        later[6] % 32 != 0 || later[7] != 0,
        later.subrange(4, 6) == first.subrange(4, 6),
        later.subrange(12, 20) == first.subrange(12, 20),
        then.nanos <= now.nanos + w.fragment_ttl.nanos,
        later.len() + 24 <= 2048,
    ensures
        ({
            let ip = backend_of(w.conns, w.ttls, v, k, hash_of_bytes(first), now);
            let after = rewrite(w, limits, first, v, now).0;
            let (last, rest, out) = rewrite(after, left, later, u, then);
            &&& ip is V4 ==> out == Some(encapsulated(later, w.src, ip->V4_0))
            &&& rest == left
            &&& last.conns == after.conns && last.fragments == after.fragments
        }),
{
    fragments_stand_in_the_header(first);
    fragments_stand_in_the_header(later);
    lemma_parsed(first, k);
    lemma_clamped(first, w.mtu);
    let e = clamped_packet(first, w.mtu.tcp_mss_clamp as int);
    assert(e[0] == first[0] && e[4] == first[4] && e[5] == first[5] && e[6] == first[6] && e[7]
        == first[7]);
    fragments_stand_in_the_header(e);
    let hash = fragment_hash_of_bytes(first);
    assert(later.subrange(12, 16) =~= later.subrange(12, 20).take(4));
    assert(first.subrange(12, 16) =~= first.subrange(12, 20).take(4));
    assert(later.subrange(16, 20) =~= later.subrange(12, 20).skip(4));
    assert(first.subrange(16, 20) =~= first.subrange(12, 20).skip(4));
    assert(e.subrange(12, 16) =~= first.subrange(12, 16));
    assert(e.subrange(16, 20) =~= first.subrange(16, 20));
    assert(e.subrange(4, 6) =~= first.subrange(4, 6));
    let ip = backend_of(w.conns, w.ttls, v, k, hash_of_bytes(first), now);
    let ttls = uniform_ttls(w.fragment_ttl);
    let entry = fragment_entry(hash, ip, now);
    insertion_is_found(w.fragments, entry, ttls, now);
    insertion_needs_a_slot(w.fragments, entry, ttls, now);
    let t = inserted(w.fragments, entry, ttls, now).0;
    pins_last_for_their_ttl(t, hash, ttls, then);
    let after = rewrite(w, limits, first, v, now).0;
    assert(after.fragments == t);
}

/// A later fragment goes, as it came, where the first one went, and is dropped
/// if that is not known, or if it does not fit a buffer or the backend is not
/// IPv4. Either way it changes nothing but counters.
pub proof fn later_fragments_go_by_the_table(
    w: WorkerState,
    limits: VipLimits,
    d: Seq<u8>,
    v: ForwardingView,
    now: Instant,
)
    requires
        d.len() >= 20,
        d[6] % 32 != 0 || d[7] != 0,
    ensures
        ({
            let (after, left, out) = rewrite(w, limits, d, v, now);
            let known = if d[0] / 16 == 4 {
                pinned_backend(
                    w.fragments,
                    fragment_hash_of_bytes(d),
                    uniform_ttls(w.fragment_ttl),
                    now,
                )
            } else {
                None
            };
            &&& left == limits
            &&& after == WorkerState { metrics: after.metrics, ..w }
            &&& out is Some <==> (known matches Some(ip) && ip is V4) && d.len() + 24 <= 2048
            &&& out matches Some(p) ==> p == encapsulated(d, w.src, known->0->V4_0)
            &&& after.metrics.fragment_drop_no_mapping_total == (if known is None {
                counted(w.metrics.fragment_drop_no_mapping_total)
            } else {
                w.metrics.fragment_drop_no_mapping_total
            })
            &&& after.metrics.fragment_subsequent_forwarded_total == (if out is Some {
                counted(w.metrics.fragment_subsequent_forwarded_total)
            } else {
                w.metrics.fragment_subsequent_forwarded_total
            })
        }),
{
    fragments_stand_in_the_header(d);
}

/// Each packet of a batch is processed with what the packets before it left, in
/// order, and what is sent stands in the order of the packets it came from. Its
/// arrival and its outcome are counted, each under its own name.
pub proof fn batches_go_packet_by_packet(
    s: RewriterState,
    inputs: Seq<Seq<u8>>,
    d: Seq<u8>,
    v: ForwardingView,
    now: Instant,
)
    ensures
        process_all(s, Seq::empty(), v, now) == (s, Seq::<Seq<u8>>::empty()),
        ({
            let (s1, sent1) = process_all(s, inputs, v, now);
            let arrived = RewriterState {
                metrics: ForwarderCounts {
                    packets_received: counted(s1.metrics.packets_received),
                    ..s1.metrics
                },
                ..s1
            };
            let (s2, o) = process(arrived, d, v, now);
            let (r, sent) = process_all(s, inputs.push(d), v, now);
            let m = s2.metrics;
            &&& sent == (match o {
                Outcome::Forwarded(p) => sent1.push(p),
                Outcome::FragNeeded(p) => sent1.push(p),
                Outcome::OversizedRateLimited => sent1,
                Outcome::Dropped => sent1,
            })
            &&& r == RewriterState { metrics: r.metrics, ..s2 }
            &&& r.metrics == (match o {
                Outcome::Forwarded(_) => ForwarderCounts {
                    packets_forwarded: counted(m.packets_forwarded),
                    ..m
                },
                Outcome::FragNeeded(_) => ForwarderCounts {
                    icmp_frag_needed_sent_total: counted(m.icmp_frag_needed_sent_total),
                    packets_oversized_dropped_total: counted(m.packets_oversized_dropped_total),
                    ..m
                },
                Outcome::OversizedRateLimited => ForwarderCounts {
                    icmp_frag_needed_ratelimited_total: counted(
                        m.icmp_frag_needed_ratelimited_total,
                    ),
                    packets_oversized_dropped_total: counted(m.packets_oversized_dropped_total),
                    packets_dropped: counted(m.packets_dropped),
                    ..m
                },
                Outcome::Dropped => ForwarderCounts {
                    packets_dropped: counted(m.packets_dropped),
                    ..m
                },
            })
        }),
{
    assert(inputs.push(d).drop_last() =~= inputs);
    assert(inputs.push(d).last() == d);
    let (s1, sent1) = process_all(s, inputs, v, now);
    let (_, sent) = process_all(s, inputs.push(d), v, now);
    let (_, o) = process(with_arrival(s1), d, v, now);
    match o {
        Outcome::Forwarded(p) => {
            assert(sent =~= sent1.push(p));
        },
        Outcome::FragNeeded(p) => {
            assert(sent =~= sent1.push(p));
        },
        _ => {
            assert(sent =~= sent1);
        },
    }
}

/// The packets of an IPv4 TCP handshake are counted by what clamping did to
/// them, and no other packet is.
pub proof fn clamping_is_counted(
    s: RewriterState,
    d: Seq<u8>,
    v: ForwardingView,
    now: Instant,
    k: VipKey,
)
    requires
        addressed_to(d, k),
    ensures
        ({
            let m = s.metrics;
            let n = process(s, d, v, now).0.metrics;
            let matched = carries_a_flow(d) && v.services.contains_key(k);
            let class = clamp_class(d, s.mtu.tcp_mss_clamp as int);
            &&& n.mss_clamp_total == (if matched && class is Clamped {
                counted(m.mss_clamp_total)
            } else {
                m.mss_clamp_total
            })
            &&& n.mss_clamp_noop_total == (if matched && class is Noop {
                counted(m.mss_clamp_noop_total)
            } else {
                m.mss_clamp_noop_total
            })
            &&& n.mss_clamp_missing_total == (if matched && class is MssMissing {
                counted(m.mss_clamp_missing_total)
            } else {
                m.mss_clamp_missing_total
            })
            &&& n.packets_received == m.packets_received
            &&& n.packets_forwarded == m.packets_forwarded
            &&& n.packets_dropped == m.packets_dropped
        }),
{
    lemma_parsed(d, k);
}

/// A frame whose packet is not sent holds the packet as it came, but for a clamped
/// MSS if the packet is addressed to a service.
pub proof fn dropped_packets_stay_in_their_frame(
    w: WorkerState,
    d: Seq<u8>,
    v: ForwardingView,
    k: VipKey,
)
    requires
        addressed_to(d, k),
    ensures
        left_behind(w, d, v) == d || left_behind(w, d, v) == clamped_packet(
            d,
            w.mtu.tcp_mss_clamp as int,
        ),
        !(carries_a_flow(d) && v.services.contains_key(k)) ==> left_behind(w, d, v) == d,
        d.len() >= 20 && (d[6] % 32 != 0 || d[7] != 0) ==> left_behind(w, d, v) == d,
        d[9] == 17 ==> left_behind(w, d, v) == d,
{
    fragments_stand_in_the_header(d);
    lemma_parsed(d, k);
    if carries_a_flow(d) {
        lemma_clamped(d, w.mtu);
    }
}

/// An oversized packet for a service draws on the limit of its VIP, once, whether
/// it is answered or not.
pub proof fn oversized_packets_draw_on_the_limit(
    s: RewriterState,
    w: WorkerState,
    limits: VipLimits,
    d: Seq<u8>,
    v: ForwardingView,
    now: Instant,
    k: VipKey,
)
    requires
        reaches_service(d, v, k),
    ensures
        cannot_pass(d, s.mtu) ==> process(s, d, v, now).0.limits == vip_step(s.limits, k.ip, now).0,
        cannot_pass(d, w.mtu) && d[6] % 32 == 0 && d[7] == 0 ==> rewrite(
            w,
            limits,
            d,
            v,
            now,
        ).1 == vip_step(limits, k.ip, now).0,
{
    fragments_stand_in_the_header(d);
    lemma_parsed(d, k);
    lemma_clamped(d, s.mtu);
    lemma_clamped(d, w.mtu);
}

} // verus!

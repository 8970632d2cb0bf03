//! That a trace tells what would become of a packet.

use vstd::prelude::*;

use crate::base::hash::xxh3_digest;
use crate::base::net::{IpAddr, Ipv4Addr};
use crate::base::text::{decimal, hexadecimal, zero_padded};
use crate::base::time::Instant;
use crate::forwarder::conn_table::{flows, lookup, vacant_table_is_orderly};
use crate::forwarder::mss_clamp::clamped_packet;
use crate::forwarder::rewriter::{process, ForwardingView, Outcome, RewriterState};
use crate::forwarder::tracer::{step_lines, trace_text, traced, TraceRequest, TraceView};
use crate::forwarder::vip_matcher::VipKey;
use crate::laws::forwarding::{
    addressed_to, backend_of, cannot_pass, carries_a_flow, hash_of_bytes, lemma_clamped,
    packets_for_services_are_forwarded, ports_at, reaches_service,
};
use crate::laws::packets::{flow_key_is_cut_from_the_packet, ipv4_flow_stands_in_the_header};
use crate::laws::tunnel::tunnel_packets_name_their_ends;
use crate::types::packet::{flow_hash_ignores_flags, flow_key_bytes, ip_meta, ipv4_meta, PacketMeta};
use crate::types::vip::Protocol;

verus! {

/// Whether a request asks for the flow that the packet `d` belongs to.
pub open spec fn asks_for(req: TraceRequest, d: Seq<u8>) -> bool {
    &&& carries_a_flow(d)
    &&& req.src_ip == IpAddr::V4(Ipv4Addr { a: d[12], b: d[13], c: d[14], d: d[15] })
    &&& req.dst_ip == IpAddr::V4(Ipv4Addr { a: d[16], b: d[17], c: d[18], d: d[19] })
    &&& req.src_port == d[ports_at(d)] * 256 + d[ports_at(d) + 1]
    &&& req.dst_port == d[ports_at(d) + 2] * 256 + d[ports_at(d) + 3]
    &&& req.protocol == (if d[9] == 6 {
        Protocol::Tcp
    } else {
        Protocol::Udp
    })
}

/// The hash in a trace is the flow hash of every packet, of either IP version, with
/// the addresses, ports and protocol of the request.
pub proof fn traced_hash_is_the_packets_hash(
    req: TraceRequest,
    node_id: Seq<char>,
    v: ForwardingView,
    d: Seq<u8>,
    m: PacketMeta,
)
    requires
        ip_meta(d) == Some(m),
        m.src_ip == req.src_ip,
        m.dst_ip == req.dst_ip,
        m.src_port == req.src_port,
        m.dst_port == req.dst_port,
        m.protocol == req.protocol,
    ensures
        traced(req, node_id, v).flow_hash == xxh3_digest(flow_key_bytes(m)),
{
    flow_hash_ignores_flags(
        m,
        PacketMeta { tcp_flags: None, ..m },
    );
    assert(PacketMeta { tcp_flags: None, ..m } == PacketMeta {
        src_ip: req.src_ip,
        dst_ip: req.dst_ip,
        src_port: req.src_port,
        dst_port: req.dst_port,
        protocol: req.protocol,
        tcp_flags: None,
    });
}

/// A trace tells what would become of a packet: it names a backend if and only if
/// the packets it asks for reach a service with a table, namely the backend that a
/// rewriter which tracks no flow yet sends such a packet to, and it says whether
/// that backend is usable.
pub proof fn traces_tell_where_packets_go(
    req: TraceRequest,
    node_id: Seq<char>,
    s: RewriterState,
    d: Seq<u8>,
    v: ForwardingView,
    now: Instant,
    k: VipKey,
)
    requires
        asks_for(req, d),
        addressed_to(d, k),
        s.conns.len() > 0,
        forall|i: int| 0 <= i < s.conns.len() ==> !(#[trigger] s.conns[i]).occupied,
    ensures
        ({
            let t = traced(req, node_id, v);
            &&& t.node_id == node_id
            &&& t.flow_hash == hash_of_bytes(d)
            &&& t.pool_id == (if v.services.contains_key(k) {
                Some(v.services[k]@)
            } else {
                None
            })
            &&& t.selected_backend is Some <==> reaches_service(d, v, k)
            &&& t.selected_backend matches Some(ip) ==> {
                &&& ip == backend_of(s.conns, s.ttls, v, k, hash_of_bytes(d), now)
                &&& t.backend_healthy <==> !(v.health.contains_key(ip)
                    && v.health[ip] is Unhealthy)
                &&& s.src_ip is V4 && ip is V4 && d.len() + 24 <= 2048 && !cannot_pass(d, s.mtu)
                    ==> (process(s, d, v, now).1 matches Outcome::Forwarded(p) && p[16]
                    == ip->V4_0.a && p[17] == ip->V4_0.b && p[18] == ip->V4_0.c && p[19]
                    == ip->V4_0.d)
            }
            &&& t.selected_backend is None ==> !t.backend_healthy && process(
                s,
                d,
                v,
                now,
            ).1 is Dropped
        }),
{
    ipv4_flow_stands_in_the_header(d);
    flow_key_is_cut_from_the_packet(d);
    let m = ipv4_meta(d)->0;
    traced_hash_is_the_packets_hash(req, node_id, v, d, m);
    vacant_table_is_orderly(s.conns);
    let hash = hash_of_bytes(d);
    assert(!flows(s.conns).contains_key(hash));
    assert(lookup(s.conns, hash) is None);
    packets_for_services_are_forwarded(s, d, v, now, k);
    lemma_clamped(d, s.mtu);
    let e = clamped_packet(d, s.mtu.tcp_mss_clamp as int);
    let ip = backend_of(s.conns, s.ttls, v, k, hash, now);
    if s.src_ip is V4 && ip is V4 && d.len() + 24 <= 2048 {
        tunnel_packets_name_their_ends(d, s.src_ip->V4_0, ip->V4_0);
        tunnel_packets_name_their_ends(e, s.src_ip->V4_0, ip->V4_0);
    }
    assert(k == VipKey { ip: req.dst_ip, protocol: req.protocol, port: req.dst_port });
}

/// A trace says, step by step, which flow was asked for, which pool serves it, which
/// backend is selected by which hash and how that backend is; it ends where the packet
/// would be dropped.
pub proof fn traces_tell_their_steps(req: TraceRequest, node_id: Seq<char>, v: ForwardingView)
    ensures
        ({
            let t = traced(req, node_id, v);
            let from = req.src_ip.text() + ":"@ + decimal(req.src_port as int);
            let to = req.dst_ip.text() + ":"@ + decimal(req.dst_port as int);
            let protocol = match req.protocol {
                Protocol::Tcp => "Tcp"@,
                Protocol::Udp => "Udp"@,
            };
            &&& t.steps[0] == "parsed 5-tuple: "@ + from + " → "@ + to + " ("@ + protocol + ")"@
            &&& t.pool_id is None ==> t.steps.len() == 2 && t.steps[1]
                == "no VIP match — packet would be dropped"@
            &&& t.pool_id matches Some(pool) ==> t.steps[1] == "VIP matched → pool `"@ + pool
                + "`"@
            &&& t.pool_id is Some && t.selected_backend is None ==> t.steps.len() == 3
                && t.steps[2] == "pool `"@ + t.pool_id->0
                + "` has no lookup table (config-reload race?) — packet would be dropped"@
            &&& t.selected_backend matches Some(ip) ==> {
                &&& t.steps.len() == 4
                &&& t.steps[2] == "Maglev lookup → "@ + ip.text() + " (flow_hash="@ + "0x"@
                    + zero_padded(hexadecimal(t.flow_hash as int), 16) + ")"@
                &&& t.backend_healthy ==> t.steps[3] == "health status: "@
                    + "healthy (or unknown — treated as healthy)"@
                &&& !t.backend_healthy ==> t.steps[3] == "health status: "@
                    + "UNHEALTHY — rewriter would fall back to another Maglev slot at packet time"@
            }
        }),
{
    let t = traced(req, node_id, v);
    let from = req.src_ip.text() + ":"@ + decimal(req.src_port as int);
    let to = req.dst_ip.text() + ":"@ + decimal(req.dst_port as int);
    let protocol = match req.protocol {
        Protocol::Tcp => "Tcp"@,
        Protocol::Udp => "Udp"@,
    };
    assert(t.steps[0] =~= "parsed 5-tuple: "@ + from + " → "@ + to + " ("@ + protocol + ")"@);
    if let Some(ip) = t.selected_backend {
        assert(t.steps[2] =~= "Maglev lookup → "@ + ip.text() + " (flow_hash="@ + "0x"@
            + zero_padded(hexadecimal(t.flow_hash as int), 16) + ")"@);
    }
}

/// For the operator's eyes a trace gives the node, the hash, the pool, the backend with
/// its health, and then one line for each step.
pub proof fn traces_are_shown_line_by_line(t: TraceView, steps: Seq<Seq<char>>, step: Seq<char>)
    ensures
        ({
            let pool = match t.pool_id {
                Some(id) => id,
                None => "(no VIP match)"@,
            };
            let backend = match t.selected_backend {
                Some(ip) => ip.text() + (if t.backend_healthy {
                    " (healthy)"@
                } else {
                    " (unhealthy)"@
                }),
                None => "(none)"@,
            };
            let hash = "0x"@ + zero_padded(hexadecimal(t.flow_hash as int), 16);
            trace_text(t) == "node:    "@ + t.node_id + "\nhash:    "@ + hash + "\npool:    "@ + pool
                + "\nbackend: "@ + backend + "\nsteps:\n"@ + step_lines(t.steps)
        }),
        step_lines(Seq::empty()) == Seq::<char>::empty(),
        step_lines(steps.push(step)) == step_lines(steps) + "  - "@ + step + "\n"@,
{
    reveal_strlit("\n");
    reveal_strlit("node:    ");
    reveal_strlit("hash:    ");
    reveal_strlit("pool:    ");
    reveal_strlit("backend: ");
    reveal_strlit("steps:\n");
    reveal_strlit("\nhash:    ");
    reveal_strlit("\npool:    ");
    reveal_strlit("\nbackend: ");
    reveal_strlit("\nsteps:\n");
    reveal_strlit("pool:    (no VIP match)\n");
    reveal_strlit("(no VIP match)");
    reveal_strlit("backend: (none)\n");
    reveal_strlit("(none)");
    reveal_strlit(" (healthy)");
    reveal_strlit(" (unhealthy)");
    reveal_strlit(" (healthy)\n");
    reveal_strlit(" (unhealthy)\n");
    let pool = match t.pool_id {
        Some(id) => id,
        None => "(no VIP match)"@,
    };
    let pool_line = match t.pool_id {
        Some(id) => "pool:    "@ + id + "\n"@,
        None => "pool:    (no VIP match)\n"@,
    };
    assert(pool_line =~= "pool:    "@ + pool + "\n"@);
    let backend = match t.selected_backend {
        Some(ip) => ip.text() + (if t.backend_healthy {
            " (healthy)"@
        } else {
            " (unhealthy)"@
        }),
        None => "(none)"@,
    };
    let backend_line = match t.selected_backend {
        Some(ip) => "backend: "@ + ip.text() + (if t.backend_healthy {
            " (healthy)\n"@
        } else {
            " (unhealthy)\n"@
        }),
        None => "backend: (none)\n"@,
    };
    assert(backend_line =~= "backend: "@ + backend + "\n"@);
    let hash = "0x"@ + zero_padded(hexadecimal(t.flow_hash as int), 16);
    assert("\nhash:    "@ =~= "\n"@ + "hash:    "@);
    assert("\npool:    "@ =~= "\n"@ + "pool:    "@);
    assert("\nbackend: "@ =~= "\n"@ + "backend: "@);
    assert("\nsteps:\n"@ =~= "\n"@ + "steps:\n"@);
    let head = "node:    "@ + t.node_id + "\n"@ + "hash:    "@ + hash + "\n"@;
    assert(trace_text(t) =~= head + pool_line + backend_line + "steps:\n"@ + step_lines(t.steps));
    assert(trace_text(t) =~= "node:    "@ + t.node_id + "\nhash:    "@ + hash + "\npool:    "@ + pool
        + "\nbackend: "@ + backend + "\nsteps:\n"@ + step_lines(t.steps));
    assert(steps.push(step).drop_last() =~= steps);
}

} // verus!

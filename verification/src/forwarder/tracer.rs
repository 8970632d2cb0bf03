//! Read-only tracer for the forwarder decision pipeline.
//!
//! `trace_packet` answers the question operators actually ask — "if a packet
//! matching this 5-tuple arrived right now, which backend would it land on,
//! and why?" — without injecting anything, mutating connection-table state,
//! or moving any bytes. It reads the same state the hot path reads and returns
//! a [`TraceResult`] describing each decision.
//!
//! The tracer does not consult connection tables: it reports the steady-state
//! Maglev answer, which is what stays consistent across nodes and restarts.

use vstd::prelude::*;

use crate::base::hash::xxh3_digest;
use crate::base::net::IpAddr;
use crate::base::text::{decimal, hexadecimal, push_decimal, push_padded_hex, zero_padded};
use crate::config_manager::applier::{tables_wf, LookupTables};
use crate::forwarder::rewriter::{forwarding_view, service_key, ForwardingView};
use crate::forwarder::vip_matcher::VipMatcher;
use crate::health::status_map::{usable, HealthMap};
use crate::types::config::opt_view;
use crate::types::packet::{flow_key_bytes, PacketMeta};
use crate::types::vip::Protocol;

verus! {

/// A request to trace a specific flow through the LB system. All fields are
/// required — the tracer does not substitute defaults.
#[derive(Debug, Clone, Copy, PartialEq, Eq, Structural)]
pub struct TraceRequest {
    pub src_ip: IpAddr,
    pub src_port: u16,
    pub dst_ip: IpAddr,
    pub dst_port: u16,
    pub protocol: Protocol,
}

/// Result from tracing a packet through the LB.
///
/// The tracer runs the VIP-match → Maglev-lookup → health-check sequence
/// read-only. What you get is the LB's *steady-state* decision, independent of
/// any connection tracking state that might have accumulated.
#[derive(Debug)]
pub struct TraceResult {
    /// Node that served the trace, from `[node].id`.
    pub node_id: String,
    /// Outcome of the VIP matcher lookup. `None` means the packet does not
    /// match any configured VIP — the forwarder would drop it silently.
    pub pool_id: Option<String>,
    /// xxh3 flow hash of the 5-tuple. Diagnostic only.
    pub flow_hash: u64,
    /// Backend the Maglev lookup table would select *now*. `None` when
    /// `pool_id` is also `None`, or when the named pool has no lookup table.
    pub selected_backend: Option<IpAddr>,
    /// Whether `selected_backend` is currently marked healthy. `true` by
    /// default when no health signal has been recorded yet.
    pub backend_healthy: bool,
    /// Human-readable trail for operators. Each step corresponds to one
    /// decision point in the hot path.
    pub steps: Vec<String>,
}

/// A trace result as a value.
pub struct TraceView {
    pub node_id: Seq<char>,
    pub pool_id: Option<Seq<char>>,
    pub flow_hash: u64,
    pub selected_backend: Option<IpAddr>,
    pub backend_healthy: bool,
    pub steps: Seq<Seq<char>>,
}

/// The texts of some strings.
pub open spec fn texts(v: Seq<String>) -> Seq<Seq<char>> {
    Seq::new(v.len(), |i: int| v[i]@)
}

impl View for TraceResult {
    type V = TraceView;

    open spec fn view(&self) -> TraceView {
        TraceView {
            node_id: self.node_id@,
            pool_id: opt_view(self.pool_id),
            flow_hash: self.flow_hash,
            selected_backend: self.selected_backend,
            backend_healthy: self.backend_healthy,
            steps: texts(self.steps@),
        }
    }
}

/// The name of a protocol.
pub open spec fn protocol_name(p: Protocol) -> Seq<char> {
    match p {
        Protocol::Tcp => "Tcp"@,
        Protocol::Udp => "Udp"@,
    }
}

/// The 5-tuple of a request.
pub open spec fn request_meta(req: TraceRequest) -> PacketMeta {
    PacketMeta {
        src_ip: req.src_ip,
        dst_ip: req.dst_ip,
        src_port: req.src_port,
        dst_port: req.dst_port,
        protocol: req.protocol,
        tcp_flags: None,
    }
}

/// The step that repeats the 5-tuple.
pub open spec fn tuple_step(req: TraceRequest) -> Seq<char> {
    "parsed 5-tuple: "@ + req.src_ip.text() + ":"@ + decimal(req.src_port as int) + " → "@
        + req.dst_ip.text() + ":"@ + decimal(req.dst_port as int) + " ("@ + protocol_name(
        req.protocol,
    ) + ")"@
}

/// The step that names the pool.
pub open spec fn pool_step(pool: Seq<char>) -> Seq<char> {
    "VIP matched → pool `"@ + pool + "`"@
}

/// The step that reports a pool without a table.
pub open spec fn no_table_step(pool: Seq<char>) -> Seq<char> {
    "pool `"@ + pool
        + "` has no lookup table (config-reload race?) — packet would be dropped"@
}

/// A flow hash as sixteen hexadecimal digits.
pub open spec fn hash_text(hash: u64) -> Seq<char> {
    "0x"@ + zero_padded(hexadecimal(hash as int), 16)
}

/// The step that names the backend.
pub open spec fn backend_step(ip: IpAddr, hash: u64) -> Seq<char> {
    "Maglev lookup → "@ + ip.text() + " (flow_hash="@ + hash_text(hash) + ")"@
}

/// The step that reports the backend's health.
pub open spec fn health_step(healthy: bool) -> Seq<char> {
    "health status: "@ + if healthy {
        "healthy (or unknown — treated as healthy)"@
    } else {
        "UNHEALTHY — rewriter would fall back to another Maglev slot at packet time"@
    }
}

/// The trace of a flow: each decision in its order.
pub open spec fn traced(req: TraceRequest, node_id: Seq<char>, v: ForwardingView) -> TraceView {
    let meta = request_meta(req);
    let flow_hash = xxh3_digest(flow_key_bytes(meta));
    let nothing = TraceView {
        node_id,
        pool_id: None,
        flow_hash,
        selected_backend: None,
        backend_healthy: false,
        steps: seq![tuple_step(req), "no VIP match — packet would be dropped"@],
    };
    if !v.services.contains_key(service_key(meta)) {
        nothing
    } else {
        let pool = v.services[service_key(meta)]@;
        if !v.tables.contains_key(pool) {
            TraceView {
                pool_id: Some(pool),
                steps: seq![tuple_step(req), pool_step(pool), no_table_step(pool)],
                ..nothing
            }
        } else {
            let ip = v.tables[pool].selected(flow_hash).ip;
            let healthy = usable(v.health, ip);
            TraceView {
                pool_id: Some(pool),
                selected_backend: Some(ip),
                backend_healthy: healthy,
                steps: seq![
                    tuple_step(req),
                    pool_step(pool),
                    backend_step(ip, flow_hash),
                    health_step(healthy),
                ],
                ..nothing
            }
        }
    }
}

/// Snapshot of the forwarder's read-side shared state.
pub struct TraceInputs<'a> {
    pub node_id: &'a str,
    pub vip_matcher: &'a VipMatcher,
    pub lookup_tables: &'a LookupTables,
    pub health_status: &'a HealthMap,
}

fn push_protocol(out: &mut String, p: Protocol)
    ensures
        final(out)@ == old(out)@ + protocol_name(p),
{
    match p {
        Protocol::Tcp => out.append("Tcp"),
        Protocol::Udp => out.append("Udp"),
    }
}

fn tuple_text(req: &TraceRequest) -> (s: String)
    ensures
        s@ == tuple_step(*req),
{
    let mut s = "parsed 5-tuple: ".to_owned();
    req.src_ip.push_text(&mut s);
    s.append(":");
    push_decimal(&mut s, req.src_port as u64);
    s.append(" → ");
    req.dst_ip.push_text(&mut s);
    s.append(":");
    push_decimal(&mut s, req.dst_port as u64);
    s.append(" (");
    push_protocol(&mut s, req.protocol);
    s.append(")");
    s
}

fn push_hash(out: &mut String, hash: u64)
    ensures
        final(out)@ == old(out)@ + hash_text(hash),
{
    let ghost start = out@;
    out.append("0x");
    push_padded_hex(out, hash, 16);
    assert(out@ =~= start + hash_text(hash));
}

fn backend_text(ip: &IpAddr, hash: u64) -> (s: String)
    ensures
        s@ == backend_step(*ip, hash),
{
    let mut s = "Maglev lookup → ".to_owned();
    ip.push_text(&mut s);
    s.append(" (flow_hash=");
    push_hash(&mut s, hash);
    s.append(")");
    s
}

/// Run the decision pipeline for `req` against `inputs` and return a
/// `TraceResult`. Never mutates anything.
pub fn trace_packet(req: &TraceRequest, inputs: &TraceInputs) -> (r: TraceResult)
    requires
        inputs.vip_matcher.wf(),
        tables_wf(*inputs.lookup_tables),
    ensures
        r@ == traced(
            *req,
            inputs.node_id@,
            forwarding_view(inputs.vip_matcher, inputs.lookup_tables, inputs.health_status),
        ),
{
    let mut steps: Vec<String> = Vec::new();
    // The trace asks the steady-state question, and TCP flags only drive
    // connection-table state, which the tracer ignores.
    let meta = PacketMeta {
        src_ip: req.src_ip,
        dst_ip: req.dst_ip,
        src_port: req.src_port,
        dst_port: req.dst_port,
        protocol: req.protocol,
        tcp_flags: None,
    };
    let flow_hash: u64 = meta.flow_hash();
    steps.push(tuple_text(req));
    let ghost v = forwarding_view(inputs.vip_matcher, inputs.lookup_tables, inputs.health_status);
    let ghost want = traced(*req, inputs.node_id@, v);
    let pool_id = match inputs.vip_matcher.match_packet(
        meta.dst_ip,
        meta.protocol,
        meta.dst_port,
    ) {
        Some(id) => id,
        None => {
            steps.push("no VIP match — packet would be dropped".to_owned());
            assert(texts(steps@) =~= want.steps);
            return TraceResult {
                node_id: inputs.node_id.to_owned(),
                pool_id: None,
                flow_hash,
                selected_backend: None,
                backend_healthy: false,
                steps,
            };
        },
    };
    let mut step = "VIP matched → pool `".to_owned();
    step.append(pool_id.0.as_str());
    step.append("`");
    steps.push(step);
    let lookup = match inputs.lookup_tables.get(pool_id) {
        Some(t) => t,
        None => {
            let mut step = "pool `".to_owned();
            step.append(pool_id.0.as_str());
            step.append("` has no lookup table (config-reload race?) — packet would be dropped");
            steps.push(step);
            assert(texts(steps@) =~= want.steps);
            return TraceResult {
                node_id: inputs.node_id.to_owned(),
                pool_id: Some(pool_id.0.clone()),
                flow_hash,
                selected_backend: None,
                backend_healthy: false,
                steps,
            };
        },
    };
    let backend = lookup.lookup(flow_hash);
    steps.push(backend_text(&backend.ip, flow_hash));
    let backend_healthy = inputs.health_status.is_usable(&backend.ip);
    let mut step = "health status: ".to_owned();
    if backend_healthy {
        step.append("healthy (or unknown — treated as healthy)");
    } else {
        step.append("UNHEALTHY — rewriter would fall back to another Maglev slot at packet time");
    }
    steps.push(step);
    assert(texts(steps@) =~= want.steps);
    TraceResult {
        node_id: inputs.node_id.to_owned(),
        pool_id: Some(pool_id.0.clone()),
        flow_hash,
        selected_backend: Some(backend.ip),
        backend_healthy,
        steps,
    }
}

/// The lines that list the steps of a trace.
pub open spec fn step_lines(steps: Seq<Seq<char>>) -> Seq<char>
    decreases steps.len(),
{
    if steps.len() == 0 {
        Seq::empty()
    } else {
        step_lines(steps.drop_last()) + "  - "@ + steps.last() + "\n"@
    }
}

/// A trace result for the operator's eyes.
pub open spec fn trace_text(t: TraceView) -> Seq<char> {
    "node:    "@ + t.node_id + "\n"@ + "hash:    "@ + hash_text(t.flow_hash) + "\n"@ + (
    match t.pool_id {
        Some(id) => "pool:    "@ + id + "\n"@,
        None => "pool:    (no VIP match)\n"@,
    }) + (match t.selected_backend {
        Some(ip) => "backend: "@ + ip.text() + (if t.backend_healthy {
            " (healthy)\n"@
        } else {
            " (unhealthy)\n"@
        }),
        None => "backend: (none)\n"@,
    }) + "steps:\n"@ + step_lines(t.steps)
}

impl TraceResult {
    /// The result for the operator's eyes.
    pub fn to_text(&self) -> (s: String)
        ensures
            s@ == trace_text(self@),
    {
        let mut s = "node:    ".to_owned();
        s.append(self.node_id.as_str());
        s.append("\n");
        s.append("hash:    ");
        push_hash(&mut s, self.flow_hash);
        s.append("\n");
        let ghost head = s@;
        match &self.pool_id {
            Some(id) => {
                s.append("pool:    ");
                s.append(id.as_str());
                s.append("\n");
                assert(s@ =~= head + ("pool:    "@ + id@ + "\n"@));
            },
            None => s.append("pool:    (no VIP match)\n"),
        }
        let ghost mid = s@;
        match &self.selected_backend {
            Some(ip) => {
                s.append("backend: ");
                ip.push_text(&mut s);
                if self.backend_healthy {
                    s.append(" (healthy)\n");
                    assert(s@ =~= mid + ("backend: "@ + ip.text() + " (healthy)\n"@));
                } else {
                    s.append(" (unhealthy)\n");
                    assert(s@ =~= mid + ("backend: "@ + ip.text() + " (unhealthy)\n"@));
                }
            },
            None => s.append("backend: (none)\n"),
        }
        s.append("steps:\n");
        let ghost top = s@;
        let mut i: usize = 0;
        assert(top + step_lines(texts(self.steps@.take(0))) =~= top);
        while i < self.steps.len()
            invariant
                i <= self.steps@.len(),
                s@ == top + step_lines(texts(self.steps@.take(i as int))),
            decreases self.steps@.len() - i,
        {
            s.append("  - ");
            s.append(self.steps[i].as_str());
            s.append("\n");
            proof {
                let next = texts(self.steps@.take(i + 1));
                assert(next.drop_last() =~= texts(self.steps@.take(i as int)));
                assert(next.last() == self.steps@[i as int]@);
                assert(s@ =~= top + step_lines(next));
            }
            i = i + 1;
        }
        assert(self.steps@.take(i as int) =~= self.steps@);
        s
    }
}

/// One flow is always traced alike: the backend in a trace is what a cold
/// flow's first packet would be sent to.
pub proof fn trace_matches_cold_flow(req: TraceRequest, node_id: Seq<char>, v: ForwardingView)
    ensures
        ({
            let t = traced(req, node_id, v);
            let key = service_key(request_meta(req));
            let hash = xxh3_digest(flow_key_bytes(request_meta(req)));
            &&& t.flow_hash == hash
            &&& t.selected_backend == (if v.services.contains_key(key) && v.tables.contains_key(
                v.services[key]@,
            ) {
                Some(v.tables[v.services[key]@].selected(hash).ip)
            } else {
                None
            })
        }),
{
}

} // verus!

//! Per-thread packet processing pipeline.

use vstd::prelude::*;

use crate::base::net::{IpAddr, Ipv4Addr};
use crate::base::power::is_power_of_two;
use crate::base::hash::xxh3_digest;
use crate::base::time::Instant;
use crate::config_manager::applier::{tables_wf, LookupTables};
use crate::forwarder::conn_table::{occupancy, ConnEntry, ConnTable};
use crate::forwarder::gre::{encapsulate_ipv4, encapsulated, ENCAP_OVERHEAD};
use crate::forwarder::icmp::{
    frag_needed_packet, generate_icmp_frag_needed, should_generate_icmp, too_big_for_tunnel,
    vip_step, VipLimits, VipRateLimiters,
};
use crate::forwarder::metrics::{count, counted, ForwarderCounts};
use crate::forwarder::mss_clamp::{clamp_class, clamp_mss, clamped_packet, ClampResult};
use crate::forwarder::tracking::{
    apply_tcp_transitions, first_state, initial_tcp_state, select_backend, selection,
    transitioned, FlowKey,
};
use crate::forwarder::vip_matcher::{VipKey, VipMatcher};
use crate::hashing::lookup_table::LookupTable;
use crate::health::status_map::HealthMap;
use crate::io::packet_buf::{packets_of, PacketBuf, PACKET_BUF_SIZE};
use crate::types::backend::{BackendPoolId, HealthStatus};
use crate::types::config::ConnTtls;
use crate::types::mtu::MtuConfig;
use crate::types::packet::{flow_key_bytes, flow_proto_of, ipv4_meta, FlowProto, PacketMeta};

verus! {

/// What becomes of a packet.
pub enum ProcessResult {
    Forwarded(PacketBuf),
    Icmp(PacketBuf),
    OversizedRateLimited,
    Dropped,
}

/// What becomes of a packet, by its bytes.
pub enum Outcome {
    Forwarded(Seq<u8>),
    FragNeeded(Seq<u8>),
    OversizedRateLimited,
    Dropped,
}

impl ProcessResult {
    /// The result by its bytes.
    pub open spec fn outcome(self) -> Outcome {
        match self {
            ProcessResult::Forwarded(p) => Outcome::Forwarded(p@),
            ProcessResult::Icmp(p) => Outcome::FragNeeded(p@),
            ProcessResult::OversizedRateLimited => Outcome::OversizedRateLimited,
            ProcessResult::Dropped => Outcome::Dropped,
        }
    }

    /// Packets lie within their buffers.
    pub open spec fn wf(self) -> bool {
        match self {
            ProcessResult::Forwarded(p) => p.wf(),
            ProcessResult::Icmp(p) => p.wf(),
            _ => true,
        }
    }
}

/// What a rewriter remembers.
pub struct RewriterState {
    pub src_ip: IpAddr,
    pub conns: Seq<ConnEntry>,
    pub ttls: ConnTtls,
    pub mtu: MtuConfig,
    pub limits: VipLimits,
    pub metrics: ForwarderCounts,
}

/// What a rewriter goes by: the services, the tables and the health of the
/// backends.
pub struct ForwardingView {
    pub services: Map<VipKey, BackendPoolId>,
    pub tables: Map<Seq<char>, LookupTable>,
    pub health: Map<IpAddr, HealthStatus>,
}

/// What matcher, tables and health map say.
pub open spec fn forwarding_view(
    matcher: &VipMatcher,
    tables: &LookupTables,
    health: &HealthMap,
) -> ForwardingView {
    ForwardingView { services: matcher@, tables: tables@, health: health@ }
}

/// The destination of a packet, by which its service is found.
pub open spec fn service_key(m: PacketMeta) -> VipKey {
    VipKey { ip: m.dst_ip, protocol: m.protocol, port: m.dst_port }
}

/// The flow of a packet.
pub open spec fn flow_of(m: PacketMeta) -> FlowKey {
    FlowKey {
        hash: xxh3_digest(flow_key_bytes(m)),
        proto: flow_proto_of(m.protocol),
        first_state: first_state(m.tcp_flags),
    }
}

/// The flow of a packet.
pub fn flow_key_of(meta: &PacketMeta) -> (f: FlowKey)
    ensures
        f == flow_of(*meta),
{
    FlowKey {
        hash: meta.flow_hash(),
        proto: FlowProto::from(meta.protocol),
        first_state: initial_tcp_state(meta.tcp_flags),
    }
}

/// A packet with its MSS clamped to what the tunnel carries.
pub open spec fn clamped_for(d: Seq<u8>, mtu: MtuConfig) -> Seq<u8> {
    clamped_packet(d, mtu.tcp_mss_clamp as int)
}

/// The metrics after MSS clamping of a packet.
pub open spec fn count_clamp(m: ForwarderCounts, d: Seq<u8>, mtu: MtuConfig) -> ForwarderCounts {
    with_clamp(m, clamp_class(d, mtu.tcp_mss_clamp as int))
}

/// The metrics after MSS clamping that ended with `r`.
pub open spec fn with_clamp(m: ForwarderCounts, r: ClampResult) -> ForwarderCounts {
    match r {
        ClampResult::Clamped => ForwarderCounts {
            mss_clamp_total: counted(m.mss_clamp_total),
            ..m
        },
        ClampResult::Noop => ForwarderCounts {
            mss_clamp_noop_total: counted(m.mss_clamp_noop_total),
            ..m
        },
        ClampResult::MssMissing => ForwarderCounts {
            mss_clamp_missing_total: counted(m.mss_clamp_missing_total),
            ..m
        },
        _ => m,
    }
}

/// The tunnel packet for an inner packet, if both ends are IPv4 and it fits a
/// buffer.
pub open spec fn tunneled(out: Seq<u8>, src_ip: IpAddr, backend_ip: IpAddr) -> Outcome {
    match (src_ip, backend_ip) {
        (IpAddr::V4(src), IpAddr::V4(dst)) => if out.len() + ENCAP_OVERHEAD <= PACKET_BUF_SIZE {
            Outcome::Forwarded(encapsulated(out, src, dst))
        } else {
            Outcome::Dropped
        },
        _ => Outcome::Dropped,
    }
}

/// The IPv4 address in `ip`, or the unspecified address.
pub open spec fn as_ipv4(ip: IpAddr) -> Ipv4Addr {
    match ip {
        IpAddr::V4(v4) => v4,
        IpAddr::V6(_) => Ipv4Addr { a: 0, b: 0, c: 0, d: 0 },
    }
}

/// What a rewriter does with the packet `d`: the pipeline in its order.
///
/// A packet is dropped unless it is IPv4 TCP or UDP, belongs to a service, and
/// the service's pool has a table. Its MSS is clamped, its backend selected
/// and its flow tracked. If it must not be fragmented and does not fit the
/// tunnel, its sender is told so, within the rate limit of the VIP; else it goes to its
/// backend through the tunnel.
pub open spec fn process(
    s: RewriterState,
    d: Seq<u8>,
    v: ForwardingView,
    now: Instant,
) -> (RewriterState, Outcome) {
    match ipv4_meta(d) {
        None => (s, Outcome::Dropped),
        Some(meta) => if !v.services.contains_key(service_key(meta)) {
            (s, Outcome::Dropped)
        } else {
            let pool = v.services[service_key(meta)]@;
            let out = clamped_for(d, s.mtu);
            let m1 = count_clamp(s.metrics, d, s.mtu);
            if !v.tables.contains_key(pool) {
                (RewriterState { metrics: m1, ..s }, Outcome::Dropped)
            } else {
                let flow = flow_of(meta);
                let (c2, m2, ip) = selection(
                    s.conns,
                    m1,
                    s.ttls,
                    v.tables[pool],
                    v.health,
                    flow,
                    now,
                );
                let (c3, m3) = transitioned(c2, m2, flow.hash, meta.tcp_flags, now);
                let kept = RewriterState { conns: c3, metrics: m3, ..s };
                if too_big_for_tunnel(out, s.mtu.network_mtu) {
                    let (limits, granted) = vip_step(s.limits, meta.dst_ip, now);
                    (
                        RewriterState { limits, ..kept },
                        if granted {
                            Outcome::FragNeeded(
                                frag_needed_packet(
                                    out,
                                    as_ipv4(meta.dst_ip),
                                    s.mtu.effective_inner_mtu,
                                ),
                            )
                        } else {
                            Outcome::OversizedRateLimited
                        },
                    )
                } else {
                    (kept, tunneled(out, s.src_ip, ip))
                }
            }
        },
    }
}

/// The metrics after a packet met its outcome.
pub open spec fn count_outcome(m: ForwarderCounts, o: Outcome) -> ForwarderCounts {
    match o {
        Outcome::Forwarded(_) => ForwarderCounts {
            packets_forwarded: counted(m.packets_forwarded),
            ..m
        },
        Outcome::FragNeeded(_) => ForwarderCounts {
            icmp_frag_needed_sent_total: counted(m.icmp_frag_needed_sent_total),
            packets_oversized_dropped_total: counted(m.packets_oversized_dropped_total),
            ..m
        },
        Outcome::OversizedRateLimited => ForwarderCounts {
            icmp_frag_needed_ratelimited_total: counted(m.icmp_frag_needed_ratelimited_total),
            packets_oversized_dropped_total: counted(m.packets_oversized_dropped_total),
            packets_dropped: counted(m.packets_dropped),
            ..m
        },
        Outcome::Dropped => ForwarderCounts { packets_dropped: counted(m.packets_dropped), ..m },
    }
}

/// The packets that an outcome sends.
pub open spec fn emitted(o: Outcome) -> Seq<Seq<u8>> {
    match o {
        Outcome::Forwarded(p) => seq![p],
        Outcome::FragNeeded(p) => seq![p],
        _ => Seq::empty(),
    }
}

/// A rewriter that has counted the arrival of a packet.
pub open spec fn with_arrival(s: RewriterState) -> RewriterState {
    RewriterState {
        metrics: ForwarderCounts {
            packets_received: counted(s.metrics.packets_received),
            ..s.metrics
        },
        ..s
    }
}

/// The rewriter after the packets `inputs`, and the packets it sends, in
/// order.
pub open spec fn process_all(
    s: RewriterState,
    inputs: Seq<Seq<u8>>,
    v: ForwardingView,
    now: Instant,
) -> (RewriterState, Seq<Seq<u8>>)
    decreases inputs.len(),
{
    if inputs.len() == 0 {
        (s, Seq::empty())
    } else {
        let (s1, sent) = process_all(s, inputs.drop_last(), v, now);
        let (s2, o) = process(with_arrival(s1), inputs.last(), v, now);
        (RewriterState { metrics: count_outcome(s2.metrics, o), ..s2 }, sent + emitted(o))
    }
}

/// Every packet is accounted for: it is counted as received, and exactly once
/// as forwarded, dropped, or answered with an ICMP error. What a batch sends
/// is what it forwards and answers.
pub proof fn every_packet_is_accounted(
    s: RewriterState,
    inputs: Seq<Seq<u8>>,
    v: ForwardingView,
    now: Instant,
)
    requires
        s.metrics.packets_received + inputs.len() <= u64::MAX,
        s.metrics.packets_forwarded + inputs.len() <= u64::MAX,
        s.metrics.packets_dropped + inputs.len() <= u64::MAX,
        s.metrics.icmp_frag_needed_sent_total + inputs.len() <= u64::MAX,
    ensures
        ({
            let (r, sent) = process_all(s, inputs, v, now);
            let forwarded = r.metrics.packets_forwarded - s.metrics.packets_forwarded;
            let dropped = r.metrics.packets_dropped - s.metrics.packets_dropped;
            let answered = r.metrics.icmp_frag_needed_sent_total
                - s.metrics.icmp_frag_needed_sent_total;
            &&& r.metrics.packets_received - s.metrics.packets_received == inputs.len()
            &&& forwarded >= 0 && dropped >= 0 && answered >= 0
            &&& forwarded + dropped + answered == inputs.len()
            &&& sent.len() == forwarded + answered
        }),
    decreases inputs.len(),
{
    if inputs.len() > 0 {
        every_packet_is_accounted(s, inputs.drop_last(), v, now);
    }
}

/// The gauges after a batch.
pub open spec fn with_gauges(s: RewriterState) -> RewriterState {
    RewriterState { metrics: table_gauges(s.metrics, s.conns), ..s }
}

/// Metrics that show the fill of connection table `t`.
pub open spec fn table_gauges(m: ForwarderCounts, t: Seq<ConnEntry>) -> ForwarderCounts {
    ForwarderCounts {
        conn_table_size: occupancy(t) as i64,
        conn_table_fill_bp: (occupancy(t) as int * 10_000 / t.len() as int) as i64,
        ..m
    }
}

/// Shows the fill of the connection table.
pub(crate) fn set_table_gauges(metrics: &mut ForwarderCounts, conn_table: &ConnTable)
    requires
        conn_table.wf(),
    ensures
        *final(metrics) == table_gauges(*old(metrics), conn_table.slots()),
{
    metrics.conn_table_size = conn_table.len() as i64;
    metrics.conn_table_fill_bp = conn_table.fill_bp();
}

/// Per-thread packet processing pipeline.
pub struct RewriterThread {
    src_ip: IpAddr,
    conn_table: ConnTable,
    metrics: ForwarderCounts,
    mtu_config: MtuConfig,
    icmp_rate_limiters: VipRateLimiters,
}

impl View for RewriterThread {
    type V = RewriterState;

    closed spec fn view(&self) -> RewriterState {
        RewriterState {
            src_ip: self.src_ip,
            conns: self.conn_table.slots(),
            ttls: self.conn_table.ttls(),
            mtu: self.mtu_config,
            limits: self.icmp_rate_limiters@,
            metrics: self.metrics,
        }
    }
}

fn clamp_packet(pkt: &mut PacketBuf, metrics: &mut ForwarderCounts, mtu: &MtuConfig)
    requires
        old(pkt).wf(),
    ensures
        final(pkt).wf(),
        final(pkt)@ == clamped_for(old(pkt)@, *mtu),
        *final(metrics) == count_clamp(*old(metrics), old(pkt)@, *mtu),
{
    let ghost before = *pkt;
    let r = clamp_mss(pkt.as_mut_slice(), mtu.tcp_mss_clamp);
    proof {
        crate::forwarder::mss_clamp::lemma_clamped_len(before@, mtu.tcp_mss_clamp);
        assert(pkt@ =~= clamped_for(before@, *mtu));
    }
    count_clamp_result(metrics, r);
}

/// Counts how clamping the MSS of a packet ended.
pub(crate) fn count_clamp_result(metrics: &mut ForwarderCounts, r: ClampResult)
    ensures
        *final(metrics) == with_clamp(*old(metrics), r),
{
    match r {
        ClampResult::Clamped => {
            metrics.mss_clamp_total = count(metrics.mss_clamp_total);
        },
        ClampResult::Noop => {
            metrics.mss_clamp_noop_total = count(metrics.mss_clamp_noop_total);
        },
        ClampResult::MssMissing => {
            metrics.mss_clamp_missing_total = count(metrics.mss_clamp_missing_total);
        },
        ClampResult::NotTcp | ClampResult::NotSyn => {},
    }
}

impl RewriterThread {
    pub closed spec fn wf(self) -> bool {
        &&& self.conn_table.wf()
        &&& self.icmp_rate_limiters.wf()
    }

    /// A rewriter with an empty connection table; `conn_table_size` must be a
    /// power of two.
    pub fn new(
        src_ip: IpAddr,
        conn_table_size: usize,
        conn_ttls: ConnTtls,
        metrics: ForwarderCounts,
        mtu_config: MtuConfig,
        icmp_rate_limit: u32,
    ) -> (r: RewriterThread)
        requires
            table_size_valid(conn_table_size),
        ensures
            r.wf(),
            r@.src_ip == src_ip,
            r@.ttls == conn_ttls,
            r@.mtu == mtu_config,
            r@.metrics == metrics,
            r@.limits == (VipLimits { max_per_second: icmp_rate_limit, per_vip: Map::empty() }),
            r@.conns.len() == conn_table_size,
            forall|i: int| 0 <= i < conn_table_size ==> !(#[trigger] r@.conns[i]).occupied,
    {
        RewriterThread {
            src_ip,
            conn_table: ConnTable::new(conn_table_size, conn_ttls),
            metrics,
            mtu_config,
            icmp_rate_limiters: VipRateLimiters::new(icmp_rate_limit),
        }
    }

    /// The counters so far.
    pub fn metrics(&self) -> (m: &ForwarderCounts)
        ensures
            *m == self@.metrics,
    {
        &self.metrics
    }

    /// The connection table.
    pub fn conn_table(&self) -> (t: &ConnTable)
        requires
            self.wf(),
        ensures
            t.wf(),
            t.slots() == self@.conns,
            t.ttls() == self@.ttls,
    {
        &self.conn_table
    }

    /// Process a batch of packets. Rewrites packets in-place with GRE encapsulation.
    /// Returns the number of successfully processed packets (compacted to the front of the slice).
    /// ICMP responses for oversized packets are also placed into the output.
    pub fn process_batch(
        &mut self,
        packets: &mut [PacketBuf],
        vip_matcher: &VipMatcher,
        lookup_tables: &LookupTables,
        health_status: &HealthMap,
        now: Instant,
    ) -> (n: usize)
        requires
            old(self).wf(),
            vip_matcher.wf(),
            tables_wf(*lookup_tables),
            forall|i: int| 0 <= i < old(packets)@.len() ==> (#[trigger] old(packets)@[i]).wf(),
        ensures
            final(self).wf(),
            final(packets)@.len() == old(packets)@.len(),
            forall|i: int| 0 <= i < final(packets)@.len() ==> (#[trigger] final(packets)@[i]).wf(),
            ({
                let (s, sent) = process_all(
                    old(self)@,
                    packets_of(old(packets)@),
                    forwarding_view(vip_matcher, lookup_tables, health_status),
                    now,
                );
                &&& final(self)@ == with_gauges(s)
                &&& n == sent.len()
                &&& n <= old(packets)@.len()
                &&& packets_of(final(packets)@.take(sent.len() as int)) == sent
            }),
    {
        let ghost inputs = packets_of(packets@);
        let ghost v = forwarding_view(vip_matcher, lookup_tables, health_status);
        let ghost s0 = self@;
        let ghost originals = packets@;
        let total: usize = packets.len();
        let mut write_idx: usize = 0;
        let mut read_idx: usize = 0;
        while read_idx < total
            invariant
                total == packets@.len(),
                total == originals.len(),
                write_idx <= read_idx <= total,
                self.wf(),
                vip_matcher.wf(),
                tables_wf(*lookup_tables),
                v == forwarding_view(vip_matcher, lookup_tables, health_status),
                inputs == packets_of(originals),
                forall|i: int| 0 <= i < packets@.len() ==> (#[trigger] packets@[i]).wf(),
                forall|i: int| read_idx <= i < total ==> packets@[i] == originals[i],
                self@ == process_all(s0, inputs.take(read_idx as int), v, now).0,
                packets_of(packets@.take(write_idx as int)) == process_all(
                    s0,
                    inputs.take(read_idx as int),
                    v,
                    now,
                ).1,
            decreases total - read_idx,
        {
            let ghost sent = process_all(s0, inputs.take(read_idx as int), v, now).1;
            let ghost before = packets@;
            proof {
                assert(inputs.take(read_idx + 1).drop_last() =~= inputs.take(read_idx as int));
                assert(inputs.take(read_idx + 1).last() == inputs[read_idx as int]);
                assert(inputs[read_idx as int] == packets@[read_idx as int]@);
            }
            self.metrics.packets_received = count(self.metrics.packets_received);
            let result = self.process_one(
                &packets[read_idx],
                vip_matcher,
                lookup_tables,
                health_status,
                now,
            );
            if let Some(pkt) = self.settle(result) {
                packets[write_idx] = pkt;
                write_idx = write_idx + 1;
                proof {
                    assert(packets_of(packets@.take(write_idx as int)) =~= sent + seq![pkt@]);
                }
            } else {
                assert(sent + Seq::<Seq<u8>>::empty() =~= sent);
            }
            read_idx = read_idx + 1;
        }
        assert(inputs.take(read_idx as int) =~= inputs);
        set_table_gauges(&mut self.metrics, &self.conn_table);
        write_idx
    }

    /// Counts the outcome of a packet and hands out what is to be sent.
    fn settle(&mut self, result: ProcessResult) -> (r: Option<PacketBuf>)
        requires
            old(self).wf(),
            result.wf(),
        ensures
            final(self).wf(),
            final(self)@ == (RewriterState {
                metrics: count_outcome(old(self)@.metrics, result.outcome()),
                ..old(self)@
            }),
            match r {
                Some(p) => p.wf() && emitted(result.outcome()) == seq![p@],
                None => emitted(result.outcome()) == Seq::<Seq<u8>>::empty(),
            },
    {
        match result {
            ProcessResult::Forwarded(pkt) => {
                self.metrics.packets_forwarded = count(self.metrics.packets_forwarded);
                Some(pkt)
            },
            ProcessResult::Icmp(pkt) => {
                self.metrics.icmp_frag_needed_sent_total =
                count(self.metrics.icmp_frag_needed_sent_total);
                self.metrics.packets_oversized_dropped_total =
                count(self.metrics.packets_oversized_dropped_total);
                Some(pkt)
            },
            ProcessResult::OversizedRateLimited => {
                self.metrics.icmp_frag_needed_ratelimited_total =
                count(self.metrics.icmp_frag_needed_ratelimited_total);
                self.metrics.packets_oversized_dropped_total =
                count(self.metrics.packets_oversized_dropped_total);
                self.metrics.packets_dropped = count(self.metrics.packets_dropped);
                None
            },
            ProcessResult::Dropped => {
                self.metrics.packets_dropped = count(self.metrics.packets_dropped);
                None
            },
        }
    }

    /// Process one packet: what it becomes, and what is remembered of it.
    pub fn process_one(
        &mut self,
        input: &PacketBuf,
        vip_matcher: &VipMatcher,
        lookup_tables: &LookupTables,
        health_status: &HealthMap,
        now: Instant,
    ) -> (r: ProcessResult)
        requires
            old(self).wf(),
            input.wf(),
            vip_matcher.wf(),
            tables_wf(*lookup_tables),
        ensures
            final(self).wf(),
            r.wf(),
            (final(self)@, r.outcome()) == process(
                old(self)@,
                input@,
                forwarding_view(vip_matcher, lookup_tables, health_status),
                now,
            ),
    {
        // Parse 5-tuple
        let meta = match PacketMeta::from_ipv4_bytes(input.as_slice()) {
            Some(m) => m,
            None => return ProcessResult::Dropped,
        };
        // VIP match
        let pool_id = match vip_matcher.match_packet(meta.dst_ip, meta.protocol, meta.dst_port) {
            Some(id) => id,
            None => return ProcessResult::Dropped,
        };
        // MSS clamp (TCP SYN only, before backend selection)
        let mut output: PacketBuf = *input;
        clamp_packet(&mut output, &mut self.metrics, &self.mtu_config);
        // Backend selection (connection table + Maglev)
        let lookup_table = match lookup_tables.get(pool_id) {
            Some(lt) => lt,
            None => return ProcessResult::Dropped,
        };
        let flow = flow_key_of(&meta);
        let backend_ip = select_backend(
            &mut self.conn_table,
            &mut self.metrics,
            lookup_table,
            health_status,
            &flow,
            now,
        );
        // TCP state transitions come *after* the backend is resolved, so that
        // they affect the TTL bucket but never the backend selection.
        apply_tcp_transitions(
            &mut self.conn_table,
            &mut self.metrics,
            flow.hash,
            meta.tcp_flags,
            now,
        );
        // Oversized check (after backend selection)
        if should_generate_icmp(output.as_slice(), self.mtu_config.network_mtu) {
            if self.icmp_rate_limiters.allow(meta.dst_ip, now) {
                let vip_v4 = match meta.dst_ip {
                    IpAddr::V4(v4) => v4,
                    IpAddr::V6(_) => Ipv4Addr::new(0, 0, 0, 0),
                };
                let reply = generate_icmp_frag_needed(
                    output.as_slice(),
                    vip_v4,
                    self.mtu_config.effective_inner_mtu,
                );
                return ProcessResult::Icmp(reply);
            }
            return ProcessResult::OversizedRateLimited;
        }
        // GRE encapsulation
        let src_ipv4 = match self.src_ip {
            IpAddr::V4(v4) => v4,
            IpAddr::V6(_) => return ProcessResult::Dropped,
        };
        let dst_ipv4 = match backend_ip {
            IpAddr::V4(v4) => v4,
            IpAddr::V6(_) => return ProcessResult::Dropped,
        };
        if encapsulate_ipv4(&mut output, src_ipv4, dst_ipv4) {
            ProcessResult::Forwarded(output)
        } else {
            ProcessResult::Dropped
        }
    }
}

/// Whether a connection table can have `n` slots.
pub open spec fn table_size_valid(n: usize) -> bool {
    is_power_of_two(n as int)
}

} // verus!

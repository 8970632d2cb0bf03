//! The stages of the multi-threaded forwarder.
//!
//! ```text
//!   NIC RX → [Steering] → queues (u32 index) → [Rewriter 0..N] → queues → [Muxer] → NIC TX
//!                ↑                                                             |
//!                └─────────────────── free list (u32 index) ───────────────────┘
//! ```
//!
//! Packets live in a `PacketPool`. Only frame indices flow through the queues.
//! Each stage is given here as what it does with one batch; threads, waiting
//! and packet I/O are up to the caller.

use vstd::multiset::Multiset;
use vstd::prelude::*;

use crate::base::hash::xxh3_digest;
use crate::base::net::{IpAddr, Ipv4Addr};
use crate::base::time::{elapsed_nanos, Duration, Instant, NANOS_PER_SEC};
use crate::config_manager::applier::{tables_wf, LookupTables};
use crate::forwarder::conn_table::{inserted, orderly, pinned_backend, ConnEntry, ConnTable};
use crate::forwarder::fragment_table::{fragment_entry, uniform_ttls, FragmentTable};
use crate::forwarder::gre::{encapsulate_ipv4_buf, encapsulated, ENCAP_OVERHEAD};
use crate::forwarder::icmp::{
    frag_needed_packet, generate_icmp_frag_needed, lemma_vip_step_valid, limits_valid,
    should_generate_icmp, spent, too_big_for_tunnel, vip_step, VipLimits, VipRateLimiters,
};
use crate::forwarder::metrics::{count, counted, ForwarderCounts};
use crate::forwarder::mss_clamp::{clamp_mss, lemma_clamped_header, lemma_clamped_len};
use crate::forwarder::packet_pool::{Frame, FrameIndex, FrameQueue, PacketPool};
use crate::forwarder::rewriter::{
    as_ipv4, clamped_for, count_clamp, count_clamp_result, count_outcome, emitted, flow_key_of,
    flow_of, forwarding_view, process, service_key, set_table_gauges, table_gauges,
    table_size_valid, with_arrival, ForwardingView, Outcome, RewriterState,
};
use crate::forwarder::steering::queue_numbers;
use crate::forwarder::tracking::{apply_tcp_transitions, select_backend, selection, transitioned};
use crate::forwarder::vip_matcher::VipMatcher;
use crate::health::status_map::HealthMap;
use crate::io::packet_buf::{packets_of, PacketBuf, PACKET_BUF_SIZE};
use crate::types::config::ConnTtls;
use crate::types::mtu::MtuConfig;
use crate::types::packet::{
    fragment, fragment_key_bytes, ipv4_fragment_id, ipv4_meta,
    is_fragment, is_non_first_fragment, later_fragment, FragmentId, PacketMeta,
};

verus! {

/// Capacity of each queue between steering→rewriter and rewriter→muxer.
pub const QUEUE_CAPACITY: usize = 4096;

/// Maximum packets to drain from a queue per iteration.
pub const BATCH_DRAIN_SIZE: usize = 64;

/// Spin iterations before parking.
pub const SPIN_BEFORE_PARK: u32 = 64;

/// How many frames cover all packets in flight: both queues of every rewriter
/// and two batches of headroom. At least one rewriter is assumed.
pub open spec fn frames_needed(num_rewriters: int, batch_size: int) -> int {
    QUEUE_CAPACITY * (if num_rewriters < 1 {
        1
    } else {
        num_rewriters
    }) * 2 + batch_size * 2
}

/// The size of the packet pool.
pub fn pool_size(num_rewriters: usize, batch_size: usize) -> (n: usize)
    requires
        frames_needed(num_rewriters as int, batch_size as int) <= usize::MAX,
    ensures
        n == frames_needed(num_rewriters as int, batch_size as int),
{
    let rewriters: usize = if num_rewriters < 1 {
        1
    } else {
        num_rewriters
    };
    QUEUE_CAPACITY * rewriters * 2 + batch_size * 2
}

/// What an idle stage does next.
#[derive(Debug, Clone, Copy, PartialEq, Eq, Structural)]
pub enum IdleAction {
    /// Try again at once.
    Spin,
    /// Sleep for a while.
    Park,
}

/// After how many fruitless tries in a row an idle stage parks: the next count
/// of tries, and what to do.
pub fn idle_step(spin_count: u32) -> (r: (u32, IdleAction))
    requires
        spin_count < SPIN_BEFORE_PARK,
    ensures
        r.0 < SPIN_BEFORE_PARK,
        spin_count + 1 < SPIN_BEFORE_PARK ==> r == ((spin_count + 1) as u32, IdleAction::Spin),
        spin_count + 1 == SPIN_BEFORE_PARK ==> r == (0u32, IdleAction::Park),
{
    let next: u32 = spin_count + 1;
    if next < SPIN_BEFORE_PARK {
        (next, IdleAction::Spin)
    } else {
        (0, IdleAction::Park)
    }
}

/// What the rewriter of one queue remembers.
pub struct WorkerState {
    pub src: Ipv4Addr,
    pub conns: Seq<ConnEntry>,
    pub ttls: ConnTtls,
    pub fragments: Seq<ConnEntry>,
    pub fragment_ttl: Duration,
    pub mtu: MtuConfig,
    pub metrics: ForwarderCounts,
}

/// The metrics after a dropped packet.
pub open spec fn count_drop(m: ForwarderCounts) -> ForwarderCounts {
    ForwarderCounts { packets_dropped: counted(m.packets_dropped), ..m }
}

/// The metrics after a forwarded packet.
pub open spec fn count_forward(m: ForwarderCounts) -> ForwarderCounts {
    ForwarderCounts { packets_forwarded: counted(m.packets_forwarded), ..m }
}

/// The tunnel packet from `src` to a backend, if the backend is IPv4 and the
/// packet fits a frame.
pub open spec fn frame_tunneled(d: Seq<u8>, src: Ipv4Addr, backend: IpAddr) -> Option<Seq<u8>> {
    match backend {
        IpAddr::V4(dst) => if d.len() + ENCAP_OVERHEAD <= PACKET_BUF_SIZE {
            Some(encapsulated(d, src, dst))
        } else {
            None
        },
        IpAddr::V6(_) => None,
    }
}

/// Counts a forwarded or a dropped packet.
pub open spec fn count_result(m: ForwarderCounts, out: Option<Seq<u8>>) -> ForwarderCounts {
    if out is Some {
        count_forward(m)
    } else {
        count_drop(m)
    }
}

/// The backend that the first fragment of the packet of `d` went to.
pub open spec fn fragment_backend(w: WorkerState, d: Seq<u8>, now: Instant) -> Option<IpAddr> {
    match ipv4_fragment_id(d) {
        Some(f) => pinned_backend(
            w.fragments,
            xxh3_digest(fragment_key_bytes(f)),
            uniform_ttls(w.fragment_ttl),
            now,
        ),
        None => None,
    }
}

/// What becomes of a fragment other than the first: it follows the first one,
/// or is dropped if where that went is not known (any more).
pub open spec fn forward_later_fragment(
    w: WorkerState,
    d: Seq<u8>,
    now: Instant,
) -> (WorkerState, Option<Seq<u8>>) {
    match fragment_backend(w, d, now) {
        None => {
            let m = ForwarderCounts {
                fragment_drop_no_mapping_total: counted(w.metrics.fragment_drop_no_mapping_total),
                ..w.metrics
            };
            (WorkerState { metrics: count_drop(m), ..w }, None)
        },
        Some(ip) => {
            let out = frame_tunneled(d, w.src, ip);
            let m = if out is Some {
                ForwarderCounts {
                    fragment_subsequent_forwarded_total: counted(
                        w.metrics.fragment_subsequent_forwarded_total,
                    ),
                    ..w.metrics
                }
            } else {
                w.metrics
            };
            (WorkerState { metrics: count_result(m, out), ..w }, out)
        },
    }
}

/// The worker after noting where the first fragment `d` goes.
pub open spec fn note_first_fragment(
    w: WorkerState,
    d: Seq<u8>,
    backend: IpAddr,
    now: Instant,
) -> WorkerState {
    if fragment(d) {
        match ipv4_fragment_id(d) {
            Some(f) => WorkerState {
                fragments: inserted(
                    w.fragments,
                    fragment_entry(xxh3_digest(fragment_key_bytes(f)), backend, now),
                    uniform_ttls(w.fragment_ttl),
                    now,
                ).0,
                metrics: ForwarderCounts {
                    fragment_first_total: counted(w.metrics.fragment_first_total),
                    ..w.metrics
                },
                ..w
            },
            None => w,
        }
    } else {
        w
    }
}

/// What becomes of a packet that must not be fragmented and does not fit the
/// tunnel: its sender is told so, within the rate limit of the VIP.
pub open spec fn answer_oversized(
    w: WorkerState,
    limits: VipLimits,
    d: Seq<u8>,
    vip: IpAddr,
    now: Instant,
) -> (WorkerState, VipLimits, Option<Seq<u8>>) {
    let (left, granted) = vip_step(limits, vip, now);
    if granted {
        (
            WorkerState { metrics: count_outcome(w.metrics, Outcome::FragNeeded(d)), ..w },
            left,
            Some(frag_needed_packet(d, as_ipv4(vip), w.mtu.effective_inner_mtu)),
        )
    } else {
        (
            WorkerState { metrics: count_outcome(w.metrics, Outcome::OversizedRateLimited), ..w },
            left,
            None,
        )
    }
}

/// What becomes of a packet that is not a later fragment: the pipeline in its
/// order.
///
/// A packet is dropped unless it is IPv4 TCP or UDP, belongs to a service, and
/// the service's pool has a table. Its MSS is clamped, its backend selected
/// and its flow tracked. If it must not be fragmented and does not fit the
/// tunnel, its sender is told so; else it goes to its backend through the
/// tunnel.
pub open spec fn forward_flow(
    w: WorkerState,
    limits: VipLimits,
    d: Seq<u8>,
    v: ForwardingView,
    now: Instant,
) -> (WorkerState, VipLimits, Option<Seq<u8>>) {
    match ipv4_meta(d) {
        None => (WorkerState { metrics: count_drop(w.metrics), ..w }, limits, None),
        Some(meta) => if !v.services.contains_key(service_key(meta)) {
            (WorkerState { metrics: count_drop(w.metrics), ..w }, limits, None)
        } else {
            let clamped = clamped_for(d, w.mtu);
            let m0 = count_clamp(w.metrics, d, w.mtu);
            if !v.tables.contains_key(v.services[service_key(meta)]@) {
                (WorkerState { metrics: count_drop(m0), ..w }, limits, None)
            } else {
                let flow = flow_of(meta);
                let table = v.tables[v.services[service_key(meta)]@];
                let (c1, m1, ip) = selection(w.conns, m0, w.ttls, table, v.health, flow, now);
                let (c2, m2) = transitioned(c1, m1, flow.hash, meta.tcp_flags, now);
                let w2 = WorkerState { conns: c2, metrics: m2, ..w };
                if too_big_for_tunnel(clamped, w.mtu.network_mtu) {
                    answer_oversized(w2, limits, clamped, meta.dst_ip, now)
                } else {
                    let w3 = note_first_fragment(w2, clamped, ip, now);
                    let out = frame_tunneled(clamped, w3.src, ip);
                    (WorkerState { metrics: count_result(w3.metrics, out), ..w3 }, limits, out)
                }
            }
        },
    }
}

/// What a rewriter does with the packet `d`: its state afterwards, what it leaves
/// of the limits that all rewriters share, and the packet to send, if any.
pub open spec fn rewrite(
    w: WorkerState,
    limits: VipLimits,
    d: Seq<u8>,
    v: ForwardingView,
    now: Instant,
) -> (WorkerState, VipLimits, Option<Seq<u8>>) {
    let w1 = WorkerState {
        metrics: ForwarderCounts {
            packets_received: counted(w.metrics.packets_received),
            ..w.metrics
        },
        ..w
    };
    if later_fragment(d) {
        let (after, out) = forward_later_fragment(w1, d, now);
        (after, limits, out)
    } else {
        forward_flow(w1, limits, d, v, now)
    }
}

/// Every packet is counted as received, and once as dropped if there is no
/// packet to send; otherwise once as forwarded or as answered with an ICMP
/// error.
pub proof fn every_frame_is_accounted(
    w: WorkerState,
    limits: VipLimits,
    d: Seq<u8>,
    v: ForwardingView,
    now: Instant,
)
    ensures
        ({
            let (after, _, out) = rewrite(w, limits, d, v, now);
            &&& after.metrics.packets_received == counted(w.metrics.packets_received)
            &&& out is None ==> {
                &&& after.metrics.packets_dropped == counted(w.metrics.packets_dropped)
                &&& after.metrics.packets_forwarded == w.metrics.packets_forwarded
                &&& after.metrics.icmp_frag_needed_sent_total
                    == w.metrics.icmp_frag_needed_sent_total
            }
            &&& out is Some ==> {
                &&& after.metrics.packets_dropped == w.metrics.packets_dropped
                &&& (after.metrics.packets_forwarded == counted(w.metrics.packets_forwarded)
                    && after.metrics.icmp_frag_needed_sent_total
                    == w.metrics.icmp_frag_needed_sent_total) || (after.metrics.packets_forwarded
                    == w.metrics.packets_forwarded && after.metrics.icmp_frag_needed_sent_total
                    == counted(w.metrics.icmp_frag_needed_sent_total))
            }
        }),
{
}

/// A rewriter of the single-threaded engine that remembers the same.
pub open spec fn as_rewriter(w: WorkerState, limits: VipLimits) -> RewriterState {
    RewriterState {
        src_ip: IpAddr::V4(w.src),
        conns: w.conns,
        ttls: w.ttls,
        mtu: w.mtu,
        limits,
        metrics: w.metrics,
    }
}

/// A packet that is no fragment is treated alike by the rewriters of the pipeline
/// and by the one of the single-threaded engine.
pub proof fn rewriters_agree(
    w: WorkerState,
    limits: VipLimits,
    d: Seq<u8>,
    v: ForwardingView,
    now: Instant,
)
    requires
        !fragment(d),
    ensures
        ({
            let (after, left, out) = rewrite(w, limits, d, v, now);
            let (s, o) = process(with_arrival(as_rewriter(w, limits)), d, v, now);
            &&& as_rewriter(after, left) == RewriterState {
                metrics: count_outcome(s.metrics, o),
                ..s
            }
            &&& emitted(o) == (match out {
                Some(p) => seq![p],
                None => Seq::<Seq<u8>>::empty(),
            })
        }),
{
    lemma_clamped_len(d, w.mtu.tcp_mss_clamp);
    lemma_clamped_header(d, w.mtu.tcp_mss_clamp);
    let e = clamped_for(d, w.mtu);
    assert(fragment(e) == fragment(d)) by {
        if d.len() >= 20 {
            assert(e[6] == d[6] && e[7] == d[7]);
        }
    }
}

/// What a frame holds after its packet `d` was dropped: the packet, with its MSS
/// clamped if it came as far as that.
pub open spec fn left_behind(w: WorkerState, d: Seq<u8>, v: ForwardingView) -> Seq<u8> {
    if !later_fragment(d) && ipv4_meta(d) is Some && v.services.contains_key(
        service_key(ipv4_meta(d)->0),
    ) {
        clamped_for(d, w.mtu)
    } else {
        d
    }
}

/// The rewriter of one queue.
pub struct RewriterWorker {
    src_ipv4: Ipv4Addr,
    conn_table: ConnTable,
    fragment_table: FragmentTable,
    mtu_config: MtuConfig,
    metrics: ForwarderCounts,
}

impl View for RewriterWorker {
    type V = WorkerState;

    closed spec fn view(&self) -> WorkerState {
        WorkerState {
            src: self.src_ipv4,
            conns: self.conn_table.slots(),
            ttls: self.conn_table.ttls(),
            fragments: self.fragment_table.slots(),
            fragment_ttl: self.fragment_table.ttl(),
            mtu: self.mtu_config,
            metrics: self.metrics,
        }
    }
}

fn clamp_frame(frame: &mut Frame, metrics: &mut ForwarderCounts, mtu: &MtuConfig)
    requires
        old(frame).wf(),
    ensures
        final(frame).wf(),
        final(frame)@ == clamped_for(old(frame)@, *mtu),
        *final(metrics) == count_clamp(*old(metrics), old(frame)@, *mtu),
{
    let ghost before = *frame;
    let r = clamp_mss(frame.as_mut_slice(), mtu.tcp_mss_clamp);
    proof {
        lemma_clamped_len(before@, mtu.tcp_mss_clamp);
        assert(frame@ =~= clamped_for(before@, *mtu));
    }
    count_clamp_result(metrics, r);
}

fn encapsulate_frame(frame: &mut Frame, src: Ipv4Addr, backend: IpAddr) -> (ok: bool)
    requires
        old(frame).wf(),
    ensures
        final(frame).wf(),
        ok == (frame_tunneled(old(frame)@, src, backend) is Some),
        ok ==> frame_tunneled(old(frame)@, src, backend) == Some(final(frame)@),
        !ok ==> final(frame)@ == old(frame)@,
{
    let ghost before = *frame;
    let dst = match backend {
        IpAddr::V4(v4) => v4,
        IpAddr::V6(_) => return false,
    };
    let len: usize = frame.len;
    match encapsulate_ipv4_buf(&mut frame.data, len, src, dst) {
        Some(new_len) => {
            frame.len = new_len;
            proof {
                crate::forwarder::gre::encapsulation_preserves_inner(before@, src, dst);
                assert(frame@ =~= encapsulated(before@, src, dst));
            }
            true
        },
        None => {
            assert(frame@ =~= before@);
            false
        },
    }
}

impl RewriterWorker {
    pub closed spec fn wf(self) -> bool {
        &&& self.conn_table.wf()
        &&& self.fragment_table.wf()
    }

    /// The tables of a well-formed rewriter have slots and are orderly.
    pub proof fn lemma_wf(self)
        requires
            self.wf(),
        ensures
            self@.conns.len() > 0,
            orderly(self@.conns),
            self@.fragments.len() > 0,
            orderly(self@.fragments),
    {
        self.conn_table.lemma_wf();
        self.fragment_table.lemma_wf();
    }

    /// A rewriter with empty tables. There is none for an IPv6 source address.
    pub fn new(
        src_ip: IpAddr,
        conn_table_size: usize,
        conn_ttls: ConnTtls,
        fragment_table_size: usize,
        fragment_ttl: Duration,
        mtu_config: MtuConfig,
    ) -> (r: Option<RewriterWorker>)
        requires
            table_size_valid(conn_table_size),
            table_size_valid(fragment_table_size),
        ensures
            match r {
                Some(w) => {
                    &&& src_ip == IpAddr::V4(w@.src)
                    &&& w.wf()
                    &&& w@.ttls == conn_ttls
                    &&& w@.fragment_ttl == fragment_ttl
                    &&& w@.mtu == mtu_config
                    &&& w@.metrics == ForwarderCounts::zero()
                    &&& w@.conns.len() == conn_table_size
                    &&& w@.fragments.len() == fragment_table_size
                    &&& forall|i: int|
                        0 <= i < conn_table_size ==> !(#[trigger] w@.conns[i]).occupied
                    &&& forall|i: int|
                        0 <= i < fragment_table_size ==> !(#[trigger] w@.fragments[i]).occupied
                },
                None => src_ip is V6,
            },
    {
        match src_ip {
            IpAddr::V4(src_ipv4) => Some(
                RewriterWorker {
                    src_ipv4,
                    conn_table: ConnTable::new(conn_table_size, conn_ttls),
                    fragment_table: FragmentTable::new(fragment_table_size, fragment_ttl),
                    mtu_config,
                    metrics: ForwarderCounts::new(),
                },
            ),
            IpAddr::V6(_) => None,
        }
    }

    /// The counters so far.
    pub fn metrics(&self) -> (m: &ForwarderCounts)
        ensures
            *m == self@.metrics,
    {
        &self.metrics
    }

    fn count_drop(&mut self)
        ensures
            final(self)@ == (WorkerState { metrics: count_drop(old(self)@.metrics), ..old(self)@ }),
            old(self).wf() ==> final(self).wf(),
    {
        self.metrics.packets_dropped = count(self.metrics.packets_dropped);
    }

    fn tunnel(&mut self, frame: &mut Frame, backend: IpAddr) -> (ok: bool)
        requires
            old(self).wf(),
            old(frame).wf(),
        ensures
            final(self).wf(),
            final(frame).wf(),
            ({
                let out = frame_tunneled(old(frame)@, old(self)@.src, backend);
                &&& ok == (out is Some)
                &&& ok ==> out == Some(final(frame)@)
                &&& !ok ==> final(frame)@ == old(frame)@
                &&& final(self)@ == (WorkerState {
                    metrics: count_result(old(self)@.metrics, out),
                    ..old(self)@
                })
            }),
    {
        if encapsulate_frame(frame, self.src_ipv4, backend) {
            self.metrics.packets_forwarded = count(self.metrics.packets_forwarded);
            true
        } else {
            self.count_drop();
            false
        }
    }

    /// Non-first fragment fast path: no L4 header present, so the backend is
    /// looked up by the 3-tuple in the fragment table. If the first fragment's
    /// entry has expired or was dropped, the fragment is dropped too.
    fn later_fragment_frame(&mut self, frame: &mut Frame, now: Instant) -> (ok: bool)
        requires
            old(self).wf(),
            old(frame).wf(),
        ensures
            final(self).wf(),
            final(frame).wf(),
            ({
                let (w, out) = forward_later_fragment(old(self)@, old(frame)@, now);
                &&& final(self)@ == w
                &&& ok == (out is Some)
                &&& ok ==> out == Some(final(frame)@)
                &&& !ok ==> final(frame)@ == old(frame)@
            }),
    {
        let backend_ip = match FragmentId::from_ipv4_bytes(frame.as_slice()) {
            Some(fid) => self.fragment_table.get(fid.fragment_hash(), now),
            None => None,
        };
        match backend_ip {
            None => {
                self.metrics.fragment_drop_no_mapping_total =
                count(self.metrics.fragment_drop_no_mapping_total);
                self.count_drop();
                false
            },
            Some(ip) => {
                if encapsulate_frame(frame, self.src_ipv4, ip) {
                    self.metrics.fragment_subsequent_forwarded_total =
                    count(self.metrics.fragment_subsequent_forwarded_total);
                    self.metrics.packets_forwarded = count(self.metrics.packets_forwarded);
                    true
                } else {
                    self.count_drop();
                    false
                }
            },
        }
    }

    /// First fragment (MF=1, offset=0): record the 3-tuple → backend mapping
    /// so subsequent fragments reach the same pool member.
    fn note_fragment(&mut self, frame: &Frame, backend: IpAddr, now: Instant)
        requires
            old(self).wf(),
            frame.wf(),
        ensures
            final(self).wf(),
            final(self)@ == note_first_fragment(old(self)@, frame@, backend, now),
    {
        if is_fragment(frame.as_slice()) {
            if let Some(fid) = FragmentId::from_ipv4_bytes(frame.as_slice()) {
                self.fragment_table.insert(fid.fragment_hash(), backend, now);
                self.metrics.fragment_first_total = count(self.metrics.fragment_first_total);
            }
        }
    }

    /// Puts the answer to an oversized packet in its place, within the rate
    /// limit of the VIP.
    fn answer_frame(
        &mut self,
        frame: &mut Frame,
        vip: IpAddr,
        limiters: &mut VipRateLimiters,
        now: Instant,
    ) -> (ok: bool)
        requires
            old(self).wf(),
            old(frame).wf(),
            old(limiters).wf(),
        ensures
            final(self).wf(),
            final(frame).wf(),
            final(limiters).wf(),
            ({
                let (w, left, out) = answer_oversized(
                    old(self)@,
                    old(limiters)@,
                    old(frame)@,
                    vip,
                    now,
                );
                &&& final(self)@ == w
                &&& final(limiters)@ == left
                &&& ok == (out is Some)
                &&& ok ==> out == Some(final(frame)@)
                &&& !ok ==> final(frame)@ == old(frame)@
            }),
    {
        self.metrics.packets_oversized_dropped_total =
        count(self.metrics.packets_oversized_dropped_total);
        if limiters.allow(vip, now) {
            self.metrics.icmp_frag_needed_sent_total =
            count(self.metrics.icmp_frag_needed_sent_total);
            let vip_v4 = match vip {
                IpAddr::V4(v4) => v4,
                IpAddr::V6(_) => Ipv4Addr::new(0, 0, 0, 0),
            };
            let reply = generate_icmp_frag_needed(
                frame.as_slice(),
                vip_v4,
                self.mtu_config.effective_inner_mtu,
            );
            frame.write_from(reply.as_slice());
            true
        } else {
            self.metrics.icmp_frag_needed_ratelimited_total =
            count(self.metrics.icmp_frag_needed_ratelimited_total);
            self.count_drop();
            false
        }
    }

    /// Rewrites the packet in a frame in place. Returns whether it is to be
    /// sent; if not, it stays as it was, but for its clamped MSS. `limiters` are
    /// those of all rewriters.
    pub fn rewrite_frame(
        &mut self,
        frame: &mut Frame,
        vip_matcher: &VipMatcher,
        lookup_tables: &LookupTables,
        health_status: &HealthMap,
        limiters: &mut VipRateLimiters,
        now: Instant,
    ) -> (ok: bool)
        requires
            old(self).wf(),
            old(frame).wf(),
            vip_matcher.wf(),
            tables_wf(*lookup_tables),
            old(limiters).wf(),
        ensures
            final(self).wf(),
            final(frame).wf(),
            final(limiters).wf(),
            ({
                let (w, left, out) = rewrite(
                    old(self)@,
                    old(limiters)@,
                    old(frame)@,
                    forwarding_view(vip_matcher, lookup_tables, health_status),
                    now,
                );
                &&& final(self)@ == w
                &&& final(limiters)@ == left
                &&& ok == (out is Some)
                &&& ok ==> out == Some(final(frame)@)
                &&& !ok ==> final(frame)@ == left_behind(
                    old(self)@,
                    old(frame)@,
                    forwarding_view(vip_matcher, lookup_tables, health_status),
                )
            }),
    {
        self.metrics.packets_received = count(self.metrics.packets_received);
        if is_non_first_fragment(frame.as_slice()) {
            return self.later_fragment_frame(frame, now);
        }
        let meta = match PacketMeta::from_ipv4_bytes(frame.as_slice()) {
            Some(m) => m,
            None => {
                self.count_drop();
                return false;
            },
        };
        let pool_id = match vip_matcher.match_packet(meta.dst_ip, meta.protocol, meta.dst_port) {
            Some(id) => id,
            None => {
                self.count_drop();
                return false;
            },
        };
        clamp_frame(frame, &mut self.metrics, &self.mtu_config);
        let lookup_table = match lookup_tables.get(pool_id) {
            Some(lt) => lt,
            None => {
                self.count_drop();
                return false;
            },
        };
        let flow = flow_key_of(&meta);
        let backend_ip = select_backend(
            &mut self.conn_table,
            &mut self.metrics,
            lookup_table,
            health_status,
            &flow,
            now,
        );
        apply_tcp_transitions(
            &mut self.conn_table,
            &mut self.metrics,
            flow.hash,
            meta.tcp_flags,
            now,
        );
        if should_generate_icmp(frame.as_slice(), self.mtu_config.network_mtu) {
            return self.answer_frame(frame, meta.dst_ip, limiters, now);
        }
        self.note_fragment(frame, backend_ip, now);
        self.tunnel(frame, backend_ip)
    }
}

/// The packets in the frames of a pool.
pub open spec fn frame_packets(frames: Seq<Frame>) -> Seq<Seq<u8>> {
    Seq::new(frames.len(), |i: int| frames[i]@)
}

/// A free list of a pool of `cap` frames after `idx` was returned to it.
pub open spec fn freed(free: Seq<u32>, idx: u32, cap: nat) -> Seq<u32> {
    if free.len() < cap {
        free.push(idx)
    } else {
        free
    }
}

/// Frames, free list and outgoing queue around a rewriter.
pub struct RewriteStage {
    pub worker: WorkerState,
    pub limits: VipLimits,
    pub packets: Seq<Seq<u8>>,
    pub free: Seq<u32>,
    pub tx: Seq<u32>,
}

/// The stage after frame `idx` was worked on: a packet to send goes to the
/// outgoing queue; the frame of any other, and of one that finds the queue
/// full, goes back to the pool.
pub open spec fn rewrite_step(
    b: RewriteStage,
    idx: u32,
    tx_capacity: nat,
    v: ForwardingView,
    now: Instant,
) -> RewriteStage {
    let (worker, limits, out) = rewrite(b.worker, b.limits, b.packets[idx as int], v, now);
    let n = b.packets.len();
    match out {
        Some(p) => {
            let packets = b.packets.update(idx as int, p);
            if b.tx.len() < tx_capacity {
                RewriteStage { worker, limits, packets, free: b.free, tx: b.tx.push(idx) }
            } else {
                RewriteStage { worker, limits, packets, free: freed(b.free, idx, n), tx: b.tx }
            }
        },
        None => RewriteStage {
            worker,
            limits,
            packets: b.packets.update(
                idx as int,
                left_behind(b.worker, b.packets[idx as int], v),
            ),
            free: freed(b.free, idx, n),
            tx: b.tx,
        },
    }
}

/// The stage after the frames `indices` were worked on, in order.
pub open spec fn rewrite_run(
    b: RewriteStage,
    indices: Seq<u32>,
    tx_capacity: nat,
    v: ForwardingView,
    now: Instant,
) -> RewriteStage
    decreases indices.len(),
{
    if indices.len() == 0 {
        b
    } else {
        rewrite_step(
            rewrite_run(b, indices.drop_last(), tx_capacity, v, now),
            indices.last(),
            tx_capacity,
            v,
            now,
        )
    }
}

/// The worker with the fill of its connection table on show.
pub open spec fn worker_gauges(w: WorkerState) -> WorkerState {
    WorkerState { metrics: table_gauges(w.metrics, w.conns), ..w }
}

/// How many indices a rewriter takes from its queue at once.
pub open spec fn drain_len(waiting: nat) -> nat {
    if waiting < BATCH_DRAIN_SIZE {
        waiting
    } else {
        BATCH_DRAIN_SIZE as nat
    }
}

/// No frame is lost and none is handed out twice by a rewriter: every frame
/// that came in is in the outgoing queue or on the free list afterwards.
pub proof fn rewriting_conserves_frames(
    b: RewriteStage,
    indices: Seq<u32>,
    tx_capacity: nat,
    v: ForwardingView,
    now: Instant,
)
    requires
        b.free.len() + b.tx.len() + indices.len() <= b.packets.len(),
        forall|i: int| 0 <= i < indices.len() ==> (#[trigger] indices[i]) < b.packets.len(),
    ensures
        ({
            let r = rewrite_run(b, indices, tx_capacity, v, now);
            &&& r.packets.len() == b.packets.len()
            &&& r.free.len() + r.tx.len() == b.free.len() + b.tx.len() + indices.len()
            &&& r.free.to_multiset().add(r.tx.to_multiset()) == b.free.to_multiset().add(
                b.tx.to_multiset(),
            ).add(indices.to_multiset())
        }),
    decreases indices.len(),
{
    broadcast use vstd::seq_lib::group_to_multiset_ensures;

    let r = rewrite_run(b, indices, tx_capacity, v, now);
    if indices.len() == 0 {
        assert(r.free.to_multiset().add(r.tx.to_multiset()) =~= b.free.to_multiset().add(
            b.tx.to_multiset(),
        ).add(indices.to_multiset()));
    } else {
        let p = rewrite_run(b, indices.drop_last(), tx_capacity, v, now);
        let idx = indices.last();
        assert forall|i: int| 0 <= i < indices.drop_last().len() implies (
        #[trigger] indices.drop_last()[i]) < b.packets.len() by {
            assert(indices.drop_last()[i] == indices[i]);
        }
        rewriting_conserves_frames(b, indices.drop_last(), tx_capacity, v, now);
        assert(indices =~= indices.drop_last().push(idx));
        assert(r.free.to_multiset().add(r.tx.to_multiset()) =~= p.free.to_multiset().add(
            p.tx.to_multiset(),
        ).insert(idx));
        assert(b.free.to_multiset().add(b.tx.to_multiset()).add(indices.to_multiset())
            =~= b.free.to_multiset().add(b.tx.to_multiset()).add(
            indices.drop_last().to_multiset(),
        ).insert(idx));
    }
}

/// Takes up to `max` indices from the front of a queue.
fn drain_queue(q: &mut FrameQueue, max: usize, out: &mut Vec<FrameIndex>)
    requires
        old(q).wf(),
        old(out)@.len() + max <= usize::MAX,
    ensures
        final(q).wf(),
        final(q).capacity() == old(q).capacity(),
        ({
            let k = if old(q)@.len() < max {
                old(q)@.len() as int
            } else {
                max as int
            };
            &&& final(out)@ == old(out)@ + old(q)@.take(k)
            &&& final(q)@ == old(q)@.skip(k)
        }),
{
    let ghost items = q@;
    let ghost start = out@;
    let mut taken: usize = 0;
    assert(items.skip(0) =~= items);
    assert(start + items.take(0) =~= start);
    while taken < max
        invariant
            taken <= max,
            taken <= items.len(),
            items == old(q)@,
            start == old(out)@,
            q.wf(),
            q.capacity() == old(q).capacity(),
            q@ == items.skip(taken as int),
            out@ == start + items.take(taken as int),
        decreases max - taken,
    {
        match q.pop() {
            Some(idx) => {
                out.push(idx);
                proof {
                    assert(items.skip(taken as int).drop_first() =~= items.skip(taken + 1));
                    assert(start + items.take(taken + 1) =~= (start + items.take(
                        taken as int,
                    )).push(idx));
                }
                taken = taken + 1;
            },
            None => {
                return;
            },
        }
    }
}

impl RewriterWorker {
    /// Processes some frames in place and pushes them to the TX queue. `limiters`
    /// are those of all rewriters.
    pub fn rewrite_frames(
        &mut self,
        pool: &mut PacketPool,
        indices: &Vec<FrameIndex>,
        tx_q: &mut FrameQueue,
        vip_matcher: &VipMatcher,
        lookup_tables: &LookupTables,
        health_status: &HealthMap,
        limiters: &mut VipRateLimiters,
        now: Instant,
    )
        requires
            old(self).wf(),
            old(pool).wf(),
            old(tx_q).wf(),
            vip_matcher.wf(),
            tables_wf(*lookup_tables),
            old(limiters).wf(),
            forall|i: int|
                0 <= i < indices@.len() ==> (#[trigger] indices@[i]) < old(pool).frames().len(),
        ensures
            final(self).wf(),
            final(pool).wf(),
            final(tx_q).wf(),
            final(limiters).wf(),
            final(tx_q).capacity() == old(tx_q).capacity(),
            ({
                let r = rewrite_run(
                    RewriteStage {
                        worker: old(self)@,
                        limits: old(limiters)@,
                        packets: frame_packets(old(pool).frames()),
                        free: old(pool).free_frames(),
                        tx: old(tx_q)@,
                    },
                    indices@,
                    old(tx_q).capacity(),
                    forwarding_view(vip_matcher, lookup_tables, health_status),
                    now,
                );
                &&& final(self)@ == (if indices@.len() == 0 {
                    r.worker
                } else {
                    worker_gauges(r.worker)
                })
                &&& final(limiters)@ == r.limits
                &&& frame_packets(final(pool).frames()) == r.packets
                &&& final(pool).free_frames() == r.free
                &&& final(tx_q)@ == r.tx
            }),
    {
        let n: usize = indices.len();
        if n == 0 {
            return;
        }
        let ghost b = RewriteStage {
            worker: self@,
            limits: limiters@,
            packets: frame_packets(pool.frames()),
            free: pool.free_frames(),
            tx: tx_q@,
        };
        let ghost v = forwarding_view(vip_matcher, lookup_tables, health_status);
        let ghost cap = tx_q.capacity();
        let ghost total = pool.frames().len();
        assert(indices@.take(0) =~= Seq::<u32>::empty());
        let mut i: usize = 0;
        while i < n
            invariant
                i <= n,
                n == indices@.len(),
                self.wf(),
                pool.wf(),
                tx_q.wf(),
                limiters.wf(),
                tx_q.capacity() == cap,
                vip_matcher.wf(),
                tables_wf(*lookup_tables),
                v == forwarding_view(vip_matcher, lookup_tables, health_status),
                pool.frames().len() == total,
                forall|j: int| 0 <= j < n ==> (#[trigger] indices@[j]) < total,
                ({
                    let r = rewrite_run(b, indices@.take(i as int), cap, v, now);
                    &&& self@ == r.worker
                    &&& limiters@ == r.limits
                    &&& frame_packets(pool.frames()) == r.packets
                    &&& pool.free_frames() == r.free
                    &&& tx_q@ == r.tx
                }),
            decreases n - i,
        {
            let idx: FrameIndex = indices[i];
            let ghost before = pool.frames();
            let ghost p = rewrite_run(b, indices@.take(i as int), cap, v, now);
            proof {
                assert(indices@.take(i + 1).drop_last() =~= indices@.take(i as int));
                assert(indices@.take(i + 1).last() == idx);
                assert(p.packets[idx as int] == before[idx as int]@);
            }
            let ok = self.rewrite_frame(
                pool.get_mut(idx),
                vip_matcher,
                lookup_tables,
                health_status,
                limiters,
                now,
            );
            proof {
                let out = rewrite(p.worker, p.limits, p.packets[idx as int], v, now).2;
                if ok {
                    assert(frame_packets(pool.frames()) =~= p.packets.update(
                        idx as int,
                        out->0,
                    ));
                } else {
                    assert(frame_packets(pool.frames()) =~= p.packets.update(
                        idx as int,
                        left_behind(p.worker, p.packets[idx as int], v),
                    ));
                }
            }
            if ok {
                if tx_q.push(idx).is_err() {
                    pool.free(idx);
                }
            } else {
                pool.free(idx);
            }
            i = i + 1;
        }
        assert(indices@.take(n as int) =~= indices@);
        set_table_gauges(&mut self.metrics, &self.conn_table);
    }

    /// One round of a rewriter: drain frame indices from the RX queue, process
    /// the frames in place, push to the TX queue. Returns how many frames it
    /// worked on.
    pub fn rewrite_batch(
        &mut self,
        pool: &mut PacketPool,
        rx_q: &mut FrameQueue,
        tx_q: &mut FrameQueue,
        vip_matcher: &VipMatcher,
        lookup_tables: &LookupTables,
        health_status: &HealthMap,
        limiters: &mut VipRateLimiters,
        now: Instant,
    ) -> (n: usize)
        requires
            old(self).wf(),
            old(pool).wf(),
            old(rx_q).wf(),
            old(tx_q).wf(),
            vip_matcher.wf(),
            tables_wf(*lookup_tables),
            old(limiters).wf(),
            forall|i: int|
                0 <= i < old(rx_q)@.len() ==> (#[trigger] old(rx_q)@[i]) < old(
                    pool,
                ).frames().len(),
        ensures
            final(self).wf(),
            final(pool).wf(),
            final(rx_q).wf(),
            final(tx_q).wf(),
            final(limiters).wf(),
            final(tx_q).capacity() == old(tx_q).capacity(),
            final(rx_q).capacity() == old(rx_q).capacity(),
            n == drain_len(old(rx_q)@.len()),
            final(rx_q)@ == old(rx_q)@.skip(n as int),
            ({
                let r = rewrite_run(
                    RewriteStage {
                        worker: old(self)@,
                        limits: old(limiters)@,
                        packets: frame_packets(old(pool).frames()),
                        free: old(pool).free_frames(),
                        tx: old(tx_q)@,
                    },
                    old(rx_q)@.take(n as int),
                    old(tx_q).capacity(),
                    forwarding_view(vip_matcher, lookup_tables, health_status),
                    now,
                );
                &&& final(self)@ == (if n == 0 {
                    r.worker
                } else {
                    worker_gauges(r.worker)
                })
                &&& final(limiters)@ == r.limits
                &&& frame_packets(final(pool).frames()) == r.packets
                &&& final(pool).free_frames() == r.free
                &&& final(tx_q)@ == r.tx
            }),
    {
        let ghost items = rx_q@;
        let indices: Vec<FrameIndex> = take_frames(rx_q);
        proof {
            assert forall|i: int| 0 <= i < indices@.len() implies (#[trigger] indices@[i])
                < pool.frames().len() by {
                assert(indices@[i] == items[i]);
            }
        }
        self.rewrite_frames(
            pool,
            &indices,
            tx_q,
            vip_matcher,
            lookup_tables,
            health_status,
            limiters,
            now,
        );
        indices.len()
    }
}

/// Takes the frames for one round from an RX queue.
pub fn take_frames(rx_q: &mut FrameQueue) -> (indices: Vec<FrameIndex>)
    requires
        old(rx_q).wf(),
    ensures
        final(rx_q).wf(),
        final(rx_q).capacity() == old(rx_q).capacity(),
        indices@ == old(rx_q)@.take(drain_len(old(rx_q)@.len()) as int),
        final(rx_q)@ == old(rx_q)@.skip(drain_len(old(rx_q)@.len()) as int),
{
    let mut indices: Vec<FrameIndex> = Vec::with_capacity(BATCH_DRAIN_SIZE);
    let ghost items = rx_q@;
    drain_queue(rx_q, BATCH_DRAIN_SIZE, &mut indices);
    assert(indices@ =~= items.take(indices@.len() as int));
    indices
}

/// The VIP whose limit a packet draws on: that of an oversized packet to a
/// service.
pub open spec fn oversized_for(w: WorkerState, d: Seq<u8>, v: ForwardingView) -> Option<IpAddr> {
    match ipv4_meta(d) {
        None => None,
        Some(meta) => if !later_fragment(d) && v.services.contains_key(service_key(meta))
            && v.tables.contains_key(v.services[service_key(meta)]@) && too_big_for_tunnel(
            clamped_for(d, w.mtu),
            w.mtu.network_mtu,
        ) {
            Some(meta.dst_ip)
        } else {
            None
        },
    }
}

/// Limits matter to oversized packets only: any other packet leaves them alone
/// and meets the same fate whatever they are. A packet is oversized as it came,
/// whether its MSS is clamped or not.
pub proof fn limits_serve_oversized_packets(
    w: WorkerState,
    limits: VipLimits,
    other: VipLimits,
    d: Seq<u8>,
    v: ForwardingView,
    now: Instant,
)
    ensures
        oversized_for(w, d, v) is None ==> {
            let (after, left, out) = rewrite(w, limits, d, v, now);
            left == limits && rewrite(w, other, d, v, now) == (after, other, out)
        },
        oversized_for(w, d, v) matches Some(vip) ==> rewrite(w, limits, d, v, now).1 == vip_step(
            limits,
            vip,
            now,
        ).0 && (rewrite(w, limits, d, v, now).2 is Some <==> vip_step(limits, vip, now).1),
        oversized_for(w, d, v) is Some ==> too_big_for_tunnel(d, w.mtu.network_mtu),
{
    lemma_clamped_len(d, w.mtu.tcp_mss_clamp);
    lemma_clamped_header(d, w.mtu.tcp_mss_clamp);
    let e = clamped_for(d, w.mtu);
    if d.len() >= 20 {
        assert(e[0] == d[0] && e[2] == d[2] && e[3] == d[3] && e[6] == d[6] && e[7] == d[7]);
    }
}

/// A packet that one of the rewriters works on.
pub struct Turn {
    pub worker: WorkerState,
    pub packet: Seq<u8>,
    pub view: ForwardingView,
    pub now: Instant,
}

/// What a turn leaves of the limits, and the VIP for which it sends an answer, if
/// it does.
pub open spec fn turn_taken(limits: VipLimits, t: Turn) -> (VipLimits, Option<IpAddr>) {
    let (_, left, out) = rewrite(t.worker, limits, t.packet, t.view, t.now);
    (
        left,
        if out is Some {
            oversized_for(t.worker, t.packet, t.view)
        } else {
            None
        },
    )
}

/// How many answers for `vip` the rewriters send in some turns, whoever takes
/// them.
pub open spec fn answers_for(limits: VipLimits, turns: Seq<Turn>, vip: IpAddr) -> nat
    decreases turns.len(),
{
    if turns.len() == 0 {
        0
    } else {
        let (left, answered) = turn_taken(limits, turns[0]);
        answers_for(left, turns.drop_first(), vip) + if answered == Some(vip) {
            1nat
        } else {
            0nat
        }
    }
}

/// However many rewriters there are and whatever packets they get, they send no
/// more answers for a VIP in one window than its limit allows.
pub proof fn answers_are_limited_over_all_rewriters(
    limits: VipLimits,
    turns: Seq<Turn>,
    vip: IpAddr,
    opens: Instant,
)
    requires
        limits_valid(limits),
        limits.per_vip.contains_key(vip) ==> opens.nanos
            <= limits.per_vip[vip].window_start.nanos,
        forall|i: int|
            0 <= i < turns.len() ==> opens.nanos <= (#[trigger] turns[i]).now.nanos
                && elapsed_nanos(opens, turns[i].now) < NANOS_PER_SEC,
    ensures
        spent(limits, vip) + answers_for(limits, turns, vip) <= limits.max_per_second,
    decreases turns.len(),
{
    if turns.len() > 0 {
        let t = turns[0];
        let (left, answered) = turn_taken(limits, t);
        limits_serve_oversized_packets(t.worker, limits, limits, t.packet, t.view, t.now);
        let rest = turns.drop_first();
        assert forall|i: int| 0 <= i < rest.len() implies opens.nanos <= (
        #[trigger] rest[i]).now.nanos && elapsed_nanos(opens, rest[i].now) < NANOS_PER_SEC by {
            assert(rest[i] == turns[i + 1]);
        }
        if let Some(asked) = oversized_for(t.worker, t.packet, t.view) {
            lemma_vip_step_valid(limits, asked, t.now);
        }
        answers_are_limited_over_all_rewriters(left, rest, vip, opens);
    }
}

/// Frames, free list and rewriter queues around the steering stage.
pub struct SteerStage {
    pub packets: Seq<Seq<u8>>,
    pub free: Seq<u32>,
    pub queues: Seq<Seq<u32>>,
}

/// The stage after a packet was received: it is copied into a free frame whose
/// index goes to queue `q`. Without a free frame, or if the queue is full, the
/// packet is dropped.
pub open spec fn steer_step(
    s: SteerStage,
    d: Seq<u8>,
    q: int,
    capacities: Seq<nat>,
) -> SteerStage {
    if s.free.len() == 0 {
        s
    } else {
        let idx = s.free[0];
        let free = s.free.drop_first();
        let packets = s.packets.update(idx as int, d);
        if s.queues[q].len() < capacities[q] {
            SteerStage { packets, free, queues: s.queues.update(q, s.queues[q].push(idx)) }
        } else {
            SteerStage { packets, free: freed(free, idx, s.packets.len()), queues: s.queues }
        }
    }
}

/// The stage after the packets `inputs` were received, in order, each for the
/// queue in `targets`.
pub open spec fn steer_run(
    s: SteerStage,
    inputs: Seq<Seq<u8>>,
    targets: Seq<int>,
    capacities: Seq<nat>,
) -> SteerStage
    decreases inputs.len(),
{
    if inputs.len() == 0 {
        s
    } else {
        steer_step(
            steer_run(s, inputs.drop_last(), targets.drop_last(), capacities),
            inputs.last(),
            targets.last(),
            capacities,
        )
    }
}

/// What the queues hold.
pub open spec fn queue_contents(queues: Seq<FrameQueue>) -> Seq<Seq<u32>> {
    Seq::new(queues.len(), |i: int| queues[i]@)
}

/// What the queues can hold.
pub open spec fn queue_capacities(queues: Seq<FrameQueue>) -> Seq<nat> {
    Seq::new(queues.len(), |i: int| queues[i].capacity())
}

/// One round of steering: distribute received packets to the rewriter queues
/// that were chosen for them.
pub fn steer_batch(
    pool: &mut PacketPool,
    rx_queues: &mut Vec<FrameQueue>,
    received: &[PacketBuf],
    targets: &Vec<usize>,
)
    requires
        old(pool).wf(),
        old(rx_queues)@.len() > 0,
        forall|i: int| 0 <= i < old(rx_queues)@.len() ==> (#[trigger] old(rx_queues)@[i]).wf(),
        forall|i: int| 0 <= i < received@.len() ==> (#[trigger] received@[i]).wf(),
        targets@.len() == received@.len(),
        forall|i: int|
            0 <= i < targets@.len() ==> (#[trigger] targets@[i]) < old(rx_queues)@.len(),
    ensures
        final(pool).wf(),
        final(pool).frames().len() == old(pool).frames().len(),
        final(rx_queues)@.len() == old(rx_queues)@.len(),
        forall|i: int| 0 <= i < final(rx_queues)@.len() ==> (#[trigger] final(rx_queues)@[i]).wf(),
        queue_capacities(final(rx_queues)@) == queue_capacities(old(rx_queues)@),
        (SteerStage {
            packets: frame_packets(final(pool).frames()),
            free: final(pool).free_frames(),
            queues: queue_contents(final(rx_queues)@),
        }) == steer_run(
            (SteerStage {
                packets: frame_packets(old(pool).frames()),
                free: old(pool).free_frames(),
                queues: queue_contents(old(rx_queues)@),
            }),
            packets_of(received@),
            queue_numbers(targets@),
            queue_capacities(old(rx_queues)@),
        ),
{
    let ghost s0 = SteerStage {
        packets: frame_packets(pool.frames()),
        free: pool.free_frames(),
        queues: queue_contents(rx_queues@),
    };
    let ghost caps = queue_capacities(rx_queues@);
    let ghost inputs = packets_of(received@);
    let ghost chosen = queue_numbers(targets@);
    let ghost total = pool.frames().len();
    let ghost num_queues = rx_queues@.len();
    let n: usize = received.len();
    let mut i: usize = 0;
    while i < n
        invariant
            i <= n,
            n == received@.len(),
            num_queues == rx_queues@.len(),
            num_queues > 0,
            pool.wf(),
            pool.frames().len() == total,
            inputs == packets_of(received@),
            chosen == queue_numbers(targets@),
            targets@.len() == n,
            forall|j: int| 0 <= j < targets@.len() ==> (#[trigger] targets@[j]) < num_queues,
            forall|j: int| 0 <= j < rx_queues@.len() ==> (#[trigger] rx_queues@[j]).wf(),
            forall|j: int| 0 <= j < received@.len() ==> (#[trigger] received@[j]).wf(),
            queue_capacities(rx_queues@) == caps,
            (SteerStage {
                packets: frame_packets(pool.frames()),
                free: pool.free_frames(),
                queues: queue_contents(rx_queues@),
            }) == steer_run(s0, inputs.take(i as int), chosen.take(i as int), caps),
        decreases n - i,
    {
        let ghost s = steer_run(s0, inputs.take(i as int), chosen.take(i as int), caps);
        let pkt: &PacketBuf = &received[i];
        proof {
            assert(inputs.take(i + 1).drop_last() =~= inputs.take(i as int));
            assert(inputs.take(i + 1).last() == pkt@);
            assert(chosen.take(i + 1).drop_last() =~= chosen.take(i as int));
            assert(chosen.take(i + 1).last() == targets@[i as int]);
        }
        let queue_idx: usize = targets[i];
        i = i + 1;
        let idx: FrameIndex = match pool.allocate() {
            Some(idx) => idx,
            None => {
                continue ;
            },
        };
        let frame: &mut Frame = pool.get_mut(idx);
        frame.write_from(pkt.as_slice());
        let ghost packets = s.packets.update(idx as int, pkt@);
        let ghost queues = rx_queues@;
        assert(frame_packets(pool.frames()) =~= packets);
        assert(caps[queue_idx as int] == queues[queue_idx as int].capacity());
        let full = rx_queues[queue_idx].push(idx).is_err();
        proof {
            assert(queue_capacities(rx_queues@) =~= caps);
            if full {
                assert(queue_contents(rx_queues@) =~= s.queues);
            } else {
                assert(queue_contents(rx_queues@) =~= s.queues.update(
                    queue_idx as int,
                    s.queues[queue_idx as int].push(idx),
                ));
            }
        }
        if full {
            pool.free(idx);
        }
    }
    assert(inputs.take(n as int) =~= inputs);
    assert(chosen.take(n as int) =~= chosen);
}

/// How much room is left in a batch when queue `j` is reached.
pub open spec fn room_at(queues: Seq<Seq<u32>>, batch_size: int, j: int) -> int
    decreases j,
{
    if j <= 0 {
        batch_size
    } else {
        let room = room_at(queues, batch_size, j - 1);
        if room > queues[j - 1].len() {
            room - queues[j - 1].len()
        } else {
            0
        }
    }
}

/// How many indices of queue `j` go into a batch.
pub open spec fn taken_of(queues: Seq<Seq<u32>>, batch_size: int, j: int) -> int {
    let room = room_at(queues, batch_size, j);
    if room < queues[j].len() {
        room
    } else {
        queues[j].len() as int
    }
}

/// The indices that the first `j` queues contribute to a batch.
pub open spec fn collected(queues: Seq<Seq<u32>>, batch_size: int, j: int) -> Seq<u32>
    decreases j,
{
    if j <= 0 {
        Seq::empty()
    } else {
        collected(queues, batch_size, j - 1) + queues[j - 1].take(
            taken_of(queues, batch_size, j - 1),
        )
    }
}

pub proof fn lemma_collected_len(queues: Seq<Seq<u32>>, batch_size: int, j: int)
    requires
        0 <= j <= queues.len(),
        batch_size >= 0,
    ensures
        0 <= room_at(queues, batch_size, j) <= batch_size,
        collected(queues, batch_size, j).len() == batch_size - room_at(queues, batch_size, j),
    decreases j,
{
    if j > 0 {
        lemma_collected_len(queues, batch_size, j - 1);
    }
}

/// The first half of a round of the muxer: drain frame indices from the TX
/// queues in order, up to a batch.
pub fn mux_drain(tx_queues: &mut Vec<FrameQueue>, batch_size: usize) -> (indices: Vec<FrameIndex>)
    requires
        forall|i: int| 0 <= i < old(tx_queues)@.len() ==> (#[trigger] old(tx_queues)@[i]).wf(),
    ensures
        final(tx_queues)@.len() == old(tx_queues)@.len(),
        forall|i: int| 0 <= i < final(tx_queues)@.len() ==> (#[trigger] final(tx_queues)@[i]).wf(),
        queue_capacities(final(tx_queues)@) == queue_capacities(old(tx_queues)@),
        indices@.len() <= batch_size,
        indices@ == collected(
            queue_contents(old(tx_queues)@),
            batch_size as int,
            old(tx_queues)@.len() as int,
        ),
        forall|j: int|
            0 <= j < final(tx_queues)@.len() ==> (#[trigger] final(tx_queues)@[j])@ == old(
                tx_queues,
            )@[j]@.skip(taken_of(queue_contents(old(tx_queues)@), batch_size as int, j)),
{
    let ghost qs = queue_contents(tx_queues@);
    let ghost start = tx_queues@;
    let n: usize = tx_queues.len();
    let mut indices: Vec<FrameIndex> = Vec::with_capacity(batch_size);
    let mut j: usize = 0;
    while j < n
        invariant
            j <= n,
            n == tx_queues@.len(),
            n == start.len(),
            qs == queue_contents(start),
            start == old(tx_queues)@,
            forall|i: int| 0 <= i < n ==> (#[trigger] tx_queues@[i]).wf(),
            queue_capacities(tx_queues@) == queue_capacities(start),
            indices@ == collected(qs, batch_size as int, j as int),
            indices@.len() == batch_size - room_at(qs, batch_size as int, j as int),
            0 <= room_at(qs, batch_size as int, j as int) <= batch_size,
            forall|i: int|
                0 <= i < j ==> (#[trigger] tx_queues@[i])@ == start[i]@.skip(
                    taken_of(qs, batch_size as int, i),
                ),
            forall|i: int| j <= i < n ==> (#[trigger] tx_queues@[i]) == start[i],
        decreases n - j,
    {
        let room: usize = batch_size - indices.len();
        proof {
            lemma_collected_len(qs, batch_size as int, j + 1);
            assert(qs[j as int] == tx_queues@[j as int]@);
        }
        let ghost before = tx_queues@;
        drain_queue(&mut tx_queues[j], room, &mut indices);
        proof {
            assert(queue_capacities(tx_queues@) =~= queue_capacities(start)) by {
                assert forall|i: int| 0 <= i < n implies tx_queues@[i].capacity()
                    == start[i].capacity() by {
                    assert(queue_capacities(before)[i] == queue_capacities(start)[i]);
                }
            }
        }
        j = j + 1;
    }
    indices
}

/// The packets in the frames `indices`, for transmission.
pub fn mux_frames(pool: &PacketPool, indices: &Vec<FrameIndex>) -> (bufs: Vec<PacketBuf>)
    requires
        pool.wf(),
        forall|i: int|
            0 <= i < indices@.len() ==> (#[trigger] indices@[i]) < pool.frames().len(),
    ensures
        bufs@.len() == indices@.len(),
        forall|i: int|
            0 <= i < indices@.len() ==> (#[trigger] bufs@[i]).wf() && bufs@[i]@
                == pool.frames()[indices@[i] as int]@,
{
    let mut bufs: Vec<PacketBuf> = Vec::with_capacity(indices.len());
    let mut i: usize = 0;
    while i < indices.len()
        invariant
            i <= indices@.len(),
            pool.wf(),
            forall|j: int|
                0 <= j < indices@.len() ==> (#[trigger] indices@[j]) < pool.frames().len(),
            bufs@.len() == i,
            forall|j: int|
                0 <= j < i ==> (#[trigger] bufs@[j]).wf() && bufs@[j]@
                    == pool.frames()[indices@[j] as int]@,
        decreases indices@.len() - i,
    {
        let frame: &Frame = pool.get(indices[i]);
        let buf = PacketBuf { data: frame.data, len: frame.len };
        assert(buf@ =~= frame@);
        bufs.push(buf);
        i = i + 1;
    }
    bufs
}

/// The free list after the frames `indices` were returned to it, in order.
pub open spec fn all_freed(free: Seq<u32>, indices: Seq<u32>, cap: nat) -> Seq<u32>
    decreases indices.len(),
{
    if indices.len() == 0 {
        free
    } else {
        freed(all_freed(free, indices.drop_last(), cap), indices.last(), cap)
    }
}

/// The second half of a round of the muxer: return sent frames to the pool.
pub fn mux_release(pool: &mut PacketPool, indices: &Vec<FrameIndex>)
    requires
        old(pool).wf(),
        forall|i: int|
            0 <= i < indices@.len() ==> (#[trigger] indices@[i]) < old(pool).frames().len(),
    ensures
        final(pool).wf(),
        final(pool).frames() == old(pool).frames(),
        final(pool).free_frames() == all_freed(
            old(pool).free_frames(),
            indices@,
            old(pool).frames().len(),
        ),
{
    let ghost free0 = pool.free_frames();
    let ghost cap = pool.frames().len();
    let mut i: usize = 0;
    assert(indices@.take(0) =~= Seq::<u32>::empty());
    while i < indices.len()
        invariant
            i <= indices@.len(),
            pool.wf(),
            pool.frames() == old(pool).frames(),
            cap == pool.frames().len(),
            forall|j: int|
                0 <= j < indices@.len() ==> (#[trigger] indices@[j]) < pool.frames().len(),
            pool.free_frames() == all_freed(free0, indices@.take(i as int), cap),
        decreases indices@.len() - i,
    {
        proof {
            assert(indices@.take(i + 1).drop_last() =~= indices@.take(i as int));
        }
        pool.free(indices[i]);
        i = i + 1;
    }
    assert(indices@.take(i as int) =~= indices@);
}

/// Returning sent frames loses none of them, as long as no more frames are
/// returned than are missing from the free list.
pub proof fn releasing_conserves_frames(free: Seq<u32>, indices: Seq<u32>, cap: nat)
    requires
        free.len() + indices.len() <= cap,
    ensures
        all_freed(free, indices, cap) == free + indices,
    decreases indices.len(),
{
    if indices.len() > 0 {
        releasing_conserves_frames(free, indices.drop_last(), cap);
        assert(free + indices.drop_last().push(indices.last()) =~= (free
            + indices.drop_last()).push(indices.last()));
        assert(indices =~= indices.drop_last().push(indices.last()));
    } else {
        assert(free + indices =~= free);
    }
}

/// All frame indices in some queues.
pub open spec fn queued_frames(queues: Seq<Seq<u32>>) -> Multiset<u32>
    decreases queues.len(),
{
    if queues.len() == 0 {
        Multiset::empty()
    } else {
        queued_frames(queues.drop_last()).add(queues.last().to_multiset())
    }
}

proof fn lemma_queued_push(queues: Seq<Seq<u32>>, q: int, idx: u32)
    requires
        0 <= q < queues.len(),
    ensures
        queued_frames(queues.update(q, queues[q].push(idx))) == queued_frames(queues).insert(idx),
    decreases queues.len(),
{
    broadcast use vstd::seq_lib::group_to_multiset_ensures;

    let u = queues.update(q, queues[q].push(idx));
    if q == queues.len() - 1 {
        assert(u.drop_last() =~= queues.drop_last());
        assert(queued_frames(u) =~= queued_frames(queues).insert(idx));
    } else {
        assert(u.drop_last() =~= queues.drop_last().update(q, queues[q].push(idx)));
        lemma_queued_push(queues.drop_last(), q, idx);
        assert(queued_frames(u) =~= queued_frames(queues).insert(idx));
    }
}

/// Steering neither loses nor duplicates frames: every frame is still on the
/// free list or in a queue.
pub proof fn steering_conserves_frames(
    s: SteerStage,
    inputs: Seq<Seq<u8>>,
    targets: Seq<int>,
    capacities: Seq<nat>,
)
    requires
        s.free.len() <= s.packets.len(),
        targets.len() == inputs.len(),
        forall|i: int|
            0 <= i < targets.len() ==> 0 <= (#[trigger] targets[i]) < s.queues.len(),
        forall|i: int| 0 <= i < s.free.len() ==> (#[trigger] s.free[i]) < s.packets.len(),
    ensures
        ({
            let r = steer_run(s, inputs, targets, capacities);
            &&& r.packets.len() == s.packets.len()
            &&& r.queues.len() == s.queues.len()
            &&& r.free.len() <= s.free.len()
            &&& forall|i: int| 0 <= i < r.free.len() ==> (#[trigger] r.free[i]) < r.packets.len()
            &&& r.free.to_multiset().add(queued_frames(r.queues)) == s.free.to_multiset().add(
                queued_frames(s.queues),
            )
        }),
    decreases inputs.len(),
{
    broadcast use vstd::seq_lib::group_to_multiset_ensures;

    if inputs.len() > 0 {
        let chosen = targets.drop_last();
        assert forall|i: int| 0 <= i < chosen.len() implies 0 <= (#[trigger] chosen[i])
            < s.queues.len() by {
            assert(chosen[i] == targets[i]);
        }
        steering_conserves_frames(s, inputs.drop_last(), chosen, capacities);
        let p = steer_run(s, inputs.drop_last(), chosen, capacities);
        let r = steer_run(s, inputs, targets, capacities);
        if p.free.len() > 0 {
            let idx = p.free[0];
            let q = targets.last();
            assert(q == targets[targets.len() - 1]);
            let rest = p.free.drop_first();
            assert(idx < p.packets.len());
            assert forall|i: int| 0 <= i < rest.len() implies (#[trigger] rest[i])
                < p.packets.len() by {
                assert(rest[i] == p.free[i + 1]);
            }
            assert(p.free =~= seq![idx] + rest);
            vstd::seq_lib::lemma_multiset_commutative(seq![idx], rest);
            assert(seq![idx] =~= Seq::<u32>::empty().push(idx));
            assert(p.free.to_multiset() =~= rest.to_multiset().insert(idx));
            if p.queues[q].len() < capacities[q] {
                lemma_queued_push(p.queues, q, idx);
                assert(r.free.to_multiset().add(queued_frames(r.queues)) =~= p.free.to_multiset().add(
                    queued_frames(p.queues),
                ));
            } else {
                assert(r.free.to_multiset() =~= p.free.to_multiset());
            }
        }
    }
}

} // verus!

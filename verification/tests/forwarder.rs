use lb::base::net::{IpAddr, Ipv4Addr};
use lb::base::time::{Duration, Instant};
use lb::config_manager::applier::LookupTables;
use lb::forwarder::arena::Arena;
use lb::forwarder::engine::{ForwarderConfig, ForwarderEngine};
use lb::forwarder::gre::ENCAP_OVERHEAD;
use lb::forwarder::icmp::VipRateLimiters;
use lb::forwarder::metrics::ForwarderCounts;
use lb::forwarder::mss_clamp::full_tcp_checksum;
use lb::forwarder::packet_pool::{FrameQueue, PacketPool};
use lb::forwarder::pipeline::{
    idle_step, pool_size, IdleAction, RewriterWorker, BATCH_DRAIN_SIZE, SPIN_BEFORE_PARK,
};
use lb::forwarder::vip_matcher::VipMatcher;
use lb::hashing::lookup_table::LookupTable;
use lb::health::status_map::HealthMap;
use lb::io::mock::mock_io;
use lb::io::packet_buf::PacketBuf;
use lb::types::backend::{Backend, BackendPoolId};
use lb::types::config::ConnTtls;
use lb::types::mtu::MtuConfig;
use lb::types::vip::Protocol;

fn build_tcp_packet(src: [u8; 4], dst: [u8; 4], src_port: u16, dst_port: u16) -> Vec<u8> {
    let mut pkt = vec![0u8; 40];
    pkt[0] = 0x45;
    pkt[2..4].copy_from_slice(&40u16.to_be_bytes());
    pkt[8] = 64;
    pkt[9] = 6;
    pkt[12..16].copy_from_slice(&src);
    pkt[16..20].copy_from_slice(&dst);
    pkt[20..22].copy_from_slice(&src_port.to_be_bytes());
    pkt[22..24].copy_from_slice(&dst_port.to_be_bytes());
    pkt
}

fn web(backends: &[Backend]) -> (LookupTables, VipMatcher) {
    let mut tables = LookupTables::new();
    tables.insert(
        BackendPoolId("web".into()),
        LookupTable::build(backends, 17).unwrap(),
    );
    let matcher = VipMatcher::from_entries(vec![(
        IpAddr::V4(Ipv4Addr::new(188, 184, 100, 10)),
        Protocol::Tcp,
        443,
        BackendPoolId("web".into()),
    )]);
    (tables, matcher)
}

fn two_backends() -> Vec<Backend> {
    vec![
        Backend::new(IpAddr::V4(Ipv4Addr::new(10, 0, 0, 1)), 443),
        Backend::new(IpAddr::V4(Ipv4Addr::new(10, 0, 0, 2)), 443),
    ]
}

const NOW: Instant = Instant { nanos: 1_000_000_000 };

#[test]
fn end_to_end_with_mock_io() {
    let (io, handle) = mock_io();
    let (tables, vip_matcher) = web(&two_backends());
    let health = HealthMap::new();

    let config = ForwarderConfig {
        src_ip: IpAddr::V4(Ipv4Addr::new(172, 16, 0, 1)),
        connection_table_size: 64,
        conn_ttls: ConnTtls::with_established(Duration::from_secs(60)),
        fragment_table_size: 64,
        fragment_ttl: Duration::from_secs(10),
        batch_size: 64,
        mtu_config: MtuConfig::new(1500).unwrap(),
        icmp_rate_limit: 100,
    };

    let mut engine = ForwarderEngine::new(io, config, ForwarderCounts::new());

    // Inject 5 packets to the VIP
    for i in 0..5 {
        let pkt = build_tcp_packet(
            [10, 0, 0, 100 + i],
            [188, 184, 100, 10],
            12345 + i as u16,
            443,
        );
        handle.inject_packet(&pkt);
    }

    // Also inject 2 packets to a non-VIP (should be dropped)
    for _ in 0..2 {
        let pkt = build_tcp_packet([10, 0, 0, 200], [10, 0, 0, 99], 54321, 80);
        handle.inject_packet(&pkt);
    }

    let forwarded = engine.run_once(&vip_matcher, &tables, &health, NOW);
    assert_eq!(forwarded, 5);
    assert_eq!(handle.tx_count(), 5);
    assert_eq!(engine.metrics().packets_dropped, 2);

    // Verify each transmitted packet is GRE-encapsulated
    for _ in 0..5 {
        let pkt = handle.read_transmitted().unwrap();
        assert_eq!(pkt.len(), 40 + ENCAP_OVERHEAD);
        assert_eq!(pkt[0], 0x45); // outer IPv4
        assert_eq!(pkt[9], 47); // GRE protocol
        assert_eq!(&pkt[12..16], &[172, 16, 0, 1]); // src = LB node IP
    }

    assert_eq!(engine.run_once(&vip_matcher, &tables, &health, NOW), 0);
}

struct Pipeline {
    arena: Arena,
    workers: Vec<RewriterWorker>,
    tables: LookupTables,
    matcher: VipMatcher,
    health: HealthMap,
    limiters: VipRateLimiters,
}

fn pipeline(rewriters: usize, backends: &[Backend]) -> Pipeline {
    let (tables, matcher) = web(backends);
    Pipeline {
        arena: Arena::new(rewriters, 64, 64, Duration::from_secs(10)),
        workers: (0..rewriters)
            .map(|_| {
                RewriterWorker::new(
                    IpAddr::V4(Ipv4Addr::new(172, 16, 0, 1)),
                    64,
                    ConnTtls::with_established(Duration::from_secs(60)),
                    64,
                    Duration::from_secs(10),
                    MtuConfig::new(1500).unwrap(),
                )
                .unwrap()
            })
            .collect(),
        tables,
        matcher,
        health: HealthMap::new(),
        limiters: VipRateLimiters::new(2),
    }
}

impl Pipeline {
    /// One round of a rewriter.
    fn rewrite(&mut self, i: usize) -> usize {
        let n = self.arena.take(i);
        self.arena.rewrite(
            i,
            &mut self.workers[i],
            &self.matcher,
            &self.tables,
            &self.health,
            &mut self.limiters,
            NOW,
        );
        n
    }

    /// Takes some packets through all stages.
    fn run(&mut self, packets: &[PacketBuf]) -> Vec<Vec<u8>> {
        let mut out = Vec::new();
        for batch in packets.chunks(64) {
            self.arena.steer(batch, NOW);
            for i in 0..self.workers.len() {
                self.rewrite(i);
            }
            for buf in self.arena.mux(64) {
                out.push(buf.as_slice().to_vec());
            }
        }
        out
    }
}

#[test]
fn pipeline_end_to_end() {
    let mut p = pipeline(2, &two_backends());
    let packets: Vec<PacketBuf> = (0..100u16)
        .map(|i| {
            PacketBuf::from_slice(&build_tcp_packet(
                [10, 0, (i >> 8) as u8, i as u8],
                [188, 184, 100, 10],
                12345 + i,
                443,
            ))
        })
        .collect();
    let out = p.run(&packets);
    assert_eq!(out.len(), 100, "expected 100 forwarded packets");
    for pkt in &out {
        assert_eq!(pkt.len(), 40 + ENCAP_OVERHEAD);
        assert_eq!(pkt[0], 0x45); // outer IPv4
        assert_eq!(pkt[9], 47); // GRE protocol
    }
    // Every frame is back in the pool.
    assert_eq!(p.arena.available(), p.arena.capacity());
}

#[test]
fn one_flow_goes_through_one_rewriter_to_one_backend() {
    let mut p = pipeline(4, &two_backends());
    let packets: Vec<PacketBuf> = (0..50)
        .map(|_| {
            PacketBuf::from_slice(&build_tcp_packet(
                [10, 0, 0, 1],
                [188, 184, 100, 10],
                12345,
                443,
            ))
        })
        .collect();
    let out = p.run(&packets);
    assert_eq!(out.len(), 50);
    let dst_ips: std::collections::HashSet<[u8; 4]> =
        out.iter().map(|p| [p[16], p[17], p[18], p[19]]).collect();
    assert_eq!(dst_ips.len(), 1);
    let busy = p
        .workers
        .iter()
        .filter(|w| w.metrics().packets_received > 0)
        .count();
    assert_eq!(busy, 1);
}

#[test]
fn dropped_frames_go_back_to_the_pool() {
    let mut p = pipeline(1, &two_backends());
    let stray = PacketBuf::from_slice(&build_tcp_packet(
        [10, 0, 0, 1],
        [10, 0, 0, 99],
        12345,
        80,
    ));
    assert!(p.run(&[stray]).is_empty());
    assert_eq!(p.workers[0].metrics().packets_dropped, 1);
    assert_eq!(p.arena.available(), p.arena.capacity());
}

#[test]
fn later_fragments_follow_the_first() {
    let mut p = pipeline(1, &two_backends());
    let mut first = build_tcp_packet([10, 0, 0, 1], [188, 184, 100, 10], 12345, 443);
    first[4..6].copy_from_slice(&77u16.to_be_bytes());
    first[6] = 0x20; // more fragments
    let mut later = first.clone();
    later[6] = 0;
    later[7] = 3;
    later[20..24].copy_from_slice(&[1, 2, 3, 4]); // payload, not ports
    let out = p.run(&[PacketBuf::from_slice(&first), PacketBuf::from_slice(&later)]);
    assert_eq!(out.len(), 2);
    assert_eq!(out[0][16..20], out[1][16..20]);
    let m = p.workers[0].metrics();
    assert_eq!(m.fragment_first_total, 1);
    assert_eq!(m.fragment_subsequent_forwarded_total, 1);
}

#[test]
fn a_later_fragment_without_a_first_is_dropped() {
    let mut p = pipeline(1, &two_backends());
    let mut later = build_tcp_packet([10, 0, 0, 1], [188, 184, 100, 10], 12345, 443);
    later[7] = 3;
    assert!(p.run(&[PacketBuf::from_slice(&later)]).is_empty());
    assert_eq!(p.workers[0].metrics().fragment_drop_no_mapping_total, 1);
}

#[test]
fn ipv6_sources_get_no_rewriter() {
    let v6 = IpAddr::V6(lb::base::net::Ipv6Addr::new(0, 0, 0, 0, 0, 0, 0, 1));
    assert!(RewriterWorker::new(
        v6,
        64,
        ConnTtls::with_established(Duration::from_secs(60)),
        64,
        Duration::from_secs(10),
        MtuConfig::new(1500).unwrap()
    )
    .is_none());
}

#[test]
fn the_pool_covers_all_packets_in_flight() {
    assert_eq!(pool_size(2, 64), 4096 * 2 * 2 + 128);
    assert_eq!(pool_size(0, 64), 4096 * 2 + 128);
}

#[test]
fn idle_stages_spin_then_park() {
    assert_eq!(idle_step(0), (1, IdleAction::Spin));
    assert_eq!(idle_step(SPIN_BEFORE_PARK - 1), (0, IdleAction::Park));
}

#[test]
fn counts_are_published_as_differences() {
    let mut before = ForwarderCounts::new();
    before.packets_received = u64::MAX;
    before.packets_dropped = 3;
    let mut after = before;
    after.packets_received = 1;
    after.packets_dropped = 8;
    after.conn_table_size = 12;
    let d = after.since(&before);
    assert_eq!(d.packets_received, 2);
    assert_eq!(d.packets_dropped, 5);
    assert_eq!(d.conn_table_size, 12);
    assert_eq!(d.packets_forwarded, 0);
}

fn vip_packet(i: u8) -> PacketBuf {
    PacketBuf::from_slice(&build_tcp_packet(
        [10, 0, 0, i],
        [188, 184, 100, 10],
        12345,
        443,
    ))
}

#[test]
fn an_arena_starts_with_every_frame_free() {
    let arena = Arena::new(3, 32, 64, Duration::from_secs(10));
    assert_eq!(arena.num_rewriters(), 3);
    assert_eq!(arena.capacity(), pool_size(3, 32));
    assert_eq!(arena.available(), arena.capacity());
    assert_eq!(Arena::new(0, 32, 64, Duration::from_secs(10)).num_rewriters(), 1);
}

#[test]
fn frames_under_way_are_missing_from_the_free_list() {
    let mut p = pipeline(1, &two_backends());
    let packets: Vec<PacketBuf> = (0..100).map(vip_packet).collect();
    p.arena.steer(&packets, NOW);
    assert_eq!(p.arena.available(), p.arena.capacity() - 100);
    // A rewriter takes a batch at a time.
    let mut worked_on = Vec::new();
    for _ in 0..3 {
        worked_on.push(p.rewrite(0));
    }
    assert_eq!(worked_on, vec![BATCH_DRAIN_SIZE, 100 - BATCH_DRAIN_SIZE, 0]);
    assert_eq!(p.arena.available(), p.arena.capacity() - 100);
    // The muxer gives the frames back, a batch at a time and in order.
    let first = p.arena.mux(30);
    assert_eq!(first.len(), 30);
    assert_eq!(p.arena.available(), p.arena.capacity() - 70);
    assert_eq!(&first[29].as_slice()[24 + 12..24 + 16], &[10, 0, 0, 29]);
    assert_eq!(p.arena.mux(100).len(), 70);
    assert!(p.arena.mux(100).is_empty());
    assert_eq!(p.arena.available(), p.arena.capacity());
}

#[test]
fn a_packet_leaves_the_arena_as_its_rewriter_made_it() {
    let mut p = pipeline(1, &two_backends());
    let packet = vip_packet(7);
    let out = p.run(std::slice::from_ref(&packet));
    assert_eq!(out.len(), 1);
    assert_eq!(&out[0][ENCAP_OVERHEAD..], packet.as_slice());
}

#[test]
fn packets_beyond_the_queue_are_dropped_without_losing_frames() {
    let mut p = pipeline(1, &two_backends());
    let packets: Vec<PacketBuf> = (0..250).map(vip_packet).collect();
    for _ in 0..40 {
        p.arena.steer(&packets, NOW);
    }
    // One queue takes 4096 frames; the rest went back to the pool.
    assert_eq!(p.arena.available(), p.arena.capacity() - 4096);
}

fn syn_with_mss(mss: u16) -> Vec<u8> {
    let mut pkt = build_tcp_packet([10, 0, 0, 1], [188, 184, 100, 10], 12345, 443);
    pkt.extend_from_slice(&[2, 4, (mss >> 8) as u8, mss as u8]);
    pkt[2..4].copy_from_slice(&44u16.to_be_bytes());
    pkt[32] = 6 << 4;
    pkt[33] = 0x02;
    let checksum = full_tcp_checksum(&pkt, 20);
    pkt[36..38].copy_from_slice(&checksum.to_be_bytes());
    pkt
}

#[test]
fn the_pipeline_clamps_the_mss_before_it_encapsulates() {
    let mut p = pipeline(1, &two_backends());
    let out = p.run(&[PacketBuf::from_slice(&syn_with_mss(1460))]);
    assert_eq!(out.len(), 1);
    assert_eq!(out[0].len(), 44 + ENCAP_OVERHEAD);
    let inner = &out[0][ENCAP_OVERHEAD..];
    assert_eq!(&inner[42..44], &1436u16.to_be_bytes());
    assert_eq!(
        u16::from_be_bytes([inner[36], inner[37]]),
        full_tcp_checksum(inner, 20)
    );
    assert_eq!(p.workers[0].metrics().mss_clamp_total, 1);
}

fn oversized(vip: [u8; 4]) -> PacketBuf {
    let mut pkt = build_tcp_packet([10, 0, 0, 1], vip, 12345, 443);
    pkt.resize(1490, 0);
    pkt[2..4].copy_from_slice(&1490u16.to_be_bytes());
    pkt[6] = 0x40; // don't fragment
    PacketBuf::from_slice(&pkt)
}

#[test]
fn the_pipeline_answers_oversized_packets_within_the_limit() {
    let mut p = pipeline(1, &two_backends());
    let big = oversized([188, 184, 100, 10]);
    let out = p.run(&[big, big, big]);
    assert_eq!(out.len(), 2);
    for reply in &out {
        assert_eq!(reply[9], 1); // ICMP
        assert_eq!(&reply[12..16], &[188, 184, 100, 10]); // from the VIP
        assert_eq!(&reply[16..20], &[10, 0, 0, 1]); // to the sender
        assert_eq!(&reply[20..22], &[3, 4]);
        assert_eq!(&reply[26..28], &1476u16.to_be_bytes());
    }
    let m = p.workers[0].metrics();
    assert_eq!(m.icmp_frag_needed_sent_total, 2);
    assert_eq!(m.icmp_frag_needed_ratelimited_total, 1);
    assert_eq!(m.packets_oversized_dropped_total, 3);
    assert_eq!(m.packets_dropped, 1);
    assert_eq!(p.arena.available(), p.arena.capacity());
}

#[test]
fn later_fragments_follow_the_first_through_several_rewriters() {
    for id in 0..20u16 {
        let mut p = pipeline(8, &two_backends());
        let mut first = build_tcp_packet([10, 0, 0, 1], [188, 184, 100, 10], 12345, 443);
        first[4..6].copy_from_slice(&id.to_be_bytes());
        first[6] = 0x20; // more fragments
        let mut later = first.clone();
        later[6] = 0;
        later[7] = 3;
        later[20..24].copy_from_slice(&[id as u8, 2, 3, 4]); // payload, not ports
        let out = p.run(&[PacketBuf::from_slice(&first), PacketBuf::from_slice(&later)]);
        assert_eq!(out.len(), 2);
        assert_eq!(out[0][16..20], out[1][16..20]);
    }
}

#[test]
fn rewriters_share_the_limits() {
    // Four rewriters, flows that spread over them, and a limit of two.
    let mut p = pipeline(4, &two_backends());
    let mut packets = Vec::new();
    for port in 0..40u16 {
        let mut pkt = oversized([188, 184, 100, 10]);
        pkt.data[20..22].copy_from_slice(&(2000 + port).to_be_bytes());
        packets.push(pkt);
    }
    let out = p.run(&packets);
    assert_eq!(out.len(), 2);
    let busy = p
        .workers
        .iter()
        .filter(|w| w.metrics().packets_received > 0)
        .count();
    assert!(busy > 1);
    let sent: u64 = p
        .workers
        .iter()
        .map(|w| w.metrics().icmp_frag_needed_sent_total)
        .sum();
    assert_eq!(sent, 2);
}

#[test]
fn taken_frames_are_in_work_until_they_are_rewritten() {
    let mut p = pipeline(1, &two_backends());
    p.arena.steer(&[vip_packet(1), vip_packet(2)], NOW);
    assert_eq!(p.arena.take(0), 2);
    assert!(!p.arena.has_oversized(0, 1500));
    // 40 bytes do not fit a tunnel of 63, but these may be fragmented.
    assert!(!p.arena.has_oversized(0, 63));
    p.arena.steer(&[oversized([188, 184, 100, 10])], NOW);
    // Nothing more is taken while there is work.
    assert_eq!(p.arena.take(0), 2);
    assert_eq!(p.rewrite(0), 2);
    assert_eq!(p.arena.take(0), 1);
    assert!(p.arena.has_oversized(0, 1500));
    assert!(!p.arena.has_oversized(0, 1600));
    assert_eq!(p.rewrite(0), 1);
    assert_eq!(p.arena.mux(10).len(), 3);
    assert_eq!(p.arena.available(), p.arena.capacity());
}

#[test]
fn a_round_goes_from_queue_to_queue() {
    let mut p = pipeline(1, &two_backends());
    let mut pool = PacketPool::new(4);
    let mut rx = FrameQueue::new(4);
    let mut tx = FrameQueue::new(4);
    let idx = pool.allocate().unwrap();
    pool.get_mut(idx).write_from(&syn_with_mss(1460));
    rx.push(idx).unwrap();
    let n = p.workers[0].rewrite_batch(
        &mut pool,
        &mut rx,
        &mut tx,
        &p.matcher,
        &p.tables,
        &p.health,
        &mut p.limiters,
        NOW,
    );
    assert_eq!(n, 1);
    assert_eq!(rx.len(), 0);
    assert_eq!(tx.pop(), Some(idx));
    assert_eq!(pool.get(idx).len, 44 + ENCAP_OVERHEAD);
}

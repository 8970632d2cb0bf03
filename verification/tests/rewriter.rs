use lb::base::net::{IpAddr, Ipv4Addr};
use lb::base::time::{Duration, Instant};
use lb::config_manager::applier::LookupTables;
use lb::forwarder::gre::ENCAP_OVERHEAD;
use lb::forwarder::metrics::ForwarderCounts;
use lb::forwarder::rewriter::RewriterThread;
use lb::forwarder::vip_matcher::VipMatcher;
use lb::hashing::lookup_table::LookupTable;
use lb::health::status_map::HealthMap;
use lb::io::packet_buf::PacketBuf;
use lb::types::backend::{Backend, BackendPoolId, HealthStatus};
use lb::types::config::ConnTtls;
use lb::types::mtu::MtuConfig;
use lb::types::packet::PacketMeta;
use lb::types::vip::Protocol;

/// A rewriter with what it looks at.
struct Setup {
    rewriter: RewriterThread,
    tables: LookupTables,
    matcher: VipMatcher,
    health: HealthMap,
    now: Instant,
}

impl Setup {
    fn process_batch(&mut self, batch: &mut [PacketBuf]) -> usize {
        self.rewriter
            .process_batch(batch, &self.matcher, &self.tables, &self.health, self.now)
    }

    fn metrics(&self) -> &ForwarderCounts {
        self.rewriter.metrics()
    }
}

fn setup(ttls: ConnTtls, protocols: &[Protocol]) -> Setup {
    let backends = vec![
        Backend::new(IpAddr::V4(Ipv4Addr::new(10, 0, 0, 1)), 443),
        Backend::new(IpAddr::V4(Ipv4Addr::new(10, 0, 0, 2)), 443),
    ];
    let lookup_table = LookupTable::build(&backends, 17).unwrap();
    let mut tables = LookupTables::new();
    tables.insert(BackendPoolId("web".into()), lookup_table);
    let matcher = VipMatcher::from_entries(
        protocols
            .iter()
            .map(|p| (vip_ip(), *p, 443, BackendPoolId("web".into())))
            .collect(),
    );
    let now = Instant { nanos: 0 }.plus(Duration::from_secs(1));
    Setup {
        rewriter: RewriterThread::new(
            IpAddr::V4(Ipv4Addr::new(172, 16, 0, 1)),
            64,
            ttls,
            ForwarderCounts::new(),
            MtuConfig::new(1500).unwrap(),
            100,
        ),
        tables,
        matcher,
        health: HealthMap::new(),
        now,
    }
}

fn setup_with_ttls(ttls: ConnTtls) -> Setup {
    setup(ttls, &[Protocol::Tcp])
}

fn setup_rewriter() -> Setup {
    setup_with_ttls(ConnTtls::with_established(Duration::from_secs(60)))
}

fn setup_rewriter_with_vip_udp() -> Setup {
    setup(
        ConnTtls::with_established(Duration::from_secs(60)),
        &[Protocol::Tcp, Protocol::Udp],
    )
}

fn vip_ip() -> IpAddr {
    IpAddr::V4(Ipv4Addr::new(188, 184, 100, 10))
}

fn build_tcp_packet(src: [u8; 4], dst: [u8; 4], src_port: u16, dst_port: u16) -> PacketBuf {
    let mut pkt = vec![0u8; 40];
    pkt[0] = 0x45;
    pkt[2..4].copy_from_slice(&40u16.to_be_bytes());
    pkt[8] = 64;
    pkt[9] = 6;
    pkt[12..16].copy_from_slice(&src);
    pkt[16..20].copy_from_slice(&dst);
    pkt[20..22].copy_from_slice(&src_port.to_be_bytes());
    pkt[22..24].copy_from_slice(&dst_port.to_be_bytes());
    PacketBuf::from_slice(&pkt)
}

#[test]
fn process_valid_packet() {
    let mut rewriter = setup_rewriter();
    let pkt = build_tcp_packet([10, 0, 0, 100], [188, 184, 100, 10], 12345, 443);
    let mut batch = vec![pkt];
    let processed = rewriter.process_batch(&mut batch);
    assert_eq!(processed, 1);
    // Output should be GRE-encapsulated (original 40 + 24 overhead = 64)
    assert_eq!(batch[0].len, 64);
}

#[test]
fn drop_non_vip_packet() {
    let mut rewriter = setup_rewriter();
    let pkt = build_tcp_packet([10, 0, 0, 100], [10, 0, 0, 99], 12345, 80);
    let mut batch = vec![pkt];
    let processed = rewriter.process_batch(&mut batch);
    assert_eq!(processed, 0);
}

#[test]
fn conn_table_caching() {
    let mut rewriter = setup_rewriter();

    // Process the same flow twice
    let pkt1 = build_tcp_packet([10, 0, 0, 100], [188, 184, 100, 10], 12345, 443);
    let pkt2 = pkt1.clone();
    let mut batch = vec![pkt1];
    rewriter.process_batch(&mut batch);

    let mut batch2 = vec![pkt2];
    rewriter.process_batch(&mut batch2);

    // Second call should hit the conn table
    assert_eq!(rewriter.metrics().conn_table_hits, 1);
    assert_eq!(rewriter.metrics().conn_table_misses, 1);
}

fn build_tcp_packet_with_flags(
    src: [u8; 4],
    dst: [u8; 4],
    src_port: u16,
    dst_port: u16,
    flags: u8,
) -> PacketBuf {
    let mut pkt = vec![0u8; 40];
    pkt[0] = 0x45;
    pkt[2..4].copy_from_slice(&40u16.to_be_bytes());
    pkt[8] = 64;
    pkt[9] = 6;
    pkt[12..16].copy_from_slice(&src);
    pkt[16..20].copy_from_slice(&dst);
    pkt[20..22].copy_from_slice(&src_port.to_be_bytes());
    pkt[22..24].copy_from_slice(&dst_port.to_be_bytes());
    pkt[32] = (20u8 / 4) << 4; // data offset
    pkt[33] = flags;
    PacketBuf::from_slice(&pkt)
}

#[test]
fn syn_creates_handshake_entry_and_fin_evicts_quickly() {
    // TTLs chosen so only Closing flows expire within the test budget.
    let ttls = ConnTtls {
        tcp_handshake: Duration::from_secs(60),
        tcp_established: Duration::from_secs(60),
        tcp_closing: Duration::from_millis(5),
        udp: Duration::from_secs(60),
        other: Duration::from_secs(60),
    };
    let mut rewriter = setup_with_ttls(ttls);

    // SYN → Handshake entry created.
    let syn =
        build_tcp_packet_with_flags([10, 0, 0, 100], [188, 184, 100, 10], 11111, 443, 0x02);
    rewriter.process_batch(&mut [syn]);
    assert!(rewriter.metrics().conn_table_inserts_total >= 1);

    // FIN from the same flow → Closing transition.
    let fin =
        build_tcp_packet_with_flags([10, 0, 0, 100], [188, 184, 100, 10], 11111, 443, 0x11);
    rewriter.process_batch(&mut [fin]);
    let fin_count = rewriter.metrics().tcp_transition_closing_fin;
    assert_eq!(fin_count, 1);

    // The entry should be gone within `tcp_closing`.
    rewriter.now = rewriter.now.plus(Duration::from_millis(20));
    let mut data_pkt = vec![build_tcp_packet_with_flags(
        [10, 0, 0, 100],
        [188, 184, 100, 10],
        11111,
        443,
        0x10,
    )];
    rewriter.process_batch(&mut data_pkt);
    // After Closing + TTL expiry: the data packet should not find a cached
    // entry, so misses should have increased.
    assert!(rewriter.metrics().conn_table_misses >= 2);
}

#[test]
fn ack_promotes_to_established() {
    let mut rewriter = setup_rewriter();

    // First: SYN → Handshake.
    let syn =
        build_tcp_packet_with_flags([10, 0, 0, 50], [188, 184, 100, 10], 22222, 443, 0x02);
    rewriter.process_batch(&mut [syn]);

    // Then: bare ACK → promotion transition recorded.
    let ack =
        build_tcp_packet_with_flags([10, 0, 0, 50], [188, 184, 100, 10], 22222, 443, 0x10);
    rewriter.process_batch(&mut [ack]);

    let promoted = rewriter.metrics().tcp_transition_established;
    assert!(promoted >= 1);
}

#[test]
fn rst_marks_closing() {
    let mut rewriter = setup_rewriter();

    let syn =
        build_tcp_packet_with_flags([10, 0, 0, 77], [188, 184, 100, 10], 33333, 443, 0x02);
    rewriter.process_batch(&mut [syn]);

    let rst =
        build_tcp_packet_with_flags([10, 0, 0, 77], [188, 184, 100, 10], 33333, 443, 0x04);
    rewriter.process_batch(&mut [rst]);

    let rst_count = rewriter.metrics().tcp_transition_closing_rst;
    assert_eq!(rst_count, 1);
}

#[test]
fn fallback_to_maglev_metric_on_unhealthy_cache() {
    let mut rewriter = setup_rewriter();

    // Prime the cache.
    let first = build_tcp_packet([10, 0, 0, 123], [188, 184, 100, 10], 44444, 443);
    rewriter.process_batch(&mut [first]);

    // Read the cached backend, then mark it unhealthy.
    let cached = {
        let pool_id = BackendPoolId("web".into());
        let lt = rewriter.tables.get(&pool_id).unwrap();
        let hash = PacketMeta::from_ipv4_bytes(
            build_tcp_packet([10, 0, 0, 123], [188, 184, 100, 10], 44444, 443).as_slice(),
        )
        .unwrap()
        .flow_hash();
        lt.lookup(hash).ip
    };
    rewriter.health.insert(cached, HealthStatus::Unhealthy);

    // A second packet from the same flow should trip the fallback path.
    let second = build_tcp_packet([10, 0, 0, 123], [188, 184, 100, 10], 44444, 443);
    rewriter.process_batch(&mut [second]);

    assert_eq!(
        rewriter.metrics().conn_table_fallback_to_maglev_total,
        1
    );
}

#[test]
fn fill_bp_gauge_updated_each_batch() {
    let mut rewriter = setup_rewriter();
    // fill_bp is 0 before any packets are processed.
    assert_eq!(rewriter.metrics().conn_table_fill_bp, 0);

    let mut batch: Vec<PacketBuf> = (0..10)
        .map(|i| build_tcp_packet([10, 0, 0, i as u8 + 1], [188, 184, 100, 10], 5000 + i, 443))
        .collect();
    rewriter.process_batch(&mut batch);

    assert!(rewriter.metrics().conn_table_fill_bp > 0);
}

#[test]
fn batch_processing_multiple_packets() {
    let mut rewriter = setup_rewriter();
    let mut batch: Vec<PacketBuf> = (0..10)
        .map(|i| build_tcp_packet([10, 0, 0, i as u8 + 1], [188, 184, 100, 10], 10000 + i, 443))
        .collect();

    let processed = rewriter.process_batch(&mut batch);
    assert_eq!(processed, 10);
}

/// Build a TCP SYN packet with MSS option for MTU integration tests.
fn build_syn_with_mss(
    src: [u8; 4],
    dst: [u8; 4],
    src_port: u16,
    dst_port: u16,
    mss: u16,
) -> PacketBuf {
    let tcp_header_len = 24u8; // 6 words (base 20 + MSS option 4)
    let total_len = 20 + tcp_header_len as usize;
    let mut pkt = vec![0u8; total_len];

    // IP header
    pkt[0] = 0x45;
    pkt[2..4].copy_from_slice(&(total_len as u16).to_be_bytes());
    pkt[8] = 64;
    pkt[9] = 6; // TCP
    pkt[12..16].copy_from_slice(&src);
    pkt[16..20].copy_from_slice(&dst);

    // TCP header
    let tcp = &mut pkt[20..];
    tcp[0..2].copy_from_slice(&src_port.to_be_bytes());
    tcp[2..4].copy_from_slice(&dst_port.to_be_bytes());
    tcp[12] = (tcp_header_len / 4) << 4;
    tcp[13] = 0x02; // SYN

    // MSS option
    tcp[20] = 2; // kind
    tcp[21] = 4; // len
    tcp[22..24].copy_from_slice(&mss.to_be_bytes());

    PacketBuf::from_slice(&pkt)
}

/// Build an oversized UDP packet with DF set.
fn build_oversized_udp_df(src: [u8; 4], dst: [u8; 4], total_len: u16) -> PacketBuf {
    let len = total_len as usize;
    let mut pkt = vec![0u8; len.max(28)];
    pkt[0] = 0x45;
    pkt[2..4].copy_from_slice(&total_len.to_be_bytes());
    pkt[6..8].copy_from_slice(&0x4000u16.to_be_bytes()); // DF set
    pkt[8] = 64;
    pkt[9] = 17; // UDP
    pkt[12..16].copy_from_slice(&src);
    pkt[16..20].copy_from_slice(&dst);
    // UDP header (port 443)
    pkt[20..22].copy_from_slice(&12345u16.to_be_bytes());
    pkt[22..24].copy_from_slice(&443u16.to_be_bytes());
    pkt[24..26].copy_from_slice(&((len - 20) as u16).to_be_bytes());
    PacketBuf::from_slice(&pkt[..len.max(28)])
}

#[test]
fn rewriter_clamps_syn_before_gre() {
    let mut rewriter = setup_rewriter();
    // SYN with MSS=1460, should be clamped to 1436 (1500 - 24 - 40)
    let pkt = build_syn_with_mss([10, 0, 0, 100], [188, 184, 100, 10], 12345, 443, 1460);
    let mut batch = vec![pkt];
    let processed = rewriter.process_batch(&mut batch);
    assert_eq!(processed, 1);
    assert_eq!(rewriter.metrics().mss_clamp_total, 1);
    // Output should be GRE-encapsulated
    assert_eq!(batch[0].len, 44 + ENCAP_OVERHEAD);
}

#[test]
fn rewriter_drops_oversized_and_sends_icmp() {
    let mut rewriter = setup_rewriter_with_vip_udp();
    // 1500-byte UDP packet with DF: 1500 + 24 GRE overhead > 1500 network MTU
    let pkt = build_oversized_udp_df([10, 0, 0, 100], [188, 184, 100, 10], 1500);
    let mut batch = vec![pkt];
    let processed = rewriter.process_batch(&mut batch);
    // ICMP response should be in the output
    assert_eq!(processed, 1);
    assert_eq!(rewriter.metrics().icmp_frag_needed_sent_total, 1);
    assert_eq!(rewriter.metrics().packets_oversized_dropped_total, 1);
    // Output is ICMP (protocol=1), not GRE (protocol=47)
    assert_eq!(batch[0].as_slice()[9], 1);
}

#[test]
fn rewriter_forwards_fitting_packet_unchanged() {
    let mut rewriter = setup_rewriter();
    // Small TCP packet that fits in the tunnel
    let pkt = build_tcp_packet([10, 0, 0, 100], [188, 184, 100, 10], 12345, 443);
    let original_len = pkt.len;
    let mut batch = vec![pkt];
    let processed = rewriter.process_batch(&mut batch);
    assert_eq!(processed, 1);
    assert_eq!(rewriter.metrics().packets_forwarded, 1);
    assert_eq!(rewriter.metrics().packets_oversized_dropped_total, 0);
    // GRE-encapsulated: original + 24 overhead
    assert_eq!(batch[0].len, original_len + ENCAP_OVERHEAD);
}

#[test]
fn every_packet_is_accounted_for() {
    let mut rewriter = setup_rewriter_with_vip_udp();
    let mut batch = vec![
        build_tcp_packet([10, 0, 0, 100], [188, 184, 100, 10], 12345, 443),
        build_tcp_packet([10, 0, 0, 100], [10, 0, 0, 99], 12345, 80),
        build_oversized_udp_df([10, 0, 0, 100], [188, 184, 100, 10], 1500),
        PacketBuf::new(),
    ];
    let sent = rewriter.process_batch(&mut batch);
    let m = rewriter.metrics();
    assert_eq!(sent, 2);
    assert_eq!(m.packets_received, 4);
    assert_eq!(m.packets_forwarded, 1);
    assert_eq!(m.icmp_frag_needed_sent_total, 1);
    assert_eq!(m.packets_received, m.packets_forwarded + m.icmp_frag_needed_sent_total + m.packets_dropped);
}

#[test]
fn a_flow_keeps_its_backend_while_it_is_known() {
    let mut rewriter = setup_rewriter();
    let pkt = build_tcp_packet([10, 0, 0, 100], [188, 184, 100, 10], 12345, 443);
    let mut first = vec![pkt.clone()];
    rewriter.process_batch(&mut first);
    let table = LookupTable::build(
        &[Backend::new(IpAddr::V4(Ipv4Addr::new(10, 0, 0, 9)), 443)],
        17,
    )
    .unwrap();
    rewriter.tables.insert(BackendPoolId("web".into()), table);
    let mut second = vec![pkt];
    rewriter.process_batch(&mut second);
    assert_eq!(&first[0].as_slice()[16..20], &second[0].as_slice()[16..20]);
}

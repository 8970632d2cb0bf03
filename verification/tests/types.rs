use lb::base::net::{IpAddr, Ipv4Addr, Ipv6Addr};
use lb::base::time::Duration;
use lb::types::backend::{default_weight, Backend, BackendPool, BackendPoolId, HealthStatus};
use lb::types::config::{
    default_batch_size, default_bgp_port, default_connection_table_size, default_fragment_table_size,
    default_fragment_ttl, default_healthy_threshold, default_icmp_rate_limit, default_metrics_addr,
    default_network_mtu, default_num_threads, default_packet_pool_size, default_true,
    default_unhealthy_threshold, format_duration, parse_duration, BgpConfig, BgpConfigRaw,
    BgpPeerConfig, ConnTtls, ConnTtlsConfig, ForwarderConfig, IoBackend,
};
use lb::types::error::LbError;
use lb::types::mtu::MtuConfig;
use lb::types::packet::{is_fragment, is_non_first_fragment, FlowProto, FragmentId, PacketMeta};
use lb::types::vip::{Protocol, VipService};

fn v4(a: u8, b: u8, c: u8, d: u8) -> IpAddr {
    IpAddr::V4(Ipv4Addr::new(a, b, c, d))
}

fn is_v6(ip: IpAddr) -> bool {
    matches!(ip, IpAddr::V6(_))
}

// --- backends ---

#[test]
fn backend_name_format() {
    let b = Backend::new(v4(10, 0, 0, 1), 443);
    assert_eq!(b.name(), "10.0.0.1:443");
}

#[test]
fn backend_name_of_an_ipv6_address_is_compressed() {
    let ip = IpAddr::V6(Ipv6Addr::new(0x2001, 0xdb8, 0, 0, 0, 0, 0, 1));
    assert_eq!(Backend::new(ip, 80).name(), "2001:db8::1:80");
}

#[test]
fn new_backends_have_weight_one_and_are_not_drained() {
    let b = Backend::new(v4(10, 0, 0, 1), 80);
    assert_eq!(b.weight, 1);
    assert_eq!(b.weight, default_weight());
    assert!(!b.drain);
}

#[test]
fn health_status_variants() {
    assert_ne!(HealthStatus::Healthy, HealthStatus::Unhealthy);
    assert_ne!(HealthStatus::Unknown, HealthStatus::Healthy);
}

#[test]
fn cloned_pools_are_equal() {
    let pool = BackendPool {
        id: BackendPoolId("web".into()),
        backends: vec![Backend::new(v4(10, 0, 0, 1), 443)],
        health_check: None,
    };
    let copy = pool.clone();
    assert_eq!(copy.id, pool.id);
    assert_eq!(copy.backends, pool.backends);
    assert_eq!(copy.health_check, None);
}

// --- MTU ---

#[test]
fn mtu_config_derives_correctly() {
    let c = MtuConfig::new(1500).unwrap();
    assert_eq!(c.effective_inner_mtu, 1476);
    assert_eq!(c.tcp_mss_clamp, 1436);
}

#[test]
fn mtu_config_jumbo() {
    let c = MtuConfig::new(9000).unwrap();
    assert_eq!(c.effective_inner_mtu, 8976);
    assert_eq!(c.tcp_mss_clamp, 8936);
}

#[test]
fn mtu_config_minimum() {
    let c = MtuConfig::new(1280).unwrap();
    assert_eq!(c.effective_inner_mtu, 1256);
    assert_eq!(c.tcp_mss_clamp, 1216);
}

#[test]
fn mtu_config_rejects_too_small() {
    assert!(MtuConfig::new(500).is_err());
}

#[test]
fn mtu_config_rejects_below_minimum() {
    assert!(MtuConfig::new(1279).is_err());
    assert!(MtuConfig::new(1280).is_ok());
}

#[test]
fn errors_have_words() {
    let e = MtuConfig::new(500).unwrap_err();
    assert!(matches!(e, LbError::Config(_)));
    assert!(e.message().contains("500"), "got: {}", e.message());
    assert_eq!(
        LbError::PoolNotFound("web".into()).message(),
        "pool not found: web"
    );
}

// --- VIPs ---

#[test]
fn protocol_from_ip_proto() {
    assert_eq!(Protocol::from_ip_proto(6), Some(Protocol::Tcp));
    assert_eq!(Protocol::from_ip_proto(17), Some(Protocol::Udp));
    assert_eq!(Protocol::from_ip_proto(1), None);
}

#[test]
fn protocol_numbers_round_trip() {
    for p in [Protocol::Tcp, Protocol::Udp] {
        assert_eq!(Protocol::from_ip_proto(p.to_ip_proto()), Some(p));
    }
}

#[test]
fn vip_service_equality() {
    let a = VipService {
        protocol: Protocol::Tcp,
        port: 443,
        backend_pool: "web".into(),
    };
    let b = VipService {
        protocol: Protocol::Tcp,
        port: 443,
        backend_pool: "web".into(),
    };
    assert_eq!(a, b);
}

// --- packets ---

fn build_ipv4_tcp_packet(src: [u8; 4], dst: [u8; 4], src_port: u16, dst_port: u16) -> Vec<u8> {
    let mut pkt = vec![0u8; 40]; // 20 IP + 20 TCP
    pkt[0] = 0x45; // version=4, IHL=5
    pkt[9] = 6; // TCP
    pkt[12..16].copy_from_slice(&src);
    pkt[16..20].copy_from_slice(&dst);
    pkt[20..22].copy_from_slice(&src_port.to_be_bytes());
    pkt[22..24].copy_from_slice(&dst_port.to_be_bytes());
    pkt
}

#[test]
fn parse_ipv4_tcp_packet() {
    let pkt = build_ipv4_tcp_packet([10, 0, 0, 1], [192, 168, 1, 1], 12345, 443);
    let meta = PacketMeta::from_ipv4_bytes(&pkt).unwrap();
    assert_eq!(meta.src_ip, v4(10, 0, 0, 1));
    assert_eq!(meta.dst_ip, v4(192, 168, 1, 1));
    assert_eq!(meta.src_port, 12345);
    assert_eq!(meta.dst_port, 443);
    assert_eq!(meta.protocol, Protocol::Tcp);
}

#[test]
fn parse_too_short_packet() {
    let pkt = vec![0u8; 10];
    assert!(PacketMeta::from_ipv4_bytes(&pkt).is_none());
}

#[test]
fn parse_non_tcp_udp_packet() {
    let mut pkt = build_ipv4_tcp_packet([10, 0, 0, 1], [10, 0, 0, 2], 100, 200);
    pkt[9] = 1; // ICMP
    assert!(PacketMeta::from_ipv4_bytes(&pkt).is_none());
}

#[test]
fn flow_hash_deterministic() {
    let pkt = build_ipv4_tcp_packet([10, 0, 0, 1], [192, 168, 1, 1], 12345, 443);
    let meta = PacketMeta::from_ipv4_bytes(&pkt).unwrap();
    let h1 = meta.flow_hash();
    let h2 = meta.flow_hash();
    assert_eq!(h1, h2);
}

#[test]
fn different_flows_different_hashes() {
    let pkt1 = build_ipv4_tcp_packet([10, 0, 0, 1], [192, 168, 1, 1], 12345, 443);
    let pkt2 = build_ipv4_tcp_packet([10, 0, 0, 2], [192, 168, 1, 1], 12345, 443);
    let h1 = PacketMeta::from_ipv4_bytes(&pkt1).unwrap().flow_hash();
    let h2 = PacketMeta::from_ipv4_bytes(&pkt2).unwrap().flow_hash();
    assert_ne!(h1, h2);
}

#[test]
fn flow_hash_is_the_digest_of_the_five_tuple() {
    let pkt = build_ipv4_tcp_packet([10, 0, 0, 1], [192, 168, 1, 1], 12345, 443);
    let meta = PacketMeta::from_ipv4_bytes(&pkt).unwrap();
    let key = meta.flow_key();
    assert_eq!(
        key,
        [
            &[10, 0, 0, 1][..],
            &[0; 12],
            &[192, 168, 1, 1],
            &[0; 12],
            &[0x30, 0x39, 0x01, 0xbb, 6],
        ]
        .concat()
    );
    assert_eq!(meta.flow_hash(), xxhash_rust::xxh3::xxh3_64(&key));
}

#[test]
fn flow_hash_ignores_tcp_flags() {
    let mut pkt = build_ipv4_tcp_packet([10, 0, 0, 1], [10, 0, 0, 2], 1, 443);
    pkt[33] = 0x02;
    let syn = PacketMeta::from_ipv4_bytes(&pkt).unwrap();
    pkt[33] = 0x11;
    let fin = PacketMeta::from_ipv4_bytes(&pkt).unwrap();
    assert_ne!(syn.tcp_flags, fin.tcp_flags);
    assert_eq!(syn.flow_hash(), fin.flow_hash());
}

#[test]
fn fragment_detection() {
    let mut pkt = build_ipv4_tcp_packet([10, 0, 0, 1], [10, 0, 0, 2], 100, 200);
    assert!(!is_fragment(&pkt));
    assert!(!is_non_first_fragment(&pkt));

    // Set MF flag
    pkt[6] = 0x20;
    assert!(is_fragment(&pkt));
    assert!(!is_non_first_fragment(&pkt));

    // Set fragment offset
    pkt[6] = 0x00;
    pkt[7] = 0x10;
    assert!(is_fragment(&pkt));
    assert!(is_non_first_fragment(&pkt));
}

fn build_ipv6_tcp_packet(src: [u16; 8], dst: [u16; 8], src_port: u16, dst_port: u16) -> Vec<u8> {
    let mut pkt = vec![0u8; 60]; // 40 IPv6 header + 20 TCP
    pkt[0] = 0x60; // version=6
    pkt[4..6].copy_from_slice(&20u16.to_be_bytes()); // payload length
    pkt[6] = 6; // next header = TCP
    pkt[7] = 64; // hop limit
    for (i, &seg) in src.iter().enumerate() {
        pkt[8 + i * 2..10 + i * 2].copy_from_slice(&seg.to_be_bytes());
    }
    for (i, &seg) in dst.iter().enumerate() {
        pkt[24 + i * 2..26 + i * 2].copy_from_slice(&seg.to_be_bytes());
    }
    pkt[40..42].copy_from_slice(&src_port.to_be_bytes());
    pkt[42..44].copy_from_slice(&dst_port.to_be_bytes());
    pkt
}

#[test]
fn parse_ipv6_tcp_packet() {
    let pkt = build_ipv6_tcp_packet(
        [0x2001, 0x0db8, 0, 0, 0, 0, 0, 1],
        [0x2001, 0x0db8, 0, 0, 0, 0, 0, 2],
        12345,
        443,
    );
    let meta = PacketMeta::from_ipv6_bytes(&pkt).unwrap();
    assert_eq!(meta.src_port, 12345);
    assert_eq!(meta.dst_port, 443);
    assert_eq!(meta.protocol, Protocol::Tcp);
    assert!(is_v6(meta.src_ip));
}

#[test]
fn auto_detect_ipv4() {
    let pkt = build_ipv4_tcp_packet([10, 0, 0, 1], [10, 0, 0, 2], 100, 200);
    let meta = PacketMeta::from_ip_bytes(&pkt).unwrap();
    assert!(!is_v6(meta.src_ip));
}

#[test]
fn auto_detect_ipv6() {
    let pkt = build_ipv6_tcp_packet(
        [0x2001, 0x0db8, 0, 0, 0, 0, 0, 1],
        [0x2001, 0x0db8, 0, 0, 0, 0, 0, 2],
        100,
        200,
    );
    let meta = PacketMeta::from_ip_bytes(&pkt).unwrap();
    assert!(is_v6(meta.src_ip));
}

#[test]
fn other_ip_versions_are_not_parsed() {
    let mut pkt = build_ipv4_tcp_packet([10, 0, 0, 1], [10, 0, 0, 2], 100, 200);
    pkt[0] = 0x55;
    assert_eq!(PacketMeta::from_ip_bytes(&pkt), None);
    assert_eq!(PacketMeta::from_ip_bytes(&[]), None);
}

#[test]
fn tcp_flags_extracted_from_syn() {
    let mut pkt = build_ipv4_tcp_packet([10, 0, 0, 1], [10, 0, 0, 2], 1, 443);
    pkt[33] = 0x02; // SYN
    let meta = PacketMeta::from_ipv4_bytes(&pkt).unwrap();
    let flags = meta.tcp_flags.unwrap();
    assert!(flags.syn());
    assert!(!flags.ack());
    assert!(!flags.fin());
    assert!(!flags.rst());
}

#[test]
fn tcp_flags_extracted_from_syn_ack() {
    let mut pkt = build_ipv4_tcp_packet([10, 0, 0, 1], [10, 0, 0, 2], 1, 443);
    pkt[33] = 0x12; // SYN + ACK
    let flags = PacketMeta::from_ipv4_bytes(&pkt).unwrap().tcp_flags.unwrap();
    assert!(flags.syn());
    assert!(flags.ack());
}

#[test]
fn tcp_flags_extracted_from_fin() {
    let mut pkt = build_ipv4_tcp_packet([10, 0, 0, 1], [10, 0, 0, 2], 1, 443);
    pkt[33] = 0x11; // FIN + ACK
    let flags = PacketMeta::from_ipv4_bytes(&pkt).unwrap().tcp_flags.unwrap();
    assert!(flags.fin());
    assert!(flags.ack());
}

#[test]
fn tcp_flags_extracted_from_rst() {
    let mut pkt = build_ipv4_tcp_packet([10, 0, 0, 1], [10, 0, 0, 2], 1, 443);
    pkt[33] = 0x04; // RST
    let flags = PacketMeta::from_ipv4_bytes(&pkt).unwrap().tcp_flags.unwrap();
    assert!(flags.rst());
    assert!(!flags.ack());
}

#[test]
fn udp_packet_has_no_tcp_flags() {
    let mut pkt = build_ipv4_tcp_packet([10, 0, 0, 1], [10, 0, 0, 2], 1, 443);
    pkt[9] = 17; // UDP
    let meta = PacketMeta::from_ipv4_bytes(&pkt).unwrap();
    assert!(meta.tcp_flags.is_none());
    assert_eq!(meta.protocol, Protocol::Udp);
}

#[test]
fn flow_proto_from_protocol() {
    assert_eq!(FlowProto::from(Protocol::Tcp), FlowProto::Tcp);
    assert_eq!(FlowProto::from(Protocol::Udp), FlowProto::Udp);
}

#[test]
fn fragment_id_parsing() {
    let mut pkt = build_ipv4_tcp_packet([10, 0, 0, 1], [10, 0, 0, 2], 100, 200);
    pkt[4..6].copy_from_slice(&42u16.to_be_bytes());
    let fid = FragmentId::from_ipv4_bytes(&pkt).unwrap();
    assert_eq!(fid.ip_id, 42);
    assert_eq!(fid.src_ip, v4(10, 0, 0, 1));
}

#[test]
fn fragments_of_one_packet_have_one_hash() {
    let mut first = build_ipv4_tcp_packet([10, 0, 0, 1], [10, 0, 0, 2], 100, 200);
    first[4..6].copy_from_slice(&42u16.to_be_bytes());
    first[6] = 0x20;
    let mut later = first.clone();
    later[6] = 0;
    later[7] = 0x10;
    later[20] = 0xee;
    let a = FragmentId::from_ipv4_bytes(&first).unwrap();
    let b = FragmentId::from_ipv4_bytes(&later).unwrap();
    assert_eq!(a.fragment_hash(), b.fragment_hash());
    assert_eq!(a.fragment_hash(), xxhash_rust::xxh3::xxh3_64(&a.fragment_key()));
}

// --- configuration ---

#[test]
fn parse_duration_seconds() {
    assert_eq!(parse_duration("5s").unwrap(), Duration::from_secs(5));
}

#[test]
fn parse_duration_milliseconds() {
    assert_eq!(parse_duration("100ms").unwrap(), Duration::from_millis(100));
}

#[test]
fn parse_duration_microseconds() {
    assert_eq!(parse_duration("50us").unwrap(), Duration::from_micros(50));
}

#[test]
fn parse_duration_invalid() {
    assert!(parse_duration("5x").is_err());
}

#[test]
fn durations_round_trip_through_text() {
    for d in [
        Duration::from_secs(60),
        Duration::from_millis(1500),
        Duration::from_micros(50),
        Duration::from_secs(0),
    ] {
        assert_eq!(parse_duration(&format_duration(&d)).unwrap(), d);
    }
    assert_eq!(format_duration(&Duration::from_micros(50)), "50us");
    assert_eq!(format_duration(&Duration::from_millis(100)), "100ms");
    assert_eq!(format_duration(&Duration::from_secs(5)), "5s");
}

#[test]
fn io_backend_defaults_to_mock() {
    assert_eq!(IoBackend::default(), IoBackend::Mock);
}

#[test]
fn metrics_addr_defaults_to_localhost_9100() {
    let a = default_metrics_addr();
    assert_eq!(a.port, 9100);
    assert_eq!(a.ip, v4(127, 0, 0, 1));
}

#[test]
fn defaults_are_as_documented() {
    assert_eq!(default_bgp_port(), 179);
    assert!(default_true());
    assert_eq!(default_num_threads(), 7);
    assert_eq!(default_packet_pool_size(), 4096);
    assert_eq!(default_connection_table_size(), 131072);
    assert_eq!(default_fragment_table_size(), 8192);
    assert_eq!(default_fragment_ttl(), Duration::from_secs(10));
    assert_eq!(default_batch_size(), 64);
    assert_eq!(default_network_mtu(), 1500);
    assert_eq!(default_icmp_rate_limit(), 100);
    assert_eq!(default_healthy_threshold(), 2);
    assert_eq!(default_unhealthy_threshold(), 3);
}

fn raw(peer_ip: Option<IpAddr>, peer_asn: Option<u32>, peers: Option<Vec<BgpPeerConfig>>) -> BgpConfigRaw {
    BgpConfigRaw {
        local_asn: 65000,
        router_id: v4(10, 0, 0, 1),
        communities: vec![],
        next_hop_self: true,
        peer_ip,
        peer_asn,
        peers,
    }
}

fn peer(ip: IpAddr) -> BgpPeerConfig {
    BgpPeerConfig {
        peer_ip: ip,
        peer_asn: 65000,
        port: 179,
        hold_time_secs: None,
        communities: None,
        enabled: true,
        md5_password: None,
        md5_password_env: None,
    }
}

#[test]
fn bgp_legacy_single_peer_form_still_accepted() {
    let cfg = BgpConfig::from_raw(raw(Some(v4(10, 0, 0, 254)), Some(65000), None)).unwrap();
    assert_eq!(cfg.peers.len(), 1);
    assert_eq!(cfg.peers[0].peer_ip, v4(10, 0, 0, 254));
    assert_eq!(cfg.peers[0].peer_asn, 65000);
    assert_eq!(cfg.peers[0].port, 179);
    assert!(cfg.peers[0].enabled);
}

#[test]
fn bgp_rejects_mixed_legacy_and_new_forms() {
    let err = BgpConfig::from_raw(raw(
        Some(v4(10, 0, 0, 254)),
        Some(65000),
        Some(vec![peer(v4(10, 0, 0, 253))]),
    ))
    .err()
    .unwrap();
    assert!(err.contains("peers"), "error was: {err}");
}

#[test]
fn bgp_rejects_empty_peers() {
    let err = BgpConfig::from_raw(raw(None, None, Some(vec![]))).err().unwrap();
    assert!(err.contains("at least one peer"));
}

#[test]
fn bgp_rejects_partial_legacy_form() {
    let err = BgpConfig::from_raw(raw(Some(v4(10, 0, 0, 254)), None, None)).err().unwrap();
    assert!(err.contains("peer_ip"));
}

#[test]
fn bgp_keeps_the_peers_of_the_new_form() {
    let cfg = BgpConfig::from_raw(raw(
        None,
        None,
        Some(vec![peer(v4(10, 0, 0, 254)), peer(v4(10, 0, 0, 253))]),
    ))
    .unwrap_or_else(|e| panic!("{e}"));
    assert_eq!(cfg.peers.len(), 2);
    assert_eq!(cfg.peers[1].peer_ip, v4(10, 0, 0, 253));
}

#[test]
fn resolved_md5_password_prefers_inline_when_alone() {
    let p = BgpPeerConfig {
        md5_password: Some("inline".into()),
        ..peer(v4(10, 0, 0, 1))
    };
    assert_eq!(p.resolved_md5_password(None).unwrap(), Some("inline".into()));
}

#[test]
fn resolved_md5_password_reads_env_var() {
    let name = "LB_TEST_BGP_KEY_4f6a";
    let p = BgpPeerConfig {
        md5_password_env: Some(name.into()),
        ..peer(v4(10, 0, 0, 1))
    };
    assert_eq!(
        p.resolved_md5_password(Some("from-env".into())).unwrap(),
        Some("from-env".into())
    );
}

#[test]
fn resolved_md5_password_errors_when_env_missing() {
    let p = BgpPeerConfig {
        md5_password_env: Some("LB_TEST_MISSING_VAR_b71d".into()),
        ..peer(v4(10, 0, 0, 1))
    };
    let err = p.resolved_md5_password(None).unwrap_err();
    assert!(err.contains("not set"), "got: {err}");
}

#[test]
fn resolved_md5_password_rejects_both_set() {
    let p = BgpPeerConfig {
        md5_password: Some("inline".into()),
        md5_password_env: Some("X".into()),
        ..peer(v4(10, 0, 0, 1))
    };
    let err = p.resolved_md5_password(None).unwrap_err();
    assert!(err.contains("mutually exclusive"));
}

#[test]
fn no_password_means_no_signature() {
    assert_eq!(peer(v4(10, 0, 0, 1)).resolved_md5_password(None).unwrap(), None);
}

#[test]
fn connection_ttls_override_the_derived_ones() {
    let mut config = ForwarderConfig {
        packet_pool_size: 4096,
        connection_table_size: 131072,
        fragment_table_size: 8192,
        fragment_ttl: Duration::from_secs(10),
        batch_size: 64,
        batch_flush_interval: Duration::from_micros(50),
        connection_ttl: Duration::from_secs(60),
        connection_ttls: None,
        network_mtu: 1500,
        icmp_rate_limit: 100,
    };
    let derived = config.resolved_conn_ttls();
    assert_eq!(derived, ConnTtls::with_established(Duration::from_secs(60)));
    assert_eq!(derived.tcp_established, Duration::from_secs(60));
    config.connection_ttls = Some(ConnTtlsConfig {
        tcp_handshake: Some(Duration::from_secs(7)),
        tcp_established: None,
        tcp_closing: None,
        udp: None,
        other: None,
    });
    let t = config.resolved_conn_ttls();
    assert_eq!(t.tcp_handshake, Duration::from_secs(7));
    assert_eq!(t.tcp_established, derived.tcp_established);
}

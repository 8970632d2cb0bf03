use lb::base::net::{IpAddr, Ipv4Addr};
use lb::base::time::{Duration, Instant};
use lb::forwarder::steering::{assign_queue, queue_for_hash, Steering};
use lb::forwarder::vip_matcher::VipMatcher;
use lb::types::backend::BackendPoolId;
use lb::types::packet::PacketMeta;
use lb::types::vip::Protocol;

fn make_meta(src_last: u8, src_port: u16) -> PacketMeta {
    PacketMeta {
        src_ip: IpAddr::V4(Ipv4Addr::new(10, 0, 0, src_last)),
        dst_ip: IpAddr::V4(Ipv4Addr::new(192, 168, 1, 1)),
        src_port,
        dst_port: 443,
        protocol: Protocol::Tcp,
        tcp_flags: None,
    }
}

#[test]
fn same_flow_same_queue() {
    let meta = make_meta(1, 12345);
    let q1 = assign_queue(&meta, 8);
    let q2 = assign_queue(&meta, 8);
    assert_eq!(q1, q2);
}

#[test]
fn queue_within_range() {
    let meta = make_meta(1, 12345);
    let q = assign_queue(&meta, 8);
    assert!(q < 8);
}

#[test]
fn different_flows_distribute() {
    let num_queues = 8;
    let mut queues_used = std::collections::HashSet::new();
    for i in 0..100 {
        let meta = make_meta(i, 10000 + i as u16);
        queues_used.insert(assign_queue(&meta, num_queues));
    }
    // With 100 different flows and 8 queues, we should hit most queues
    assert!(
        queues_used.len() >= 4,
        "expected distribution across queues"
    );
}

#[test]
fn the_queue_is_the_hash_modulo_the_queues() {
    assert_eq!(queue_for_hash(17, 8), 1);
    let meta = make_meta(1, 12345);
    assert_eq!(assign_queue(&meta, 8) as u64, meta.flow_hash() % 8);
}

fn vip_ip() -> IpAddr {
    IpAddr::V4(Ipv4Addr::new(188, 184, 100, 10))
}

#[test]
fn match_configured_vip() {
    let matcher = VipMatcher::from_entries(vec![(
        vip_ip(),
        Protocol::Tcp,
        443,
        BackendPoolId("web".into()),
    )]);
    let result = matcher.match_packet(vip_ip(), Protocol::Tcp, 443);
    assert_eq!(result, Some(&BackendPoolId("web".into())));
}

#[test]
fn miss_on_unknown_vip() {
    let matcher = VipMatcher::from_entries(vec![(
        vip_ip(),
        Protocol::Tcp,
        443,
        BackendPoolId("web".into()),
    )]);
    let other_ip = IpAddr::V4(Ipv4Addr::new(10, 0, 0, 1));
    assert!(matcher.match_packet(other_ip, Protocol::Tcp, 443).is_none());
}

#[test]
fn miss_on_wrong_port() {
    let matcher = VipMatcher::from_entries(vec![(
        vip_ip(),
        Protocol::Tcp,
        443,
        BackendPoolId("web".into()),
    )]);
    assert!(matcher.match_packet(vip_ip(), Protocol::Tcp, 80).is_none());
}

#[test]
fn miss_on_wrong_protocol() {
    let matcher = VipMatcher::from_entries(vec![(
        vip_ip(),
        Protocol::Tcp,
        443,
        BackendPoolId("web".into()),
    )]);
    assert!(matcher.match_packet(vip_ip(), Protocol::Udp, 443).is_none());
}

#[test]
fn multiple_services_on_same_vip() {
    let matcher = VipMatcher::from_entries(vec![
        (vip_ip(), Protocol::Tcp, 443, BackendPoolId("https".into())),
        (vip_ip(), Protocol::Tcp, 80, BackendPoolId("http".into())),
    ]);
    assert_eq!(
        matcher.match_packet(vip_ip(), Protocol::Tcp, 443),
        Some(&BackendPoolId("https".into()))
    );
    assert_eq!(
        matcher.match_packet(vip_ip(), Protocol::Tcp, 80),
        Some(&BackendPoolId("http".into()))
    );
}

#[test]
fn a_new_matcher_matches_nothing() {
    let matcher = VipMatcher::new();
    assert!(matcher.match_packet(vip_ip(), Protocol::Tcp, 443).is_none());
}

#[test]
fn of_two_entries_with_one_key_the_later_holds() {
    let matcher = VipMatcher::from_entries(vec![
        (vip_ip(), Protocol::Tcp, 443, BackendPoolId("old".into())),
        (vip_ip(), Protocol::Tcp, 443, BackendPoolId("new".into())),
    ]);
    assert_eq!(
        matcher.match_packet(vip_ip(), Protocol::Tcp, 443),
        Some(&BackendPoolId("new".into()))
    );
}

fn udp_fragment(id: u16, more: bool, offset: u8, src_port: u16) -> Vec<u8> {
    let mut pkt = vec![0u8; 28];
    pkt[0] = 0x45;
    pkt[2..4].copy_from_slice(&28u16.to_be_bytes());
    pkt[4..6].copy_from_slice(&id.to_be_bytes());
    pkt[6] = if more { 0x20 } else { 0 };
    pkt[7] = offset;
    pkt[8] = 64;
    pkt[9] = 17;
    pkt[12..16].copy_from_slice(&[10, 0, 0, 1]);
    pkt[16..20].copy_from_slice(&[192, 168, 1, 1]);
    pkt[20..22].copy_from_slice(&src_port.to_be_bytes());
    pkt[22..24].copy_from_slice(&53u16.to_be_bytes());
    pkt
}

#[test]
fn all_fragments_of_a_packet_go_to_one_queue() {
    let now = Instant { nanos: 0 };
    let mut steering = Steering::new(64, Duration::from_secs(10));
    for id in 0..30 {
        let whole = steering.assign(&udp_fragment(0, false, 0, 1000 + id), 16, now);
        let first = steering.assign(&udp_fragment(id, true, 0, 1000 + id), 16, now);
        // A first fragment goes where its flow goes.
        assert_eq!(first, whole);
        let later = steering.assign(&udp_fragment(id, true, 1, 0xFFFF), 16, now);
        let last = steering.assign(&udp_fragment(id, false, 2, id), 16, now);
        assert_eq!(later, first);
        assert_eq!(last, first);
    }
}

#[test]
fn fragments_of_unknown_packets_still_get_a_queue() {
    let now = Instant { nanos: 0 };
    let mut steering = Steering::new(64, Duration::from_secs(10));
    let first = steering.assign(&udp_fragment(7, true, 0, 4000), 300, now);
    let after = now.plus(Duration::from_secs(11));
    let late = steering.assign(&udp_fragment(7, false, 1, 4000), 300, after);
    assert!(first < 300 && late < 300);
    // What is no IP packet goes to the first queue.
    assert_eq!(steering.assign(&[0u8; 4], 300, now), 0);
}

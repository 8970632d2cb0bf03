use lb::base::checksum::ip_checksum;
use lb::base::net::{IpAddr, Ipv4Addr};
use lb::base::time::{Duration, Instant};
use lb::forwarder::icmp::{
    generate_icmp_frag_needed, should_generate_icmp, IcmpRateLimiter, VipRateLimiters,
};

fn instant(millis: u64) -> Instant {
    Instant { nanos: 0 }.plus(Duration::from_millis(millis))
}

/// Build an IPv4 UDP packet of a given total length with DF set.
fn build_udp_packet_df(src: [u8; 4], dst: [u8; 4], total_len: u16) -> Vec<u8> {
    let len = total_len as usize;
    let mut pkt = vec![0u8; len.max(28)];
    pkt[0] = 0x45;
    pkt[2..4].copy_from_slice(&total_len.to_be_bytes());
    pkt[6..8].copy_from_slice(&0x4000u16.to_be_bytes()); // DF set
    pkt[8] = 64;
    pkt[9] = 17; // UDP
    pkt[12..16].copy_from_slice(&src);
    pkt[16..20].copy_from_slice(&dst);
    pkt.truncate(len.max(28));
    pkt
}

fn build_udp_packet_no_df(src: [u8; 4], dst: [u8; 4], total_len: u16) -> Vec<u8> {
    let mut pkt = build_udp_packet_df(src, dst, total_len);
    pkt[6] = 0;
    pkt[7] = 0;
    pkt
}

#[test]
fn icmp_generated_for_oversized_df_packet() {
    let pkt = build_udp_packet_df([10, 0, 0, 1], [188, 184, 100, 10], 1500);
    assert!(should_generate_icmp(&pkt, 1500));
}

#[test]
fn icmp_not_generated_when_df_clear() {
    let pkt = build_udp_packet_no_df([10, 0, 0, 1], [188, 184, 100, 10], 1500);
    assert!(!should_generate_icmp(&pkt, 1500));
}

#[test]
fn icmp_not_generated_when_packet_fits() {
    let pkt = build_udp_packet_df([10, 0, 0, 1], [188, 184, 100, 10], 1400);
    assert!(!should_generate_icmp(&pkt, 1500));
}

#[test]
fn icmp_source_is_vip() {
    let original = build_udp_packet_df([10, 0, 0, 1], [188, 184, 100, 10], 1500);
    let vip = Ipv4Addr::new(188, 184, 100, 10);
    let icmp = generate_icmp_frag_needed(&original, vip, 1476);

    let data = icmp.as_slice();
    assert_eq!(&data[12..16], &vip.octets());
}

#[test]
fn icmp_contains_original_header() {
    let original = build_udp_packet_df([10, 0, 0, 1], [188, 184, 100, 10], 1500);
    let icmp = generate_icmp_frag_needed(&original, Ipv4Addr::new(188, 184, 100, 10), 1476);

    let data = icmp.as_slice();
    // ICMP payload starts at offset 28, should contain first 28 bytes of original
    assert_eq!(&data[28..56], &original[..28]);
}

#[test]
fn icmp_next_hop_mtu_correct() {
    let original = build_udp_packet_df([10, 0, 0, 1], [188, 184, 100, 10], 1500);
    let icmp = generate_icmp_frag_needed(&original, Ipv4Addr::new(188, 184, 100, 10), 1476);

    let data = icmp.as_slice();
    let next_hop_mtu = u16::from_be_bytes([data[26], data[27]]);
    assert_eq!(next_hop_mtu, 1476);
}

#[test]
fn icmp_checksums_valid() {
    let original = build_udp_packet_df([10, 0, 0, 1], [188, 184, 100, 10], 1500);
    let icmp = generate_icmp_frag_needed(&original, Ipv4Addr::new(188, 184, 100, 10), 1476);
    let data = icmp.as_slice();

    // IP header checksum verification (compute over header including checksum should yield 0)
    let ip_check = ip_checksum(&data[0..20]);
    assert_eq!(ip_check, 0, "IP header checksum invalid");

    // ICMP checksum verification
    let icmp_check = ip_checksum(&data[20..]);
    assert_eq!(icmp_check, 0, "ICMP checksum invalid");
}

#[test]
fn icmp_rate_limiter_allows_burst() {
    let mut limiter = IcmpRateLimiter::new(100, instant(0));
    let now = instant(0);
    for _ in 0..100 {
        assert!(limiter.allow(now));
    }
}

#[test]
fn icmp_rate_limiter_drops_excess() {
    let mut limiter = IcmpRateLimiter::new(100, instant(0));
    let now = instant(0);
    for _ in 0..100 {
        limiter.allow(now);
    }
    assert!(!limiter.allow(now));
}

#[test]
fn icmp_rate_limiter_resets_after_window() {
    let mut limiter = IcmpRateLimiter::new(100, instant(0));
    let start = instant(0);
    for _ in 0..100 {
        limiter.allow(start);
    }
    assert!(!limiter.allow(start));

    // Simulate 1 second later
    let later = start.plus(Duration::from_secs(1));
    assert!(limiter.allow(later));
}

#[test]
fn icmp_bypasses_gre() {
    // Verify the ICMP packet is a plain IP packet (not GRE-encapsulated)
    let original = build_udp_packet_df([10, 0, 0, 1], [188, 184, 100, 10], 1500);
    let icmp = generate_icmp_frag_needed(&original, Ipv4Addr::new(188, 184, 100, 10), 1476);
    let data = icmp.as_slice();

    // Outer protocol should be ICMP (1), not GRE (47)
    assert_eq!(data[9], 1);
    // Total length should be 20 (IP) + 8 (ICMP) + 28 (payload) = 56
    let total_len = u16::from_be_bytes([data[2], data[3]]);
    assert_eq!(total_len, 56);
}

#[test]
fn a_limit_of_zero_grants_nothing() {
    let mut limiter = IcmpRateLimiter::new(0, instant(0));
    assert!(!limiter.allow(instant(0)));
    assert!(!limiter.allow(instant(5000)));
}

#[test]
fn a_window_lasts_a_second() {
    let mut limiter = IcmpRateLimiter::new(1, instant(0));
    assert!(limiter.allow(instant(0)));
    assert!(!limiter.allow(instant(999)));
    assert!(limiter.allow(instant(1000)));
    assert!(!limiter.allow(instant(1999)));
}

#[test]
fn the_largest_packet_is_too_big_for_any_tunnel() {
    let pkt = build_udp_packet_df([10, 0, 0, 1], [188, 184, 100, 10], 65535);
    assert!(should_generate_icmp(&pkt, 1500));
    let fits = build_udp_packet_df([10, 0, 0, 1], [188, 184, 100, 10], 1476);
    assert!(!should_generate_icmp(&fits, 1500));
    let tight = build_udp_packet_df([10, 0, 0, 1], [188, 184, 100, 10], 1477);
    assert!(should_generate_icmp(&tight, 1500));
}

#[test]
fn each_vip_has_a_limit_of_its_own() {
    let mut limiters = VipRateLimiters::new(1);
    let a = IpAddr::V4(Ipv4Addr::new(188, 184, 100, 10));
    let b = IpAddr::V4(Ipv4Addr::new(188, 184, 100, 11));
    assert!(limiters.allow(a, instant(0)));
    assert!(!limiters.allow(a, instant(10)));
    assert!(limiters.allow(b, instant(10)));
    assert!(!limiters.allow(b, instant(1000)));
    assert!(limiters.allow(a, instant(1000)));
    assert!(limiters.allow(b, instant(1010)));
}

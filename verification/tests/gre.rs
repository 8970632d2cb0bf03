use lb::base::checksum::ip_checksum;
use lb::base::net::Ipv4Addr;
use lb::forwarder::gre::{
    encapsulate_ipv4, encapsulate_ipv4_buf, ENCAP_OVERHEAD, OUTER_IP_HEADER_SIZE,
};
use lb::io::packet_buf::{PacketBuf, PACKET_BUF_SIZE};

fn build_ipv4_tcp_packet(src: [u8; 4], dst: [u8; 4], src_port: u16, dst_port: u16) -> Vec<u8> {
    let mut pkt = vec![0u8; 40];
    pkt[0] = 0x45;
    pkt[2..4].copy_from_slice(&40u16.to_be_bytes());
    pkt[8] = 64;
    pkt[9] = 6; // TCP
    pkt[12..16].copy_from_slice(&src);
    pkt[16..20].copy_from_slice(&dst);
    pkt[20..22].copy_from_slice(&src_port.to_be_bytes());
    pkt[22..24].copy_from_slice(&dst_port.to_be_bytes());
    pkt
}

#[test]
fn encapsulate_adds_correct_overhead() {
    let inner = build_ipv4_tcp_packet([10, 0, 0, 1], [192, 168, 1, 1], 12345, 443);
    let inner_len = inner.len();
    let mut pkt = PacketBuf::from_slice(&inner);

    let ok = encapsulate_ipv4(
        &mut pkt,
        Ipv4Addr::new(172, 16, 0, 1),
        Ipv4Addr::new(10, 0, 0, 5),
    );

    assert!(ok);
    assert_eq!(pkt.len, inner_len + ENCAP_OVERHEAD);
}

#[test]
fn outer_ip_header_fields() {
    let inner = build_ipv4_tcp_packet([10, 0, 0, 1], [192, 168, 1, 1], 12345, 443);
    let mut pkt = PacketBuf::from_slice(&inner);

    encapsulate_ipv4(
        &mut pkt,
        Ipv4Addr::new(172, 16, 0, 1),
        Ipv4Addr::new(10, 0, 0, 5),
    );

    let data = pkt.as_slice();
    assert_eq!(data[0], 0x45); // version + IHL
    assert_eq!(data[8], 64); // TTL
    assert_eq!(data[9], 47); // GRE protocol
    assert_eq!(&data[12..16], &[172, 16, 0, 1]); // src
    assert_eq!(&data[16..20], &[10, 0, 0, 5]); // dst
}

#[test]
fn gre_header_fields() {
    let inner = build_ipv4_tcp_packet([10, 0, 0, 1], [192, 168, 1, 1], 12345, 443);
    let mut pkt = PacketBuf::from_slice(&inner);

    encapsulate_ipv4(
        &mut pkt,
        Ipv4Addr::new(172, 16, 0, 1),
        Ipv4Addr::new(10, 0, 0, 5),
    );

    let data = pkt.as_slice();
    let gre_offset = OUTER_IP_HEADER_SIZE;
    assert_eq!(data[gre_offset], 0x00); // no flags
    assert_eq!(data[gre_offset + 1], 0x00);
    // Protocol type = 0x0800 (inner IPv4)
    assert_eq!(
        u16::from_be_bytes([data[gre_offset + 2], data[gre_offset + 3]]),
        0x0800
    );
}

#[test]
fn inner_packet_preserved() {
    let inner = build_ipv4_tcp_packet([10, 0, 0, 1], [192, 168, 1, 1], 12345, 443);
    let mut pkt = PacketBuf::from_slice(&inner);

    encapsulate_ipv4(
        &mut pkt,
        Ipv4Addr::new(172, 16, 0, 1),
        Ipv4Addr::new(10, 0, 0, 5),
    );

    let data = pkt.as_slice();
    let inner_start = ENCAP_OVERHEAD;
    assert_eq!(&data[inner_start..inner_start + inner.len()], &inner[..]);
}

#[test]
fn ip_header_checksum_valid() {
    let inner = build_ipv4_tcp_packet([10, 0, 0, 1], [192, 168, 1, 1], 12345, 443);
    let mut pkt = PacketBuf::from_slice(&inner);

    encapsulate_ipv4(
        &mut pkt,
        Ipv4Addr::new(172, 16, 0, 1),
        Ipv4Addr::new(10, 0, 0, 5),
    );

    // Verify checksum: computing checksum over the header (including the checksum field)
    // should yield 0
    let check = ip_checksum(&pkt.data[0..OUTER_IP_HEADER_SIZE]);
    assert_eq!(check, 0, "IP header checksum verification failed");
}

#[test]
fn oversized_packet_returns_false() {
    let inner = vec![0xAA; PACKET_BUF_SIZE - 10];
    let mut pkt = PacketBuf::from_slice(&inner);
    let ok = encapsulate_ipv4(
        &mut pkt,
        Ipv4Addr::new(1, 1, 1, 1),
        Ipv4Addr::new(2, 2, 2, 2),
    );
    assert!(!ok);
}

#[test]
fn an_oversized_packet_is_left_alone() {
    let inner = vec![0xAA; PACKET_BUF_SIZE - 10];
    let mut pkt = PacketBuf::from_slice(&inner);
    assert!(!encapsulate_ipv4(
        &mut pkt,
        Ipv4Addr::new(1, 1, 1, 1),
        Ipv4Addr::new(2, 2, 2, 2)
    ));
    assert_eq!(pkt.as_slice(), &inner[..]);
}

#[test]
fn inner_ipv6_packets_are_announced_as_such() {
    let mut data = vec![0u8; 100];
    data[0] = 0x60;
    let n = encapsulate_ipv4_buf(
        &mut data,
        60,
        Ipv4Addr::new(1, 1, 1, 1),
        Ipv4Addr::new(2, 2, 2, 2),
    );
    assert_eq!(n, Some(84));
    assert_eq!(&data[22..24], &[0x86, 0xdd]);
    assert_eq!(&data[2..4], &[0, 84]);
    assert_eq!(data[24], 0x60);
}

use lb::forwarder::mss_clamp::{clamp_mss, full_tcp_checksum, ClampResult};

const TCP_SYN: u8 = 0x02;
const TCP_OPT_MSS: u8 = 2;
const TCP_OPT_MSS_LEN: u8 = 4;

/// Build a TCP SYN packet with MSS option.
fn build_syn_with_mss(
    src: [u8; 4],
    dst: [u8; 4],
    src_port: u16,
    dst_port: u16,
    mss: u16,
) -> Vec<u8> {
    // IP header (20) + TCP header (20 base) + TCP options (MSS=4 + NOP + NOP + WS=3 + pad=1 = 8, round to 8)
    // Keep it simple: 20 IP + 24 TCP (base 20 + MSS option 4)
    let tcp_header_len = 24u8; // 6 words
    let total_len = 20 + tcp_header_len as usize;
    let mut pkt = vec![0u8; total_len];

    // IP header
    pkt[0] = 0x45;
    pkt[2..4].copy_from_slice(&(total_len as u16).to_be_bytes());
    pkt[8] = 64; // TTL
    pkt[9] = 6; // TCP
    pkt[12..16].copy_from_slice(&src);
    pkt[16..20].copy_from_slice(&dst);

    // TCP header
    let tcp = &mut pkt[20..];
    tcp[0..2].copy_from_slice(&src_port.to_be_bytes());
    tcp[2..4].copy_from_slice(&dst_port.to_be_bytes());
    // data offset = 6 words (24 bytes)
    tcp[12] = (tcp_header_len / 4) << 4;
    // SYN flag
    tcp[13] = TCP_SYN;

    // MSS option at offset 20 (TCP options start)
    tcp[20] = TCP_OPT_MSS;
    tcp[21] = TCP_OPT_MSS_LEN;
    tcp[22..24].copy_from_slice(&mss.to_be_bytes());

    // Compute TCP checksum
    let checksum = full_tcp_checksum(&pkt, 20);
    pkt[20 + 16] = (checksum >> 8) as u8;
    pkt[20 + 17] = (checksum & 0xFF) as u8;

    pkt
}

/// Build a TCP SYN packet without MSS option (just window scale).
fn build_syn_without_mss(src: [u8; 4], dst: [u8; 4]) -> Vec<u8> {
    // 20 IP + 24 TCP (base 20 + WS option 3 + NOP = 4)
    let tcp_header_len = 24u8;
    let total_len = 20 + tcp_header_len as usize;
    let mut pkt = vec![0u8; total_len];

    pkt[0] = 0x45;
    pkt[2..4].copy_from_slice(&(total_len as u16).to_be_bytes());
    pkt[8] = 64;
    pkt[9] = 6;
    pkt[12..16].copy_from_slice(&src);
    pkt[16..20].copy_from_slice(&dst);

    let tcp = &mut pkt[20..];
    tcp[0..2].copy_from_slice(&12345u16.to_be_bytes());
    tcp[2..4].copy_from_slice(&443u16.to_be_bytes());
    tcp[12] = (tcp_header_len / 4) << 4;
    tcp[13] = TCP_SYN;

    // Window scale option (kind=3, len=3, shift=7) + NOP
    tcp[20] = 1; // NOP
    tcp[21] = 3; // WS kind
    tcp[22] = 3; // WS length
    tcp[23] = 7; // WS shift count

    pkt
}

#[test]
fn clamp_reduces_oversized_mss() {
    let mut pkt = build_syn_with_mss([10, 0, 0, 1], [192, 168, 1, 1], 12345, 443, 1460);
    let result = clamp_mss(&mut pkt, 1436);
    assert_eq!(result, ClampResult::Clamped);

    // Verify MSS was rewritten
    let mss = u16::from_be_bytes([pkt[20 + 22], pkt[20 + 23]]);
    assert_eq!(mss, 1436);
}

#[test]
fn clamp_noop_when_mss_within_limit() {
    let mut pkt = build_syn_with_mss([10, 0, 0, 1], [192, 168, 1, 1], 12345, 443, 1400);
    let result = clamp_mss(&mut pkt, 1436);
    assert_eq!(result, ClampResult::Noop);

    let mss = u16::from_be_bytes([pkt[20 + 22], pkt[20 + 23]]);
    assert_eq!(mss, 1400);
}

#[test]
fn clamp_noop_when_no_mss_option() {
    let mut pkt = build_syn_without_mss([10, 0, 0, 1], [192, 168, 1, 1]);
    let result = clamp_mss(&mut pkt, 1436);
    assert_eq!(result, ClampResult::MssMissing);
}

#[test]
fn clamp_ignores_non_syn() {
    let mut pkt = build_syn_with_mss([10, 0, 0, 1], [192, 168, 1, 1], 12345, 443, 1460);
    // Clear SYN flag, set ACK
    pkt[20 + 13] = 0x10;
    let result = clamp_mss(&mut pkt, 1436);
    assert_eq!(result, ClampResult::NotSyn);
}

#[test]
fn clamp_handles_syn_ack() {
    let mut pkt = build_syn_with_mss([10, 0, 0, 1], [192, 168, 1, 1], 443, 12345, 1460);
    // Set SYN+ACK
    pkt[20 + 13] = TCP_SYN | 0x10;

    // Recompute checksum for modified flags
    pkt[20 + 16] = 0;
    pkt[20 + 17] = 0;
    let checksum = full_tcp_checksum(&pkt, 20);
    pkt[20 + 16] = (checksum >> 8) as u8;
    pkt[20 + 17] = (checksum & 0xFF) as u8;

    let result = clamp_mss(&mut pkt, 1436);
    assert_eq!(result, ClampResult::Clamped);

    let mss = u16::from_be_bytes([pkt[20 + 22], pkt[20 + 23]]);
    assert_eq!(mss, 1436);
}

#[test]
fn clamp_malformed_options_no_panic() {
    let mut pkt = build_syn_with_mss([10, 0, 0, 1], [192, 168, 1, 1], 12345, 443, 1460);
    // Corrupt the option length to 0 (malformed)
    pkt[20 + 21] = 0;
    let result = clamp_mss(&mut pkt, 1436);
    // Should not panic, returns MssMissing since MSS option was not successfully parsed
    assert_eq!(result, ClampResult::MssMissing);
}

#[test]
fn clamp_checksum_correct() {
    let mut pkt = build_syn_with_mss([10, 0, 0, 1], [192, 168, 1, 1], 12345, 443, 1460);
    clamp_mss(&mut pkt, 1436);

    // Verify by full recomputation
    let stored = u16::from_be_bytes([pkt[20 + 16], pkt[20 + 17]]);
    pkt[20 + 16] = 0;
    pkt[20 + 17] = 0;
    let expected = full_tcp_checksum(&pkt, 20);
    assert_eq!(stored, expected, "TCP checksum mismatch after MSS clamp");
}

#[test]
fn clamp_incremental_checksum_matches_full() {
    let mut pkt = build_syn_with_mss([10, 0, 0, 1], [192, 168, 1, 1], 54321, 80, 8960);
    clamp_mss(&mut pkt, 1436);

    let stored = u16::from_be_bytes([pkt[20 + 16], pkt[20 + 17]]);
    pkt[20 + 16] = 0;
    pkt[20 + 17] = 0;
    let full = full_tcp_checksum(&pkt, 20);
    assert_eq!(stored, full);
}

#[test]
fn clamp_at_various_mtus() {
    for (mtu, expected_clamp) in [(1280, 1216), (1500, 1436), (4000, 3936), (9000, 8936)] {
        let max_mss = mtu - 24 - 40; // network_mtu - GRE - IP+TCP
        let mut pkt = build_syn_with_mss([10, 0, 0, 1], [10, 0, 0, 2], 12345, 443, 8960);
        let result = clamp_mss(&mut pkt, max_mss);
        assert_eq!(result, ClampResult::Clamped, "failed at MTU {mtu}");

        let mss = u16::from_be_bytes([pkt[20 + 22], pkt[20 + 23]]);
        assert_eq!(mss, expected_clamp, "wrong clamp at MTU {mtu}");
    }
}

#[test]
fn clamping_twice_changes_nothing_more() {
    let mut pkt = build_syn_with_mss([10, 0, 0, 1], [192, 168, 1, 1], 12345, 443, 1460);
    assert_eq!(clamp_mss(&mut pkt, 1436), ClampResult::Clamped);
    let once = pkt.clone();
    assert_eq!(clamp_mss(&mut pkt, 1436), ClampResult::Noop);
    assert_eq!(pkt, once);
}

#[test]
fn clamping_touches_only_the_mss_and_the_checksum() {
    let before = build_syn_with_mss([10, 0, 0, 1], [192, 168, 1, 1], 12345, 443, 1460);
    let mut after = before.clone();
    clamp_mss(&mut after, 1436);
    for i in 0..before.len() {
        if !(36..38).contains(&i) && !(42..44).contains(&i) {
            assert_eq!(before[i], after[i], "byte {i}");
        }
    }
}

#[test]
fn other_packets_are_not_clamped() {
    let mut udp = build_syn_with_mss([10, 0, 0, 1], [192, 168, 1, 1], 12345, 443, 1460);
    udp[9] = 17;
    assert_eq!(clamp_mss(&mut udp, 1436), ClampResult::NotTcp);
    assert_eq!(clamp_mss(&mut [0u8; 10], 1436), ClampResult::NotTcp);
}

#[test]
fn the_checksum_stays_right_at_an_odd_offset() {
    for nops in 0..4usize {
        let mut pkt = vec![0u8; 20 + 28];
        pkt[0] = 0x45;
        pkt[2..4].copy_from_slice(&48u16.to_be_bytes());
        pkt[8] = 64;
        pkt[9] = 6;
        pkt[12..16].copy_from_slice(&[10, 0, 0, 1]);
        pkt[16..20].copy_from_slice(&[10, 0, 0, 2]);
        pkt[32] = 7 << 4;
        pkt[33] = TCP_SYN;
        for i in 0..nops {
            pkt[40 + i] = 1;
        }
        let at = 40 + nops;
        pkt[at..at + 4].copy_from_slice(&[TCP_OPT_MSS, TCP_OPT_MSS_LEN, 0x05, 0xB4]);
        let checksum = full_tcp_checksum(&pkt, 20);
        pkt[36..38].copy_from_slice(&checksum.to_be_bytes());
        assert_eq!(clamp_mss(&mut pkt, 1436), ClampResult::Clamped);
        assert_eq!(&pkt[at + 2..at + 4], &1436u16.to_be_bytes());
        assert_eq!(
            u16::from_be_bytes([pkt[36], pkt[37]]),
            full_tcp_checksum(&pkt, 20)
        );
    }
}

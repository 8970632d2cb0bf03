use lb::io::af_xdp::{
    addr_to_frame_idx, frame_idx_to_addr, received_len, recycled_addresses, AfXdpConfig, TxFrames,
};
use lb::io::dpdk::{DpdkConfig, DpdkIo};
use lb::io::mock::{mock_io, MockRings};
use lb::io::mock_lockfree::{mock_io_lockfree, unpack};
use lb::io::packet_buf::{PacketBuf, PACKET_BUF_SIZE};
use lb::io::packet_io::{IoErrorKind, PacketIo};

#[test]
fn packet_buf_from_slice() {
    let data = b"hello world";
    let buf = PacketBuf::from_slice(data);
    assert_eq!(buf.len, 11);
    assert_eq!(buf.as_slice(), data);
}

#[test]
fn packet_buf_default_is_empty() {
    let buf = PacketBuf::new();
    assert_eq!(buf.len, 0);
    assert_eq!(buf.as_slice(), &[] as &[u8]);
}

#[test]
fn packet_buf_oversized_slice_truncates() {
    let data = vec![0xAA; PACKET_BUF_SIZE + 100];
    let buf = PacketBuf::from_slice(&data);
    assert_eq!(buf.len, PACKET_BUF_SIZE);
}

#[test]
fn round_trip() {
    let (mut io, handle) = mock_io();

    for i in 0..10 {
        handle.inject_packet(&[i; 64]);
    }

    let mut buf = vec![PacketBuf::new(); 16];
    let n = io.recv_batch(&mut buf).unwrap();
    assert_eq!(n, 10);

    for (i, entry) in buf.iter().enumerate().take(10) {
        assert_eq!(entry.as_slice(), &[i as u8; 64]);
    }
}

#[test]
fn empty_recv_returns_zero() {
    let (mut io, _handle) = mock_io();
    let mut buf = vec![PacketBuf::new(); 8];
    let n = io.recv_batch(&mut buf).unwrap();
    assert_eq!(n, 0);
}

#[test]
fn send_then_read() {
    let (mut io, handle) = mock_io();

    let pkts = vec![
        PacketBuf::from_slice(&[1, 2, 3]),
        PacketBuf::from_slice(&[4, 5, 6]),
    ];
    let sent = io.send_batch(&pkts).unwrap();
    assert_eq!(sent, 2);
    assert_eq!(handle.tx_count(), 2);

    let pkt1 = handle.read_transmitted().unwrap();
    assert_eq!(pkt1, vec![1, 2, 3]);
    let pkt2 = handle.read_transmitted().unwrap();
    assert_eq!(pkt2, vec![4, 5, 6]);
    assert!(handle.read_transmitted().is_none());
}

#[test]
fn recv_limited_by_buffer_size() {
    let (mut io, handle) = mock_io();
    for _ in 0..10 {
        handle.inject_packet(&[0xAA; 32]);
    }

    let mut buf = vec![PacketBuf::new(); 3];
    let n = io.recv_batch(&mut buf).unwrap();
    assert_eq!(n, 3);
    assert_eq!(handle.rx_count(), 7); // 7 remaining
}

#[test]
fn packet_bufs_can_be_written_in_place() {
    let mut buf = PacketBuf::from_slice(&[1, 2, 3]);
    buf.as_mut_slice()[1] = 9;
    assert_eq!(buf.as_slice(), &[1, 9, 3]);
    assert_eq!(PacketBuf::default().as_slice().len(), 0);
}

#[test]
fn rings_keep_the_order_of_packets() {
    let mut rings = MockRings::new();
    rings.inject(&[1]);
    rings.inject(&[2, 2]);
    assert_eq!(rings.rx_len(), 2);
    let mut buf = vec![PacketBuf::new(); 4];
    assert_eq!(rings.receive(&mut buf), 2);
    assert_eq!(buf[0].as_slice(), &[1]);
    assert_eq!(buf[1].as_slice(), &[2, 2]);
    assert_eq!(rings.transmit(&buf), 2);
    assert_eq!(rings.tx_len(), 2);
    assert_eq!(rings.take_transmitted(), Some(vec![1]));
    assert_eq!(rings.take_transmitted(), Some(vec![2, 2]));
    assert_eq!(rings.take_transmitted(), None);
}

#[test]
fn the_default_af_xdp_layout_is_valid() {
    let config = AfXdpConfig::default();
    assert!(config.validate().is_ok());
    assert_eq!(config.umem_bytes(), 4096 * 2048);
    assert_eq!(config.fill_addresses().len(), 2048);
    assert_eq!(config.fill_addresses()[3], 3 * 2048);
}

#[test]
fn af_xdp_layouts_are_checked() {
    let small = AfXdpConfig {
        frame_size: 1024,
        ..AfXdpConfig::default()
    };
    let e = small.validate().unwrap_err();
    assert_eq!(e.kind, IoErrorKind::InvalidInput);
    assert_eq!(
        e.message,
        "frame_size (1024) must be >= PACKET_BUF_SIZE (2048)"
    );
    let odd = AfXdpConfig {
        num_frames: 4097,
        ..AfXdpConfig::default()
    };
    assert_eq!(
        odd.validate().unwrap_err().message,
        "num_frames must be a power of two"
    );
    let few = AfXdpConfig {
        num_frames: 2048,
        ..AfXdpConfig::default()
    };
    assert_eq!(
        few.validate().unwrap_err().message,
        "num_frames must be >= 2 * ring_size to fit RX + TX pools"
    );
}

#[test]
fn frames_and_addresses_match() {
    assert_eq!(frame_idx_to_addr(5, 2048), 10240);
    assert_eq!(addr_to_frame_idx(10240 + 256, 2048), 5);
    assert_eq!(
        recycled_addresses(&[(256, 60), (2048 + 256, 60)], 2048),
        vec![0, 2048]
    );
    assert_eq!(received_len(60), 60);
    assert_eq!(received_len(5000), PACKET_BUF_SIZE);
}

#[test]
fn transmit_frames_are_claimed_and_reclaimed() {
    let config = AfXdpConfig {
        num_frames: 4,
        ring_size: 2,
        ..AfXdpConfig::default()
    };
    let mut frames = TxFrames::new(&config);
    assert_eq!(frames.outstanding(), 0);
    let packets = [
        PacketBuf::from_slice(&[1; 100]),
        PacketBuf::from_slice(&[2; 60]),
        PacketBuf::from_slice(&[3; 20]),
    ];
    // Two frames are free, so the third packet has to wait.
    let claimed = frames.claim(&packets);
    assert_eq!(claimed.len(), 2);
    assert_eq!((claimed[0].frame, claimed[0].addr, claimed[0].len), (2, 4096, 100));
    assert_eq!((claimed[1].frame, claimed[1].addr, claimed[1].len), (3, 6144, 60));
    assert!(frames.claim(&packets[2..]).is_empty());
    assert_eq!(frames.outstanding(), 2);
    // A completed address may point into the middle of its frame.
    frames.reclaim(&[claimed[1].addr + 14]);
    assert_eq!(frames.outstanding(), 1);
    assert_eq!(frames.claim(&packets[2..])[0].frame, 3);
    frames.reclaim(&[claimed[0].addr, claimed[1].addr]);
    assert_eq!(frames.outstanding(), 0);
}

#[test]
fn dpdk_backends_remember_their_port_and_queue() {
    let config = DpdkConfig::default();
    let io = DpdkIo::new(&config, 3).unwrap();
    assert_eq!(io.binding(), (config.port_id, 3));
}

#[test]
fn lock_free_rings_carry_packets_both_ways() {
    let (mut io, handle) = mock_io_lockfree();
    handle.inject_packet(&[1, 2, 3]);
    handle.inject_packet(&[4]);
    let mut buf = vec![PacketBuf::new(); 4];
    assert_eq!(io.recv_batch(&mut buf).unwrap(), 2);
    assert_eq!(buf[0].as_slice(), &[1, 2, 3]);
    assert_eq!(buf[1].as_slice(), &[4]);
    assert_eq!(io.recv_batch(&mut buf).unwrap(), 0);
    // Empty buffers are not sent.
    assert_eq!(io.send_batch(&buf).unwrap(), 2);
    assert_eq!(handle.tx_count(), 2);
    assert_eq!(handle.read_transmitted().unwrap().as_slice(), &[1, 2, 3]);
    assert_eq!(handle.read_transmitted().unwrap().as_slice(), &[4]);
    assert!(handle.read_transmitted().is_none());
    assert_eq!(handle.tx_count(), 2);
}

#[test]
fn full_lock_free_rings_drop_packets() {
    let (mut io, handle) = mock_io_lockfree();
    for _ in 0..8200 {
        handle.inject_packet(&[7]);
    }
    let mut buf = vec![PacketBuf::new(); 9000];
    assert_eq!(io.recv_batch(&mut buf).unwrap(), 8192);
}

#[test]
fn packets_from_a_ring_are_unpacked() {
    let mut packet = PacketBuf::from_slice(&[1, 2, 3]);
    packet.data[7] = 9; // behind the packet
    let got = unpack(Some(packet)).unwrap();
    assert_eq!(got.as_slice(), &[1, 2, 3]);
    assert_eq!(got.data[7], 9);
    packet.len = PACKET_BUF_SIZE + 1;
    assert_eq!(unpack(Some(packet)).unwrap().len, PACKET_BUF_SIZE);
    assert!(unpack(None).is_none());
}

#[test]
fn a_lock_free_ring_carries_whole_buffers() {
    let (mut io, handle) = mock_io_lockfree();
    let mut packet = PacketBuf::from_slice(&[1, 2, 3]);
    packet.data[7] = 9;
    assert_eq!(io.send_batch(&[packet]).unwrap(), 1);
    let sent = handle.read_transmitted().unwrap();
    assert_eq!(sent.as_slice(), &[1, 2, 3]);
    assert_eq!(sent.data[7], 9);
}

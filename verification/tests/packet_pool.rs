use lb::forwarder::packet_pool::{Frame, FrameQueue, PacketPool};
use lb::io::packet_buf::PACKET_BUF_SIZE;

#[test]
fn alloc_and_free() {
    let mut pool = PacketPool::new(4);
    assert_eq!(pool.available(), 4);

    let idx = pool.allocate().unwrap();
    assert_eq!(pool.available(), 3);

    pool.free(idx);
    assert_eq!(pool.available(), 4);
}

#[test]
fn exhaust_pool() {
    let mut pool = PacketPool::new(2);
    let _a = pool.allocate().unwrap();
    let _b = pool.allocate().unwrap();
    assert!(pool.allocate().is_none());
}

#[test]
fn write_and_read_frame() {
    let mut pool = PacketPool::new(1);
    let idx = pool.allocate().unwrap();

    let frame = pool.get_mut(idx);
    frame.write_from(&[0x45, 0x00, 0x00, 0x28]);
    assert_eq!(frame.len, 4);
    assert_eq!(&frame.as_slice()[..4], &[0x45, 0x00, 0x00, 0x28]);

    pool.free(idx);
}

#[test]
fn frames_are_independent() {
    let mut pool = PacketPool::new(2);
    let a = pool.allocate().unwrap();
    let b = pool.allocate().unwrap();

    pool.get_mut(a).write_from(&[0xAA; 10]);
    pool.get_mut(b).write_from(&[0xBB; 10]);

    assert_eq!(pool.get(a).as_slice(), &[0xAA; 10]);
    assert_eq!(pool.get(b).as_slice(), &[0xBB; 10]);

    pool.free(a);
    pool.free(b);
}

#[test]
fn freed_frames_come_back_in_order() {
    let mut pool = PacketPool::new(3);
    assert_eq!(pool.capacity(), 3);
    let a = pool.allocate().unwrap();
    let b = pool.allocate().unwrap();
    let c = pool.allocate().unwrap();
    assert_eq!((a, b, c), (0, 1, 2));
    pool.free(b);
    pool.free(a);
    assert_eq!(pool.allocate(), Some(b));
    assert_eq!(pool.allocate(), Some(a));
    assert_eq!(pool.allocate(), None);
}

#[test]
fn a_full_queue_hands_the_index_back() {
    let mut q = FrameQueue::new(2);
    assert_eq!(q.push(7), Ok(()));
    assert_eq!(q.push(8), Ok(()));
    assert_eq!(q.push(9), Err(9));
    assert_eq!(q.len(), 2);
    assert_eq!(q.pop(), Some(7));
    assert_eq!(q.pop(), Some(8));
    assert_eq!(q.pop(), None);
}

#[test]
fn long_packets_are_cut_to_the_frame() {
    let mut frame = Frame::new();
    frame.write_from(&[0x11; PACKET_BUF_SIZE + 5]);
    assert_eq!(frame.as_slice().len(), PACKET_BUF_SIZE);
}

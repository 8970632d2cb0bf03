//! Lock-free in-memory packet I/O: atomic ring buffers instead of a lock.
//! Suitable for benchmarks where lock overhead would distort measurements.

use std::sync::atomic::{AtomicUsize, Ordering};
use std::sync::Arc;

use crossbeam::queue::ArrayQueue;
use vstd::prelude::*;

use crate::io::mock::nonempty;
use crate::io::packet_buf::{packets_of, PacketBuf, PACKET_BUF_SIZE};
use crate::io::packet_io::{buffers_wf, IoError, PacketIo};

verus! {

/// How many packets each ring holds.
pub const LOCKFREE_RING_SIZE: usize = 8192;

/// Calls `crossbeam::queue::ArrayQueue::new`. The ring is shared by two sides,
/// so nothing is claimed of what it holds.
#[verifier::external_body]
fn ring_new(cap: usize) -> (q: ArrayQueue<PacketBuf>)
    requires
        cap == LOCKFREE_RING_SIZE,
{
    ArrayQueue::new(cap)
}

/// Calls `crossbeam::queue::ArrayQueue::push` on a shared ring. Claims that a
/// packet that finds no room comes back. Whether there is room depends on the
/// other side and is left unsaid.
#[verifier::external_body]
fn ring_push(q: &ArrayQueue<PacketBuf>, packet: PacketBuf) -> (r: Result<(), PacketBuf>)
    ensures
        r is Err ==> r->Err_0 == packet,
{
    q.push(packet)
}

/// Calls `crossbeam::queue::ArrayQueue::pop` on a shared ring. Which packet
/// comes out depends on the other side, so nothing is claimed of it.
#[verifier::external_body]
fn ring_pop(q: &ArrayQueue<PacketBuf>) -> (r: Option<PacketBuf>) {
    q.pop()
}

/// What is made of the outcome of taking a packet from a ring: the packet, with
/// its length held within its buffer, or nothing if there was none.
pub fn unpack(popped: Option<PacketBuf>) -> (r: Option<PacketBuf>)
    ensures
        match popped {
            Some(packet) => r == Some(
                PacketBuf {
                    data: packet.data,
                    len: if packet.len <= PACKET_BUF_SIZE {
                        packet.len
                    } else {
                        PACKET_BUF_SIZE
                    },
                },
            ),
            None => r is None,
        },
{
    match popped {
        Some(packet) => Some(
            if packet.len <= PACKET_BUF_SIZE {
                packet
            } else {
                PacketBuf { data: packet.data, len: PACKET_BUF_SIZE }
            },
        ),
        None => None,
    }
}

/// The rings that both sides share.
struct Rings {
    rx: ArrayQueue<PacketBuf>,
    tx: ArrayQueue<PacketBuf>,
    sent: AtomicUsize,
}

/// Lock-free I/O side used by the forwarder (implements PacketIo).
pub struct MockIoLockFree {
    rings: Arc<Rings>,
    /// What came of each time that a batch was asked for.
    polled: Ghost<Seq<Option<Seq<Seq<u8>>>>>,
    /// The batches that were handed in.
    handed: Ghost<Seq<Seq<Seq<u8>>>>,
}

/// Lock-free test-side handle for injecting and reading packets. What it sees
/// depends on what the other side did meanwhile.
pub struct MockIoLockFreeHandle {
    rings: Arc<Rings>,
}

impl MockIoLockFree {
    /// Whether both sides work on the same rings.
    pub closed spec fn shares(self, handle: MockIoLockFreeHandle) -> bool {
        self.rings == handle.rings
    }
}

/// Create a paired lock-free MockIo + handle.
///
/// Uses crossbeam `ArrayQueue` (lock-free bounded MPMC), eliminating artificial
/// lock contention in benchmarks. This reflects production topology where NIC
/// rings are lockless.
pub fn mock_io_lockfree() -> (r: (MockIoLockFree, MockIoLockFreeHandle))
    ensures
        r.0.shares(r.1),
        r.0.polled() == Seq::<Option<Seq<Seq<u8>>>>::empty(),
        r.0.handed() == Seq::<Seq<Seq<u8>>>::empty(),
{
    let rings = Arc::new(
        Rings {
            rx: ring_new(LOCKFREE_RING_SIZE),
            tx: ring_new(LOCKFREE_RING_SIZE),
            sent: AtomicUsize::new(0),
        },
    );
    let other = rings.clone();
    let io = MockIoLockFree {
        rings: other,
        polled: Ghost(Seq::empty()),
        handed: Ghost(Seq::empty()),
    };
    (io, MockIoLockFreeHandle { rings })
}

impl MockIoLockFreeHandle {
    /// Inject a packet into the RX ring (will be received by the forwarder), if
    /// there is room.
    pub fn inject_packet(&self, data: &[u8]) {
        let _ = ring_push(&self.rings.rx, PacketBuf::from_slice(data));
    }

    /// Read a transmitted packet from the TX ring.
    pub fn read_transmitted(&self) -> (r: Option<PacketBuf>)
        ensures
            r matches Some(p) ==> p.wf(),
    {
        unpack(ring_pop(&self.rings.tx))
    }

    /// Number of packets transmitted (monotonically increasing).
    pub fn tx_count(&self) -> (n: usize) {
        self.rings.sent.load(Ordering::Relaxed)
    }
}

impl MockIoLockFree {
    fn count_sent(&self, n: usize) {
        let _ = self.rings.sent.fetch_add(n, Ordering::Relaxed);
    }
}

impl PacketIo for MockIoLockFree {
    closed spec fn polled(&self) -> Seq<Option<Seq<Seq<u8>>>> {
        self.polled@
    }

    closed spec fn handed(&self) -> Seq<Seq<Seq<u8>>> {
        self.handed@
    }

    fn recv_batch(&mut self, buf: &mut [PacketBuf]) -> (r: Result<usize, IoError>)
        ensures
            r is Ok,
            forall|i: int|
                0 <= i < r->Ok_0 ==> (#[trigger] final(buf)@[i]).wf(),
            forall|i: int|
                r->Ok_0 <= i < final(buf)@.len() ==> final(buf)@[i] == old(buf)@[i],
    {
        let mut count: usize = 0;
        let n: usize = buf.len();
        while count < n
            invariant
                count <= n,
                n == buf@.len(),
                buf@.len() == old(buf)@.len(),
                forall|i: int| 0 <= i < count ==> (#[trigger] buf@[i]).wf(),
                forall|i: int| count <= i < n ==> (#[trigger] buf@[i]) == old(buf)@[i],
            ensures
                count <= n,
                n == buf@.len(),
                buf@.len() == old(buf)@.len(),
                forall|i: int| 0 <= i < count ==> (#[trigger] buf@[i]).wf(),
                forall|i: int| count <= i < n ==> (#[trigger] buf@[i]) == old(buf)@[i],
            decreases n - count,
        {
            match unpack(ring_pop(&self.rings.rx)) {
                Some(packet) => {
                    buf[count] = packet;
                    count = count + 1;
                },
                None => {
                    break ;
                },
            }
        }
        assert forall|i: int| 0 <= i < buf@.len() && buffers_wf(old(buf)@) implies (
        #[trigger] buf@[i]).wf() by {
            if i >= count {
                assert(old(buf)@[i].wf());
            }
        }
        self.polled = Ghost(self.polled@.push(Some(packets_of(buf@.take(count as int)))));
        Ok(count)
    }

    fn send_batch(&mut self, buf: &[PacketBuf]) -> (r: Result<usize, IoError>)
        ensures
            r matches Ok(n) && n == nonempty(buf@).len(),
    {
        let mut count: usize = 0;
        let mut i: usize = 0;
        while i < buf.len()
            invariant
                i <= buf@.len(),
                count <= i,
                count == nonempty(buf@.take(i as int)).len(),
                buffers_wf(buf@),
            decreases buf@.len() - i,
        {
            assert(buf@.take(i + 1).drop_last() =~= buf@.take(i as int));
            assert(buf@[i as int].wf());
            if buf[i].len > 0 {
                let _ = ring_push(&self.rings.tx, buf[i]);
                count = count + 1;
            }
            i = i + 1;
        }
        assert(buf@.take(i as int) =~= buf@);
        self.count_sent(count);
        self.handed = Ghost(self.handed@.push(packets_of(buf@)));
        Ok(count)
    }
}

} // verus!

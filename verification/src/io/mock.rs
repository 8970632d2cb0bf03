//! In-memory packet I/O for tests and local development.

use std::collections::VecDeque;
use std::sync::Arc;

use vstd::prelude::*;
use vstd::rwlock::{RwLock, RwLockPredicate};

use crate::io::packet_buf::{packets_of, PacketBuf, PACKET_BUF_SIZE};
use crate::io::packet_io::{buffers_wf, IoError, PacketIo};

verus! {

/// What the two queues of a mock device hold, oldest packet first.
pub struct RingsView {
    pub rx: Seq<Seq<u8>>,
    pub tx: Seq<Seq<u8>>,
}

/// The receive and transmit queue of a mock device.
pub struct MockRings {
    rx: VecDeque<Vec<u8>>,
    tx: VecDeque<Vec<u8>>,
}

/// The bytes of some packets.
pub open spec fn byte_seqs(packets: Seq<Vec<u8>>) -> Seq<Seq<u8>> {
    Seq::new(packets.len(), |i: int| packets[i]@)
}

impl View for MockRings {
    type V = RingsView;

    closed spec fn view(&self) -> RingsView {
        RingsView { rx: byte_seqs(self.rx@), tx: byte_seqs(self.tx@) }
    }
}

/// What a buffer holds of a packet: as much as fits.
pub open spec fn fitted(packet: Seq<u8>) -> Seq<u8> {
    if packet.len() <= PACKET_BUF_SIZE {
        packet
    } else {
        packet.take(PACKET_BUF_SIZE as int)
    }
}

/// The packets of a batch that are sent: those that are not empty.
pub open spec fn nonempty(bufs: Seq<PacketBuf>) -> Seq<Seq<u8>>
    decreases bufs.len(),
{
    if bufs.len() == 0 {
        Seq::empty()
    } else if bufs.last().len > 0 {
        nonempty(bufs.drop_last()).push(bufs.last()@)
    } else {
        nonempty(bufs.drop_last())
    }
}

/// What a batch of `room` buffers receives of a queue.
pub open spec fn delivered(queued: Seq<Seq<u8>>, room: nat) -> Seq<Seq<u8>> {
    Seq::new(received_count(queued.len(), room), |i: int| fitted(queued[i]))
}

/// How many packets of a queue a batch of `room` buffers receives.
pub open spec fn received_count(queued: nat, room: nat) -> nat {
    if queued < room {
        queued
    } else {
        room
    }
}

/// Copies some bytes.
fn copy_bytes(data: &[u8]) -> (v: Vec<u8>)
    ensures
        v@ == data@,
{
    let mut v: Vec<u8> = Vec::with_capacity(data.len());
    let mut i: usize = 0;
    while i < data.len()
        invariant
            i <= data@.len(),
            v@ == data@.take(i as int),
        decreases data@.len() - i,
    {
        v.push(data[i]);
        i = i + 1;
        assert(v@ =~= data@.take(i as int));
    }
    assert(data@.take(i as int) =~= data@);
    v
}

impl MockRings {
    pub fn new() -> (r: MockRings)
        ensures
            r@.rx == Seq::<Seq<u8>>::empty(),
            r@.tx == Seq::<Seq<u8>>::empty(),
    {
        let r = MockRings { rx: VecDeque::new(), tx: VecDeque::new() };
        assert(r@.rx =~= Seq::<Seq<u8>>::empty());
        assert(r@.tx =~= Seq::<Seq<u8>>::empty());
        r
    }

    /// Puts a packet at the back of the receive queue.
    pub fn inject(&mut self, data: &[u8])
        ensures
            final(self)@.rx == old(self)@.rx.push(data@),
            final(self)@.tx == old(self)@.tx,
    {
        self.rx.push_back(copy_bytes(data));
        assert(self@.rx =~= old(self)@.rx.push(data@));
    }

    /// Takes the packet at the front of the transmit queue.
    pub fn take_transmitted(&mut self) -> (r: Option<Vec<u8>>)
        ensures
            final(self)@.rx == old(self)@.rx,
            match r {
                Some(p) => old(self)@.tx.len() > 0 && p@ == old(self)@.tx[0] && final(self)@.tx
                    == old(self)@.tx.drop_first(),
                None => old(self)@.tx.len() == 0 && final(self)@.tx == old(self)@.tx,
            },
    {
        let r = self.tx.pop_front();
        assert(r is Some ==> self@.tx =~= old(self)@.tx.drop_first());
        r
    }

    /// Number of packets in the transmit queue.
    pub fn tx_len(&self) -> (n: usize)
        ensures
            n == self@.tx.len(),
    {
        self.tx.len()
    }

    /// Number of packets in the receive queue.
    pub fn rx_len(&self) -> (n: usize)
        ensures
            n == self@.rx.len(),
    {
        self.rx.len()
    }

    /// Moves packets from the receive queue into buffers, as many as there are
    /// packets and buffers. Returns how many.
    pub fn receive(&mut self, buf: &mut [PacketBuf]) -> (n: usize)
        ensures
            n == received_count(old(self)@.rx.len(), old(buf)@.len()),
            final(self)@.tx == old(self)@.tx,
            final(self)@.rx == old(self)@.rx.skip(n as int),
            final(buf)@.len() == old(buf)@.len(),
            forall|i: int|
                0 <= i < n ==> (#[trigger] final(buf)@[i]).wf() && final(buf)@[i]@ == delivered(
                    old(self)@.rx,
                    old(buf)@.len(),
                )[i],
            forall|i: int| n <= i < final(buf)@.len() ==> final(buf)@[i] == old(buf)@[i],
    {
        let ghost queued = self@.rx;
        let ghost sent = self@.tx;
        let total: usize = buf.len();
        let mut n: usize = 0;
        assert(queued.skip(0) =~= queued);
        while n < total
            invariant
                n <= total,
                n <= queued.len(),
                total == buf@.len(),
                total == old(buf)@.len(),
                queued == old(self)@.rx,
                sent == old(self)@.tx,
                self@.tx == sent,
                self@.rx == queued.skip(n as int),
                forall|i: int|
                    0 <= i < n ==> (#[trigger] buf@[i]).wf() && buf@[i]@ == fitted(queued[i]),
                forall|i: int| n <= i < total ==> buf@[i] == old(buf)@[i],
            decreases total - n,
        {
            let ghost before = self@.rx;
            let ghost raw = self.rx@;
            match self.rx.pop_front() {
                Some(data) => {
                    proof {
                        assert(raw.len() > 0);
                        assert(before.len() == raw.len());
                        assert(before[0] == raw[0]@);
                        assert(self.rx@ =~= raw.drop_first());
                        assert(before[0] == queued[n as int]);
                        assert forall|i: int| 0 <= i < self@.rx.len() implies self@.rx[i]
                            == queued.skip(n + 1)[i] by {
                            assert(self.rx@[i] == raw[i + 1]);
                            assert(before[i + 1] == raw[i + 1]@);
                        }
                        assert(self@.rx =~= queued.skip(n + 1));
                    }
                    buf[n] = PacketBuf::from_slice(data.as_slice());
                    n = n + 1;
                },
                None => {
                    assert(raw.len() == 0);
                    assert(before.len() == 0);
                    return n;
                },
            }
        }
        n
    }

    /// Puts the packets that are not empty at the back of the transmit queue.
    /// Returns how many.
    pub fn transmit(&mut self, buf: &[PacketBuf]) -> (n: usize)
        requires
            buffers_wf(buf@),
        ensures
            n == nonempty(buf@).len(),
            n <= buf@.len(),
            final(self)@.rx == old(self)@.rx,
            final(self)@.tx == old(self)@.tx + nonempty(buf@),
    {
        let ghost start = self@.tx;
        let mut n: usize = 0;
        let mut i: usize = 0;
        assert(start + nonempty(buf@.take(0)) =~= start);
        while i < buf.len()
            invariant
                i <= buf@.len(),
                n <= i,
                buffers_wf(buf@),
                start == old(self)@.tx,
                self@.rx == old(self)@.rx,
                n == nonempty(buf@.take(i as int)).len(),
                self@.tx == start + nonempty(buf@.take(i as int)),
            decreases buf@.len() - i,
        {
            proof {
                assert(buf@.take(i + 1).drop_last() =~= buf@.take(i as int));
            }
            let pkt: &PacketBuf = &buf[i];
            let ghost before = self@;
            if pkt.len > 0 {
                self.tx.push_back(copy_bytes(pkt.as_slice()));
                n = n + 1;
                proof {
                    assert(self@.tx =~= before.tx.push(pkt@));
                    assert(self@.tx =~= start + nonempty(buf@.take(i + 1)));
                }
            }
            i = i + 1;
        }
        assert(buf@.take(i as int) =~= buf@);
        n
    }
}

/// What goes in comes out: packets that were injected are received in order,
/// up to the size of a buffer each, and those for which there is no room stay
/// queued.
pub proof fn injected_packets_are_received(queued: Seq<Seq<u8>>, room: nat)
    ensures
        ({
            let got = delivered(queued, room);
            let left = queued.skip(got.len() as int);
            &&& got.len() <= room
            &&& got.len() + left.len() == queued.len()
            &&& queued.len() <= room ==> left.len() == 0
            &&& forall|i: int|
                0 <= i < got.len() && (#[trigger] queued[i]).len() <= PACKET_BUF_SIZE ==> got[i]
                    == queued[i]
        }),
{
}

/// Whether a packet can have been transmitted: it is not empty and fits a
/// buffer.
pub open spec fn transmittable(packet: Seq<u8>) -> bool {
    0 < packet.len() <= PACKET_BUF_SIZE
}

/// What holds of the rings while they are shared: only packets that can have
/// been transmitted wait in the transmit queue.
pub struct SharedRings;

impl RwLockPredicate<MockRings> for SharedRings {
    open spec fn inv(self, v: MockRings) -> bool {
        forall|i: int| 0 <= i < v@.tx.len() ==> transmittable(#[trigger] v@.tx[i])
    }
}

proof fn lemma_nonempty_transmittable(bufs: Seq<PacketBuf>)
    requires
        buffers_wf(bufs),
    ensures
        forall|i: int|
            0 <= i < nonempty(bufs).len() ==> transmittable(#[trigger] nonempty(bufs)[i]),
    decreases bufs.len(),
{
    if bufs.len() > 0 {
        let p = bufs.drop_last();
        assert forall|i: int| 0 <= i < p.len() implies (#[trigger] p[i]).wf() by {
            assert(bufs[i].wf());
        }
        lemma_nonempty_transmittable(p);
        let last = bufs[bufs.len() - 1];
        assert(last.wf());
        assert(last.len > 0 ==> transmittable(last@));
        assert forall|i: int| 0 <= i < nonempty(bufs).len() implies transmittable(
            #[trigger] nonempty(bufs)[i],
        ) by {
            if i < nonempty(p).len() {
                assert(nonempty(bufs)[i] == nonempty(p)[i]);
            }
        }
    }
}

/// The I/O side used by the forwarder (implements PacketIo).
pub struct MockIo {
    rings: Arc<RwLock<MockRings, SharedRings>>,
    /// What came of each time that a batch was asked for.
    polled: Ghost<Seq<Option<Seq<Seq<u8>>>>>,
    /// The batches that were handed in.
    handed: Ghost<Seq<Seq<Seq<u8>>>>,
}

/// The test-side handle for injecting and reading packets.
///
/// The rings are shared with a [`MockIo`], so what a call finds in them
/// depends on what the other side did meanwhile; [`MockRings`] says what each
/// operation does to them.
pub struct MockIoHandle {
    rings: Arc<RwLock<MockRings, SharedRings>>,
}

/// Create a paired MockIo + MockIoHandle.
pub fn mock_io() -> (r: (MockIo, MockIoHandle))
    ensures
        r.0.shares(r.1),
        r.0.polled() == Seq::<Option<Seq<Seq<u8>>>>::empty(),
        r.0.handed() == Seq::<Seq<Seq<u8>>>::empty(),
{
    let rings = Arc::new(RwLock::new(MockRings::new(), Ghost(SharedRings)));
    let other = rings.clone();
    let io = MockIo {
        rings: other,
        polled: Ghost(Seq::empty()),
        handed: Ghost(Seq::empty()),
    };
    (io, MockIoHandle { rings })
}

impl MockIo {
    /// Whether both sides work on the same rings.
    pub closed spec fn shares(self, handle: MockIoHandle) -> bool {
        self.rings == handle.rings
    }
}

impl MockIoHandle {
    /// Inject a packet into the RX queue (will be received by the forwarder).
    pub fn inject_packet(&self, data: &[u8]) {
        let (mut rings, handle) = self.rings.acquire_write();
        rings.inject(data);
        handle.release_write(rings);
    }

    /// Read a transmitted packet from the TX queue.
    pub fn read_transmitted(&self) -> (r: Option<Vec<u8>>)
        ensures
            r matches Some(p) ==> transmittable(p@),
    {
        let (mut rings, handle) = self.rings.acquire_write();
        let r = rings.take_transmitted();
        handle.release_write(rings);
        r
    }

    /// Number of packets in the TX queue.
    pub fn tx_count(&self) -> (n: usize) {
        let (rings, handle) = self.rings.acquire_write();
        let n: usize = rings.tx_len();
        handle.release_write(rings);
        n
    }

    /// Number of packets in the RX queue.
    pub fn rx_count(&self) -> (n: usize) {
        let (rings, handle) = self.rings.acquire_write();
        let n: usize = rings.rx_len();
        handle.release_write(rings);
        n
    }
}

impl PacketIo for MockIo {
    closed spec fn polled(&self) -> Seq<Option<Seq<Seq<u8>>>> {
        self.polled@
    }

    closed spec fn handed(&self) -> Seq<Seq<Seq<u8>>> {
        self.handed@
    }

    fn recv_batch(&mut self, buf: &mut [PacketBuf]) -> (r: Result<usize, IoError>)
        ensures
            r is Ok,
            forall|i: int| 0 <= i < r->Ok_0 ==> (#[trigger] final(buf)@[i]).wf(),
            forall|i: int|
                r->Ok_0 <= i < final(buf)@.len() ==> final(buf)@[i] == old(buf)@[i],
    {
        let (mut rings, handle) = self.rings.acquire_write();
        let n: usize = rings.receive(buf);
        handle.release_write(rings);
        proof {
            assert forall|i: int| 0 <= i < buf@.len() && buffers_wf(old(buf)@) implies (
            #[trigger] buf@[i]).wf() by {
                if i >= n {
                    assert(old(buf)@[i].wf());
                }
            }
        }
        self.polled = Ghost(self.polled@.push(Some(packets_of(buf@.take(n as int)))));
        Ok(n)
    }

    fn send_batch(&mut self, buf: &[PacketBuf]) -> (r: Result<usize, IoError>)
        ensures
            r matches Ok(n) && n == nonempty(buf@).len(),
    {
        let (mut rings, handle) = self.rings.acquire_write();
        let ghost before = rings@.tx;
        let n: usize = rings.transmit(buf);
        proof {
            lemma_nonempty_transmittable(buf@);
            assert forall|i: int| 0 <= i < rings@.tx.len() implies transmittable(
                #[trigger] rings@.tx[i],
            ) by {
                if i < before.len() {
                    assert(transmittable(before[i]));
                }
            }
        }
        handle.release_write(rings);
        self.handed = Ghost(self.handed@.push(packets_of(buf@)));
        Ok(n)
    }
}

} // verus!

//! Frame bookkeeping of the AF_XDP packet I/O backend.
//!
//! The UMEM area is split into frames. The first frames (as many as the ring
//! has slots) are handed to the kernel through the FILL ring for receiving;
//! the others are held back for transmitting, so that the two paths cannot
//! starve each other. Received frames go back to FILL, transmitted frames come
//! back through COMPLETION.

use std::collections::VecDeque;

use vstd::arithmetic::div_mod::lemma_fundamental_div_mod_converse;
use vstd::prelude::*;

use crate::base::power::{is_power_of_two, power_of_two};
use crate::base::text::{decimal, push_decimal};
use crate::io::packet_buf::{PacketBuf, PACKET_BUF_SIZE};
use crate::io::packet_io::{IoError, IoErrorKind};

verus! {

/// Default UMEM frame size. Matches `PACKET_BUF_SIZE` so a packet
/// fits in a single frame. Must be a power of two and ≥ 2048 for
/// modern kernels.
pub const DEFAULT_FRAME_SIZE: u32 = 2048;

/// Default total UMEM frames (4096 × 2048 = 8 MiB). Half used for
/// FILL pre-fill, half held for TX.
pub const DEFAULT_NUM_FRAMES: u32 = 4096;

/// Default size of the RX/TX rings. Must be a power of two.
pub const DEFAULT_RING_SIZE: u32 = 2048;

/// Configuration for the AF_XDP socket.
#[derive(Debug)]
pub struct AfXdpConfig {
    /// Network interface name (e.g., "eth0").
    pub iface: String,
    /// Queue ID to bind to. One AF_XDP socket per (iface, queue_id);
    /// multi-queue NICs should run one rewriter per queue.
    pub queue_id: u32,
    /// Number of frames in the UMEM area. Must be a power of two and
    /// at least `2 × ring_size` so RX and TX pools can each be sized
    /// to a full ring.
    pub num_frames: u32,
    /// Size of each frame. Must be ≥ `PACKET_BUF_SIZE`.
    pub frame_size: u32,
    /// Size of the RX and TX rings (slots per ring).
    pub ring_size: u32,
    /// Path to the pinned XSKMAP that the XDP redirect program is
    /// using to dispatch packets. `None` means "operator populated the map
    /// by hand; don't touch it".
    pub xskmap_pin: Option<String>,
}

impl Default for AfXdpConfig {
    fn default() -> (c: AfXdpConfig)
        ensures
            c.iface@ == "eth0"@,
            c.queue_id == 0,
            c.num_frames == DEFAULT_NUM_FRAMES,
            c.frame_size == DEFAULT_FRAME_SIZE,
            c.ring_size == DEFAULT_RING_SIZE,
            c.xskmap_pin matches Some(p) && p@ == "/sys/fs/bpf/lb/xsks_map"@,
    {
        AfXdpConfig {
            iface: "eth0".to_owned(),
            queue_id: 0,
            num_frames: DEFAULT_NUM_FRAMES,
            frame_size: DEFAULT_FRAME_SIZE,
            ring_size: DEFAULT_RING_SIZE,
            xskmap_pin: Some("/sys/fs/bpf/lb/xsks_map".to_owned()),
        }
    }
}

/// What is wrong with the frame layout of a configuration.
pub open spec fn layout_error(c: AfXdpConfig) -> Option<Seq<char>> {
    if c.frame_size < PACKET_BUF_SIZE {
        Some(
            "frame_size ("@ + decimal(c.frame_size as int) + ") must be >= PACKET_BUF_SIZE ("@
                + decimal(PACKET_BUF_SIZE as int) + ")"@,
        )
    } else if !is_power_of_two(c.num_frames as int) {
        Some("num_frames must be a power of two"@)
    } else if c.num_frames < 2 * c.ring_size {
        Some("num_frames must be >= 2 * ring_size to fit RX + TX pools"@)
    } else {
        None
    }
}

fn invalid_input(message: String) -> (e: IoError)
    ensures
        e.kind == IoErrorKind::InvalidInput,
        e.message@ == message@,
{
    IoError { kind: IoErrorKind::InvalidInput, message }
}

impl AfXdpConfig {
    /// Checks that the frames are large enough and can be split between
    /// receiving and transmitting.
    pub fn validate(&self) -> (r: Result<(), IoError>)
        ensures
            match r {
                Ok(_) => layout_error(*self) is None,
                Err(e) => e.kind == IoErrorKind::InvalidInput && layout_error(*self) == Some(
                    e.message@,
                ),
            },
    {
        if (self.frame_size as u64) < PACKET_BUF_SIZE as u64 {
            let mut m = "frame_size (".to_owned();
            push_decimal(&mut m, self.frame_size as u64);
            m.append(") must be >= PACKET_BUF_SIZE (");
            push_decimal(&mut m, PACKET_BUF_SIZE as u64);
            m.append(")");
            return Err(invalid_input(m));
        }
        if !power_of_two(self.num_frames as u64) {
            return Err(invalid_input("num_frames must be a power of two".to_owned()));
        }
        if (self.num_frames as u64) < 2 * self.ring_size as u64 {
            return Err(
                invalid_input(
                    "num_frames must be >= 2 * ring_size to fit RX + TX pools".to_owned(),
                ),
            );
        }
        Ok(())
    }

    /// Bytes of UMEM to allocate.
    pub fn umem_bytes(&self) -> (n: u64)
        ensures
            n == self.num_frames * self.frame_size,
    {
        assert(self.num_frames * self.frame_size <= u32::MAX * u32::MAX) by (nonlinear_arith)
            requires
                0 <= self.num_frames <= u32::MAX,
                0 <= self.frame_size <= u32::MAX,
        ;
        self.num_frames as u64 * self.frame_size as u64
    }

    /// The addresses with which the FILL ring is seeded: the frames of the
    /// receive pool.
    pub fn fill_addresses(&self) -> (v: Vec<u64>)
        ensures
            v@.len() == self.ring_size,
            forall|i: int|
                0 <= i < self.ring_size ==> (#[trigger] v@[i]) == frame_addr(
                    i,
                    self.frame_size as int,
                ),
    {
        let mut v: Vec<u64> = Vec::new();
        let mut i: u32 = 0;
        while i < self.ring_size
            invariant
                i <= self.ring_size,
                v@.len() == i,
                forall|j: int|
                    0 <= j < i ==> (#[trigger] v@[j]) == frame_addr(j, self.frame_size as int),
            decreases self.ring_size - i,
        {
            v.push(frame_idx_to_addr(i, self.frame_size));
            i = i + 1;
        }
        v
    }
}

/// The UMEM offset of a frame.
pub open spec fn frame_addr(idx: int, frame_size: int) -> int {
    idx * frame_size
}

/// The frame that holds a UMEM offset.
pub open spec fn frame_of_addr(addr: int, frame_size: int) -> int {
    addr / frame_size
}

/// The UMEM offset of frame `idx`.
pub fn frame_idx_to_addr(idx: u32, frame_size: u32) -> (a: u64)
    ensures
        a == frame_addr(idx as int, frame_size as int),
{
    assert(idx * frame_size <= u32::MAX * u32::MAX) by (nonlinear_arith)
        requires
            0 <= idx <= u32::MAX,
            0 <= frame_size <= u32::MAX,
    ;
    idx as u64 * frame_size as u64
}

/// Convert a UMEM offset to the index of the frame containing it.
/// A descriptor's address may point into the middle of a frame (with
/// headroom); whole frames are recycled, so align down.
pub fn addr_to_frame_idx(addr: u64, frame_size: u32) -> (idx: u32)
    requires
        frame_size > 0,
        frame_of_addr(addr as int, frame_size as int) <= u32::MAX,
    ensures
        idx == frame_of_addr(addr as int, frame_size as int),
{
    (addr / frame_size as u64) as u32
}

/// Any offset within a frame belongs to that frame.
pub proof fn frame_address_round_trip(idx: int, offset: int, frame_size: int)
    requires
        0 <= idx,
        0 <= offset < frame_size,
    ensures
        frame_of_addr(frame_addr(idx, frame_size) + offset, frame_size) == idx,
{
    lemma_fundamental_div_mod_converse(idx * frame_size + offset, frame_size, idx, offset);
}

/// The addresses of the frames that some received descriptors lie in, for the
/// FILL ring.
pub fn recycled_addresses(consumed: &[(u64, u32)], frame_size: u32) -> (v: Vec<u64>)
    requires
        frame_size > 0,
    ensures
        v@.len() == consumed@.len(),
        forall|i: int|
            0 <= i < consumed@.len() ==> (#[trigger] v@[i]) == frame_addr(
                frame_of_addr(consumed@[i].0 as int, frame_size as int),
                frame_size as int,
            ),
{
    let mut v: Vec<u64> = Vec::with_capacity(consumed.len());
    let mut i: usize = 0;
    while i < consumed.len()
        invariant
            i <= consumed@.len(),
            frame_size > 0,
            v@.len() == i,
            forall|j: int|
                0 <= j < i ==> (#[trigger] v@[j]) == frame_addr(
                    frame_of_addr(consumed@[j].0 as int, frame_size as int),
                    frame_size as int,
                ),
        decreases consumed@.len() - i,
    {
        let addr: u64 = consumed[i].0;
        let q: u64 = addr / frame_size as u64;
        proof {
            vstd::arithmetic::div_mod::lemma_fundamental_div_mod(addr as int, frame_size as int);
            vstd::arithmetic::div_mod::lemma_mod_bound(addr as int, frame_size as int);
            assert(q * frame_size <= addr) by (nonlinear_arith)
                requires
                    addr as int == frame_size as int * q as int + addr as int % frame_size as int,
                    addr as int % frame_size as int >= 0,
            ;
        }
        v.push(q * frame_size as u64);
        i = i + 1;
    }
    v
}

/// How many bytes of a received descriptor a buffer takes.
pub fn received_len(len: u32) -> (n: usize)
    ensures
        n == (if len < PACKET_BUF_SIZE {
            len as int
        } else {
            PACKET_BUF_SIZE as int
        }),
{
    if (len as u64) < PACKET_BUF_SIZE as u64 {
        len as usize
    } else {
        PACKET_BUF_SIZE
    }
}

/// A transmit descriptor: where in UMEM the packet stands, and its length.
#[derive(Debug, Clone, Copy, PartialEq, Eq, Structural)]
pub struct TxDescriptor {
    pub frame: u32,
    pub addr: u64,
    pub len: u32,
}

/// The descriptor of a packet of `len` bytes in frame `frame`. What does not
/// fit the frame is cut off.
pub open spec fn descriptor_of(frame: u32, len: int, frame_size: u32) -> TxDescriptor {
    TxDescriptor {
        frame,
        addr: frame_addr(frame as int, frame_size as int) as u64,
        len: (if len < frame_size {
            len
        } else {
            frame_size as int
        }) as u32,
    }
}

/// How many of `waiting` packets find one of `free` frames.
pub open spec fn sendable(waiting: nat, free: nat) -> nat {
    if waiting < free {
        waiting
    } else {
        free
    }
}

/// The descriptors of the packets that find a free frame, in order.
pub open spec fn descriptors(
    free: Seq<u32>,
    packets: Seq<PacketBuf>,
    frame_size: u32,
) -> Seq<TxDescriptor> {
    Seq::new(
        sendable(packets.len(), free.len()),
        |k: int| descriptor_of(free[k], packets[k].len as int, frame_size),
    )
}

/// The frames of some completed transmissions, in order.
pub open spec fn completed_frames(addrs: Seq<u64>, frame_size: u32) -> Seq<u32> {
    Seq::new(
        addrs.len(),
        |k: int| frame_of_addr(addrs[k] as int, frame_size as int) as u32,
    )
}

/// Frames stay on their side: once the kernel has completed what was sent, the
/// frames that carried it are free again, and no frame for transmitting is
/// missing or there twice.
pub proof fn sent_frames_come_back(free: Seq<u32>, packets: Seq<PacketBuf>, frame_size: u32)
    requires
        frame_size > 0,
    ensures
        ({
            let n = sendable(packets.len(), free.len()) as int;
            let sent = descriptors(free, packets, frame_size);
            let addrs = Seq::new(sent.len(), |k: int| sent[k].addr);
            &&& completed_frames(addrs, frame_size) == free.take(n)
            &&& (free.skip(n) + completed_frames(addrs, frame_size)).to_multiset()
                == free.to_multiset()
        }),
{
    let n = sendable(packets.len(), free.len()) as int;
    let sent = descriptors(free, packets, frame_size);
    let addrs = Seq::new(sent.len(), |k: int| sent[k].addr);
    assert forall|k: int| 0 <= k < n implies completed_frames(addrs, frame_size)[k]
        == free[k] by {
        let f = free[k];
        assert(0 <= f * frame_size <= u32::MAX * u32::MAX) by (nonlinear_arith)
            requires
                0 <= f <= u32::MAX,
                0 <= frame_size <= u32::MAX,
        ;
        frame_address_round_trip(f as int, 0, frame_size as int);
    }
    assert(completed_frames(addrs, frame_size) =~= free.take(n));
    assert(free =~= free.take(n) + free.skip(n));
    vstd::seq_lib::lemma_multiset_commutative(free.take(n), free.skip(n));
    vstd::seq_lib::lemma_multiset_commutative(free.skip(n), free.take(n));
    assert((free.skip(n) + free.take(n)).to_multiset() =~= free.to_multiset());
}

/// The frames held back for transmitting.
pub struct TxFrames {
    free: VecDeque<u32>,
    total: usize,
    frame_size: u32,
}

impl TxFrames {
    /// The frames that are free, next to be used first.
    pub closed spec fn free_frames(self) -> Seq<u32> {
        self.free@
    }

    /// How many frames there are for transmitting.
    pub closed spec fn total_frames(self) -> nat {
        self.total as nat
    }

    pub closed spec fn frame_bytes(self) -> u32 {
        self.frame_size
    }

    /// All frames that are not in the receive pool.
    pub fn new(config: &AfXdpConfig) -> (t: TxFrames)
        requires
            config.ring_size <= config.num_frames,
        ensures
            t.frame_bytes() == config.frame_size,
            t.total_frames() == config.num_frames - config.ring_size,
            t.free_frames() == Seq::new(
                (config.num_frames - config.ring_size) as nat,
                |i: int| (config.ring_size + i) as u32,
            ),
    {
        let mut free: VecDeque<u32> = VecDeque::new();
        let mut i: u32 = config.ring_size;
        while i < config.num_frames
            invariant
                config.ring_size <= i <= config.num_frames,
                free@ == Seq::new(
                    (i - config.ring_size) as nat,
                    |j: int| (config.ring_size + j) as u32,
                ),
            decreases config.num_frames - i,
        {
            free.push_back(i);
            i = i + 1;
            assert(free@ =~= Seq::new(
                (i - config.ring_size) as nat,
                |j: int| (config.ring_size + j) as u32,
            ));
        }
        TxFrames {
            free,
            total: (config.num_frames - config.ring_size) as usize,
            frame_size: config.frame_size,
        }
    }

    /// How many frames are with the kernel.
    pub fn outstanding(&self) -> (n: usize)
        ensures
            n == (if self.free_frames().len() < self.total_frames() {
                self.total_frames() - self.free_frames().len()
            } else {
                0
            }),
    {
        if self.free.len() < self.total {
            self.total - self.free.len()
        } else {
            0
        }
    }

    /// Takes back the frames of completed transmissions.
    pub fn reclaim(&mut self, addrs: &[u64])
        requires
            old(self).frame_bytes() > 0,
            forall|k: int|
                0 <= k < addrs@.len() ==> frame_of_addr(
                    (#[trigger] addrs@[k]) as int,
                    old(self).frame_bytes() as int,
                ) <= u32::MAX,
        ensures
            final(self).frame_bytes() == old(self).frame_bytes(),
            final(self).total_frames() == old(self).total_frames(),
            final(self).free_frames() == old(self).free_frames() + completed_frames(
                addrs@,
                old(self).frame_bytes(),
            ),
    {
        let ghost start = self.free@;
        let mut k: usize = 0;
        assert(self.free@ =~= start + completed_frames(addrs@.take(0), self.frame_size));
        while k < addrs.len()
            invariant
                k <= addrs@.len(),
                start == old(self).free@,
                self.frame_size == old(self).frame_size,
                self.total == old(self).total,
                self.frame_size > 0,
                forall|j: int|
                    0 <= j < addrs@.len() ==> frame_of_addr(
                        (#[trigger] addrs@[j]) as int,
                        self.frame_size as int,
                    ) <= u32::MAX,
                self.free@ == start + completed_frames(addrs@.take(k as int), self.frame_size),
            decreases addrs@.len() - k,
        {
            self.free.push_back(addr_to_frame_idx(addrs[k], self.frame_size));
            k = k + 1;
            assert(self.free@ =~= start + completed_frames(
                addrs@.take(k as int),
                self.frame_size,
            ));
        }
        assert(addrs@.take(k as int) =~= addrs@);
    }

    /// Claims a frame for each of `packets`, as far as there are free ones.
    pub fn claim(&mut self, packets: &[PacketBuf]) -> (claimed: Vec<TxDescriptor>)
        ensures
            final(self).frame_bytes() == old(self).frame_bytes(),
            final(self).total_frames() == old(self).total_frames(),
            claimed@ == descriptors(old(self).free_frames(), packets@, old(self).frame_bytes()),
            final(self).free_frames() == old(self).free_frames().skip(
                sendable(packets@.len(), old(self).free_frames().len()) as int,
            ),
    {
        let ghost start = self.free@;
        let mut claimed: Vec<TxDescriptor> = Vec::new();
        assert(start.skip(0) =~= start);
        while claimed.len() < packets.len()
            invariant
                claimed@.len() <= sendable(packets@.len(), start.len()),
                start == old(self).free@,
                self.frame_size == old(self).frame_size,
                self.total == old(self).total,
                self.free@ == start.skip(claimed@.len() as int),
                forall|j: int|
                    0 <= j < claimed@.len() ==> (#[trigger] claimed@[j]) == descriptor_of(
                        start[j],
                        packets@[j].len as int,
                        self.frame_size,
                    ),
            decreases packets@.len() - claimed@.len(),
        {
            let ghost k = claimed@.len() as int;
            match self.free.pop_front() {
                Some(frame) => {
                    let len: usize = packets[claimed.len()].len;
                    let n: u32 = if (len as u64) < self.frame_size as u64 {
                        len as u32
                    } else {
                        self.frame_size
                    };
                    claimed.push(
                        TxDescriptor {
                            frame,
                            addr: frame_idx_to_addr(frame, self.frame_size),
                            len: n,
                        },
                    );
                    assert(start.skip(k).drop_first() =~= start.skip(k + 1));
                },
                None => {
                    assert(claimed@ =~= descriptors(start, packets@, self.frame_size));
                    return claimed;
                },
            }
        }
        assert(claimed@ =~= descriptors(start, packets@, self.frame_size));
        claimed
    }
}

/// Receiving and transmitting have frames of their own: of a valid layout,
/// every frame is either seeded into FILL or held for TX, and the two pools
/// have at least a ring of frames each.
pub proof fn frame_pools_are_disjoint(c: AfXdpConfig, idx: u32)
    requires
        layout_error(c) is None,
        idx < c.num_frames,
    ensures
        ({
            let tx = Seq::new(
                (c.num_frames - c.ring_size) as nat,
                |i: int| (c.ring_size + i) as u32,
            );
            &&& tx.contains(idx) <==> idx >= c.ring_size
            &&& tx.len() >= c.ring_size
        }),
{
    let tx = Seq::new((c.num_frames - c.ring_size) as nat, |i: int| (c.ring_size + i) as u32);
    if idx >= c.ring_size {
        assert(tx[idx - c.ring_size] == idx);
    }
}

} // verus!

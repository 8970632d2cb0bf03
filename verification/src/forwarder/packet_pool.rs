//! Pre-allocated packet frame arena.
//!
//! Packets are never copied between threads — only `FrameIndex` (u32) values
//! flow through the queues. Each frame is a fixed 2048-byte buffer that
//! steering, rewriters, and the muxer access by index.
//!
//! Frame lifecycle:
//! ```text
//!   free list → [Steering alloc] → rx_queue → [Rewriter mutate] → tx_queue → [Muxer send] → free list
//! ```

use crossbeam::queue::ArrayQueue;
use vstd::prelude::*;

use crate::io::packet_buf::PACKET_BUF_SIZE;

verus! {

#[verifier::external_type_specification]
#[verifier::external_body]
#[verifier::reject_recursive_types(T)]
pub struct ExArrayQueue<T>(ArrayQueue<T>);

/// What a queue holds, oldest first.
pub uninterp spec fn queue_items(q: ArrayQueue<u32>) -> Seq<u32>;

/// How many elements a queue was made for.
pub uninterp spec fn queue_capacity(q: ArrayQueue<u32>) -> nat;

/// Whether a queue of `cap` elements can be made: not empty, and small enough
/// to be addressed.
pub open spec fn capacity_in_range(cap: usize) -> bool {
    0 < cap && cap <= u32::MAX && cap <= usize::MAX / 64
}

/// Calls `crossbeam::queue::ArrayQueue::new`. Claims that the queue is empty
/// and holds up to `cap` elements.
#[verifier::external_body]
fn queue_new(cap: usize) -> (q: ArrayQueue<u32>)
    requires
        capacity_in_range(cap),
    ensures
        queue_items(q) == Seq::<u32>::empty(),
        queue_capacity(q) == cap,
{
    ArrayQueue::new(cap)
}

/// Calls `crossbeam::queue::ArrayQueue::push` on a queue that no one else
/// holds. Claims that the element goes to the back, or comes back as the error
/// if the queue is full.
#[verifier::external_body]
fn queue_push(q: &mut ArrayQueue<u32>, value: u32) -> (r: Result<(), u32>)
    ensures
        queue_capacity(*final(q)) == queue_capacity(*old(q)),
        queue_items(*old(q)).len() < queue_capacity(*old(q)) ==> r is Ok && queue_items(
            *final(q),
        ) == queue_items(*old(q)).push(value),
        queue_items(*old(q)).len() >= queue_capacity(*old(q)) ==> r is Err && r->Err_0 == value
            && queue_items(*final(q)) == queue_items(*old(q)),
{
    q.push(value)
}

/// Calls `crossbeam::queue::ArrayQueue::pop` on a queue that no one else
/// holds. Claims that the oldest element leaves the queue, or that there is
/// none.
#[verifier::external_body]
fn queue_pop(q: &mut ArrayQueue<u32>) -> (r: Option<u32>)
    ensures
        queue_capacity(*final(q)) == queue_capacity(*old(q)),
        queue_items(*old(q)).len() == 0 ==> r is None && queue_items(*final(q)) == queue_items(
            *old(q),
        ),
        queue_items(*old(q)).len() > 0 ==> r == Some(queue_items(*old(q))[0]) && queue_items(
            *final(q),
        ) == queue_items(*old(q)).drop_first(),
{
    q.pop()
}

/// Calls `crossbeam::queue::ArrayQueue::len` on a queue that no one changes
/// meanwhile. Claims that it counts the elements.
#[verifier::external_body]
fn queue_len(q: &ArrayQueue<u32>) -> (n: usize)
    ensures
        n == queue_items(*q).len(),
{
    q.len()
}

/// Index into the `PacketPool` frame array.
pub type FrameIndex = u32;

/// Sentinel value for an invalid/uninitialized frame index.
pub const INVALID_FRAME: FrameIndex = u32::MAX;

/// A bounded queue of frame indices.
pub struct FrameQueue {
    queue: ArrayQueue<u32>,
}

impl View for FrameQueue {
    type V = Seq<u32>;

    /// The indices in the queue, oldest first.
    closed spec fn view(&self) -> Seq<u32> {
        queue_items(self.queue)
    }
}

impl FrameQueue {
    /// How many indices the queue can hold.
    pub closed spec fn capacity(self) -> nat {
        queue_capacity(self.queue)
    }

    /// The queue holds no more than it can.
    pub open spec fn wf(self) -> bool {
        self@.len() <= self.capacity()
    }

    pub fn new(capacity: usize) -> (q: FrameQueue)
        requires
            capacity_in_range(capacity),
        ensures
            q.wf(),
            q@ == Seq::<u32>::empty(),
            q.capacity() == capacity,
    {
        FrameQueue { queue: queue_new(capacity) }
    }

    /// Puts `idx` at the back. Gives it back if the queue is full.
    pub fn push(&mut self, idx: FrameIndex) -> (r: Result<(), FrameIndex>)
        requires
            old(self).wf(),
        ensures
            final(self).wf(),
            final(self).capacity() == old(self).capacity(),
            old(self)@.len() < old(self).capacity() ==> r is Ok && final(self)@ == old(self)@.push(
                idx,
            ),
            old(self)@.len() == old(self).capacity() ==> r is Err && r->Err_0 == idx && final(self)@
                == old(self)@,
    {
        queue_push(&mut self.queue, idx)
    }

    /// Takes the index at the front.
    pub fn pop(&mut self) -> (r: Option<FrameIndex>)
        requires
            old(self).wf(),
        ensures
            final(self).wf(),
            final(self).capacity() == old(self).capacity(),
            old(self)@.len() == 0 ==> r is None && final(self)@ == old(self)@,
            old(self)@.len() > 0 ==> r == Some(old(self)@[0]) && final(self)@ == old(
                self,
            )@.drop_first(),
    {
        queue_pop(&mut self.queue)
    }

    pub fn len(&self) -> (n: usize)
        ensures
            n == self@.len(),
    {
        queue_len(&self.queue)
    }
}

/// A single frame in the pool.
#[derive(Clone, Copy)]
pub struct Frame {
    pub data: [u8; PACKET_BUF_SIZE],
    pub len: usize,
}

impl View for Frame {
    type V = Seq<u8>;

    /// The packet in the frame.
    open spec fn view(&self) -> Seq<u8> {
        self.data@.take(self.len as int)
    }
}

impl Frame {
    /// Whether the packet lies within the frame.
    pub open spec fn wf(self) -> bool {
        self.len <= PACKET_BUF_SIZE
    }

    pub fn new() -> (f: Frame)
        ensures
            f.wf(),
            f.len == 0,
            f.data@ == Seq::new(PACKET_BUF_SIZE as nat, |i: int| 0u8),
    {
        let data = [0u8;PACKET_BUF_SIZE];
        assert(data@ =~= Seq::new(PACKET_BUF_SIZE as nat, |i: int| 0u8));
        Frame { data, len: 0 }
    }

    /// Write packet data into this frame, as much as fits.
    pub fn write_from(&mut self, src: &[u8])
        ensures
            final(self).wf(),
            final(self)@ == (if src@.len() <= PACKET_BUF_SIZE {
                src@
            } else {
                src@.take(PACKET_BUF_SIZE as int)
            }),
            forall|i: int| final(self).len <= i < PACKET_BUF_SIZE ==> final(self).data@[i] == old(
                self,
            ).data@[i],
    {
        let copy_len: usize = if src.len() < PACKET_BUF_SIZE {
            src.len()
        } else {
            PACKET_BUF_SIZE
        };
        let mut i: usize = 0;
        while i < copy_len
            invariant
                i <= copy_len <= PACKET_BUF_SIZE,
                copy_len <= src@.len(),
                forall|j: int| 0 <= j < i ==> self.data@[j] == src@[j],
                forall|j: int| i <= j < PACKET_BUF_SIZE ==> self.data@[j] == old(self).data@[j],
            decreases copy_len - i,
        {
            self.data[i] = src[i];
            i = i + 1;
        }
        self.len = copy_len;
        assert(self@ =~= src@.take(copy_len as int));
        assert(copy_len == src@.len() ==> src@.take(copy_len as int) =~= src@);
    }

    /// Get the valid packet data as a slice.
    pub fn as_slice(&self) -> (r: &[u8])
        requires
            self.wf(),
        ensures
            r@ == self@,
    {
        let all = self.data.as_slice();
        assert(self.data@.subrange(0, self.len as int) =~= self@);
        &all[0..self.len]
    }

    /// Get the valid packet data as a mutable slice.
    pub fn as_mut_slice(&mut self) -> (r: &mut [u8])
        requires
            old(self).wf(),
        ensures
            r@ == old(self)@,
            final(self).len == old(self).len,
            final(self).data@ == final(r)@ + old(self).data@.skip(old(self).len as int),
    {
        let len: usize = self.len;
        let all: &mut [u8] = &mut self.data;
        let parts = all.split_at_mut(len);
        parts.0
    }
}

/// Pre-allocated arena of packet frames.
///
/// A frame index is held by exactly one stage at a time: the free list, a
/// queue between stages, or the stage that works on the frame.
pub struct PacketPool {
    frames: Vec<Frame>,
    free_list: FrameQueue,
}

impl PacketPool {
    /// The frames.
    pub closed spec fn frames(self) -> Seq<Frame> {
        self.frames@
    }

    /// The indices on the free list, next to be allocated first.
    pub closed spec fn free_frames(self) -> Seq<u32> {
        self.free_list@
    }

    /// Packets lie within their frames, and the free list holds frame indices
    /// only.
    pub closed spec fn wf(self) -> bool {
        &&& self.free_list.wf()
        &&& self.free_list.capacity() == self.frames@.len()
        &&& self.frames@.len() <= u32::MAX
        &&& forall|i: int| 0 <= i < self.frames@.len() ==> (#[trigger] self.frames@[i]).wf()
        &&& forall|i: int|
            0 <= i < self.free_list@.len() ==> (#[trigger] self.free_list@[i]) < self.frames@.len()
    }

    /// What well-formedness says of frames and free list.
    pub proof fn lemma_wf(self)
        requires
            self.wf(),
        ensures
            self.free_frames().len() <= self.frames().len() <= u32::MAX,
            forall|i: int| 0 <= i < self.frames().len() ==> (#[trigger] self.frames()[i]).wf(),
            forall|i: int|
                0 <= i < self.free_frames().len() ==> (#[trigger] self.free_frames()[i])
                    < self.frames().len(),
    {
    }

    /// Create a new pool with `capacity` pre-allocated frames.
    /// All frames start on the free list.
    pub fn new(capacity: usize) -> (p: PacketPool)
        requires
            capacity_in_range(capacity),
        ensures
            p.wf(),
            p.frames().len() == capacity,
            p.free_frames() == Seq::new(capacity as nat, |i: int| i as u32),
    {
        let mut frames: Vec<Frame> = Vec::with_capacity(capacity);
        let mut free_list = FrameQueue::new(capacity);
        let mut i: usize = 0;
        while i < capacity
            invariant
                i <= capacity,
                capacity <= u32::MAX,
                frames@.len() == i,
                forall|j: int| 0 <= j < i ==> (#[trigger] frames@[j]).wf(),
                free_list.wf(),
                free_list.capacity() == capacity,
                free_list@ == Seq::new(i as nat, |j: int| j as u32),
            decreases capacity - i,
        {
            frames.push(Frame::new());
            let _ = free_list.push(i as u32);
            i = i + 1;
            assert(free_list@ =~= Seq::new(i as nat, |j: int| j as u32));
        }
        PacketPool { frames, free_list }
    }

    /// Allocate a frame from the free list. Returns `None` if exhausted.
    pub fn allocate(&mut self) -> (r: Option<FrameIndex>)
        requires
            old(self).wf(),
        ensures
            final(self).wf(),
            final(self).frames() == old(self).frames(),
            old(self).free_frames().len() == 0 ==> r is None && final(self).free_frames() == old(
                self,
            ).free_frames(),
            old(self).free_frames().len() > 0 ==> r == Some(old(self).free_frames()[0])
                && final(self).free_frames() == old(self).free_frames().drop_first(),
            r matches Some(i) ==> i < old(self).frames().len(),
    {
        let r = self.free_list.pop();
        proof {
            let f = old(self).free_list@;
            assert forall|i: int| 0 <= i < self.free_list@.len() implies (
            #[trigger] self.free_list@[i]) < self.frames@.len() by {
                if f.len() > 0 {
                    assert(self.free_list@[i] == f[i + 1]);
                }
            }
            if f.len() > 0 {
                assert(f[0] < self.frames@.len());
            }
        }
        r
    }

    /// Return a frame to the free list after the muxer has sent it.
    pub fn free(&mut self, idx: FrameIndex)
        requires
            old(self).wf(),
            idx < old(self).frames().len(),
        ensures
            final(self).wf(),
            final(self).frames() == old(self).frames(),
            final(self).free_frames() == (if old(self).free_frames().len() < old(
                self,
            ).frames().len() {
                old(self).free_frames().push(idx)
            } else {
                old(self).free_frames()
            }),
    {
        let _ = self.free_list.push(idx);
    }

    /// Get a mutable reference to a frame by index.
    ///
    /// The packet must lie within the frame when the caller is done with it.
    pub fn get_mut(&mut self, idx: FrameIndex) -> (f: &mut Frame)
        requires
            old(self).wf(),
            idx < old(self).frames().len(),
        ensures
            *f == old(self).frames()[idx as int],
            f.wf(),
            final(self).frames() == old(self).frames().update(idx as int, *final(f)),
            final(self).free_frames() == old(self).free_frames(),
            final(f).wf() ==> final(self).wf(),
    {
        &mut self.frames[idx as usize]
    }

    /// Get a read-only reference to a frame by index.
    pub fn get(&self, idx: FrameIndex) -> (f: &Frame)
        requires
            self.wf(),
            idx < self.frames().len(),
        ensures
            *f == self.frames()[idx as int],
            f.wf(),
    {
        &self.frames[idx as usize]
    }

    /// Number of frames currently on the free list.
    pub fn available(&self) -> (n: usize)
        ensures
            n == self.free_frames().len(),
    {
        self.free_list.len()
    }

    /// Total capacity of the pool.
    pub fn capacity(&self) -> (n: usize)
        ensures
            n == self.frames().len(),
    {
        self.frames.len()
    }
}

} // verus!

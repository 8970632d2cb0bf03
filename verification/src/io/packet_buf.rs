//! Fixed-size packet buffers.

use vstd::prelude::*;

verus! {

/// Maximum packet buffer size (accommodates GRE overhead).
pub const PACKET_BUF_SIZE: usize = 2048;

/// Fixed-size packet buffer. No heap allocation on the hot path.
#[derive(Copy)]
pub struct PacketBuf {
    pub data: [u8; PACKET_BUF_SIZE],
    pub len: usize,
}

impl View for PacketBuf {
    type V = Seq<u8>;

    /// The packet: the valid front part of the buffer.
    open spec fn view(&self) -> Seq<u8> {
        self.data@.take(self.len as int)
    }
}

impl Clone for PacketBuf {
    fn clone(&self) -> (r: PacketBuf)
        ensures
            r == *self,
    {
        *self
    }
}

impl PacketBuf {
    /// Whether the packet lies within the buffer.
    pub open spec fn wf(self) -> bool {
        self.len <= PACKET_BUF_SIZE
    }

    /// An empty packet in a zeroed buffer.
    pub fn new() -> (r: PacketBuf)
        ensures
            r.wf(),
            r.len == 0,
            r.data@ == Seq::new(PACKET_BUF_SIZE as nat, |i: int| 0u8),
    {
        let data = [0u8;PACKET_BUF_SIZE];
        assert(data@ =~= Seq::new(PACKET_BUF_SIZE as nat, |i: int| 0u8));
        PacketBuf { data, len: 0 }
    }

    /// Create a PacketBuf from a byte slice (copies data, up to the size of
    /// the buffer).
    pub fn from_slice(slice: &[u8]) -> (r: PacketBuf)
        ensures
            r.wf(),
            r@ == (if slice@.len() <= PACKET_BUF_SIZE {
                slice@
            } else {
                slice@.take(PACKET_BUF_SIZE as int)
            }),
            forall|i: int| r.len <= i < PACKET_BUF_SIZE ==> r.data@[i] == 0,
    {
        let mut buf = PacketBuf::new();
        let copy_len: usize = if slice.len() < PACKET_BUF_SIZE {
            slice.len()
        } else {
            PACKET_BUF_SIZE
        };
        let mut i: usize = 0;
        while i < copy_len
            invariant
                i <= copy_len <= PACKET_BUF_SIZE,
                copy_len <= slice@.len(),
                forall|j: int| 0 <= j < i ==> buf.data@[j] == slice@[j],
                forall|j: int| i <= j < PACKET_BUF_SIZE ==> buf.data@[j] == 0,
            decreases copy_len - i,
        {
            buf.data[i] = slice[i];
            i = i + 1;
        }
        buf.len = copy_len;
        assert(buf@ =~= slice@.take(copy_len as int));
        assert(copy_len == slice@.len() ==> slice@.take(copy_len as int) =~= slice@);
        buf
    }

    /// Get the valid packet data as a slice.
    pub fn as_slice(&self) -> (r: &[u8])
        requires
            self.wf(),
        ensures
            r@ == self@,
    {
        let all = self.data.as_slice();
        assert(self.data@.subrange(0, self.len as int) =~= self@);
        &all[0..self.len]
    }

    /// Get the valid packet data as a mutable slice.
    pub fn as_mut_slice(&mut self) -> (r: &mut [u8])
        requires
            old(self).wf(),
        ensures
            r@ == old(self)@,
            final(self).len == old(self).len,
            final(self).data@ == final(r)@ + old(self).data@.skip(old(self).len as int),
    {
        let len: usize = self.len;
        let all: &mut [u8] = &mut self.data;
        let parts = all.split_at_mut(len);
        parts.0
    }
}

impl Default for PacketBuf {
    fn default() -> (r: PacketBuf)
        ensures
            r.wf(),
            r.len == 0,
            r.data@ == Seq::new(PACKET_BUF_SIZE as nat, |i: int| 0u8),
    {
        PacketBuf::new()
    }
}

/// The packets in a batch of buffers.
pub open spec fn packets_of(bufs: Seq<PacketBuf>) -> Seq<Seq<u8>> {
    Seq::new(bufs.len(), |i: int| bufs[i]@)
}

} // verus!

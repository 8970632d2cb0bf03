//! What the forwarder asks of a packet I/O backend.

use vstd::prelude::*;

use crate::io::packet_buf::{packets_of, PacketBuf};

verus! {

/// Kinds of I/O errors.
#[derive(Debug, Clone, Copy, PartialEq, Eq, Structural)]
pub enum IoErrorKind {
    InvalidInput,
    Unsupported,
    Other,
}

/// An error of a packet I/O backend.
#[derive(Debug)]
pub struct IoError {
    pub kind: IoErrorKind,
    pub message: String,
}

/// Whether every packet lies within its buffer.
pub open spec fn buffers_wf(bufs: Seq<PacketBuf>) -> bool {
    forall|i: int| 0 <= i < bufs.len() ==> (#[trigger] bufs[i]).wf()
}

/// Trait for packet I/O backends.
///
/// The forwarder is generic over this trait. Production uses AF_XDP,
/// tests use MockIo.
pub trait PacketIo {
    /// What came of each time that the backend was asked for a batch, oldest
    /// first: the batch that it delivered, or nothing if that failed.
    ///
    /// A verified backend has to define it: what stands here says nothing and
    /// cannot keep what `recv_batch` promises.
    open spec fn polled(&self) -> Seq<Option<Seq<Seq<u8>>>> {
        vstd::pervasive::arbitrary()
    }

    /// The batches that the backend was given to send, oldest first.
    ///
    /// A verified backend has to define it: what stands here says nothing and
    /// cannot keep what `send_batch` promises.
    open spec fn handed(&self) -> Seq<Seq<Seq<u8>>> {
        vstd::pervasive::arbitrary()
    }

    /// Receive a batch of packets. Returns the number of packets received.
    fn recv_batch(&mut self, buf: &mut [PacketBuf]) -> (r: Result<usize, IoError>)
        ensures
            final(buf)@.len() == old(buf)@.len(),
            buffers_wf(old(buf)@) ==> buffers_wf(final(buf)@),
            r matches Ok(n) ==> n <= old(buf)@.len(),
            final(self).handed() == old(self).handed(),
            final(self).polled() == old(self).polled().push(
                match r {
                    Ok(n) => Some(packets_of(final(buf)@.take(n as int))),
                    Err(_) => None,
                },
            ),
    ;

    /// Send a batch of packets. Returns the number of packets sent.
    fn send_batch(&mut self, buf: &[PacketBuf]) -> (r: Result<usize, IoError>)
        requires
            buffers_wf(buf@),
        ensures
            r matches Ok(n) ==> n <= buf@.len(),
            final(self).polled() == old(self).polled(),
            final(self).handed() == old(self).handed().push(packets_of(buf@)),
    ;
}

} // verus!

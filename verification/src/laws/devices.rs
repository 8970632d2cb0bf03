//! How packets pass through the I/O backends, and what checksums are.

use vstd::arithmetic::div_mod::lemma_fundamental_div_mod_converse;
use vstd::prelude::*;

use crate::base::checksum::{
    folded, internet_checksum, lemma_words_sum_bounds, total_sum, word_at, words_sum,
};
use crate::base::power::is_power_of_two;
use crate::bgp::error_code::{CEASE, HOLD_TIMER_EXPIRED};
use crate::bgp::md5::MAX_KEYLEN;
use crate::bgp::session::CONNECT_TIMEOUT_SECS;
use crate::forwarder::pipeline::{BATCH_DRAIN_SIZE, QUEUE_CAPACITY, SPIN_BEFORE_PARK};
use crate::io::af_xdp::{
    descriptors, frame_addr, frame_of_addr, layout_error, AfXdpConfig, DEFAULT_FRAME_SIZE,
    DEFAULT_NUM_FRAMES, DEFAULT_RING_SIZE,
};
use crate::io::mock::{delivered, nonempty};
use crate::io::mock_lockfree::LOCKFREE_RING_SIZE;
use crate::io::packet_buf::{PacketBuf, PACKET_BUF_SIZE};
use crate::node::ops_server::{STATUS_OK, STATUS_SERVICE_UNAVAILABLE};

verus! {

/// A batch receives the packets at the front of the queue, in order, as many as it
/// has buffers, each up to the 2048 bytes of a buffer.
pub proof fn batches_receive_from_the_front(queued: Seq<Seq<u8>>, room: nat, i: int)
    ensures
        ({
            let got = delivered(queued, room);
            &&& got.len() == (if queued.len() < room {
                queued.len()
            } else {
                room
            })
            &&& 0 <= i < got.len() && queued[i].len() <= 2048 ==> got[i] == queued[i]
            &&& 0 <= i < got.len() && queued[i].len() > 2048 ==> got[i] == queued[i].take(2048)
        }),
{
}

/// Of a batch every packet that is not empty is sent, in order.
pub proof fn batches_send_what_is_not_empty(bufs: Seq<PacketBuf>, b: PacketBuf)
    ensures
        nonempty(Seq::empty()) == Seq::<Seq<u8>>::empty(),
        b.len > 0 ==> nonempty(bufs.push(b)) == nonempty(bufs).push(b.data@.take(b.len as int)),
        b.len == 0 ==> nonempty(bufs.push(b)) == nonempty(bufs),
{
    assert(bufs.push(b).drop_last() =~= bufs);
    assert(bufs.push(b).last() == b);
}

/// A frame layout is in order if and only if a frame holds a buffer of 2048 bytes, the
/// number of frames is a power of two, and there are frames for two rings.
pub proof fn layouts_in_order(c: AfXdpConfig)
    ensures
        layout_error(c) is None <==> c.frame_size >= 2048 && is_power_of_two(c.num_frames as int)
            && c.num_frames >= 2 * c.ring_size,
{
}

/// Frames lie one behind the other, and an address belongs to the frame that it lies
/// in.
pub proof fn frames_lie_in_order(idx: int, offset: int, frame_size: int)
    requires
        0 <= offset < frame_size,
        0 <= idx,
    ensures
        frame_addr(0, frame_size) == 0,
        frame_addr(idx + 1, frame_size) == frame_addr(idx, frame_size) + frame_size,
        frame_of_addr(frame_addr(idx, frame_size) + offset, frame_size) == idx,
{
    assert((idx + 1) * frame_size == idx * frame_size + frame_size) by (nonlinear_arith);
    assert(0 * frame_size == 0) by (nonlinear_arith);
    lemma_fundamental_div_mod_converse(idx * frame_size + offset, frame_size, idx, offset);
}

/// Each packet, as far as there are free frames, is sent from the next free one, with
/// its whole length unless the frame is shorter.
pub proof fn packets_are_sent_from_free_frames(
    free: Seq<u32>,
    packets: Seq<PacketBuf>,
    frame_size: u32,
    k: int,
)
    ensures
        ({
            let sent = descriptors(free, packets, frame_size);
            &&& sent.len() == (if packets.len() < free.len() {
                packets.len()
            } else {
                free.len()
            })
            &&& 0 <= k < sent.len() ==> {
                &&& sent[k].frame == free[k]
                &&& sent[k].addr == free[k] * frame_size
                &&& packets[k].len <= frame_size ==> sent[k].len == packets[k].len
                &&& packets[k].len > frame_size ==> sent[k].len == frame_size
            }
        }),
{
    let sent = descriptors(free, packets, frame_size);
    if 0 <= k < sent.len() {
        let f = free[k];
        assert(0 <= f * frame_size <= u32::MAX * u32::MAX) by (nonlinear_arith)
            requires
                0 <= f <= u32::MAX,
                0 <= frame_size <= u32::MAX,
        ;
    }
}

/// A sum is folded to sixteen bits without changing what it leaves modulo 65535, and
/// to zero only if it is zero.
pub proof fn folding_keeps_the_residue(sum: int)
    requires
        sum >= 0,
    ensures
        0 <= folded(sum) <= 65535,
        folded(sum) % 65535 == sum % 65535,
        folded(sum) == 0 <==> sum == 0,
{
}

/// Words are added up two bytes at a time, the high one first; a last byte by itself
/// counts as the high one.
pub proof fn words_add_up(s: Seq<u8>, hi: u8, lo: u8)
    requires
        s.len() % 2 == 0,
    ensures
        total_sum(Seq::<u8>::empty()) == 0,
        total_sum(s.push(hi).push(lo)) == total_sum(s) + hi * 256 + lo,
        total_sum(s.push(hi)) == total_sum(s) + hi * 256,
{
    let k = (s.len() / 2) as nat;
    let t = s.push(hi).push(lo);
    let u = s.push(hi);
    lemma_same_words(s, t, k);
    lemma_same_words(s, u, k);
    assert((s.len() + 1) / 2 == k);
    assert((t.len() + 1) / 2 == k + 1);
    assert((u.len() + 1) / 2 == k + 1);
    assert(word_at(t, (2 * k) as int) == hi * 256 + lo);
    assert(word_at(u, (2 * k) as int) == hi * 256);
}

proof fn lemma_same_words(s: Seq<u8>, t: Seq<u8>, k: nat)
    requires
        2 * k <= s.len(),
        s.len() <= t.len(),
        forall|i: int| 0 <= i < s.len() ==> #[trigger] s[i] == t[i],
    ensures
        words_sum(s, k) == words_sum(t, k),
    decreases k,
{
    if k > 0 {
        lemma_same_words(s, t, (k - 1) as nat);
        let i = 2 * (k - 1);
        assert(s[i] == t[i] && s[i + 1] == t[i + 1]);
    }
}

/// A checksum makes up what the sum of the words lacks to a multiple of 65535.
pub proof fn checksums_complete_the_sum(s: Seq<u8>)
    ensures
        0 <= internet_checksum(s) <= 65535,
        (total_sum(s) + internet_checksum(s)) % 65535 == 0,
        total_sum(s) == 0 ==> internet_checksum(s) == 65535,
        total_sum(s) > 0 ==> internet_checksum(s) < 65535,
{
    lemma_words_sum_bounds(s, ((s.len() + 1) / 2) as nat);
    folding_keeps_the_residue(total_sum(s));
}

/// The sizes of rings and frames, and the codes of answers and notifications.
pub proof fn sizes_and_codes()
    ensures
        PACKET_BUF_SIZE == 2048,
        LOCKFREE_RING_SIZE == 8192,
        DEFAULT_FRAME_SIZE == 2048,
        DEFAULT_NUM_FRAMES == 4096,
        DEFAULT_RING_SIZE == 2048,
        QUEUE_CAPACITY == 4096,
        BATCH_DRAIN_SIZE == 64,
        SPIN_BEFORE_PARK == 64,
        MAX_KEYLEN == 80,
        CONNECT_TIMEOUT_SECS == 10,
        HOLD_TIMER_EXPIRED == 4,
        CEASE == 6,
        STATUS_OK == 200,
        STATUS_SERVICE_UNAVAILABLE == 503,
{
}

} // verus!

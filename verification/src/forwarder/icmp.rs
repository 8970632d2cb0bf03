//! ICMP Fragmentation Needed (Type 3, Code 4) generation and rate limiting.
//!
//! When an oversized packet with DF set cannot fit inside the GRE tunnel,
//! the LB generates an ICMP error back to the sender with the effective
//! inner MTU. The ICMP source is the VIP (not the LB node IP) so the
//! sender's PMTUD associates the MTU correctly.

use vstd::prelude::*;

use crate::base::assoc::AssocMap;
use crate::base::checksum::{
    be16, checksum_verifies, hi8, internet_checksum, ip_checksum, lo8, with_word, word_at,
};
use crate::base::net::{IpAddr, Ipv4Addr};
use crate::base::time::{elapsed_nanos, Instant, NANOS_PER_SEC};
use crate::forwarder::gre::{ipv4_header, ipv4_header_verifies, write_ipv4_header};
use crate::io::packet_buf::{PacketBuf, PACKET_BUF_SIZE};
use crate::types::mtu::GRE_OVERHEAD;

verus! {

/// DF flag in IPv4 flags+fragment offset field.
pub const DF_FLAG: u16 = 0x4000;

/// ICMP Type 3 = Destination Unreachable.
pub const TYPE_DEST_UNREACH: u8 = 3;

/// ICMP Code 4 = Fragmentation Needed and DF Set.
pub const CODE_FRAG_NEEDED: u8 = 4;

/// How much of the offending packet an ICMP error quotes: its IP header and
/// eight bytes.
pub const QUOTE_LEN: usize = 28;

/// Whether an IPv4 header has the don't-fragment flag set.
pub open spec fn df_set(d: Seq<u8>) -> bool {
    (be16(d[6], d[7]) / DF_FLAG as int) % 2 == 1
}

/// Whether `d` is an IPv4 packet that must not be fragmented and does not fit
/// the tunnel.
pub open spec fn too_big_for_tunnel(d: Seq<u8>, network_mtu: u16) -> bool {
    &&& d.len() >= 20
    &&& d[0] / 16 == 4
    &&& df_set(d)
    &&& be16(d[2], d[3]) + GRE_OVERHEAD > network_mtu
}

pub(crate) fn exceeds_tunnel(data: &[u8], network_mtu: u16) -> (b: bool)
    ensures
        b == too_big_for_tunnel(data@, network_mtu),
{
    if data.len() < 20 {
        return false;
    }
    if data[0] / 16 != 4 {
        return false;
    }
    let total_len: u32 = data[2] as u32 * 256 + data[3] as u32;
    let flags_frag: u16 = data[6] as u16 * 256 + data[7] as u16;
    let df: bool = (flags_frag / DF_FLAG) % 2 == 1;
    df && total_len + GRE_OVERHEAD as u32 > network_mtu as u32
}

/// Check if a packet is oversized for the GRE tunnel and has DF set.
///
/// `data` starts at the inner IP header.
pub fn should_generate_icmp(data: &[u8], network_mtu: u16) -> (b: bool)
    ensures
        b == too_big_for_tunnel(data@, network_mtu),
{
    exceeds_tunnel(data, network_mtu)
}

/// What an ICMP error quotes of the packet that caused it.
pub open spec fn error_quote(original: Seq<u8>) -> Seq<u8> {
    if original.len() <= QUOTE_LEN {
        original
    } else {
        original.take(QUOTE_LEN as int)
    }
}

/// Whom the ICMP error is sent to: the sender of the original packet, or the
/// unspecified address if the packet is too short to tell.
pub open spec fn error_destination(original: Seq<u8>) -> Ipv4Addr {
    if original.len() >= 16 {
        Ipv4Addr { a: original[12], b: original[13], c: original[14], d: original[15] }
    } else {
        Ipv4Addr { a: 0, b: 0, c: 0, d: 0 }
    }
}

/// The ICMP message with the checksum field at zero.
pub open spec fn blank_error_message(quote: Seq<u8>, next_hop_mtu: u16) -> Seq<u8> {
    seq![
        TYPE_DEST_UNREACH,
        CODE_FRAG_NEEDED,
        0,
        0,
        0,
        0,
        hi8(next_hop_mtu as int),
        lo8(next_hop_mtu as int),
    ] + quote
}

/// The ICMP message with its checksum.
pub open spec fn error_message(quote: Seq<u8>, next_hop_mtu: u16) -> Seq<u8> {
    let m = blank_error_message(quote, next_hop_mtu);
    with_word(m, 2, internet_checksum(m))
}

/// The Fragmentation Needed packet, from `vip` to the original sender.
pub open spec fn frag_needed_packet(
    original: Seq<u8>,
    vip: Ipv4Addr,
    next_hop_mtu: u16,
) -> Seq<u8> {
    let quote = error_quote(original);
    ipv4_header(0xC0, 28 + quote.len() as int, 0, 1, vip, error_destination(original))
        + error_message(quote, next_hop_mtu)
}

/// Both checksums of the generated packet verify, and it ends with the quoted
/// bytes of the original.
pub proof fn frag_needed_verifies(original: Seq<u8>, vip: Ipv4Addr, next_hop_mtu: u16)
    ensures
        ({
            let p = frag_needed_packet(original, vip, next_hop_mtu);
            &&& p.len() == 28 + error_quote(original).len()
            &&& internet_checksum(p.take(20)) == 0
            &&& internet_checksum(p.skip(20)) == 0
            &&& p.skip(28) == error_quote(original)
        }),
{
    let quote = error_quote(original);
    let dst = error_destination(original);
    let total = 28 + quote.len() as int;
    let p = frag_needed_packet(original, vip, next_hop_mtu);
    ipv4_header_verifies(0xC0, total, 0, 1, vip, dst);
    let m = blank_error_message(quote, next_hop_mtu);
    assert(word_at(m, 2) == 0);
    checksum_verifies(m, 2);
    assert(p.take(20) =~= ipv4_header(0xC0, total, 0, 1, vip, dst));
    assert(p.skip(20) =~= error_message(quote, next_hop_mtu));
    assert(p.skip(28) =~= quote);
}

fn frag_needed(original: &[u8], vip: Ipv4Addr, next_hop_mtu: u16) -> (pkt: PacketBuf)
    ensures
        pkt.wf(),
        pkt@ == frag_needed_packet(original@, vip, next_hop_mtu),
{
    let payload_len: usize = if original.len() < QUOTE_LEN {
        original.len()
    } else {
        QUOTE_LEN
    };
    let total_len: usize = 20 + 8 + payload_len;
    let dst_ip = if original.len() >= 16 {
        Ipv4Addr::new(original[12], original[13], original[14], original[15])
    } else {
        Ipv4Addr::new(0, 0, 0, 0)
    };
    let mut pkt = PacketBuf::new();
    write_ipv4_header(&mut pkt.data, 0xC0, total_len as u16, 0, 1, vip, dst_ip);
    let ghost header = ipv4_header(0xC0, total_len as int, 0, 1, vip, dst_ip);
    proof {
        ipv4_header_verifies(0xC0, total_len as int, 0, 1, vip, dst_ip);
    }
    pkt.data[20] = TYPE_DEST_UNREACH;
    pkt.data[21] = CODE_FRAG_NEEDED;
    pkt.data[26] = (next_hop_mtu / 256) as u8;
    pkt.data[27] = (next_hop_mtu % 256) as u8;
    let ghost quote = error_quote(original@);
    let ghost blank = blank_error_message(quote, next_hop_mtu);
    let mut i: usize = 0;
    while i < payload_len
        invariant
            i <= payload_len <= QUOTE_LEN,
            payload_len <= original@.len(),
            quote == error_quote(original@),
            payload_len == quote.len(),
            header.len() == 20,
            blank == blank_error_message(quote, next_hop_mtu),
            pkt.data@.len() == PACKET_BUF_SIZE,
            forall|j: int| 0 <= j < 20 ==> pkt.data@[j] == header[j],
            forall|j: int| 0 <= j < 8 + i ==> pkt.data@[20 + j] == #[trigger] blank[j],
        decreases payload_len - i,
    {
        pkt.data[28 + i] = original[i];
        assert(blank[8 + i] == quote[i as int]);
        i = i + 1;
    }
    let all = pkt.data.as_slice();
    assert(all@.subrange(20, total_len as int) =~= blank);
    let checksum: u16 = ip_checksum(&all[20..total_len]);
    pkt.data[22] = (checksum / 256) as u8;
    pkt.data[23] = (checksum % 256) as u8;
    pkt.len = total_len;
    proof {
        let want = frag_needed_packet(original@, vip, next_hop_mtu);
        assert forall|j: int| 0 <= j < want.len() implies pkt@[j] == want[j] by {
            if j >= 20 {
                assert(want[j] == with_word(blank, 2, checksum as int)[j - 20]);
                let k = j - 20;
                assert(blank[k] == all@[20 + k]);
            }
        }
        assert(pkt@ =~= want);
    }
    pkt
}

/// Generate an ICMP Fragmentation Needed response.
///
/// Returns a `PacketBuf` containing the complete ICMP response (IP + ICMP + payload).
/// The source IP is set to `vip` (not the LB node IP).
///
/// `original` is the oversized inner packet (starting at its IP header).
pub fn generate_icmp_frag_needed(
    original: &[u8],
    vip: Ipv4Addr,
    effective_inner_mtu: u16,
) -> (pkt: PacketBuf)
    ensures
        pkt.wf(),
        pkt@ == frag_needed_packet(original@, vip, effective_inner_mtu),
{
    frag_needed(original, vip, effective_inner_mtu)
}

/// What a rate limiter remembers.
pub struct LimiterState {
    pub max_per_second: u32,
    pub count: u32,
    pub window_start: Instant,
}

/// The limiter after a request at `now`, and whether it was granted.
///
/// A window lasts one second; the first request after it opens the next one.
/// Within a window the first `max_per_second` requests are granted.
pub open spec fn limiter_step(s: LimiterState, now: Instant) -> (LimiterState, bool) {
    if s.max_per_second == 0 {
        (s, false)
    } else {
        let (count, window_start) = if elapsed_nanos(s.window_start, now) >= NANOS_PER_SEC {
            (0u32, now)
        } else {
            (s.count, s.window_start)
        };
        if count < s.max_per_second {
            (LimiterState { count: (count + 1) as u32, window_start, ..s }, true)
        } else {
            (LimiterState { count, window_start, ..s }, false)
        }
    }
}

/// How many of the requests at `times` a limiter in state `s` grants.
pub open spec fn grants(s: LimiterState, times: Seq<Instant>) -> nat
    decreases times.len(),
{
    if times.len() == 0 {
        0
    } else {
        let (t, ok) = limiter_step(s, times[0]);
        grants(t, times.drop_first()) + if ok {
            1nat
        } else {
            0nat
        }
    }
}

/// However many requests come within one window, no more than `max_per_second`
/// are granted in it.
pub proof fn limiter_bounds_window(s: LimiterState, times: Seq<Instant>)
    requires
        s.count <= s.max_per_second,
        forall|i: int|
            0 <= i < times.len() ==> elapsed_nanos(s.window_start, #[trigger] times[i])
                < NANOS_PER_SEC,
    ensures
        s.count + grants(s, times) <= s.max_per_second,
    decreases times.len(),
{
    if times.len() > 0 {
        let (t, ok) = limiter_step(s, times[0]);
        assert forall|i: int| 0 <= i < times.drop_first().len() implies elapsed_nanos(
            t.window_start,
            #[trigger] times.drop_first()[i],
        ) < NANOS_PER_SEC by {
            assert(times.drop_first()[i] == times[i + 1]);
        }
        limiter_bounds_window(t, times.drop_first());
    }
}

/// A request made a second or more after the window opened is granted, unless
/// the limit is zero.
pub proof fn limiter_reopens(s: LimiterState, now: Instant)
    requires
        s.max_per_second > 0,
        elapsed_nanos(s.window_start, now) >= NANOS_PER_SEC,
    ensures
        limiter_step(s, now).1,
{
}

/// Simple rate limiter for ICMP generation.
#[derive(Clone, Copy)]
pub struct IcmpRateLimiter {
    max_per_second: u32,
    count: u32,
    window_start: Instant,
}

impl View for IcmpRateLimiter {
    type V = LimiterState;

    closed spec fn view(&self) -> LimiterState {
        LimiterState {
            max_per_second: self.max_per_second,
            count: self.count,
            window_start: self.window_start,
        }
    }
}

impl IcmpRateLimiter {
    /// A limiter whose first window opens at `now`.
    pub fn new(max_per_second: u32, now: Instant) -> (r: IcmpRateLimiter)
        ensures
            r@ == (LimiterState { max_per_second, count: 0, window_start: now }),
    {
        IcmpRateLimiter { max_per_second, count: 0, window_start: now }
    }

    /// Returns true if an ICMP response is allowed.
    pub fn allow(&mut self, now: Instant) -> (ok: bool)
        ensures
            (final(self)@, ok) == limiter_step(old(self)@, now),
    {
        if self.max_per_second == 0 {
            return false;
        }
        if now.duration_since(self.window_start).as_secs() >= 1 {
            self.count = 0;
            self.window_start = now;
        }
        if self.count < self.max_per_second {
            self.count = self.count + 1;
            true
        } else {
            false
        }
    }
}

/// What the limiters of a rewriter remember: one for each VIP that has had a
/// request.
pub struct VipLimits {
    pub max_per_second: u32,
    pub per_vip: Map<IpAddr, LimiterState>,
}

/// The limiter of a VIP. The first window of a VIP opens with its first
/// request.
pub open spec fn limiter_of(s: VipLimits, vip: IpAddr, now: Instant) -> LimiterState {
    if s.per_vip.contains_key(vip) {
        s.per_vip[vip]
    } else {
        LimiterState { max_per_second: s.max_per_second, count: 0, window_start: now }
    }
}

/// The limiters after a request for `vip` at `now`, and whether it was granted.
pub open spec fn vip_step(s: VipLimits, vip: IpAddr, now: Instant) -> (VipLimits, bool) {
    let (l, granted) = limiter_step(limiter_of(s, vip, now), now);
    (VipLimits { per_vip: s.per_vip.insert(vip, l), ..s }, granted)
}

/// Every VIP has the same limit, and none has been granted more than that in its
/// window.
pub open spec fn limits_valid(s: VipLimits) -> bool {
    forall|vip: IpAddr| #[trigger]
        s.per_vip.contains_key(vip) ==> s.per_vip[vip].max_per_second == s.max_per_second
            && s.per_vip[vip].count <= s.max_per_second
}

/// How much of its limit a VIP has used up in its window.
pub open spec fn spent(s: VipLimits, vip: IpAddr) -> nat {
    if s.per_vip.contains_key(vip) {
        s.per_vip[vip].count as nat
    } else {
        0
    }
}

pub proof fn lemma_vip_step_valid(s: VipLimits, vip: IpAddr, now: Instant)
    requires
        limits_valid(s),
    ensures
        limits_valid(vip_step(s, vip, now).0),
        vip_step(s, vip, now).0.max_per_second == s.max_per_second,
{
}

/// Limits are kept for each VIP by itself: requests for one VIP leave what
/// another is granted as it was.
pub proof fn limits_are_per_vip(s: VipLimits, vip: IpAddr, now: Instant, other: IpAddr, t: Instant)
    requires
        vip != other,
    ensures
        limiter_of(vip_step(s, vip, now).0, other, t) == limiter_of(s, other, t),
        vip_step(vip_step(s, vip, now).0, other, t).1 == vip_step(s, other, t).1,
{
}

/// A rate limiter for each VIP.
pub struct VipRateLimiters {
    max_per_second: u32,
    limiters: AssocMap<IpAddr, IcmpRateLimiter>,
}

impl View for VipRateLimiters {
    type V = VipLimits;

    closed spec fn view(&self) -> VipLimits {
        VipLimits {
            max_per_second: self.max_per_second,
            per_vip: Map::new(
                |vip: IpAddr| self.limiters@.contains_key(vip),
                |vip: IpAddr| self.limiters@[vip]@,
            ),
        }
    }
}

impl VipRateLimiters {
    pub closed spec fn wf(self) -> bool {
        &&& self.limiters.wf()
        &&& limits_valid(self@)
    }

    /// What well-formedness says of the limits.
    pub proof fn lemma_wf(self)
        requires
            self.wf(),
        ensures
            limits_valid(self@),
    {
    }

    /// Limiters that grant each VIP `max_per_second` requests.
    pub fn new(max_per_second: u32) -> (r: VipRateLimiters)
        ensures
            r.wf(),
            r@ == (VipLimits { max_per_second, per_vip: Map::empty() }),
    {
        let r = VipRateLimiters { max_per_second, limiters: AssocMap::new() };
        assert(r@.per_vip =~= Map::<IpAddr, LimiterState>::empty());
        r
    }

    /// Returns true if a response from `vip` is allowed.
    pub fn allow(&mut self, vip: IpAddr, now: Instant) -> (ok: bool)
        requires
            old(self).wf(),
        ensures
            final(self).wf(),
            (final(self)@, ok) == vip_step(old(self)@, vip, now),
    {
        let mut limiter = match self.limiters.get(&vip) {
            Some(l) => *l,
            None => IcmpRateLimiter::new(self.max_per_second, now),
        };
        let ok = limiter.allow(now);
        self.limiters.insert(vip, limiter);
        proof {
            assert(self@.per_vip =~= vip_step(old(self)@, vip, now).0.per_vip);
            lemma_vip_step_valid(old(self)@, vip, now);
        }
        ok
    }
}

} // verus!

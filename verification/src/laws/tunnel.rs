//! What the tunnel puts on the wire: GRE packets, clamped TCP handshakes and
//! the answers to packets that do not fit.

use vstd::prelude::*;

use crate::base::checksum::{internet_checksum, lemma_word_bytes, total_sum};
use crate::base::net::{IpAddr, Ipv4Addr};
use crate::base::time::{elapsed_nanos, Instant, NANOS_PER_MICRO, NANOS_PER_MILLI, NANOS_PER_SEC};
use crate::forwarder::gre::{encapsulated, encapsulation_preserves_inner, ENCAP_OVERHEAD};
use crate::forwarder::icmp::{
    frag_needed_packet, frag_needed_verifies, grants, limiter_step, too_big_for_tunnel, vip_step,
    LimiterState, VipLimits,
};
use crate::forwarder::mss_clamp::{
    clamp_class, clamped_packet, clamping_is_idempotent, clamping_is_local, find_mss,
    lemma_clamped_len, mss_option, tcp_sum, without_checksum,
};
use crate::types::mtu::{GRE_OVERHEAD, IP_TCP_HEADER_SIZE, MIN_MSS, MIN_NETWORK_MTU};

verus! {

/// A tunnel packet is an IPv4 packet without options, not to be fragmented, of
/// protocol 47, from `src` to `dst`, whose total length is its own; its GRE
/// header tells an IPv6 packet inside from any other; then the inner packet
/// follows unchanged.
pub proof fn tunnel_packets_name_their_ends(inner: Seq<u8>, src: Ipv4Addr, dst: Ipv4Addr)
    requires
        inner.len() + 24 <= 65535,
    ensures
        ({
            let p = encapsulated(inner, src, dst);
            &&& p.len() == inner.len() + 24
            &&& p[0] == 0x45
            &&& p[1] == 0
            &&& p[2] * 256 + p[3] == p.len()
            &&& p[4] == 0 && p[5] == 0
            &&& p[6] == 0x40 && p[7] == 0
            &&& p[8] == 64
            &&& p[9] == 47
            &&& p[12] == src.a && p[13] == src.b && p[14] == src.c && p[15] == src.d
            &&& p[16] == dst.a && p[17] == dst.b && p[18] == dst.c && p[19] == dst.d
            &&& internet_checksum(p.take(20)) == 0
            &&& p[20] == 0 && p[21] == 0
            &&& p[22] * 256 + p[23] == (if inner.len() > 0 && inner[0] / 16 == 6 {
                0x86DDint
            } else {
                0x0800
            })
            &&& forall|i: int| 0 <= i < inner.len() ==> #[trigger] p[24 + i] == inner[i]
        }),
{
    encapsulation_preserves_inner(inner, src, dst);
    let p = encapsulated(inner, src, dst);
    lemma_word_bytes((inner.len() + 24) as int);
    assert forall|i: int| 0 <= i < inner.len() implies #[trigger] p[24 + i] == inner[i] by {
        assert(p.skip(24)[i] == inner[i]);
    }
}

/// An IPv4 packet is too big for the tunnel if and only if its don't-fragment
/// bit is set and its total length leaves no room for the 24 bytes of the
/// tunnel headers.
pub proof fn oversized_is_told_by_the_header(d: Seq<u8>, network_mtu: u16)
    ensures
        too_big_for_tunnel(d, network_mtu) <==> d.len() >= 20 && d[0] / 16 == 4 && (d[6] / 64) % 2
            == 1 && d[2] * 256 + d[3] + 24 > network_mtu,
{
    assert((d[6] * 256 + d[7]) / 0x4000 == d[6] / 64);
}

/// The answer to an oversized packet is an ICMP packet of type 3 and code 4,
/// from the VIP to the sender of the packet, which names the MTU and quotes the
/// first 28 bytes of the packet, or all of it if it is shorter.
pub proof fn answers_name_the_mtu(original: Seq<u8>, vip: Ipv4Addr, next_hop_mtu: u16)
    requires
        original.len() >= 16,
    ensures
        ({
            let p = frag_needed_packet(original, vip, next_hop_mtu);
            &&& p.len() == 28 + (if original.len() < 28 {
                original.len() as int
            } else {
                28
            })
            &&& p[0] == 0x45
            &&& p[1] == 0xC0
            &&& p[2] * 256 + p[3] == p.len()
            &&& p[6] == 0 && p[7] == 0
            &&& p[8] == 64
            &&& p[9] == 1
            &&& p[12] == vip.a && p[13] == vip.b && p[14] == vip.c && p[15] == vip.d
            &&& p[16] == original[12] && p[17] == original[13] && p[18] == original[14] && p[19]
                == original[15]
            &&& internet_checksum(p.take(20)) == 0
            &&& p[20] == 3
            &&& p[21] == 4
            &&& p[24] == 0 && p[25] == 0
            &&& p[26] * 256 + p[27] == next_hop_mtu
            &&& internet_checksum(p.skip(20)) == 0
            &&& forall|i: int| 0 <= i < p.len() - 28 ==> #[trigger] p[28 + i] == original[i]
        }),
{
    frag_needed_verifies(original, vip, next_hop_mtu);
    let p = frag_needed_packet(original, vip, next_hop_mtu);
    lemma_word_bytes(next_hop_mtu as int);
    assert forall|i: int| 0 <= i < p.len() - 28 implies #[trigger] p[28 + i] == original[i] by {
        assert(p.skip(28)[i] == original[i]);
    }
}

/// Of the requests that come within one second of the start of a window, exactly
/// the first ones are granted, as many as the limit has left.
pub proof fn limit_is_used_up_in_order(s: LimiterState, times: Seq<Instant>)
    requires
        s.count <= s.max_per_second,
        forall|i: int|
            0 <= i < times.len() ==> s.window_start.nanos <= (#[trigger] times[i]).nanos
                && times[i].nanos < s.window_start.nanos + 1_000_000_000,
    ensures
        grants(s, times) == (if times.len() <= s.max_per_second - s.count {
            times.len() as int
        } else {
            s.max_per_second - s.count
        }),
        times.len() > 0 ==> limiter_step(s, times[0]).1 == (s.count < s.max_per_second),
    decreases times.len(),
{
    if times.len() > 0 {
        let (t, ok) = limiter_step(s, times[0]);
        let rest = times.drop_first();
        assert forall|i: int| 0 <= i < rest.len() implies t.window_start.nanos <= (
        #[trigger] rest[i]).nanos && rest[i].nanos < t.window_start.nanos + 1_000_000_000 by {
            assert(rest[i] == times[i + 1]);
        }
        limit_is_used_up_in_order(t, rest);
    }
}

/// Once a second has gone by since a window began, the next request begins
/// another, in which the whole limit is to be had again.
pub proof fn limit_comes_back_after_a_second(s: LimiterState, now: Instant)
    requires
        now.nanos >= s.window_start.nanos + 1_000_000_000,
        s.max_per_second > 0,
    ensures
        limiter_step(s, now).1,
        limiter_step(s, now).0.window_start == now,
        limiter_step(s, now).0.count == 1,
        limiter_step(s, now).0.max_per_second == s.max_per_second,
{
}

/// The search for the MSS passes over padding and over any other option, by the
/// length it gives for itself; it ends at the end of the list, at its end marker
/// and at a length that no option has.
pub proof fn option_search_walks_the_list(d: Seq<u8>, off: int, end: int)
    ensures
        off >= end ==> find_mss(d, off, end) is None,
        off < end && d[off] == 0 ==> find_mss(d, off, end) is None,
        off < end && d[off] == 1 ==> find_mss(d, off, end) == find_mss(d, off + 1, end),
        off + 4 <= end && d[off] == 2 && d[off + 1] == 4 ==> find_mss(d, off, end) == Some(off),
        off + 1 < end && d[off] > 1 && d[off + 1] >= 2 && !(d[off] == 2 && d[off + 1] == 4)
            ==> find_mss(d, off, end) == find_mss(d, off + d[off + 1], end),
        off + 1 < end && d[off] > 1 && d[off + 1] < 2 ==> find_mss(d, off, end) is None,
{
}

/// Padding before the MSS option does not hide it, however long it is.
pub proof fn padding_hides_no_mss(d: Seq<u8>, off: int, k: nat, end: int)
    requires
        off + k + 4 <= end,
        forall|i: int| off <= i < off + k ==> #[trigger] d[i] == 1,
        d[off + k] == 2,
        d[off + k + 1] == 4,
    ensures
        find_mss(d, off, end) == Some(off + k),
    decreases k,
{
    if k > 0 {
        assert(d[off] == 1);
        padding_hides_no_mss(d, off + 1, (k - 1) as nat, end);
    }
}

/// Only an IPv4 TCP packet with the SYN flag is ever changed: any other leaves
/// as it came, and so does one that announces no MSS or no more than the limit.
/// One that announces more leaves with the limit in its place, and only the
/// bytes of the MSS and of the TCP checksum differ.
pub proof fn handshakes_announce_at_most_the_limit(d: Seq<u8>, max_mss: u16)
    ensures
        ({
            let l4 = (d[0] % 16) * 4;
            let e = clamped_packet(d, max_mss as int);
            let class = clamp_class(d, max_mss as int);
            let tcp = d.len() >= 40 && d[0] / 16 == 4 && d[9] == 6 && d.len() >= l4 + 20;
            let syn = (d[l4 + 13] / 2) % 2 == 1;
            let end = l4 + (d[l4 + 12] / 16) * 4;
            &&& e.len() == d.len()
            &&& class is NotTcp <==> !tcp
            &&& class is NotSyn <==> tcp && !syn
            &&& tcp && syn && (end < l4 + 20 || end > d.len() || find_mss(d, l4 + 20, end) is None)
                ==> class is MssMissing
            &&& tcp && syn && l4 + 20 <= end <= d.len() ==> (find_mss(d, l4 + 20, end) matches Some(
                off,
            ) ==> {
                let mss = d[off + 2] * 256 + d[off + 3];
                &&& mss <= max_mss ==> class is Noop
                &&& mss > max_mss ==> {
                    &&& class is Clamped
                    &&& e[off + 2] * 256 + e[off + 3] == max_mss
                    &&& forall|i: int|
                        0 <= i < d.len() && i != off + 2 && i != off + 3 && i != l4 + 16 && i != l4
                            + 17 ==> #[trigger] e[i] == d[i]
                }
            })
            &&& !(class is Clamped) ==> e == d
        }),
{
    let l4 = (d[0] % 16) * 4;
    lemma_clamped_len(d, max_mss);
    clamping_is_idempotent(d, max_mss);
    let e = clamped_packet(d, max_mss as int);
    if clamp_class(d, max_mss as int) is Clamped {
        let off = mss_option(d)->0;
        assert forall|i: int|
            0 <= i < d.len() && i != off + 2 && i != off + 3 && i != l4 + 16 && i != l4
                + 17 implies #[trigger] e[i] == d[i] by {
            clamping_is_local(d, max_mss, i);
        }
    }
}

/// A request for a VIP counts against the limit of that VIP alone, in a window of its
/// own that its first request opens.
pub proof fn each_vip_has_its_own_limit(s: VipLimits, vip: IpAddr, now: Instant, other: IpAddr)
    ensures
        ({
            let (left, granted) = vip_step(s, vip, now);
            let before = if s.per_vip.contains_key(vip) {
                s.per_vip[vip]
            } else {
                LimiterState { max_per_second: s.max_per_second, count: 0, window_start: now }
            };
            &&& left.max_per_second == s.max_per_second
            &&& left.per_vip.contains_key(vip) && left.per_vip[vip] == limiter_step(before, now).0
            &&& granted == limiter_step(before, now).1
            &&& other != vip ==> (left.per_vip.contains_key(other) <==> s.per_vip.contains_key(
                other,
            )) && (s.per_vip.contains_key(other) ==> left.per_vip[other] == s.per_vip[other])
        }),
{
}

/// The sum under a TCP checksum counts the addresses, the protocol, the length of the
/// segment, and the words of the segment with a checksum of zero.
pub proof fn tcp_sum_counts_the_pseudo_header(d: Seq<u8>, l4: int)
    requires
        20 <= l4,
        l4 + 20 <= d.len(),
    ensures
        ({
            let segment = d.skip(l4).update(16, 0).update(17, 0);
            tcp_sum(d, l4) == d[12] * 256 + d[13] + d[14] * 256 + d[15] + d[16] * 256 + d[17]
                + d[18] * 256 + d[19] + d[9] + (d.len() - l4) + total_sum(segment)
        }),
{
    let segment = d.skip(l4).update(16, 0).update(17, 0);
    assert(d.subrange(l4, d.len() as int) =~= d.skip(l4));
    assert(without_checksum(d.skip(l4)) =~= segment);
}

/// The tunnel takes 24 bytes of a link's MTU, and the headers of IP and TCP forty more of
/// what a segment may hold; from an MTU of 1280 on that leaves more than every host must
/// accept.
pub proof fn tunnel_takes_its_share(network_mtu: u16)
    ensures
        GRE_OVERHEAD == 24 && ENCAP_OVERHEAD == 24,
        IP_TCP_HEADER_SIZE == 40,
        MIN_NETWORK_MTU == 1280,
        MIN_MSS == 536,
        network_mtu >= MIN_NETWORK_MTU ==> network_mtu - GRE_OVERHEAD - IP_TCP_HEADER_SIZE
            >= MIN_MSS,
{
}

/// A span of time is counted in nanoseconds, and nothing has passed at an earlier
/// instant.
pub proof fn time_is_counted_in_nanoseconds(earlier: Instant, later: Instant)
    ensures
        NANOS_PER_SEC == 1_000 * NANOS_PER_MILLI,
        NANOS_PER_MILLI == 1_000 * NANOS_PER_MICRO,
        NANOS_PER_MICRO == 1_000,
        earlier.nanos <= later.nanos ==> earlier.nanos + elapsed_nanos(earlier, later)
            == later.nanos,
        later.nanos <= earlier.nanos ==> elapsed_nanos(earlier, later) == 0,
{
}

} // verus!

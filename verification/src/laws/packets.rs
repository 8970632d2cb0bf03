//! What the parsers read off the bytes of a packet.

use vstd::prelude::*;

use crate::base::checksum::{be16, hi8, lo8};
use crate::base::net::{IpAddr, Ipv4Addr};
use crate::types::packet::{
    address_field, flow_key_bytes, fragment, fragment_key_bytes, ip_meta, ipv4_fragment_id,
    ipv4_meta, ipv6_meta, later_fragment, FragmentId, PacketMeta, TcpFlags,
};
use crate::types::vip::Protocol;

verus! {

/// An IPv4 packet belongs to a flow if and only if it is long enough for its
/// header and the ports and carries TCP or UDP; addresses, ports, protocol and
/// TCP flags are those at their places in the packet.
pub proof fn ipv4_flow_stands_in_the_header(d: Seq<u8>)
    ensures
        ipv4_meta(d) is Some <==> d.len() >= 24 && d[0] / 16 == 4 && d.len() >= (d[0] % 16) * 4 + 4
            && (d[9] == 6 || d[9] == 17),
        ipv4_meta(d) matches Some(m) ==> {
            let l4 = (d[0] % 16) * 4;
            &&& m.src_ip == IpAddr::V4(Ipv4Addr { a: d[12], b: d[13], c: d[14], d: d[15] })
            &&& m.dst_ip == IpAddr::V4(Ipv4Addr { a: d[16], b: d[17], c: d[18], d: d[19] })
            &&& m.src_port == d[l4] * 256 + d[l4 + 1]
            &&& m.dst_port == d[l4 + 2] * 256 + d[l4 + 3]
            &&& m.protocol == (if d[9] == 6 {
                Protocol::Tcp
            } else {
                Protocol::Udp
            })
            &&& m.tcp_flags == (if d[9] == 6 && d.len() >= l4 + 14 {
                Some(TcpFlags(d[l4 + 13]))
            } else {
                None
            })
        },
        d.len() > 0 && d[0] / 16 == 4 ==> ip_meta(d) == ipv4_meta(d),
{
}

/// An IPv6 packet belongs to a flow if and only if it is long enough for its
/// header and the ports and its next header is TCP or UDP; addresses, ports,
/// protocol and TCP flags are those at their places in the packet.
pub proof fn ipv6_flow_stands_in_the_header(d: Seq<u8>)
    ensures
        ipv6_meta(d) is Some <==> d.len() >= 44 && d[0] / 16 == 6 && (d[6] == 6 || d[6] == 17),
        ipv6_meta(d) matches Some(m) ==> {
            &&& m.src_ip matches IpAddr::V6(a) && a.s0 == d[8] * 256 + d[9] && a.s1 == d[10] * 256
                + d[11] && a.s2 == d[12] * 256 + d[13] && a.s3 == d[14] * 256 + d[15] && a.s4
                == d[16] * 256 + d[17] && a.s5 == d[18] * 256 + d[19] && a.s6 == d[20] * 256 + d[21]
                && a.s7 == d[22] * 256 + d[23]
            &&& m.dst_ip matches IpAddr::V6(a) && a.s0 == d[24] * 256 + d[25] && a.s1 == d[26] * 256
                + d[27] && a.s2 == d[28] * 256 + d[29] && a.s3 == d[30] * 256 + d[31] && a.s4
                == d[32] * 256 + d[33] && a.s5 == d[34] * 256 + d[35] && a.s6 == d[36] * 256 + d[37]
                && a.s7 == d[38] * 256 + d[39]
            &&& m.src_port == d[40] * 256 + d[41]
            &&& m.dst_port == d[42] * 256 + d[43]
            &&& m.protocol == (if d[6] == 6 {
                Protocol::Tcp
            } else {
                Protocol::Udp
            })
            &&& m.tcp_flags == (if d[6] == 6 && d.len() >= 54 {
                Some(TcpFlags(d[53]))
            } else {
                None
            })
        },
        d.len() > 0 && d[0] / 16 == 6 ==> ip_meta(d) == ipv6_meta(d),
        d.len() == 0 || (d[0] / 16 != 4 && d[0] / 16 != 6) ==> ip_meta(d) is None,
{
}

/// The FIN, SYN, RST and ACK flags are the bits 0, 1, 2 and 4 of the flags
/// byte.
pub proof fn flags_are_bits(f: TcpFlags)
    ensures
        f.has(0x01) <==> f.0 & 0x01 == 0x01,
        f.has(0x02) <==> f.0 & 0x02 == 0x02,
        f.has(0x04) <==> f.0 & 0x04 == 0x04,
        f.has(0x10) <==> f.0 & 0x10 == 0x10,
{
    let b = f.0;
    assert(((b / 1) % 2 == 1 <==> b & 0x01 == 0x01) && ((b / 2) % 2 == 1 <==> b & 0x02 == 0x02) && (
    (b / 4) % 2 == 1 <==> b & 0x04 == 0x04) && ((b / 16) % 2 == 1 <==> b & 0x10 == 0x10))
        by (bit_vector);
}

/// What is hashed of an IPv4 flow: the source address, the destination address,
/// each followed by twelve zero bytes, the four bytes of the ports and the
/// protocol number, all as they stand in the packet.
pub proof fn flow_key_is_cut_from_the_packet(d: Seq<u8>)
    requires
        ipv4_meta(d) is Some,
    ensures
        flow_key_bytes(ipv4_meta(d)->0) == d.subrange(12, 16) + Seq::new(12, |i: int| 0u8)
            + d.subrange(16, 20) + Seq::new(12, |i: int| 0u8) + d.subrange(
            (d[0] % 16) * 4,
            (d[0] % 16) * 4 + 4,
        ) + seq![d[9]],
{
    let l4 = (d[0] % 16) * 4;
    let m = ipv4_meta(d)->0;
    let want = d.subrange(12, 16) + Seq::new(12, |i: int| 0u8) + d.subrange(16, 20) + Seq::new(
        12,
        |i: int| 0u8,
    ) + d.subrange(l4, l4 + 4) + seq![d[9]];
    assert(flow_key_bytes(m) =~= want);
}

/// What is hashed of an IPv6 flow: the addresses, the ports and the protocol
/// number, all as they stand in the packet.
pub proof fn ipv6_flow_key_is_cut_from_the_packet(d: Seq<u8>)
    requires
        ipv6_meta(d) is Some,
    ensures
        flow_key_bytes(ipv6_meta(d)->0) == d.subrange(8, 44) + seq![d[6]],
{
    let m = ipv6_meta(d)->0;
    let src = m.src_ip->V6_0;
    let dst = m.dst_ip->V6_0;
    assert forall|i: int| 0 <= i < 16 implies src.octet_seq()[i] == d[8 + i] by {
        lemma_segment_bytes(d, 8 + i - i % 2);
        assert(i == 2 * (i / 2) + i % 2);
    }
    assert forall|i: int| 0 <= i < 16 implies dst.octet_seq()[i] == d[24 + i] by {
        lemma_segment_bytes(d, 24 + i - i % 2);
        assert(i == 2 * (i / 2) + i % 2);
    }
    assert(flow_key_bytes(m) =~= d.subrange(8, 44) + seq![d[6]]);
}

proof fn lemma_segment_bytes(d: Seq<u8>, i: int)
    ensures
        hi8(be16(d[i], d[i + 1])) == d[i],
        lo8(be16(d[i], d[i + 1])) == d[i + 1],
{
}

proof fn lemma_address_fields(x: IpAddr, y: IpAddr)
    requires
        address_field(x) == address_field(y),
        x is V4 <==> y is V4,
    ensures
        x == y,
{
    let f = address_field(x);
    match (x, y) {
        (IpAddr::V4(a), IpAddr::V4(b)) => {
            assert(f[0] == a.a && f[1] == a.b && f[2] == a.c && f[3] == a.d);
            let g = address_field(y);
            assert(g[0] == b.a && g[1] == b.b && g[2] == b.c && g[3] == b.d);
        },
        (IpAddr::V6(a), IpAddr::V6(b)) => {
            assert forall|j: int| 0 <= j < 8 implies a.segment_seq()[j] == b.segment_seq()[j] by {
                assert(a.octet_seq()[2 * j] == b.octet_seq()[2 * j]);
                assert(a.octet_seq()[2 * j + 1] == b.octet_seq()[2 * j + 1]);
            }
            assert(a.segment_seq()[0] == b.segment_seq()[0]);
            assert(a.segment_seq()[1] == b.segment_seq()[1]);
            assert(a.segment_seq()[2] == b.segment_seq()[2]);
            assert(a.segment_seq()[3] == b.segment_seq()[3]);
            assert(a.segment_seq()[4] == b.segment_seq()[4]);
            assert(a.segment_seq()[5] == b.segment_seq()[5]);
            assert(a.segment_seq()[6] == b.segment_seq()[6]);
            assert(a.segment_seq()[7] == b.segment_seq()[7]);
        },
        _ => {},
    }
}

/// No two flows over one IP version share a hash key: addresses, ports and
/// protocol can all be read off it.
pub proof fn flow_keys_are_distinct(x: PacketMeta, y: PacketMeta)
    requires
        flow_key_bytes(x) == flow_key_bytes(y),
        x.src_ip is V4 <==> y.src_ip is V4,
        x.dst_ip is V4 <==> y.dst_ip is V4,
    ensures
        x.src_ip == y.src_ip,
        x.dst_ip == y.dst_ip,
        x.src_port == y.src_port,
        x.dst_port == y.dst_port,
        x.protocol == y.protocol,
{
    let k = flow_key_bytes(x);
    let l = flow_key_bytes(y);
    assert(k.take(16) =~= address_field(x.src_ip));
    assert(l.take(16) =~= address_field(y.src_ip));
    assert(k.subrange(16, 32) =~= address_field(x.dst_ip));
    assert(l.subrange(16, 32) =~= address_field(y.dst_ip));
    lemma_address_fields(x.src_ip, y.src_ip);
    lemma_address_fields(x.dst_ip, y.dst_ip);
    assert(k[32] == hi8(x.src_port as int) && k[33] == lo8(x.src_port as int));
    assert(k[34] == hi8(x.dst_port as int) && k[35] == lo8(x.dst_port as int));
    assert(k[36] == x.protocol.number());
    assert(l[32] == hi8(y.src_port as int) && l[33] == lo8(y.src_port as int));
    assert(l[34] == hi8(y.dst_port as int) && l[35] == lo8(y.dst_port as int));
    assert(l[36] == y.protocol.number());
}

/// An IPv4 packet is a fragment if and only if its more-fragments bit is set or
/// its offset is not zero, and a later one if and only if its offset is not
/// zero. All fragments of a packet carry its addresses and its identification.
pub proof fn fragments_stand_in_the_header(d: Seq<u8>)
    ensures
        fragment(d) <==> d.len() >= 20 && ((d[6] / 32) % 2 == 1 || d[6] % 32 != 0 || d[7] != 0),
        later_fragment(d) <==> d.len() >= 20 && (d[6] % 32 != 0 || d[7] != 0),
        ipv4_fragment_id(d) is Some <==> d.len() >= 20 && d[0] / 16 == 4,
        ipv4_fragment_id(d) matches Some(f) ==> {
            &&& f.src_ip == IpAddr::V4(Ipv4Addr { a: d[12], b: d[13], c: d[14], d: d[15] })
            &&& f.dst_ip == IpAddr::V4(Ipv4Addr { a: d[16], b: d[17], c: d[18], d: d[19] })
            &&& f.ip_id == d[4] * 256 + d[5]
            &&& fragment_key_bytes(f) == d.subrange(12, 16) + Seq::new(12, |i: int| 0u8)
                + d.subrange(16, 20) + Seq::new(12, |i: int| 0u8) + d.subrange(4, 6)
        },
{
    if let Some(f) = ipv4_fragment_id(d) {
        assert(fragment_key_bytes(f) =~= d.subrange(12, 16) + Seq::new(12, |i: int| 0u8)
            + d.subrange(16, 20) + Seq::new(12, |i: int| 0u8) + d.subrange(4, 6));
    }
}

/// No two packets in fragments share a hash key: their addresses and their
/// identification can be read off it.
pub proof fn fragment_keys_are_distinct(x: FragmentId, y: FragmentId)
    requires
        fragment_key_bytes(x) == fragment_key_bytes(y),
        x.src_ip is V4 <==> y.src_ip is V4,
        x.dst_ip is V4 <==> y.dst_ip is V4,
    ensures
        x.src_ip == y.src_ip,
        x.dst_ip == y.dst_ip,
        x.ip_id == y.ip_id,
{
    let k = fragment_key_bytes(x);
    let l = fragment_key_bytes(y);
    assert(k.take(16) =~= address_field(x.src_ip));
    assert(l.take(16) =~= address_field(y.src_ip));
    assert(k.subrange(16, 32) =~= address_field(x.dst_ip));
    assert(l.subrange(16, 32) =~= address_field(y.dst_ip));
    lemma_address_fields(x.src_ip, y.src_ip);
    lemma_address_fields(x.dst_ip, y.dst_ip);
    assert(k[32] == hi8(x.ip_id as int) && k[33] == lo8(x.ip_id as int));
    assert(l[32] == hi8(y.ip_id as int) && l[33] == lo8(y.ip_id as int));
}

} // verus!

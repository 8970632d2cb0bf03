//! GRE encapsulation (RFC 2784) in an outer IPv4 header.

use vstd::prelude::*;

use crate::base::checksum::{
    checksum_verifies, hi8, internet_checksum, ip_checksum, lo8, with_word, word_at,
};
use crate::base::net::Ipv4Addr;
use crate::io::packet_buf::PacketBuf;

verus! {

/// GRE header size: 4 bytes (flags=0, protocol type).
pub const GRE_HEADER_SIZE: usize = 4;

/// Outer IPv4 header size: 20 bytes (no options).
pub const OUTER_IP_HEADER_SIZE: usize = 20;

/// Total encapsulation overhead.
pub const ENCAP_OVERHEAD: usize = 24;

/// GRE protocol type for inner IPv4.
pub const GRE_PROTO_IPV4: u16 = 0x0800;

/// GRE protocol type for inner IPv6.
pub const GRE_PROTO_IPV6: u16 = 0x86DD;

/// A 20-byte IPv4 header with the checksum field at zero.
pub open spec fn blank_ipv4_header(
    tos: u8,
    total_len: int,
    flags: u8,
    protocol: u8,
    src: Ipv4Addr,
    dst: Ipv4Addr,
) -> Seq<u8> {
    seq![
        0x45u8,
        tos,
        hi8(total_len),
        lo8(total_len),
        0,
        0,
        flags,
        0,
        64,
        protocol,
        0,
        0,
        src.a,
        src.b,
        src.c,
        src.d,
        dst.a,
        dst.b,
        dst.c,
        dst.d,
    ]
}

/// A 20-byte IPv4 header with its checksum.
pub open spec fn ipv4_header(
    tos: u8,
    total_len: int,
    flags: u8,
    protocol: u8,
    src: Ipv4Addr,
    dst: Ipv4Addr,
) -> Seq<u8> {
    let h = blank_ipv4_header(tos, total_len, flags, protocol, src, dst);
    with_word(h, 10, internet_checksum(h))
}

/// The GRE protocol type for an inner packet.
pub open spec fn gre_protocol(inner: Seq<u8>) -> u16 {
    if inner.len() > 0 && inner[0] / 16 == 6 {
        GRE_PROTO_IPV6
    } else {
        GRE_PROTO_IPV4
    }
}

/// A GRE header without optional fields.
pub open spec fn gre_header(protocol: u16) -> Seq<u8> {
    seq![0u8, 0u8, hi8(protocol as int), lo8(protocol as int)]
}

/// An inner packet in its tunnel headers: outer IPv4 with DF set and protocol
/// 47, GRE, then the packet unchanged.
pub open spec fn encapsulated(inner: Seq<u8>, src: Ipv4Addr, dst: Ipv4Addr) -> Seq<u8> {
    ipv4_header(0, ((inner.len() + ENCAP_OVERHEAD) % 0x1_0000) as int, 0x40, 47, src, dst)
        + gre_header(gre_protocol(inner)) + inner
}

/// An IPv4 header with its checksum verifies.
pub proof fn ipv4_header_verifies(
    tos: u8,
    total_len: int,
    flags: u8,
    protocol: u8,
    src: Ipv4Addr,
    dst: Ipv4Addr,
)
    ensures
        ipv4_header(tos, total_len, flags, protocol, src, dst).len() == OUTER_IP_HEADER_SIZE,
        internet_checksum(ipv4_header(tos, total_len, flags, protocol, src, dst)) == 0,
{
    let h = blank_ipv4_header(tos, total_len, flags, protocol, src, dst);
    assert(word_at(h, 10) == 0);
    checksum_verifies(h, 10);
}

/// Encapsulation adds exactly the overhead, the outer header verifies, and
/// taking the tunnel headers off gives the inner packet back.
pub proof fn encapsulation_preserves_inner(inner: Seq<u8>, src: Ipv4Addr, dst: Ipv4Addr)
    ensures
        encapsulated(inner, src, dst).len() == inner.len() + ENCAP_OVERHEAD,
        internet_checksum(encapsulated(inner, src, dst).take(OUTER_IP_HEADER_SIZE as int)) == 0,
        encapsulated(inner, src, dst).skip(ENCAP_OVERHEAD as int) == inner,
{
    let total = ((inner.len() + ENCAP_OVERHEAD) % 0x1_0000) as int;
    let e = encapsulated(inner, src, dst);
    let h = ipv4_header(0, total, 0x40, 47, src, dst);
    ipv4_header_verifies(0, total, 0x40, 47, src, dst);
    assert(e.take(OUTER_IP_HEADER_SIZE as int) =~= h);
    assert(e.skip(ENCAP_OVERHEAD as int) =~= inner);
}

/// Writes an IPv4 header without options at the front of `data`.
pub(crate) fn write_ipv4_header(
    data: &mut [u8],
    tos: u8,
    total_len: u16,
    flags: u8,
    protocol: u8,
    src: Ipv4Addr,
    dst: Ipv4Addr,
)
    requires
        old(data)@.len() >= OUTER_IP_HEADER_SIZE,
    ensures
        final(data)@ == ipv4_header(tos, total_len as int, flags, protocol, src, dst) + old(
            data,
        )@.skip(OUTER_IP_HEADER_SIZE as int),
{
    data[0] = 0x45;
    data[1] = tos;
    data[2] = (total_len / 256) as u8;
    data[3] = (total_len % 256) as u8;
    data[4] = 0;
    data[5] = 0;
    data[6] = flags;
    data[7] = 0;
    data[8] = 64;
    data[9] = protocol;
    data[10] = 0;
    data[11] = 0;
    data[12] = src.a;
    data[13] = src.b;
    data[14] = src.c;
    data[15] = src.d;
    data[16] = dst.a;
    data[17] = dst.b;
    data[18] = dst.c;
    data[19] = dst.d;
    let ghost h = blank_ipv4_header(tos, total_len as int, flags, protocol, src, dst);
    assert(data@.subrange(0, 20) =~= h);
    let checksum: u16 = ip_checksum(&data[0..20]);
    data[10] = (checksum / 256) as u8;
    data[11] = (checksum % 256) as u8;
    assert(data@ =~= ipv4_header(tos, total_len as int, flags, protocol, src, dst) + old(
        data,
    )@.skip(20));
}

/// Moves the first `len` bytes right by the encapsulation overhead.
fn shift_right(data: &mut [u8], len: usize)
    requires
        len + ENCAP_OVERHEAD <= old(data)@.len(),
    ensures
        final(data)@.len() == old(data)@.len(),
        forall|i: int|
            0 <= i < len ==> final(data)@[i + ENCAP_OVERHEAD] == #[trigger] old(data)@[i],
        forall|i: int| len + ENCAP_OVERHEAD <= i < old(data)@.len() ==> final(data)@[i] == old(
            data,
        )@[i],
{
    assert(len + ENCAP_OVERHEAD <= data.len());
    let ghost before = data@;
    let mut left: usize = len;
    while left > 0
        invariant
            left <= len,
            len + ENCAP_OVERHEAD <= data@.len(),
            data@.len() == before.len(),
            len + ENCAP_OVERHEAD <= data.len(),
            forall|i: int|
                left + ENCAP_OVERHEAD <= i < len + ENCAP_OVERHEAD ==> data@[i] == before[i
                    - ENCAP_OVERHEAD],
            forall|i: int| 0 <= i < left + ENCAP_OVERHEAD ==> data@[i] == before[i],
            forall|i: int| len + ENCAP_OVERHEAD <= i < data@.len() ==> data@[i] == before[i],
        decreases left,
    {
        left = left - 1;
        let byte: u8 = data[left];
        data[left + ENCAP_OVERHEAD] = byte;
    }
    assert forall|i: int| 0 <= i < len implies data@[i + ENCAP_OVERHEAD]
        == #[trigger] before[i] by {
        let j = i + ENCAP_OVERHEAD;
        assert(data@[j] == before[j - ENCAP_OVERHEAD]);
    }
}

/// Encapsulate a packet with GRE + outer IPv4 header in-place on a raw buffer.
///
/// Operates directly on `&mut [u8]` + length, avoiding PacketBuf intermediaries.
/// Returns the new length on success, or `None` if the packet doesn't fit.
pub fn encapsulate_ipv4_buf(
    data: &mut [u8],
    inner_len: usize,
    src_ip: Ipv4Addr,
    dst_ip: Ipv4Addr,
) -> (r: Option<usize>)
    requires
        inner_len + ENCAP_OVERHEAD <= usize::MAX,
    ensures
        inner_len + ENCAP_OVERHEAD > old(data)@.len() ==> r is None && final(data)@ == old(data)@,
        inner_len + ENCAP_OVERHEAD <= old(data)@.len() ==> {
            &&& r == Some((inner_len + ENCAP_OVERHEAD) as usize)
            &&& final(data)@ == encapsulated(old(data)@.take(inner_len as int), src_ip, dst_ip)
                + old(data)@.skip(inner_len + ENCAP_OVERHEAD)
        },
{
    let new_len: usize = inner_len + ENCAP_OVERHEAD;
    if new_len > data.len() {
        return None;
    }
    let inner_proto: u16 = if inner_len > 0 && data[0] / 16 == 6 {
        GRE_PROTO_IPV6
    } else {
        GRE_PROTO_IPV4
    };
    shift_right(data, inner_len);
    let ghost shifted = data@;
    write_ipv4_header(data, 0, (new_len % 0x1_0000) as u16, 0x40, 47, src_ip, dst_ip);
    data[20] = 0;
    data[21] = 0;
    data[22] = (inner_proto / 256) as u8;
    data[23] = (inner_proto % 256) as u8;
    proof {
        let inner = old(data)@.take(inner_len as int);
        let want = encapsulated(inner, src_ip, dst_ip) + old(data)@.skip(new_len as int);
        ipv4_header_verifies(0, (new_len % 0x1_0000) as int, 0x40, 47, src_ip, dst_ip);
        assert(data@.len() == want.len());
        assert forall|i: int| 0 <= i < want.len() implies data@[i] == want[i] by {
            if 24 <= i < new_len {
                assert(shifted[(i - 24) + ENCAP_OVERHEAD] == old(data)@[i - 24]);
            }
        }
        assert(data@ =~= want);
    }
    Some(new_len)
}

/// Encapsulate a packet with GRE + outer IPv4 header in-place.
///
/// The packet data is shifted right by ENCAP_OVERHEAD bytes to make room
/// for the outer headers. Returns false if the packet doesn't fit.
pub fn encapsulate_ipv4(pkt: &mut PacketBuf, src_ip: Ipv4Addr, dst_ip: Ipv4Addr) -> (ok: bool)
    requires
        old(pkt).wf(),
    ensures
        final(pkt).wf(),
        ok == (old(pkt).len + ENCAP_OVERHEAD <= crate::io::packet_buf::PACKET_BUF_SIZE),
        ok ==> final(pkt)@ == encapsulated(old(pkt)@, src_ip, dst_ip),
        !ok ==> *final(pkt) == *old(pkt),
{
    let len: usize = pkt.len;
    match encapsulate_ipv4_buf(&mut pkt.data, len, src_ip, dst_ip) {
        Some(new_len) => {
            pkt.len = new_len;
            proof {
                encapsulation_preserves_inner(old(pkt)@, src_ip, dst_ip);
                assert(pkt@ =~= encapsulated(old(pkt)@, src_ip, dst_ip));
            }
            true
        },
        None => {
            assert(pkt.data =~= old(pkt).data);
            false
        },
    }
}

} // verus!

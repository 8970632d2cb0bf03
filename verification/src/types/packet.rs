//! Packet headers: the flow a packet belongs to and fragment identification.

use vstd::prelude::*;

use crate::base::checksum::{be16, hi8, lo8};
use crate::base::hash::{xxh3_64, xxh3_digest};
use crate::base::net::{IpAddr, Ipv4Addr, Ipv6Addr};
use crate::types::vip::Protocol;

verus! {

/// L4 protocol family used for per-protocol connection-tracking TTLs.
///
/// Distinct from [`Protocol`] (the public VIP-service protocol) because the
/// forwarder may need a coarser bucket that covers other protocols without
/// branching on every new enum variant.
#[derive(Debug, Clone, Copy, PartialEq, Eq, Hash, Structural)]
pub enum FlowProto {
    Tcp,
    Udp,
    Other,
}

impl From<Protocol> for FlowProto {
    fn from(p: Protocol) -> (r: FlowProto) {
        match p {
            Protocol::Tcp => FlowProto::Tcp,
            Protocol::Udp => FlowProto::Udp,
        }
    }
}

impl vstd::std_specs::convert::FromSpecImpl<Protocol> for FlowProto {
    open spec fn obeys_from_spec() -> bool {
        true
    }

    open spec fn from_spec(p: Protocol) -> FlowProto {
        flow_proto_of(p)
    }
}

/// The family that a service protocol falls under.
pub open spec fn flow_proto_of(p: Protocol) -> FlowProto {
    match p {
        Protocol::Tcp => FlowProto::Tcp,
        Protocol::Udp => FlowProto::Udp,
    }
}

/// TCP flow state tracked in the connection table. Non-TCP flows are always
/// in [`TcpFlowState::NotTcp`]. The state drives which TTL bucket applies:
/// `Handshake` (short) before a full 3-way handshake is observed,
/// `Established` (long) once we see data traffic, and `Closing` (short) after
/// a FIN or RST has been seen so the entry is reclaimed promptly.
#[derive(Debug, Clone, Copy, PartialEq, Eq, Hash, Structural)]
pub enum TcpFlowState {
    NotTcp,
    Handshake,
    Established,
    Closing,
}

/// Subset of TCP flags the forwarder needs for state transitions.
///
/// The flags live in the 14th byte of the TCP header (byte index 13):
///   bit 0 = FIN, bit 1 = SYN, bit 2 = RST, bit 4 = ACK.
#[derive(Debug, Clone, Copy, PartialEq, Eq, Hash, Structural)]
pub struct TcpFlags(pub u8);

impl Default for TcpFlags {
    fn default() -> (f: TcpFlags)
        ensures
            f == TcpFlags(0),
    {
        TcpFlags(0)
    }
}

impl TcpFlags {
    /// Whether bit `bit` of the flags byte is set, given as a power of two.
    pub open spec fn has(self, power: u8) -> bool {
        (self.0 / power) % 2 == 1
    }

    pub fn fin(self) -> (b: bool)
        ensures
            b == self.has(0x01),
    {
        self.0 % 2 == 1
    }

    pub fn syn(self) -> (b: bool)
        ensures
            b == self.has(0x02),
    {
        (self.0 / 0x02) % 2 == 1
    }

    pub fn rst(self) -> (b: bool)
        ensures
            b == self.has(0x04),
    {
        (self.0 / 0x04) % 2 == 1
    }

    pub fn ack(self) -> (b: bool)
        ensures
            b == self.has(0x10),
    {
        (self.0 / 0x10) % 2 == 1
    }
}

/// Extracted 5-tuple from an IP packet for flow identification.
///
/// For TCP packets the parser also surfaces the flags byte so that the
/// forwarder can drive the connection table's state machine. For other flows
/// it is always `None`.
#[derive(Debug, Clone, Copy, PartialEq, Eq, Hash, Structural)]
pub struct PacketMeta {
    pub src_ip: IpAddr,
    pub dst_ip: IpAddr,
    pub src_port: u16,
    pub dst_port: u16,
    pub protocol: Protocol,
    pub tcp_flags: Option<TcpFlags>,
}

/// The big-endian word at byte `i`.
pub open spec fn u16_at(d: Seq<u8>, i: int) -> u16 {
    be16(d[i], d[i + 1]) as u16
}

/// The IPv4 address at byte `i`.
pub open spec fn ipv4_at(d: Seq<u8>, i: int) -> IpAddr {
    IpAddr::V4(Ipv4Addr { a: d[i], b: d[i + 1], c: d[i + 2], d: d[i + 3] })
}

/// The IPv6 address at byte `i`.
pub open spec fn ipv6_at(d: Seq<u8>, i: int) -> IpAddr {
    IpAddr::V6(
        Ipv6Addr {
            s0: u16_at(d, i),
            s1: u16_at(d, i + 2),
            s2: u16_at(d, i + 4),
            s3: u16_at(d, i + 6),
            s4: u16_at(d, i + 8),
            s5: u16_at(d, i + 10),
            s6: u16_at(d, i + 12),
            s7: u16_at(d, i + 14),
        },
    )
}

/// The TCP flags of a segment that starts at byte `l4`, where the packet is
/// long enough to hold them.
pub open spec fn tcp_flags_at(d: Seq<u8>, protocol: Protocol, l4: int) -> Option<TcpFlags> {
    if protocol is Tcp && d.len() >= l4 + 14 {
        Some(TcpFlags(d[l4 + 13]))
    } else {
        None
    }
}

/// The flow of a packet whose addresses stand at `src` and `dst` and whose
/// L4 header starts at `l4`.
pub open spec fn meta_at(
    d: Seq<u8>,
    src_ip: IpAddr,
    dst_ip: IpAddr,
    protocol: Protocol,
    l4: int,
) -> PacketMeta {
    PacketMeta {
        src_ip,
        dst_ip,
        src_port: u16_at(d, l4),
        dst_port: u16_at(d, l4 + 2),
        protocol,
        tcp_flags: tcp_flags_at(d, protocol, l4),
    }
}

/// The flow of an IPv4 packet: at least 24 bytes, version 4, the ports within
/// the packet, TCP or UDP.
pub open spec fn ipv4_meta(d: Seq<u8>) -> Option<PacketMeta> {
    if d.len() < 24 || d[0] / 16 != 4 || d.len() < (d[0] % 16) * 4 + 4 {
        None
    } else {
        match Protocol::of_number(d[9]) {
            None => None,
            Some(p) => Some(meta_at(d, ipv4_at(d, 12), ipv4_at(d, 16), p, (d[0] % 16) * 4)),
        }
    }
}

/// The flow of an IPv6 packet: at least 44 bytes, version 6, TCP or UDP as
/// the next header.
pub open spec fn ipv6_meta(d: Seq<u8>) -> Option<PacketMeta> {
    if d.len() < 44 || d[0] / 16 != 6 {
        None
    } else {
        match Protocol::of_number(d[6]) {
            None => None,
            Some(p) => Some(meta_at(d, ipv6_at(d, 8), ipv6_at(d, 24), p, 40)),
        }
    }
}

/// The flow of an IP packet of either version.
pub open spec fn ip_meta(d: Seq<u8>) -> Option<PacketMeta> {
    if d.len() == 0 {
        None
    } else if d[0] / 16 == 4 {
        ipv4_meta(d)
    } else if d[0] / 16 == 6 {
        ipv6_meta(d)
    } else {
        None
    }
}

/// An address in a field of sixteen bytes, an IPv4 address in front.
pub open spec fn address_field(ip: IpAddr) -> Seq<u8> {
    match ip {
        IpAddr::V4(v4) => v4.octet_seq() + Seq::new(12, |i: int| 0u8),
        IpAddr::V6(v6) => v6.octet_seq(),
    }
}

/// The bytes of a flow's 5-tuple that are hashed.
pub open spec fn flow_key_bytes(m: PacketMeta) -> Seq<u8> {
    address_field(m.src_ip) + address_field(m.dst_ip) + seq![
        hi8(m.src_port as int),
        lo8(m.src_port as int),
        hi8(m.dst_port as int),
        lo8(m.dst_port as int),
        m.protocol.number(),
    ]
}

/// Two packets of one 5-tuple hash alike, whatever their TCP flags.
pub proof fn flow_hash_ignores_flags(x: PacketMeta, y: PacketMeta)
    requires
        x.src_ip == y.src_ip,
        x.dst_ip == y.dst_ip,
        x.src_port == y.src_port,
        x.dst_port == y.dst_port,
        x.protocol == y.protocol,
    ensures
        flow_key_bytes(x) == flow_key_bytes(y),
        xxh3_digest(flow_key_bytes(x)) == xxh3_digest(flow_key_bytes(y)),
{
}

fn read_u16(data: &[u8], i: usize) -> (r: u16)
    requires
        i + 1 < data@.len(),
    ensures
        r == u16_at(data@, i as int),
{
    data[i] as u16 * 256 + data[i + 1] as u16
}

fn read_ipv4(data: &[u8], i: usize) -> (r: IpAddr)
    requires
        i + 3 < data@.len(),
    ensures
        r == ipv4_at(data@, i as int),
{
    IpAddr::V4(Ipv4Addr::new(data[i], data[i + 1], data[i + 2], data[i + 3]))
}

fn read_ipv6(data: &[u8], i: usize) -> (r: IpAddr)
    requires
        i + 15 < data@.len(),
    ensures
        r == ipv6_at(data@, i as int),
{
    assert(i + 15 < data.len());
    IpAddr::V6(
        Ipv6Addr::new(
            read_u16(data, i),
            read_u16(data, i + 2),
            read_u16(data, i + 4),
            read_u16(data, i + 6),
            read_u16(data, i + 8),
            read_u16(data, i + 10),
            read_u16(data, i + 12),
            read_u16(data, i + 14),
        ),
    )
}

fn read_tcp_flags(data: &[u8], protocol: Protocol, l4: usize) -> (r: Option<TcpFlags>)
    requires
        l4 <= data@.len(),
    ensures
        r == tcp_flags_at(data@, protocol, l4 as int),
{
    if matches!(protocol, Protocol::Tcp) && data.len() - l4 >= 14 {
        Some(TcpFlags(data[l4 + 13]))
    } else {
        None
    }
}

fn push_address_field(buf: &mut Vec<u8>, ip: IpAddr)
    ensures
        final(buf)@ == old(buf)@ + address_field(ip),
{
    match ip {
        IpAddr::V4(v4) => {
            buf.push(v4.a);
            buf.push(v4.b);
            buf.push(v4.c);
            buf.push(v4.d);
            let mut i: usize = 0;
            while i < 12
                invariant
                    i <= 12,
                    buf@ == old(buf)@ + v4.octet_seq() + Seq::new(i as nat, |j: int| 0u8),
                decreases 12 - i,
            {
                buf.push(0);
                i = i + 1;
                assert(buf@ =~= old(buf)@ + v4.octet_seq() + Seq::new(i as nat, |j: int| 0u8));
            }
            assert(buf@ =~= old(buf)@ + address_field(ip));
        },
        IpAddr::V6(v6) => {
            let octets = v6.octets();
            let mut i: usize = 0;
            while i < 16
                invariant
                    i <= 16,
                    octets@ == v6.octet_seq(),
                    buf@ == old(buf)@ + v6.octet_seq().take(i as int),
                decreases 16 - i,
            {
                buf.push(octets[i]);
                i = i + 1;
                assert(buf@ =~= old(buf)@ + v6.octet_seq().take(i as int));
            }
            assert(v6.octet_seq().take(16) =~= v6.octet_seq());
        },
    }
}

impl PacketMeta {
    /// Parse a 5-tuple from raw IPv4 packet bytes (starting at the IP header).
    /// Returns `None` if the packet is too short or not TCP/UDP.
    pub fn from_ipv4_bytes(data: &[u8]) -> (r: Option<PacketMeta>)
        ensures
            r == ipv4_meta(data@),
    {
        if data.len() < 24 {
            return None;
        }
        if data[0] / 16 != 4 {
            return None;
        }
        let ihl: usize = (data[0] % 16) as usize * 4;
        if data.len() < ihl + 4 {
            return None;
        }
        match Protocol::from_ip_proto(data[9]) {
            None => None,
            Some(protocol) => Some(
                PacketMeta {
                    src_ip: read_ipv4(data, 12),
                    dst_ip: read_ipv4(data, 16),
                    src_port: read_u16(data, ihl),
                    dst_port: read_u16(data, ihl + 2),
                    protocol,
                    tcp_flags: read_tcp_flags(data, protocol, ihl),
                },
            ),
        }
    }

    /// Parse a 5-tuple from raw IPv6 packet bytes (starting at the IPv6 header).
    /// Returns `None` if the packet is too short or not TCP/UDP.
    pub fn from_ipv6_bytes(data: &[u8]) -> (r: Option<PacketMeta>)
        ensures
            r == ipv6_meta(data@),
    {
        if data.len() < 44 {
            return None;
        }
        if data[0] / 16 != 6 {
            return None;
        }
        match Protocol::from_ip_proto(data[6]) {
            None => None,
            Some(protocol) => Some(
                PacketMeta {
                    src_ip: read_ipv6(data, 8),
                    dst_ip: read_ipv6(data, 24),
                    src_port: read_u16(data, 40),
                    dst_port: read_u16(data, 42),
                    protocol,
                    tcp_flags: read_tcp_flags(data, protocol, 40),
                },
            ),
        }
    }

    /// Auto-detect IP version and parse accordingly.
    pub fn from_ip_bytes(data: &[u8]) -> (r: Option<PacketMeta>)
        ensures
            r == ip_meta(data@),
    {
        if data.len() == 0 {
            return None;
        }
        match data[0] / 16 {
            4 => PacketMeta::from_ipv4_bytes(data),
            6 => PacketMeta::from_ipv6_bytes(data),
            _ => None,
        }
    }

    /// The bytes of the 5-tuple that are hashed: 16 + 16 bytes of addresses,
    /// 2 + 2 bytes of ports, the protocol number.
    pub fn flow_key(&self) -> (key: Vec<u8>)
        ensures
            key@ == flow_key_bytes(*self),
            key@.len() == 37,
    {
        let mut buf: Vec<u8> = Vec::with_capacity(37);
        push_address_field(&mut buf, self.src_ip);
        push_address_field(&mut buf, self.dst_ip);
        buf.push((self.src_port / 256) as u8);
        buf.push((self.src_port % 256) as u8);
        buf.push((self.dst_port / 256) as u8);
        buf.push((self.dst_port % 256) as u8);
        buf.push(self.protocol.to_ip_proto());
        assert(buf@ =~= flow_key_bytes(*self));
        buf
    }

    /// Compute a hash of the 5-tuple using xxh3 for flow identification.
    pub fn flow_hash(&self) -> (h: u64)
        ensures
            h == xxh3_digest(flow_key_bytes(*self)),
    {
        xxh3_64(self.flow_key().as_slice())
    }
}

/// 3-tuple for fragment identification (no L4 ports).
#[derive(Debug, Clone, Copy, PartialEq, Eq, Hash, Structural)]
pub struct FragmentId {
    pub src_ip: IpAddr,
    pub dst_ip: IpAddr,
    pub ip_id: u16,
}

/// The fragment identification of an IPv4 packet.
pub open spec fn ipv4_fragment_id(d: Seq<u8>) -> Option<FragmentId> {
    if d.len() < 20 || d[0] / 16 != 4 {
        None
    } else {
        Some(
            FragmentId {
                src_ip: ipv4_at(d, 12),
                dst_ip: ipv4_at(d, 16),
                ip_id: u16_at(d, 4),
            },
        )
    }
}

/// The bytes of a 3-tuple that are hashed.
pub open spec fn fragment_key_bytes(f: FragmentId) -> Seq<u8> {
    address_field(f.src_ip) + address_field(f.dst_ip) + seq![
        hi8(f.ip_id as int),
        lo8(f.ip_id as int),
    ]
}

impl FragmentId {
    /// Parse a fragment identifier from raw IPv4 packet bytes.
    pub fn from_ipv4_bytes(data: &[u8]) -> (r: Option<FragmentId>)
        ensures
            r == ipv4_fragment_id(data@),
    {
        if data.len() < 20 {
            return None;
        }
        if data[0] / 16 != 4 {
            return None;
        }
        Some(
            FragmentId {
                src_ip: read_ipv4(data, 12),
                dst_ip: read_ipv4(data, 16),
                ip_id: read_u16(data, 4),
            },
        )
    }

    /// The bytes of the 3-tuple that are hashed.
    pub fn fragment_key(&self) -> (key: Vec<u8>)
        ensures
            key@ == fragment_key_bytes(*self),
            key@.len() == 34,
    {
        let mut buf: Vec<u8> = Vec::with_capacity(34);
        push_address_field(&mut buf, self.src_ip);
        push_address_field(&mut buf, self.dst_ip);
        buf.push((self.ip_id / 256) as u8);
        buf.push((self.ip_id % 256) as u8);
        assert(buf@ =~= fragment_key_bytes(*self));
        buf
    }

    /// Compute a hash of the 3-tuple for fragment routing.
    pub fn fragment_hash(&self) -> (h: u64)
        ensures
            h == xxh3_digest(fragment_key_bytes(*self)),
    {
        xxh3_64(self.fragment_key().as_slice())
    }
}

/// The fragment offset field of an IPv4 header, in units of eight bytes.
pub open spec fn fragment_offset(d: Seq<u8>) -> int {
    be16(d[6], d[7]) % 0x2000
}

/// Whether the more-fragments flag of an IPv4 header is set.
pub open spec fn more_fragments(d: Seq<u8>) -> bool {
    (be16(d[6], d[7]) / 0x2000) % 2 == 1
}

/// Whether `d` is a fragment.
pub open spec fn fragment(d: Seq<u8>) -> bool {
    d.len() >= 20 && (more_fragments(d) || fragment_offset(d) != 0)
}

/// Whether `d` is a fragment other than the first.
pub open spec fn later_fragment(d: Seq<u8>) -> bool {
    d.len() >= 20 && fragment_offset(d) != 0
}

/// A later fragment is a fragment; a fragment that is no later one is the
/// first of several.
pub proof fn fragment_kinds(d: Seq<u8>)
    ensures
        later_fragment(d) ==> fragment(d),
        fragment(d) && !later_fragment(d) ==> more_fragments(d) && fragment_offset(d) == 0,
{
}

/// Check if an IPv4 packet is a fragment (MF flag set or fragment offset != 0).
pub fn is_fragment(data: &[u8]) -> (b: bool)
    ensures
        b == fragment(data@),
{
    if data.len() < 20 {
        return false;
    }
    let flags_and_offset: u16 = read_u16(data, 6);
    (flags_and_offset / 0x2000) % 2 == 1 || flags_and_offset % 0x2000 != 0
}

/// Check if this is a non-first fragment (fragment offset > 0).
pub fn is_non_first_fragment(data: &[u8]) -> (b: bool)
    ensures
        b == later_fragment(data@),
{
    if data.len() < 20 {
        return false;
    }
    read_u16(data, 6) % 0x2000 != 0
}

} // verus!

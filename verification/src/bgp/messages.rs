//! BGP-4 messages (RFC 4271): encoding and parsing.

use bytes::{BufMut, BytesMut};
use vstd::prelude::*;

use crate::base::checksum::{be16, hi8, lo8};
use crate::base::net::Ipv4Addr;

verus! {

#[verifier::external_type_specification]
#[verifier::external_body]
pub struct ExBytesMut(BytesMut);

/// What a buffer holds.
pub uninterp spec fn bytes_in(b: BytesMut) -> Seq<u8>;

/// Calls `bytes::BytesMut::new`. Claims that the buffer is empty.
#[verifier::external_body]
fn buf_new() -> (b: BytesMut)
    ensures
        bytes_in(b) == Seq::<u8>::empty(),
{
    BytesMut::new()
}

/// Calls `bytes::BytesMut::len`. Claims that it counts what the buffer holds.
#[verifier::external_body]
fn buf_len(b: &BytesMut) -> (n: usize)
    ensures
        n == bytes_in(*b).len(),
{
    b.len()
}

/// Calls `bytes::BufMut::put_u8`. Claims that the byte goes to the end.
#[verifier::external_body]
fn put_u8(b: &mut BytesMut, n: u8)
    requires
        bytes_in(*old(b)).len() < u16::MAX,
    ensures
        bytes_in(*final(b)) == bytes_in(*old(b)).push(n),
{
    b.put_u8(n);
}

/// Calls `bytes::BufMut::put_u16`. Claims that the two bytes go to the end, the
/// high one first.
#[verifier::external_body]
fn put_u16(b: &mut BytesMut, n: u16)
    requires
        bytes_in(*old(b)).len() + 2 <= u16::MAX,
    ensures
        bytes_in(*final(b)) == bytes_in(*old(b)).push(hi8(n as int)).push(lo8(n as int)),
{
    b.put_u16(n);
}

/// Calls `bytes::BufMut::put_slice`. Claims that the bytes go to the end.
#[verifier::external_body]
fn put_slice(b: &mut BytesMut, src: &[u8])
    requires
        bytes_in(*old(b)).len() + src@.len() <= u16::MAX,
    ensures
        bytes_in(*final(b)) == bytes_in(*old(b)) + src@,
{
    b.put_slice(src);
}

/// Calls `bytes::BytesMut::deref_mut` and writes the byte at `i`. Claims that
/// this byte alone changes.
#[verifier::external_body]
fn buf_set(b: &mut BytesMut, i: usize, n: u8)
    requires
        i < bytes_in(*old(b)).len(),
    ensures
        bytes_in(*final(b)) == bytes_in(*old(b)).update(i as int, n),
{
    b[i] = n;
}

/// The length of the header: marker, length field and type.
pub const HEADER_LEN: usize = 19;

/// The longest message.
pub const MAX_MESSAGE_LEN: usize = 4096;

/// BGP message types.
#[derive(Debug, Clone, Copy, PartialEq, Eq, Structural)]
pub enum BgpMessageType {
    Open,
    Update,
    Notification,
    Keepalive,
}

impl BgpMessageType {
    /// The type's number in the header.
    pub open spec fn number(self) -> u8 {
        match self {
            BgpMessageType::Open => 1,
            BgpMessageType::Update => 2,
            BgpMessageType::Notification => 3,
            BgpMessageType::Keepalive => 4,
        }
    }

    /// The type's number in the header.
    pub fn code(self) -> (n: u8)
        ensures
            n == self.number(),
    {
        match self {
            BgpMessageType::Open => 1,
            BgpMessageType::Update => 2,
            BgpMessageType::Notification => 3,
            BgpMessageType::Keepalive => 4,
        }
    }
}

/// The marker at the start of every message: 16 bytes of ones.
pub open spec fn marker() -> Seq<u8> {
    Seq::new(16, |i: int| 255u8)
}

/// A 16-bit number as two bytes, the high one first.
pub open spec fn word(n: int) -> Seq<u8> {
    seq![hi8(n), lo8(n)]
}

/// The message with the given type and body.
pub open spec fn message(ty: BgpMessageType, body: Seq<u8>) -> Seq<u8> {
    marker() + word((19 + body.len()) as int) + seq![ty.number()] + body
}

/// The body of an OPEN message without optional parameters.
pub open spec fn open_body(local_asn: u16, hold_time: u16, router_id: Ipv4Addr) -> Seq<u8> {
    seq![4u8] + word(local_asn as int) + word(hold_time as int) + router_id.octet_seq() + seq![
        0u8,
    ]
}

/// How many octets a prefix of `len` bits takes.
pub open spec fn prefix_octets(len: int) -> int {
    (len + 7) / 8
}

/// A prefix as UPDATE messages carry it: its length in bits, then its octets.
pub open spec fn prefix_bytes(prefix: Ipv4Addr, len: int) -> Seq<u8> {
    seq![len as u8] + prefix.octet_seq().take(prefix_octets(len))
}

/// The path attributes of an announcement: ORIGIN IGP, an AS_PATH of the local
/// AS alone, and NEXT_HOP, all transitive.
pub open spec fn path_attributes(next_hop: Ipv4Addr, local_asn: u16) -> Seq<u8> {
    seq![0x40u8, 1, 1, 0] + seq![0x40u8, 2, 4, 2, 1] + word(local_asn as int) + seq![0x40u8, 3, 4]
        + next_hop.octet_seq()
}

/// The body of an UPDATE message: withdrawn routes, path attributes and
/// reachable prefixes.
pub open spec fn update_body(withdrawn: Seq<u8>, attributes: Seq<u8>, nlri: Seq<u8>) -> Seq<u8> {
    word(withdrawn.len() as int) + withdrawn + word(attributes.len() as int) + attributes + nlri
}

/// The announcement of one prefix.
pub open spec fn announcement(
    prefix: Ipv4Addr,
    prefix_len: u8,
    next_hop: Ipv4Addr,
    local_asn: u16,
) -> Seq<u8> {
    message(
        BgpMessageType::Update,
        update_body(
            Seq::empty(),
            path_attributes(next_hop, local_asn),
            prefix_bytes(prefix, prefix_len as int),
        ),
    )
}

/// The withdrawal of one prefix.
pub open spec fn withdrawal(prefix: Ipv4Addr, prefix_len: u8) -> Seq<u8> {
    message(
        BgpMessageType::Update,
        update_body(prefix_bytes(prefix, prefix_len as int), Seq::empty(), Seq::empty()),
    )
}

/// A KEEPALIVE message: a header alone.
pub open spec fn keepalive() -> Seq<u8> {
    message(BgpMessageType::Keepalive, Seq::empty())
}

/// A NOTIFICATION message without data.
pub open spec fn notification(error_code: u8, error_subcode: u8) -> Seq<u8> {
    message(BgpMessageType::Notification, seq![error_code, error_subcode])
}

/// Writes the header of a message whose length is to follow.
fn put_header(buf: &mut BytesMut, length: u16, ty: BgpMessageType)
    requires
        bytes_in(*old(buf)).len() == 0,
    ensures
        bytes_in(*final(buf)) == marker() + word(length as int) + seq![ty.number()],
{
    let ones: [u8; 16] = [255; 16];
    put_slice(buf, &ones);
    put_u16(buf, length);
    put_u8(buf, ty.code());
    assert(bytes_in(*buf) =~= marker() + word(length as int) + seq![ty.number()]);
}

/// Writes a 16-bit number over the two bytes at `pos`.
fn set_u16(buf: &mut BytesMut, pos: usize, n: u16)
    requires
        pos < MAX_MESSAGE_LEN,
        pos + 1 < bytes_in(*old(buf)).len(),
    ensures
        bytes_in(*final(buf)) == bytes_in(*old(buf)).update(pos as int, hi8(n as int)).update(
            pos + 1,
            lo8(n as int),
        ),
{
    buf_set(buf, pos, (n / 256) as u8);
    buf_set(buf, pos + 1, (n % 256) as u8);
}

/// Serialize a BGP OPEN message (RFC 4271 Section 4.2).
pub fn encode_open(local_asn: u16, hold_time: u16, router_id: Ipv4Addr) -> (buf: BytesMut)
    ensures
        bytes_in(buf) == message(
            BgpMessageType::Open,
            open_body(local_asn, hold_time, router_id),
        ),
{
    let mut buf = buf_new();
    put_header(&mut buf, 0, BgpMessageType::Open);

    // OPEN body
    put_u8(&mut buf, 4);  // BGP version 4
    put_u16(&mut buf, local_asn);
    put_u16(&mut buf, hold_time);
    put_slice(&mut buf, &router_id.octets());
    put_u8(&mut buf, 0);  // optional parameters length = 0

    // Fix up length
    let total_len: u16 = buf_len(&buf) as u16;
    set_u16(&mut buf, 16, total_len);
    assert(bytes_in(buf) =~= message(
        BgpMessageType::Open,
        open_body(local_asn, hold_time, router_id),
    ));
    buf
}

/// Serialize a BGP KEEPALIVE message (RFC 4271 Section 4.4).
pub fn encode_keepalive() -> (buf: BytesMut)
    ensures
        bytes_in(buf) == keepalive(),
{
    let mut buf = buf_new();
    put_header(&mut buf, 19, BgpMessageType::Keepalive);
    assert(bytes_in(buf) =~= keepalive());
    buf
}

/// Serialize a BGP NOTIFICATION (RFC 4271 §4.5).
///
/// Header (19) + error code (1) + error subcode (1). No variable data —
/// the protocol allows it for diagnostic bytes, but every widespread
/// implementation treats the body after the subcode as opaque, so we
/// omit it. Peers receiving this should close the TCP session immediately.
pub fn encode_notification(error_code: u8, error_subcode: u8) -> (buf: BytesMut)
    ensures
        bytes_in(buf) == notification(error_code, error_subcode),
{
    let mut buf = buf_new();
    put_header(&mut buf, 21, BgpMessageType::Notification);
    put_u8(&mut buf, error_code);
    put_u8(&mut buf, error_subcode);
    assert(bytes_in(buf) =~= notification(error_code, error_subcode));
    buf
}

/// Writes a prefix.
fn put_prefix(buf: &mut BytesMut, prefix: Ipv4Addr, prefix_len: u8)
    requires
        prefix_len <= 32,
        bytes_in(*old(buf)).len() <= MAX_MESSAGE_LEN,
    ensures
        bytes_in(*final(buf)) == bytes_in(*old(buf)) + prefix_bytes(prefix, prefix_len as int),
{
    put_u8(buf, prefix_len);
    let octets = prefix.octets();
    let n: usize = (prefix_len as usize + 7) / 8;
    put_slice(buf, vstd::slice::slice_subrange(&octets, 0, n));
    assert(bytes_in(*buf) =~= bytes_in(*old(buf)) + prefix_bytes(prefix, prefix_len as int));
}

/// Serialize a BGP UPDATE message to announce an IPv4 prefix (RFC 4271 Section 4.3).
pub fn encode_update_announce(
    prefix: Ipv4Addr,
    prefix_len: u8,
    next_hop: Ipv4Addr,
    local_asn: u16,
) -> (buf: BytesMut)
    requires
        prefix_len <= 32,
    ensures
        bytes_in(buf) == announcement(prefix, prefix_len, next_hop, local_asn),
{
    let mut buf = buf_new();
    put_header(&mut buf, 0, BgpMessageType::Update);

    // Withdrawn Routes Length = 0
    put_u16(&mut buf, 0);

    // Path Attributes
    let path_attrs_len_pos: usize = buf_len(&buf);
    put_u16(&mut buf, 0);  // placeholder for path attributes length

    // ORIGIN (type 1): IGP
    put_u8(&mut buf, 0x40);  // flags: transitive
    put_u8(&mut buf, 1);  // type code: ORIGIN
    put_u8(&mut buf, 1);  // length
    put_u8(&mut buf, 0);  // IGP

    // AS_PATH (type 2): AS_SEQUENCE [local_asn]
    put_u8(&mut buf, 0x40);  // flags: transitive
    put_u8(&mut buf, 2);  // type code: AS_PATH
    put_u8(&mut buf, 4);  // length: 1 (type) + 1 (count) + 2 (asn)
    put_u8(&mut buf, 2);  // AS_SEQUENCE
    put_u8(&mut buf, 1);  // 1 AS in path
    put_u16(&mut buf, local_asn);

    // NEXT_HOP (type 3)
    put_u8(&mut buf, 0x40);  // flags: transitive
    put_u8(&mut buf, 3);  // type code: NEXT_HOP
    put_u8(&mut buf, 4);  // length
    put_slice(&mut buf, &next_hop.octets());

    // Fix path attributes length
    let path_attrs_len: u16 = (buf_len(&buf) - path_attrs_len_pos - 2) as u16;
    set_u16(&mut buf, path_attrs_len_pos, path_attrs_len);
    let ghost attributes = path_attributes(next_hop, local_asn);
    assert(bytes_in(buf).skip(19) =~= word(0) + word(18) + attributes);

    // NLRI: prefix
    put_prefix(&mut buf, prefix, prefix_len);

    // Fix total length
    let total_len: u16 = buf_len(&buf) as u16;
    set_u16(&mut buf, 16, total_len);
    assert(bytes_in(buf) =~= announcement(prefix, prefix_len, next_hop, local_asn));
    buf
}

/// Serialize a BGP UPDATE message to withdraw an IPv4 prefix.
pub fn encode_update_withdraw(prefix: Ipv4Addr, prefix_len: u8) -> (buf: BytesMut)
    requires
        prefix_len <= 32,
    ensures
        bytes_in(buf) == withdrawal(prefix, prefix_len),
{
    let mut buf = buf_new();
    put_header(&mut buf, 0, BgpMessageType::Update);

    // Withdrawn Routes
    let withdrawn_len: usize = 1 + (prefix_len as usize + 7) / 8;
    put_u16(&mut buf, withdrawn_len as u16);
    put_prefix(&mut buf, prefix, prefix_len);

    // Path Attributes Length = 0 (no attributes for withdraw)
    put_u16(&mut buf, 0);

    // Fix total length
    let total_len: u16 = buf_len(&buf) as u16;
    set_u16(&mut buf, 16, total_len);
    assert(bytes_in(buf) =~= withdrawal(prefix, prefix_len));
    buf
}

/// The type that a message header states.
pub open spec fn message_type(data: Seq<u8>) -> Option<BgpMessageType> {
    if data.len() < 19 {
        None
    } else if data[18] == 1 {
        Some(BgpMessageType::Open)
    } else if data[18] == 2 {
        Some(BgpMessageType::Update)
    } else if data[18] == 3 {
        Some(BgpMessageType::Notification)
    } else if data[18] == 4 {
        Some(BgpMessageType::Keepalive)
    } else {
        None
    }
}

/// Parse the BGP message type from a raw BGP message header.
pub fn parse_message_type(data: &[u8]) -> (r: Option<BgpMessageType>)
    ensures
        r == message_type(data@),
{
    if data.len() < 19 {
        return None;
    }
    match data[18] {
        1 => Some(BgpMessageType::Open),
        2 => Some(BgpMessageType::Update),
        3 => Some(BgpMessageType::Notification),
        4 => Some(BgpMessageType::Keepalive),
        _ => None,
    }
}

/// Parse the length field from a BGP message header.
pub fn parse_message_length(data: &[u8]) -> (r: Option<u16>)
    ensures
        data@.len() < 18 ==> r is None,
        data@.len() >= 18 ==> r is Some && r->0 == be16(data@[16], data@[17]),
{
    if data.len() < 18 {
        return None;
    }
    Some(data[16] as u16 * 256 + data[17] as u16)
}

/// The error code and subcode of a NOTIFICATION.
pub open spec fn notification_codes(data: Seq<u8>) -> Option<(u8, u8)> {
    if data.len() < 21 || message_type(data) != Some(BgpMessageType::Notification) {
        None
    } else {
        Some((data[19], data[20]))
    }
}

/// Parse the (error_code, error_subcode) tuple from an inbound BGP
/// NOTIFICATION message. Returns `None` if `data` is too short or not a
/// NOTIFICATION.
pub fn parse_notification(data: &[u8]) -> (r: Option<(u8, u8)>)
    ensures
        r == notification_codes(data@),
{
    if data.len() < 21 {
        return None;
    }
    match parse_message_type(data) {
        Some(BgpMessageType::Notification) => Some((data[19], data[20])),
        _ => None,
    }
}

/// The hold time that an OPEN message offers.
pub open spec fn open_hold_time(data: Seq<u8>) -> Option<int> {
    if data.len() < 24 || message_type(data) != Some(BgpMessageType::Open) {
        None
    } else {
        Some(be16(data[22], data[23]))
    }
}

/// Parse the hold time (seconds) from an inbound BGP OPEN message. Returns
/// `None` if `data` is too short or not an OPEN.
pub fn parse_open_hold_time(data: &[u8]) -> (r: Option<u16>)
    ensures
        match r {
            Some(t) => open_hold_time(data@) == Some(t as int),
            None => open_hold_time(data@) is None,
        },
{
    if data.len() < 24 {
        return None;
    }
    match parse_message_type(data) {
        Some(BgpMessageType::Open) => Some(data[22] as u16 * 256 + data[23] as u16),
        _ => None,
    }
}

/// Human-readable name for a NOTIFICATION error code (RFC 4271 §4.5).
pub fn notification_error_name(code: u8) -> (name: &'static str)
    ensures
        code == 1 ==> name@ == "Message Header Error"@,
        code == 2 ==> name@ == "OPEN Message Error"@,
        code == 3 ==> name@ == "UPDATE Message Error"@,
        code == 4 ==> name@ == "Hold Timer Expired"@,
        code == 5 ==> name@ == "Finite State Machine Error"@,
        code == 6 ==> name@ == "Cease"@,
        code == 0 || code > 6 ==> name@ == "Unknown"@,
{
    match code {
        1 => "Message Header Error",
        2 => "OPEN Message Error",
        3 => "UPDATE Message Error",
        4 => "Hold Timer Expired",
        5 => "Finite State Machine Error",
        6 => "Cease",
        _ => "Unknown",
    }
}

/// The type and the length that a message states are those that it was made
/// with.
pub proof fn header_round_trip(ty: BgpMessageType, body: Seq<u8>)
    requires
        19 + body.len() <= MAX_MESSAGE_LEN,
    ensures
        message(ty, body).len() == 19 + body.len(),
        message_type(message(ty, body)) == Some(ty),
        be16(message(ty, body)[16], message(ty, body)[17]) == message(ty, body).len(),
        message(ty, body).take(16) == marker(),
        message(ty, body).skip(19) == body,
{
    let n = 19 + body.len() as int;
    let m = message(ty, body);
    assert(m[16] == hi8(n) && m[17] == lo8(n) && m[18] == ty.number());
    assert(m.take(16) =~= marker());
    assert(m.skip(19) =~= body);
}

/// A NOTIFICATION gives back the codes that it was made with.
pub proof fn notification_round_trip(error_code: u8, error_subcode: u8)
    ensures
        notification_codes(notification(error_code, error_subcode)) == Some(
            (error_code, error_subcode),
        ),
{
    header_round_trip(BgpMessageType::Notification, seq![error_code, error_subcode]);
}

/// An OPEN gives back the hold time that it was made with.
pub proof fn open_round_trip(local_asn: u16, hold_time: u16, router_id: Ipv4Addr)
    ensures
        open_hold_time(
            message(BgpMessageType::Open, open_body(local_asn, hold_time, router_id)),
        ) == Some(hold_time as int),
{
    let body = open_body(local_asn, hold_time, router_id);
    header_round_trip(BgpMessageType::Open, body);
    let m = message(BgpMessageType::Open, body);
    assert(m[22] == body[3] && m[23] == body[4]);
}

/// A /32 announcement names its address as reachable and withdraws nothing; a
/// /32 withdrawal names its address as withdrawn and as nothing else.
pub proof fn update_carries_its_prefix(vip: Ipv4Addr, next_hop: Ipv4Addr, local_asn: u16)
    ensures
        announcement(vip, 32, next_hop, local_asn).skip(19) == word(0) + word(18) + path_attributes(
            next_hop,
            local_asn,
        ) + seq![32u8] + vip.octet_seq(),
        withdrawal(vip, 32).skip(19) == word(5) + seq![32u8] + vip.octet_seq() + word(0),
{
    let body = update_body(
        Seq::empty(),
        path_attributes(next_hop, local_asn),
        prefix_bytes(vip, 32),
    );
    header_round_trip(BgpMessageType::Update, body);
    assert(vip.octet_seq().take(4) =~= vip.octet_seq());
    assert(body =~= word(0) + word(18) + path_attributes(next_hop, local_asn) + seq![32u8]
        + vip.octet_seq());
    let gone = update_body(prefix_bytes(vip, 32), Seq::empty(), Seq::empty());
    header_round_trip(BgpMessageType::Update, gone);
    assert(gone =~= word(5) + seq![32u8] + vip.octet_seq() + word(0));
}

} // verus!

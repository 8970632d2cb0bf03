//! Splitting a byte stream from a peer into BGP messages.

use vstd::prelude::*;

use crate::base::checksum::be16;
use crate::bgp::messages::{
    header_round_trip, marker, message, notification_codes, parse_message_length,
    parse_notification, BgpMessageType, HEADER_LEN, MAX_MESSAGE_LEN,
};

verus! {

/// What is taken from the front of a stream, if anything, and what is left. A
/// stream that does not start with a message loses its first byte.
pub open spec fn taken(buf: Seq<u8>) -> (Option<Seq<u8>>, Seq<u8>) {
    if buf.len() < 19 {
        (None, buf)
    } else {
        let n = be16(buf[16], buf[17]);
        if buf.take(16) != marker() || !(HEADER_LEN <= n <= MAX_MESSAGE_LEN) {
            (None, buf.skip(1))
        } else if buf.len() < n {
            (None, buf)
        } else {
            (Some(buf.take(n)), buf.skip(n))
        }
    }
}

fn starts_with_marker(buf: &Vec<u8>) -> (b: bool)
    requires
        buf@.len() >= 16,
    ensures
        b == (buf@.take(16) == marker()),
{
    let mut i: usize = 0;
    while i < 16
        invariant
            i <= 16,
            buf@.len() >= 16,
            forall|j: int| 0 <= j < i ==> buf@[j] == 255,
        decreases 16 - i,
    {
        if buf[i] != 255 {
            assert(buf@.take(16)[i as int] != marker()[i as int]);
            return false;
        }
        i = i + 1;
    }
    assert(buf@.take(16) =~= marker());
    true
}

/// Pop one complete BGP message from the byte accumulator, or return `None`
/// if we don't have one yet. Self-healing: if the buffer does not start on a
/// BGP marker, we drop one byte and wait for more data, which keeps us from
/// hanging on a mid-stream desync.
///
/// Bounds: rejects messages whose length header is outside `[19, 4096]`
/// (RFC 4271 §4.1). Anything larger is almost certainly a framing error, not
/// a legitimate UPDATE.
pub fn take_message(buf: &mut Vec<u8>) -> (r: Option<Vec<u8>>)
    ensures
        final(buf)@ == taken(old(buf)@).1,
        match r {
            Some(m) => taken(old(buf)@).0 == Some(m@),
            None => taken(old(buf)@).0 is None,
        },
{
    if buf.len() < HEADER_LEN {
        return None;
    }
    if !starts_with_marker(buf) {
        buf.remove(0);
        assert(buf@ =~= old(buf)@.skip(1));
        return None;
    }
    let len: usize = match parse_message_length(buf.as_slice()) {
        Some(n) => n as usize,
        None => 0,
    };
    if len < HEADER_LEN || len > MAX_MESSAGE_LEN {
        // Desync: drop a byte and wait. Returning None without consuming
        // would loop forever.
        buf.remove(0);
        assert(buf@ =~= old(buf)@.skip(1));
        return None;
    }
    if buf.len() < len {
        return None;
    }
    let mut head: Vec<u8> = buf.split_off(len);
    std::mem::swap(buf, &mut head);
    assert(head@ =~= old(buf)@.take(len as int));
    assert(buf@ =~= old(buf)@.skip(len as int));
    Some(head)
}

/// The codes of the first NOTIFICATION among the whole messages at the front
/// of a stream, if there is one, and what is left behind it, or behind all of
/// them.
pub open spec fn drained(buf: Seq<u8>) -> (Option<(u8, u8)>, Seq<u8>)
    decreases buf.len(),
{
    match taken(buf).0 {
        None => (None, taken(buf).1),
        Some(m) => match notification_codes(m) {
            Some(codes) => (Some(codes), taken(buf).1),
            None => if taken(buf).1.len() < buf.len() {
                drained(taken(buf).1)
            } else {
                (None, buf)
            },
        },
    }
}

/// Takes whole messages from the stream until one is a NOTIFICATION. Other
/// messages of a peer (KEEPALIVE, UPDATE) are ignored.
pub fn drain_messages(incoming: &mut Vec<u8>) -> (r: Option<(u8, u8)>)
    ensures
        r == drained(old(incoming)@).0,
        final(incoming)@ == drained(old(incoming)@).1,
{
    loop
        invariant
            drained(incoming@) == drained(old(incoming)@),
        decreases incoming@.len(),
    {
        match take_message(incoming) {
            None => {
                return None;
            },
            Some(msg) => {
                if let Some(codes) = parse_notification(msg.as_slice()) {
                    return Some(codes);
                }
            },
        }
    }
}

/// A message at the front of a stream is taken as it was sent, and what
/// follows it stays.
pub proof fn framing_round_trip(ty: BgpMessageType, body: Seq<u8>, rest: Seq<u8>)
    requires
        19 + body.len() <= MAX_MESSAGE_LEN,
    ensures
        taken(message(ty, body) + rest) == (Some(message(ty, body)), rest),
{
    header_round_trip(ty, body);
    let m = message(ty, body);
    let s = m + rest;
    assert(s[16] == m[16] && s[17] == m[17]);
    assert(s.take(16) =~= m.take(16));
    assert(s.take(m.len() as int) =~= m);
    assert(s.skip(m.len() as int) =~= rest);
}

/// A KEEPALIVE, an UPDATE or an OPEN at the front of a stream is passed over; a
/// NOTIFICATION there is found.
pub proof fn draining_finds_notifications(
    ty: BgpMessageType,
    body: Seq<u8>,
    error_code: u8,
    error_subcode: u8,
    rest: Seq<u8>,
)
    requires
        19 + body.len() <= MAX_MESSAGE_LEN,
        ty !is Notification,
    ensures
        drained(message(ty, body) + rest) == drained(rest),
        drained(
            message(BgpMessageType::Notification, seq![error_code, error_subcode]) + rest,
        ) == (Some((error_code, error_subcode)), rest),
{
    framing_round_trip(ty, body, rest);
    header_round_trip(ty, body);
    let codes = seq![error_code, error_subcode];
    framing_round_trip(BgpMessageType::Notification, codes, rest);
    header_round_trip(BgpMessageType::Notification, codes);
    crate::bgp::messages::notification_round_trip(error_code, error_subcode);
    assert((message(ty, body) + rest).len() == message(ty, body).len() + rest.len());
}

/// No stream can hang: with as many bytes as the longest message has, something
/// is always consumed, and nothing is consumed but a whole message or one byte.
pub proof fn taking_makes_progress(buf: Seq<u8>)
    ensures
        buf.len() >= MAX_MESSAGE_LEN ==> taken(buf).1.len() < buf.len(),
        taken(buf).0 matches Some(m) ==> HEADER_LEN <= m.len() <= MAX_MESSAGE_LEN && buf == m
            + taken(buf).1,
        taken(buf).0 is None ==> taken(buf).1 == buf || taken(buf).1 == buf.skip(1),
{
    if taken(buf).0 is Some {
        let n = be16(buf[16], buf[17]);
        assert(buf =~= buf.take(n) + buf.skip(n));
    }
}

} // verus!

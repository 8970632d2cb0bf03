//! What is said to BGP peers, byte by byte, and what their bytes mean.

use vstd::prelude::*;

use crate::base::checksum::lemma_word_bytes;
use crate::base::net::Ipv4Addr;
use crate::base::text::decimal;
use crate::base::time::{Duration, Instant};
use crate::bgp::framing::{drained, taken};
use crate::bgp::messages::{
    announcement, header_round_trip, keepalive, marker, message, message_type, notification,
    notification_codes, open_body, open_hold_time, path_attributes, prefix_bytes, update_body,
    withdrawal, BgpMessageType,
};
use crate::bgp::session::{
    announcements, hold_left, hold_reason, keepalive_secs, negotiated, notification_reason,
    run_step, withdrawals, write_reason, PeerState, Purpose, RunAction, RunEvent,
};
use crate::bgp::speaker::initial_session;
use crate::types::config::BgpPeerConfig;

verus! {

/// Every message starts with sixteen bytes of ones, its length and its type.
pub proof fn messages_start_with_a_header(ty: BgpMessageType, body: Seq<u8>)
    requires
        body.len() <= 4077,
    ensures
        ({
            let m = message(ty, body);
            &&& m.len() == 19 + body.len()
            &&& forall|i: int| 0 <= i < 16 ==> #[trigger] m[i] == 255
            &&& m[16] * 256 + m[17] == m.len()
            &&& m[18] == (match ty {
                BgpMessageType::Open => 1u8,
                BgpMessageType::Update => 2,
                BgpMessageType::Notification => 3,
                BgpMessageType::Keepalive => 4,
            })
            &&& forall|i: int| 0 <= i < body.len() ==> #[trigger] m[19 + i] == body[i]
        }),
{
    header_round_trip(ty, body);
    let m = message(ty, body);
    assert forall|i: int| 0 <= i < 16 implies #[trigger] m[i] == 255 by {
        assert(m.take(16)[i] == 255);
    }
    assert forall|i: int| 0 <= i < body.len() implies #[trigger] m[19 + i] == body[i] by {
        assert(m.skip(19)[i] == body[i]);
    }
    assert(m[18] == ty.number());
}

/// An OPEN states version 4, the AS number, the hold time and the router id, and no
/// optional parameters.
pub proof fn opens_introduce_the_speaker(local_asn: u16, hold_time: u16, router_id: Ipv4Addr)
    ensures
        ({
            let m = message(BgpMessageType::Open, open_body(local_asn, hold_time, router_id));
            &&& m.len() == 29
            &&& m[16] == 0 && m[17] == 29
            &&& m[18] == 1
            &&& m[19] == 4
            &&& m[20] * 256 + m[21] == local_asn
            &&& m[22] * 256 + m[23] == hold_time
            &&& m[24] == router_id.a && m[25] == router_id.b && m[26] == router_id.c && m[27]
                == router_id.d
            &&& m[28] == 0
        }),
{
    let body = open_body(local_asn, hold_time, router_id);
    messages_start_with_a_header(BgpMessageType::Open, body);
    let m = message(BgpMessageType::Open, body);
    lemma_word_bytes(local_asn as int);
    lemma_word_bytes(hold_time as int);
    assert(body.len() == 10);
    assert(m[19] == body[0] && m[20] == body[1] && m[21] == body[2] && m[22] == body[3] && m[23]
        == body[4]);
    assert(m[24] == body[5] && m[25] == body[6] && m[26] == body[7] && m[27] == body[8] && m[28]
        == body[9]);
}

/// A KEEPALIVE is a header alone; a NOTIFICATION is a header and two codes.
pub proof fn short_messages_say_just_enough(error_code: u8, error_subcode: u8)
    ensures
        keepalive().len() == 19,
        keepalive()[16] == 0 && keepalive()[17] == 19,
        keepalive()[18] == 4,
        notification(error_code, error_subcode).len() == 21,
        notification(error_code, error_subcode)[17] == 21,
        notification(error_code, error_subcode)[18] == 3,
        notification(error_code, error_subcode)[19] == error_code,
        notification(error_code, error_subcode)[20] == error_subcode,
{
    messages_start_with_a_header(BgpMessageType::Keepalive, Seq::empty());
    let codes = seq![error_code, error_subcode];
    messages_start_with_a_header(BgpMessageType::Notification, codes);
    let m = message(BgpMessageType::Notification, codes);
    assert(m[19] == codes[0]);
    assert(m[20] == codes[1]);
}

/// An announcement withdraws nothing; its attributes are the origin IGP, a path of
/// the local AS alone and the next hop; then it names the prefix, by its length
/// and as many of its octets as hold that many bits.
pub proof fn announcements_name_prefix_and_next_hop(
    prefix: Ipv4Addr,
    prefix_len: u8,
    next_hop: Ipv4Addr,
    local_asn: u16,
)
    requires
        prefix_len <= 32,
    ensures
        ({
            let m = announcement(prefix, prefix_len, next_hop, local_asn);
            let n = (prefix_len + 7) / 8;
            &&& m.len() == 42 + n
            &&& m[18] == 2
            &&& m[19] == 0 && m[20] == 0
            &&& m[21] == 0 && m[22] == 18
            &&& m[23] == 0x40 && m[24] == 1 && m[25] == 1 && m[26] == 0
            &&& m[27] == 0x40 && m[28] == 2 && m[29] == 4 && m[30] == 2 && m[31] == 1
            &&& m[32] * 256 + m[33] == local_asn
            &&& m[34] == 0x40 && m[35] == 3 && m[36] == 4
            &&& m[37] == next_hop.a && m[38] == next_hop.b && m[39] == next_hop.c && m[40]
                == next_hop.d
            &&& m[41] == prefix_len
            &&& n > 0 ==> m[42] == prefix.a
            &&& n > 1 ==> m[43] == prefix.b
            &&& n > 2 ==> m[44] == prefix.c
            &&& n > 3 ==> m[45] == prefix.d
        }),
{
    let attributes = path_attributes(next_hop, local_asn);
    let nlri = prefix_bytes(prefix, prefix_len as int);
    let body = update_body(Seq::empty(), attributes, nlri);
    messages_start_with_a_header(BgpMessageType::Update, body);
    let m = announcement(prefix, prefix_len, next_hop, local_asn);
    lemma_word_bytes(local_asn as int);
    let n = (prefix_len + 7) / 8;
    assert(attributes.len() == 18);
    assert(nlri.len() == 1 + n);
    assert forall|i: int| 0 <= i < 18 implies m[23 + i] == attributes[i] by {
        assert(m[19 + (4 + i)] == body[4 + i]);
    }
    assert forall|i: int| 0 <= i < nlri.len() implies m[41 + i] == nlri[i] by {
        assert(m[19 + (22 + i)] == body[22 + i]);
    }
    assert(m[19] == body[0] && m[20] == body[1] && m[21] == body[2] && m[22]
        == body[3]);
    assert(m[23] == attributes[0] && m[24] == attributes[1] && m[25] == attributes[2]
        && m[26] == attributes[3] && m[27] == attributes[4] && m[28] == attributes[5]);
    assert(m[29] == attributes[6] && m[30] == attributes[7] && m[31] == attributes[8]
        && m[32] == attributes[9] && m[33] == attributes[10] && m[34]
        == attributes[11]);
    assert(m[35] == attributes[12] && m[36] == attributes[13] && m[37]
        == attributes[14] && m[38] == attributes[15] && m[39] == attributes[16] && m[40] == attributes[17]);
    assert(m[41] == nlri[0]);
    if n > 0 {
        assert(m[42] == nlri[1]);
    }
    if n > 1 {
        assert(m[43] == nlri[2]);
    }
    if n > 2 {
        assert(m[44] == nlri[3]);
    }
    if n > 3 {
        assert(m[45] == nlri[4]);
    }
}

/// A withdrawal names the prefix as withdrawn, by its length and as many of its
/// octets as hold that many bits, and has no attributes.
pub proof fn withdrawals_name_the_prefix(prefix: Ipv4Addr, prefix_len: u8)
    requires
        prefix_len <= 32,
    ensures
        ({
            let m = withdrawal(prefix, prefix_len);
            let n = (prefix_len + 7) / 8;
            &&& m.len() == 24 + n
            &&& m[18] == 2
            &&& m[19] == 0 && m[20] == 1 + n
            &&& m[21] == prefix_len
            &&& n > 0 ==> m[22] == prefix.a
            &&& n > 1 ==> m[23] == prefix.b
            &&& n > 2 ==> m[24] == prefix.c
            &&& n > 3 ==> m[25] == prefix.d
            &&& m[22 + n] == 0 && m[23 + n] == 0
        }),
{
    let gone = prefix_bytes(prefix, prefix_len as int);
    let body = update_body(gone, Seq::empty(), Seq::empty());
    messages_start_with_a_header(BgpMessageType::Update, body);
    let m = withdrawal(prefix, prefix_len);
    let n = (prefix_len + 7) / 8;
    assert(gone.len() == 1 + n);
    assert(m[19] == body[0] && m[20] == body[1]);
    assert forall|i: int| 0 <= i < gone.len() implies m[21 + i] == gone[i] by {
        assert(m[19 + (2 + i)] == body[2 + i]);
    }
    assert(m[21] == gone[0]);
    if n > 0 {
        assert(m[22] == gone[1]);
    }
    if n > 1 {
        assert(m[23] == gone[2]);
    }
    if n > 2 {
        assert(m[24] == gone[3]);
    }
    if n > 3 {
        assert(m[25] == gone[4]);
    }
    assert(m[19 + (3 + n)] == body[3 + n]);
    assert(m[19 + (4 + n)] == body[4 + n]);
}

/// Each VIP is announced and withdrawn by a message of its own, in order, as a
/// prefix of 32 bits; announcements name the speaker as the next hop.
pub proof fn each_vip_has_its_message(
    vips: Seq<Ipv4Addr>,
    next_hop: Ipv4Addr,
    asn: u16,
    i: int,
)
    requires
        0 <= i < vips.len(),
    ensures
        announcements(vips, next_hop, asn).len() == vips.len(),
        withdrawals(vips).len() == vips.len(),
        ({
            let m = announcements(vips, next_hop, asn)[i];
            &&& m.len() == 46
            &&& m[32] * 256 + m[33] == asn
            &&& m[37] == next_hop.a && m[38] == next_hop.b && m[39] == next_hop.c && m[40]
                == next_hop.d
            &&& m[41] == 32
            &&& m[42] == vips[i].a && m[43] == vips[i].b && m[44] == vips[i].c && m[45] == vips[i].d
        }),
        ({
            let m = withdrawals(vips)[i];
            &&& m.len() == 28
            &&& m[20] == 5
            &&& m[21] == 32
            &&& m[22] == vips[i].a && m[23] == vips[i].b && m[24] == vips[i].c && m[25] == vips[i].d
        }),
{
    announcements_name_prefix_and_next_hop(vips[i], 32, next_hop, asn);
    withdrawals_name_the_prefix(vips[i], 32);
}

/// The type of a message stands in its nineteenth byte; a NOTIFICATION has its codes
/// behind that, an OPEN its hold time in the fourth and fifth byte behind it.
pub proof fn messages_are_read_by_their_bytes(data: Seq<u8>)
    ensures
        message_type(data) == (if data.len() < 19 {
            None
        } else {
            match data[18] {
                1 => Some(BgpMessageType::Open),
                2 => Some(BgpMessageType::Update),
                3 => Some(BgpMessageType::Notification),
                4 => Some(BgpMessageType::Keepalive),
                _ => None,
            }
        }),
        notification_codes(data) is Some <==> data.len() >= 21 && data[18] == 3,
        notification_codes(data) matches Some(c) ==> c.0 == data[19] && c.1 == data[20],
        open_hold_time(data) is Some <==> data.len() >= 24 && data[18] == 1,
        open_hold_time(data) matches Some(h) ==> h == data[22] * 256 + data[23],
{
}

/// What is taken from the front of a stream: a whole message with its marker and a
/// length from 19 to 4096; nothing while the message is not whole, or not even
/// its header is there; and else the stream loses one byte.
pub proof fn streams_are_cut_at_messages(buf: Seq<u8>)
    ensures
        ({
            let ones = forall|i: int| 0 <= i < 16 ==> #[trigger] buf[i] == 255;
            let n = buf[16] * 256 + buf[17];
            let framed = ones && 19 <= n <= 4096;
            &&& buf.len() < 19 ==> taken(buf) == (None::<Seq<u8>>, buf)
            &&& buf.len() >= 19 && !framed ==> taken(buf) == (None::<Seq<u8>>, buf.skip(1))
            &&& buf.len() >= 19 && framed && buf.len() < n ==> taken(buf) == (
                None::<Seq<u8>>,
                buf,
            )
            &&& buf.len() >= 19 && framed && buf.len() >= n ==> taken(buf) == (
                Some(buf.take(n)),
                buf.skip(n),
            )
        }),
{
    if buf.len() >= 19 {
        if forall|i: int| 0 <= i < 16 ==> #[trigger] buf[i] == 255 {
            assert(buf.take(16) =~= marker());
        }
        if buf.take(16) == marker() {
            assert forall|i: int| 0 <= i < 16 implies #[trigger] buf[i] == 255 by {
                assert(buf.take(16)[i] == marker()[i]);
            }
        }
    }
}

/// Messages are taken from a stream until one is a NOTIFICATION, whose codes are
/// then reported, or until there is no whole message at its front.
pub proof fn draining_stops_at_notifications(buf: Seq<u8>)
    ensures
        taken(buf).0 is None ==> drained(buf) == (None::<(u8, u8)>, taken(buf).1),
        taken(buf).0 matches Some(m) ==> {
            &&& m[18] == 3 && m.len() >= 21 ==> drained(buf) == (
                Some((m[19], m[20])),
                taken(buf).1,
            )
            &&& m[18] != 3 || m.len() < 21 ==> drained(buf) == drained(taken(buf).1)
        },
{
    if let Some(m) = taken(buf).0 {
        let n = buf[16] * 256 + buf[17];
        streams_are_cut_at_messages(buf);
        messages_are_read_by_their_bytes(m);
    }
}

/// The answer to an OPEN is an OPEN that is long enough for its hold time; the
/// shorter of both hold times then holds. Any other answer is an error.
pub proof fn shorter_hold_time_holds(reply: Seq<u8>, our_hold: u16)
    ensures
        negotiated(reply, our_hold) is Ok <==> reply.len() >= 24 && reply[18] == 1,
        negotiated(reply, our_hold) matches Ok(h) ==> {
            let theirs = reply[22] * 256 + reply[23];
            h == (if our_hold <= theirs {
                our_hold as int
            } else {
                theirs
            })
        },
{
    messages_are_read_by_their_bytes(reply);
}

/// Keepalives go out every third of the hold time, in whole seconds, but at most
/// once a second.
pub proof fn keepalives_go_out_three_times(hold: u16)
    ensures
        hold >= 3 ==> 3 * keepalive_secs(hold) <= hold < 3 * keepalive_secs(hold) + 3,
        hold < 3 ==> keepalive_secs(hold) == 1,
{
}

/// A peer is given up when it has been silent for the hold time, in seconds, from
/// its last bytes on, and not before.
pub proof fn hold_time_runs_from_the_last_bytes(hold: u16, last_inbound: Instant, now: Instant)
    requires
        last_inbound.nanos <= now.nanos,
    ensures
        now.nanos < last_inbound.nanos + hold * 1_000_000_000 ==> hold_left(hold, last_inbound, now)
            == last_inbound.nanos + hold * 1_000_000_000 - now.nanos,
        now.nanos >= last_inbound.nanos + hold * 1_000_000_000 ==> hold_left(
            hold,
            last_inbound,
            now,
        ) == 0,
{
}

/// The rounds of a session: commands are taken, a connection is set up and served; a
/// connection that fails or ends for a passing reason is followed by the pause, in
/// back-off, and after the pause, which doubles each time up to a minute, the
/// round starts anew. A connection takes the pause back to a second. A shutdown or a
/// final end stops the session.
pub proof fn sessions_go_round(state: PeerState, backoff: Duration, event: RunEvent)
    requires
        1_000_000_000 <= backoff.nanos <= 60_000_000_000,
    ensures
        ({
            let (next, pause, action) = run_step(state, backoff, event);
            let stops = match event {
                RunEvent::Drained { shutdown } => shutdown,
                RunEvent::Woken { shutdown } => shutdown,
                RunEvent::Ended(d) => d.terminal,
                _ => false,
            };
            &&& stops <==> action is Stop
            &&& stops ==> next is Idle && pause == backoff
            &&& event is Drained && !stops ==> next is Connecting && action is Connect && pause
                == backoff
            &&& event is Connected ==> next is Established && action is Drive && pause.nanos
                == 1_000_000_000
            &&& event is ConnectFailed || (event is Ended && !stops) ==> next is Backoff && action
                == RunAction::Sleep(backoff) && pause == backoff
            &&& event is Woken && !stops ==> next == state && action is Drain && pause.nanos == (
            if 2 * backoff.nanos <= 60_000_000_000 {
                2 * backoff.nanos
            } else {
                60_000_000_000
            })
        }),
{
}

/// A peer's session starts out with the peer's address and port, the low sixteen
/// bits of the AS number, the router id, the hold time it is configured with or
/// ninety seconds, idle unless it is disabled, and a pause of a second.
pub proof fn sessions_start_as_configured(
    peer: BgpPeerConfig,
    local_asn: u32,
    router_id: Ipv4Addr,
)
    ensures
        ({
            let s = initial_session(peer, local_asn, router_id);
            &&& s.peer_ip == peer.peer_ip && s.port == peer.port
            &&& exists|q: int| local_asn == #[trigger] (q * 65536) + s.local_asn
            &&& s.router_id == router_id
            &&& peer.hold_time_secs matches Some(h) ==> s.hold_time == h
            &&& peer.hold_time_secs is None ==> s.hold_time == 90
            &&& s.enabled == peer.enabled
            &&& peer.enabled ==> s.state is Idle
            &&& !peer.enabled ==> s.state is Disabled
            &&& s.backoff.nanos == 1_000_000_000
        }),
{
    let s = initial_session(peer, local_asn, router_id);
    let q = local_asn as int / 65536;
    assert(local_asn == q * 65536 + s.local_asn);
}

/// The end of a session is explained by what ended it.
pub proof fn endings_are_explained(
    error_code: u8,
    error_subcode: u8,
    hold: u16,
    purpose: Purpose,
    error: Seq<char>,
)
    ensures
        notification_reason(error_code, error_subcode) == "NOTIFICATION"@ + " code="@ + decimal(
            error_code as int,
        ) + " subcode="@ + decimal(error_subcode as int),
        hold_reason(hold) == "hold timer expired"@ + " after "@ + decimal(hold as int)
            + "s of peer silence"@,
        write_reason(purpose, error) == (match purpose {
            Purpose::Announce => "announce"@,
            Purpose::Withdraw => "withdraw"@,
            Purpose::Keepalive => "keepalive"@,
        }) + ": "@ + error,
{
    reveal_strlit("NOTIFICATION");
    reveal_strlit(" code=");
    reveal_strlit("NOTIFICATION code=");
    reveal_strlit("hold timer expired");
    reveal_strlit(" after ");
    reveal_strlit("hold timer expired after ");
    reveal_strlit("announce");
    reveal_strlit("withdraw");
    reveal_strlit("keepalive");
    reveal_strlit(": ");
    reveal_strlit("announce: ");
    reveal_strlit("withdraw: ");
    reveal_strlit("keepalive: ");
    assert("NOTIFICATION code="@ =~= "NOTIFICATION"@ + " code="@);
    assert("hold timer expired after "@ =~= "hold timer expired"@ + " after "@);
    assert("announce: "@ =~= "announce"@ + ": "@);
    assert("withdraw: "@ =~= "withdraw"@ + ": "@);
    assert("keepalive: "@ =~= "keepalive"@ + ": "@);
}

/// What a peer says instead of an OPEN is named in the error.
pub proof fn unexpected_answers_are_named(reply: Seq<u8>, our_hold: u16)
    ensures
        reply.len() < 19 ==> negotiated(reply, our_hold) == Err::<int, Seq<char>>(
            "incomplete BGP message from peer"@,
        ),
        reply.len() >= 19 && reply[18] != 1 ==> negotiated(reply, our_hold) == Err::<int, Seq<char>>(
            "expected OPEN from peer, got "@ + (match reply[18] {
                2 => "Some(Update)"@,
                3 => "Some(Notification)"@,
                4 => "Some(Keepalive)"@,
                _ => "None"@,
            }),
        ),
        19 <= reply.len() < 24 && reply[18] == 1 ==> negotiated(reply, our_hold) == Err::<
            int,
            Seq<char>,
        >("peer OPEN was malformed; missing hold_time"@),
{
    messages_are_read_by_their_bytes(reply);
}

} // verus!

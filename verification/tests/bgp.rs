use lb::base::net::{IpAddr, Ipv4Addr, Ipv6Addr};
use lb::base::time::{Duration, Instant};
use lb::bgp::error_code;
use lb::bgp::framing::{drain_messages, take_message};
use lb::bgp::md5::tcp_md5_key;
use lb::bgp::messages::{
    encode_keepalive, encode_notification, encode_open, encode_update_announce,
    encode_update_withdraw, notification_error_name, parse_message_length, parse_message_type,
    parse_notification, parse_open_hold_time, BgpMessageType,
};
use lb::bgp::session::{
    ends_session, negotiate_hold, BgpError, BgpEvent, Disconnect, DriveAction, LiveSession,
    PeerSession, PeerState, Purpose, RunAction, RunEvent, SessionCmd,
};
use lb::bgp::speaker::{goes_to, plan_sessions};
use lb::io::packet_io::IoErrorKind;
use lb::types::config::{BgpConfig, BgpPeerConfig};

const MARKER: [u8; 16] = [0xFF; 16];

#[test]
fn open_message_layout() {
    let msg = encode_open(65000, 90, Ipv4Addr::new(10, 0, 0, 1));
    // Header: 16 (marker) + 2 (length) + 1 (type) = 19
    // Body: 1 (version) + 2 (ASN) + 2 (hold_time) + 4 (router_id) + 1 (opt params) = 10
    assert_eq!(msg.len(), 29);

    // Marker
    assert_eq!(&msg[0..16], &MARKER);
    // Length
    assert_eq!(u16::from_be_bytes([msg[16], msg[17]]), 29);
    // Type = OPEN
    assert_eq!(msg[18], 1);
    // Version
    assert_eq!(msg[19], 4);
    // ASN
    assert_eq!(u16::from_be_bytes([msg[20], msg[21]]), 65000);
    // Hold time
    assert_eq!(u16::from_be_bytes([msg[22], msg[23]]), 90);
    // Router ID
    assert_eq!(&msg[24..28], &[10, 0, 0, 1]);
}

#[test]
fn keepalive_message_layout() {
    let msg = encode_keepalive();
    assert_eq!(msg.len(), 19);
    assert_eq!(&msg[0..16], &MARKER);
    assert_eq!(u16::from_be_bytes([msg[16], msg[17]]), 19);
    assert_eq!(msg[18], 4);
}

#[test]
fn announce_update_contains_nlri() {
    let msg = encode_update_announce(
        Ipv4Addr::new(188, 184, 100, 0),
        24,
        Ipv4Addr::new(10, 0, 0, 1),
        65000,
    );

    assert_eq!(parse_message_type(&msg), Some(BgpMessageType::Update));

    // Last bytes should be the NLRI: prefix_len + prefix octets
    let len = msg.len();
    assert_eq!(msg[len - 4], 24); // /24
    assert_eq!(&msg[len - 3..], &[188, 184, 100]); // 3 bytes for /24
}

#[test]
fn withdraw_update_contains_withdrawn_routes() {
    let msg = encode_update_withdraw(Ipv4Addr::new(188, 184, 100, 0), 24);

    assert_eq!(parse_message_type(&msg), Some(BgpMessageType::Update));

    // After header (19 bytes): withdrawn routes length (2 bytes)
    let withdrawn_len = u16::from_be_bytes([msg[19], msg[20]]);
    assert_eq!(withdrawn_len, 4); // 1 byte prefix_len + 3 bytes prefix
}

#[test]
fn parse_type_and_length() {
    let msg = encode_keepalive();
    assert_eq!(parse_message_type(&msg), Some(BgpMessageType::Keepalive));
    assert_eq!(parse_message_length(&msg), Some(19));
}

#[test]
fn notification_round_trips() {
    let msg = encode_notification(error_code::HOLD_TIMER_EXPIRED, 0);
    assert_eq!(msg.len(), 21);
    assert_eq!(parse_message_type(&msg), Some(BgpMessageType::Notification));
    assert_eq!(
        parse_notification(&msg),
        Some((error_code::HOLD_TIMER_EXPIRED, 0))
    );
}

#[test]
fn parse_notification_rejects_short_and_wrong_type() {
    assert_eq!(parse_notification(&encode_keepalive()), None);
    assert_eq!(parse_notification(&[0u8; 20]), None);
}

#[test]
fn notification_error_name_covers_all_rfc_codes() {
    assert_eq!(notification_error_name(1), "Message Header Error");
    assert_eq!(notification_error_name(4), "Hold Timer Expired");
    assert_eq!(notification_error_name(6), "Cease");
    assert_eq!(notification_error_name(99), "Unknown");
}

#[test]
fn open_hold_time_round_trips() {
    let msg = encode_open(65000, 90, Ipv4Addr::new(10, 0, 0, 1));
    assert_eq!(parse_open_hold_time(&msg), Some(90));
    assert_eq!(parse_open_hold_time(&msg[..23]), None);
    assert_eq!(parse_open_hold_time(&encode_keepalive()), None);
}

#[test]
fn announcements_are_laid_out_exactly() {
    let msg = encode_update_announce(
        Ipv4Addr::new(188, 184, 100, 10),
        32,
        Ipv4Addr::new(10, 0, 0, 1),
        65000,
    );
    assert_eq!(
        &msg[16..],
        &[
            0, 46, 2, // length, type
            0, 0, // nothing withdrawn
            0, 18, // path attributes
            0x40, 1, 1, 0, // ORIGIN IGP
            0x40, 2, 4, 2, 1, 0xfd, 0xe8, // AS_PATH [65000]
            0x40, 3, 4, 10, 0, 0, 1, // NEXT_HOP
            32, 188, 184, 100, 10, // reachable
        ]
    );
    let gone = encode_update_withdraw(Ipv4Addr::new(188, 184, 100, 10), 32);
    assert_eq!(
        &gone[16..],
        &[0, 28, 2, 0, 5, 32, 188, 184, 100, 10, 0, 0]
    );
}

#[test]
fn messages_are_taken_from_a_stream_one_by_one() {
    let mut stream = Vec::new();
    stream.extend_from_slice(&encode_keepalive());
    stream.extend_from_slice(&encode_notification(6, 2));
    stream.extend_from_slice(&[0xFF; 5]);
    assert_eq!(take_message(&mut stream), Some(encode_keepalive().to_vec()));
    assert_eq!(
        take_message(&mut stream),
        Some(encode_notification(6, 2).to_vec())
    );
    assert_eq!(take_message(&mut stream), None);
    assert_eq!(stream, vec![0xFF; 5]);
}

#[test]
fn a_stream_out_of_step_loses_a_byte_at_a_time() {
    let mut stream = vec![0u8];
    stream.extend_from_slice(&encode_keepalive());
    assert_eq!(take_message(&mut stream), None);
    assert_eq!(take_message(&mut stream), Some(encode_keepalive().to_vec()));
    // A length outside 19..=4096 is a framing error, too.
    let mut bad = encode_keepalive().to_vec();
    bad[17] = 18;
    assert_eq!(take_message(&mut bad), None);
    assert_eq!(bad.len(), 18);
    let mut long = encode_keepalive().to_vec();
    long[16] = 0x10;
    long[17] = 0x01;
    assert_eq!(take_message(&mut long), None);
    assert_eq!(long.len(), 18);
}

#[test]
fn the_first_notification_is_found() {
    let mut stream = Vec::new();
    stream.extend_from_slice(&encode_keepalive());
    stream.extend_from_slice(&encode_keepalive());
    stream.extend_from_slice(&encode_notification(4, 7));
    stream.extend_from_slice(&encode_keepalive());
    assert_eq!(drain_messages(&mut stream), Some((4, 7)));
    assert_eq!(drain_messages(&mut stream), None);
    assert!(stream.is_empty());
}

fn v4(last: u8) -> IpAddr {
    IpAddr::V4(Ipv4Addr::new(10, 0, 0, last))
}

fn config_for(ports: &[u16]) -> BgpConfig {
    BgpConfig {
        local_asn: 65000,
        router_id: v4(1),
        communities: vec![],
        next_hop_self: true,
        peers: ports
            .iter()
            .map(|&p| BgpPeerConfig {
                peer_ip: IpAddr::V4(Ipv4Addr::new(127, 0, 0, 1)),
                peer_asn: 65000,
                port: p,
                hold_time_secs: Some(9),
                communities: None,
                enabled: true,
                md5_password: None,
                md5_password_env: None,
            })
            .collect(),
    }
}

fn session() -> PeerSession {
    plan_sessions(&config_for(&[179])).unwrap().remove(0)
}

#[test]
fn every_configured_peer_gets_a_session() {
    let mut config = config_for(&[1179, 2179]);
    config.peers[1].hold_time_secs = None;
    config.peers[1].enabled = false;
    config.local_asn = 65536 + 7;
    let sessions = plan_sessions(&config).unwrap();
    assert_eq!(sessions.len(), 2);
    assert_eq!(sessions[0].port, 1179);
    assert_eq!(sessions[0].hold_time, 9);
    assert_eq!(sessions[0].local_asn, 7);
    assert_eq!(sessions[0].state, PeerState::Idle);
    assert_eq!(sessions[1].hold_time, 90);
    assert_eq!(sessions[1].state, PeerState::Disabled);
    config.router_id = IpAddr::V6(Ipv6Addr::new(0, 0, 0, 0, 0, 0, 0, 1));
    assert!(plan_sessions(&config).is_none());
}

#[test]
fn announcements_go_to_enabled_peers_only() {
    let vips = [Ipv4Addr::new(1, 2, 3, 4)];
    assert!(goes_to(true, &vips));
    assert!(!goes_to(false, &vips));
    assert!(!goes_to(true, &[]));
}

#[test]
fn failures_back_off_from_one_second_to_a_minute() {
    let mut s = session();
    let mut pauses = Vec::new();
    for _ in 0..8 {
        assert_eq!(s.step(RunEvent::Drained { shutdown: false }).0, RunAction::Connect);
        assert_eq!(s.state, PeerState::Connecting);
        match s.step(RunEvent::ConnectFailed).0 {
            RunAction::Sleep(d) => pauses.push(d.as_secs()),
            other => panic!("unexpected {other:?}"),
        }
        assert_eq!(s.state, PeerState::Backoff);
        assert_eq!(s.step(RunEvent::Woken { shutdown: false }).0, RunAction::Drain);
    }
    assert_eq!(pauses, vec![1, 2, 4, 8, 16, 32, 60, 60]);
    let (action, event) = s.step(RunEvent::Connected);
    assert_eq!(action, RunAction::Drive);
    assert_eq!(s.state, PeerState::Established);
    assert!(matches!(event, Some(BgpEvent::PeerConnected { .. })));
    let (action, event) = s.step(RunEvent::Ended(Disconnect {
        reason: "peer closed connection".into(),
        terminal: false,
    }));
    assert_eq!(action, RunAction::Sleep(Duration::from_secs(1)));
    match event {
        Some(BgpEvent::PeerDisconnected { reason, .. }) => {
            assert_eq!(reason, "peer closed connection")
        }
        other => panic!("unexpected {other:?}"),
    }
}

#[test]
fn a_shutdown_stops_the_session() {
    let mut s = session();
    assert_eq!(s.step(RunEvent::Drained { shutdown: true }).0, RunAction::Stop);
    assert_eq!(s.state, PeerState::Idle);
    assert_eq!(s.step(RunEvent::Woken { shutdown: true }).0, RunAction::Stop);
    let terminal = Disconnect {
        reason: "shutdown".into(),
        terminal: true,
    };
    assert_eq!(s.step(RunEvent::Ended(terminal)).0, RunAction::Stop);
    assert!(ends_session(&Some(SessionCmd::Shutdown)));
    assert!(ends_session(&None));
    assert!(!ends_session(&Some(SessionCmd::Announce(vec![]))));
}

#[test]
fn the_shorter_hold_time_is_negotiated() {
    let reply = encode_open(65000, 30, Ipv4Addr::new(10, 0, 0, 254));
    assert_eq!(negotiate_hold(&reply, 90).ok(), Some(30));
    assert_eq!(negotiate_hold(&reply, 9).ok(), Some(9));
    let never = encode_open(65000, 0, Ipv4Addr::new(10, 0, 0, 254));
    assert_eq!(negotiate_hold(&never, 90).ok(), Some(0));
}

fn failure(r: Result<u16, BgpError>) -> String {
    match r {
        Ok(_) => panic!("expected an error"),
        Err(e) => e.message(),
    }
}

#[test]
fn bad_answers_to_an_open_are_refused() {
    assert_eq!(
        failure(negotiate_hold(&[0; 18], 90)),
        "BGP session error: incomplete BGP message from peer"
    );
    assert_eq!(
        failure(negotiate_hold(&encode_keepalive(), 90)),
        "BGP session error: expected OPEN from peer, got Some(Keepalive)"
    );
    let mut odd = encode_keepalive().to_vec();
    odd[18] = 9;
    assert_eq!(
        failure(negotiate_hold(&odd, 90)),
        "BGP session error: expected OPEN from peer, got None"
    );
    let open = encode_open(65000, 30, Ipv4Addr::new(10, 0, 0, 254));
    assert_eq!(
        failure(negotiate_hold(&open[..20], 90)),
        "BGP session error: peer OPEN was malformed; missing hold_time"
    );
    assert_eq!(BgpError::Timeout.message(), "connection timeout");
    assert_eq!(BgpError::Io("refused".into()).message(), "I/O error: refused");
}

const NOW: Instant = Instant {
    nanos: 1_000_000_000,
};

fn live(hold: u16) -> LiveSession {
    LiveSession::new(&session(), hold, NOW)
}

fn sent(a: DriveAction) -> (Vec<Vec<u8>>, Purpose) {
    match a {
        DriveAction::Send { messages, purpose } => {
            (messages.iter().map(|m| m.to_vec()).collect(), purpose)
        }
        _ => panic!("expected a write"),
    }
}

fn closed(a: DriveAction) -> (String, bool, Option<Vec<u8>>, Option<BgpEvent>) {
    match a {
        DriveAction::Close {
            disconnect,
            farewell,
            event,
        } => (
            disconnect.reason,
            disconnect.terminal,
            farewell.map(|m| m.to_vec()),
            event,
        ),
        _ => panic!("expected a close"),
    }
}

#[test]
fn commands_become_updates() {
    let vips = vec![Ipv4Addr::new(1, 2, 3, 4), Ipv4Addr::new(1, 2, 3, 5)];
    let (messages, purpose) = sent(live(9).on_command(Some(SessionCmd::Announce(vips.clone()))));
    assert_eq!(purpose, Purpose::Announce);
    assert_eq!(messages.len(), 2);
    assert_eq!(
        messages[1],
        encode_update_announce(vips[1], 32, Ipv4Addr::new(10, 0, 0, 1), 65000).to_vec()
    );
    let (messages, purpose) = sent(live(9).on_command(Some(SessionCmd::Withdraw(vips.clone()))));
    assert_eq!(purpose, Purpose::Withdraw);
    assert_eq!(messages[0], encode_update_withdraw(vips[0], 32).to_vec());
    let (reason, terminal, _, _) = closed(live(9).on_command(Some(SessionCmd::Shutdown)));
    assert_eq!((reason.as_str(), terminal), ("shutdown", true));
    let (reason, terminal, _, _) = closed(live(9).on_command(None));
    assert_eq!((reason.as_str(), terminal), ("supervisor dropped", true));
}

#[test]
fn keepalives_go_out_three_times_per_hold_time() {
    assert_eq!(live(9).keepalive_interval(), Some(Duration::from_secs(3)));
    assert_eq!(live(2).keepalive_interval(), Some(Duration::from_secs(1)));
    assert_eq!(live(0).keepalive_interval(), None);
    let (messages, purpose) = sent(live(9).on_keepalive());
    assert_eq!(messages, vec![encode_keepalive().to_vec()]);
    assert_eq!(purpose, Purpose::Keepalive);
}

#[test]
fn inbound_bytes_reset_the_hold_timer() {
    let mut s = live(9);
    let later = NOW.plus(Duration::from_secs(5));
    assert_eq!(s.hold_remaining(later), Some(Duration::from_secs(4)));
    assert!(matches!(s.on_data(&[0xFF], later), DriveAction::Wait));
    assert_eq!(s.hold_remaining(later), Some(Duration::from_secs(9)));
    assert_eq!(
        s.hold_remaining(later.plus(Duration::from_secs(20))),
        Some(Duration::from_secs(0))
    );
    assert_eq!(live(0).hold_remaining(later), None);
}

#[test]
fn a_notification_closes_the_session() {
    let mut s = live(9);
    let msg = encode_notification(6, 2);
    assert!(matches!(s.on_data(&msg[..10], NOW), DriveAction::Wait));
    let (reason, terminal, farewell, event) = closed(s.on_data(&msg[10..], NOW));
    assert_eq!(reason, "NOTIFICATION code=6 subcode=2");
    assert!(!terminal);
    assert_eq!(farewell, None);
    assert!(matches!(
        event,
        Some(BgpEvent::PeerNotification {
            error_code: 6,
            error_subcode: 2,
            ..
        })
    ));
}

#[test]
fn failures_close_the_session() {
    let (reason, terminal, _, _) = closed(live(9).on_data(&[], NOW));
    assert_eq!((reason.as_str(), terminal), ("peer closed connection", false));
    let (reason, _, _, event) = closed(live(9).on_read_error("reset"));
    assert_eq!(reason, "read: reset");
    assert!(event.is_none());
    let (reason, _, _, event) = closed(live(9).on_write_error(Purpose::Announce, "broken pipe"));
    assert_eq!(reason, "announce: broken pipe");
    assert!(matches!(event, Some(BgpEvent::AnnounceFailed { .. })));
    let (reason, _, _, event) = closed(live(9).on_write_error(Purpose::Withdraw, "x"));
    assert_eq!(reason, "withdraw: x");
    assert!(matches!(event, Some(BgpEvent::WithdrawFailed { .. })));
    let (reason, _, _, event) = closed(live(9).on_write_error(Purpose::Keepalive, "x"));
    assert_eq!(reason, "keepalive: x");
    assert!(event.is_none());
}

#[test]
fn a_silent_peer_is_told_and_dropped() {
    let (reason, terminal, farewell, _) = closed(live(9).on_hold_expired());
    assert_eq!(reason, "hold timer expired after 9s of peer silence");
    assert!(!terminal);
    assert_eq!(farewell, Some(encode_notification(4, 0).to_vec()));
}

#[test]
fn md5_keys_are_padded_with_zeros() {
    let key = tcp_md5_key(v4(7), b"s3cret").unwrap_or_else(|e| panic!("{}", e.message));
    assert_eq!(key.addr, [10, 0, 0, 7]);
    assert_eq!(key.keylen, 6);
    assert_eq!(&key.key[..7], b"s3cret\0");
    assert_eq!(key.key[79], 0);
    assert!(tcp_md5_key(v4(7), &[b'x'; 80]).is_ok());
}

#[test]
fn md5_keys_have_limits() {
    let long = tcp_md5_key(v4(7), &[b'x'; 81]).err().unwrap();
    assert_eq!(long.kind, IoErrorKind::InvalidInput);
    assert_eq!(long.message, "TCP_MD5SIG password too long (81 bytes > 80)");
    let v6 = IpAddr::V6(Ipv6Addr::new(0, 0, 0, 0, 0, 0, 0, 1));
    let unsupported = tcp_md5_key(v6, b"k").err().unwrap();
    assert_eq!(unsupported.kind, IoErrorKind::Unsupported);
    assert_eq!(unsupported.message, "TCP_MD5SIG not yet wired for IPv6 peers");
}

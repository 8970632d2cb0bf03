//! What a BGP peer session does next: reconnection with back-off, the OPEN
//! handshake, keepalives, the hold timer and inbound messages.

use bytes::BytesMut;
use vstd::prelude::*;

use crate::base::net::{IpAddr, Ipv4Addr};
use crate::base::text::{decimal, push_decimal};
use crate::base::time::{elapsed_nanos, Duration, Instant, NANOS_PER_SEC};
use crate::bgp::error_code::HOLD_TIMER_EXPIRED;
use crate::bgp::framing::{drain_messages, drained};
use crate::bgp::messages::{
    announcement, bytes_in, encode_keepalive, encode_notification, encode_update_announce,
    encode_update_withdraw, keepalive, message_type, notification, open_hold_time,
    parse_message_type, parse_open_hold_time, withdrawal, BgpMessageType,
};

verus! {

/// The hold time of a peer that is configured with none, in seconds.
pub const DEFAULT_HOLD_TIME_SECS: u16 = 90;

/// The first pause before a reconnection, in seconds.
pub const RECONNECT_BACKOFF_MIN_SECS: u64 = 1;

/// The longest pause before a reconnection, in seconds.
pub const RECONNECT_BACKOFF_MAX_SECS: u64 = 60;

/// How long a connection attempt may take, in seconds.
pub const CONNECT_TIMEOUT_SECS: u64 = 10;

/// Why a session could not be set up or went down.
pub enum BgpError {
    /// An I/O error, in words.
    Io(String),
    Session(String),
    Timeout,
}

impl BgpError {
    /// The error in words.
    pub open spec fn text(self) -> Seq<char> {
        match self {
            BgpError::Io(e) => "I/O error: "@ + e@,
            BgpError::Session(e) => "BGP session error: "@ + e@,
            BgpError::Timeout => "connection timeout"@,
        }
    }

    /// The error in words.
    pub fn message(&self) -> (s: String)
        ensures
            s@ == self.text(),
    {
        match self {
            BgpError::Io(e) => {
                let mut s = "I/O error: ".to_string();
                s.append(e.as_str());
                s
            },
            BgpError::Session(e) => {
                let mut s = "BGP session error: ".to_string();
                s.append(e.as_str());
                s
            },
            BgpError::Timeout => "connection timeout".to_string(),
        }
    }
}

/// Observable state of a BGP peer session.
#[derive(Debug, Clone, Copy, PartialEq, Eq, Structural)]
pub enum PeerState {
    /// Initial state before the first connect attempt.
    Idle,
    /// TCP connecting or OPEN handshake in progress.
    Connecting,
    /// Session is up; announces will be delivered.
    Established,
    /// Backing off after a failure. Reconnect is scheduled.
    Backoff,
    /// Explicitly disabled in config.
    Disabled,
}

/// Event stream emitted by the speaker. Downstream consumers (e.g. metrics)
/// subscribe to it.
#[derive(Debug)]
pub enum BgpEvent {
    PeerConnected { peer_ip: IpAddr },
    PeerDisconnected { peer_ip: IpAddr, reason: String },
    AnnounceFailed { peer_ip: IpAddr },
    WithdrawFailed { peer_ip: IpAddr },
    /// Peer sent us a NOTIFICATION. RFC 4271 §6.3 says the session MUST be
    /// torn down after sending or receiving one — we record the code/subcode
    /// for operator visibility and then fall through to the transient
    /// disconnect path.
    PeerNotification { peer_ip: IpAddr, error_code: u8, error_subcode: u8 },
}

/// Command sent from the supervisor to a per-peer session task.
#[derive(Debug)]
pub enum SessionCmd {
    Announce(Vec<Ipv4Addr>),
    Withdraw(Vec<Ipv4Addr>),
    Shutdown,
}

/// How a session ended. After a terminal end it is not set up again.
pub struct Disconnect {
    pub reason: String,
    pub terminal: bool,
}

impl Disconnect {
    fn terminal(reason: &str) -> (d: Disconnect)
        ensures
            d.terminal,
            d.reason@ == reason@,
    {
        Disconnect { reason: reason.to_string(), terminal: true }
    }

    fn transient(reason: String) -> (d: Disconnect)
        ensures
            !d.terminal,
            d.reason@ == reason@,
    {
        Disconnect { reason, terminal: false }
    }
}

/// Something that happens to a session between its connections.
pub enum RunEvent {
    /// All queued commands were taken; one of them was a shutdown or not.
    /// Announcements that arrived without a connection are dropped: the
    /// current state is announced again after the next one.
    Drained { shutdown: bool },
    /// The connection was set up.
    Connected,
    /// The connection could not be set up.
    ConnectFailed,
    /// The connection ended.
    Ended(Disconnect),
    /// The pause ended: it ran out or a command cut it short. A shutdown, or
    /// a supervisor that is gone, stops the session.
    Woken { shutdown: bool },
}

/// What to do about an event.
#[derive(Debug, Clone, Copy, PartialEq, Eq, Structural)]
pub enum RunAction {
    /// Take all queued commands.
    Drain,
    /// Set up a connection.
    Connect,
    /// Serve the connection.
    Drive,
    /// Pause, unless a command comes first.
    Sleep(Duration),
    /// End the session for good.
    Stop,
}

/// The next pause: twice the last one, within the limit.
pub open spec fn next_backoff(backoff: Duration) -> Duration {
    Duration {
        nanos: if backoff.nanos * 2 <= RECONNECT_BACKOFF_MAX_SECS * NANOS_PER_SEC {
            (backoff.nanos * 2) as u128
        } else {
            (RECONNECT_BACKOFF_MAX_SECS * NANOS_PER_SEC) as u128
        },
    }
}

/// The first pause.
pub open spec fn first_backoff() -> Duration {
    Duration { nanos: (RECONNECT_BACKOFF_MIN_SECS * NANOS_PER_SEC) as u128 }
}

/// State, pause and action after an event.
pub open spec fn run_step(state: PeerState, backoff: Duration, event: RunEvent) -> (
    PeerState,
    Duration,
    RunAction,
) {
    match event {
        RunEvent::Drained { shutdown } => if shutdown {
            (PeerState::Idle, backoff, RunAction::Stop)
        } else {
            (PeerState::Connecting, backoff, RunAction::Connect)
        },
        RunEvent::Connected => (PeerState::Established, first_backoff(), RunAction::Drive),
        RunEvent::ConnectFailed => (PeerState::Backoff, backoff, RunAction::Sleep(backoff)),
        RunEvent::Ended(d) => if d.terminal {
            (PeerState::Idle, backoff, RunAction::Stop)
        } else {
            (PeerState::Backoff, backoff, RunAction::Sleep(backoff))
        },
        RunEvent::Woken { shutdown } => if shutdown {
            (PeerState::Idle, backoff, RunAction::Stop)
        } else {
            (state, next_backoff(backoff), RunAction::Drain)
        },
    }
}

/// One peer's session: how to reach the peer and how it is doing.
pub struct PeerSession {
    pub peer_ip: IpAddr,
    pub port: u16,
    pub local_asn: u16,
    pub router_id: Ipv4Addr,
    /// The hold time that we offer.
    pub hold_time: u16,
    pub enabled: bool,
    pub state: PeerState,
    /// The pause after the next failure.
    pub backoff: Duration,
}

impl PeerSession {
    /// The pause is within the limits.
    pub open spec fn wf(self) -> bool {
        first_backoff().nanos <= self.backoff.nanos <= RECONNECT_BACKOFF_MAX_SECS * NANOS_PER_SEC
    }

    /// Takes the session through an event: what to do next, and what to tell.
    pub fn step(&mut self, event: RunEvent) -> (r: (RunAction, Option<BgpEvent>))
        requires
            old(self).wf(),
        ensures
            final(self).wf(),
            ({
                let (state, backoff, action) = run_step(old(self).state, old(self).backoff, event);
                &&& *final(self) == PeerSession { state, backoff, ..*old(self) }
                &&& r.0 == action
            }),
            match event {
                RunEvent::Connected => r.1 == Some(
                    BgpEvent::PeerConnected { peer_ip: old(self).peer_ip },
                ),
                RunEvent::Ended(d) => r.1 == Some(
                    BgpEvent::PeerDisconnected { peer_ip: old(self).peer_ip, reason: d.reason },
                ),
                _ => r.1 is None,
            },
    {
        match event {
            RunEvent::Drained { shutdown } => {
                if shutdown {
                    self.state = PeerState::Idle;
                    (RunAction::Stop, None)
                } else {
                    self.state = PeerState::Connecting;
                    (RunAction::Connect, None)
                }
            },
            RunEvent::Connected => {
                self.backoff = Duration::from_secs(RECONNECT_BACKOFF_MIN_SECS);
                self.state = PeerState::Established;
                (RunAction::Drive, Some(BgpEvent::PeerConnected { peer_ip: self.peer_ip }))
            },
            RunEvent::ConnectFailed => {
                self.state = PeerState::Backoff;
                (RunAction::Sleep(self.backoff), None)
            },
            RunEvent::Ended(d) => {
                let terminal = d.terminal;
                let event = BgpEvent::PeerDisconnected { peer_ip: self.peer_ip, reason: d.reason };
                if terminal {
                    self.state = PeerState::Idle;
                    (RunAction::Stop, Some(event))
                } else {
                    self.state = PeerState::Backoff;
                    (RunAction::Sleep(self.backoff), Some(event))
                }
            },
            RunEvent::Woken { shutdown } => {
                if shutdown {
                    self.state = PeerState::Idle;
                    (RunAction::Stop, None)
                } else {
                    let doubled: u128 = self.backoff.nanos * 2;
                    let max = Duration::from_secs(RECONNECT_BACKOFF_MAX_SECS);
                    self.backoff = if doubled <= max.nanos {
                        Duration { nanos: doubled }
                    } else {
                        max
                    };
                    (RunAction::Drain, None)
                }
            },
        }
    }
}

/// Whether a command, or its absence because the supervisor is gone, ends the
/// session.
pub fn ends_session(cmd: &Option<SessionCmd>) -> (b: bool)
    ensures
        b == (cmd is None || cmd->0 is Shutdown),
{
    match cmd {
        Some(SessionCmd::Shutdown) => true,
        None => true,
        _ => false,
    }
}

/// How the type of a message is named in an error.
pub open spec fn type_text(ty: Option<BgpMessageType>) -> Seq<char> {
    match ty {
        Some(BgpMessageType::Open) => "Some(Open)"@,
        Some(BgpMessageType::Update) => "Some(Update)"@,
        Some(BgpMessageType::Notification) => "Some(Notification)"@,
        Some(BgpMessageType::Keepalive) => "Some(Keepalive)"@,
        None => "None"@,
    }
}

fn type_label(ty: Option<BgpMessageType>) -> (s: &'static str)
    ensures
        s@ == type_text(ty),
{
    match ty {
        Some(BgpMessageType::Open) => "Some(Open)",
        Some(BgpMessageType::Update) => "Some(Update)",
        Some(BgpMessageType::Notification) => "Some(Notification)",
        Some(BgpMessageType::Keepalive) => "Some(Keepalive)",
        None => "None",
    }
}

/// The hold time that a peer's answer to our OPEN leads to, or the error in
/// words.
pub open spec fn negotiated(reply: Seq<u8>, our_hold: u16) -> Result<int, Seq<char>> {
    if reply.len() < 19 {
        Err("incomplete BGP message from peer"@)
    } else if message_type(reply) != Some(BgpMessageType::Open) {
        Err("expected OPEN from peer, got "@ + type_text(message_type(reply)))
    } else {
        match open_hold_time(reply) {
            None => Err("peer OPEN was malformed; missing hold_time"@),
            Some(peer_hold) => Ok(
                if our_hold <= peer_hold {
                    our_hold as int
                } else {
                    peer_hold
                },
            ),
        }
    }
}

/// Reads the peer's answer to our OPEN and gives the **negotiated** hold time
/// (seconds). Per RFC 4271 §4.2, the accepted hold time is `min(our_hold,
/// peer_hold)`. A negotiated value of `0` disables both keepalive generation
/// and hold-timer enforcement.
pub fn negotiate_hold(reply: &[u8], our_hold: u16) -> (r: Result<u16, BgpError>)
    ensures
        match r {
            Ok(hold) => negotiated(reply@, our_hold) == Ok::<int, Seq<char>>(hold as int),
            Err(e) => e is Session && negotiated(reply@, our_hold) == Err::<int, Seq<char>>(
                e->Session_0@,
            ),
        },
{
    if reply.len() < 19 {
        return Err(BgpError::Session("incomplete BGP message from peer".to_string()));
    }
    let ty = parse_message_type(reply);
    match ty {
        Some(BgpMessageType::Open) => match parse_open_hold_time(reply) {
            Some(peer_hold) => Ok(
                if our_hold <= peer_hold {
                    our_hold
                } else {
                    peer_hold
                },
            ),
            None => Err(
                BgpError::Session("peer OPEN was malformed; missing hold_time".to_string()),
            ),
        },
        other => {
            let mut m = "expected OPEN from peer, got ".to_string();
            m.append(type_label(other));
            Err(BgpError::Session(m))
        },
    }
}

/// What a write was for.
#[derive(Debug, Clone, Copy, PartialEq, Eq, Structural)]
pub enum Purpose {
    Announce,
    Withdraw,
    Keepalive,
}

/// What to do on a live connection.
pub enum DriveAction {
    /// Go on.
    Wait,
    /// Write some messages in order.
    Send { messages: Vec<BytesMut>, purpose: Purpose },
    /// Write a last message if there is one, tell the event if there is one,
    /// and close the connection.
    Close { disconnect: Disconnect, farewell: Option<BytesMut>, event: Option<BgpEvent> },
}

impl DriveAction {
    /// Whether the action is to write just these messages.
    pub open spec fn sends(self, messages: Seq<Seq<u8>>, purpose: Purpose) -> bool {
        self matches DriveAction::Send { messages: m, purpose: p } && m@.len() == messages.len()
            && p == purpose && forall|i: int|
            0 <= i < m@.len() ==> bytes_in(#[trigger] m@[i]) == messages[i]
    }

    /// Whether the action is to close the connection for this reason, without
    /// a last message.
    pub open spec fn closes(
        self,
        reason: Seq<char>,
        terminal: bool,
        event: Option<BgpEvent>,
    ) -> bool {
        self matches DriveAction::Close { disconnect: d, farewell: f, event: e } && d.reason@
            == reason && d.terminal == terminal && f is None && e == event
    }
}

/// The announcements of some VIPs to a peer, each as a /32.
pub open spec fn announcements(vips: Seq<Ipv4Addr>, next_hop: Ipv4Addr, asn: u16) -> Seq<Seq<u8>> {
    Seq::new(vips.len(), |i: int| announcement(vips[i], 32, next_hop, asn))
}

/// The withdrawals of some VIPs, each as a /32.
pub open spec fn withdrawals(vips: Seq<Ipv4Addr>) -> Seq<Seq<u8>> {
    Seq::new(vips.len(), |i: int| withdrawal(vips[i], 32))
}

/// The pause between keepalives, in seconds.
pub open spec fn keepalive_secs(hold: u16) -> int {
    if hold < 6 {
        1
    } else {
        hold as int / 3
    }
}

/// For how many nanoseconds a peer that was last heard of at `last_inbound` may
/// stay silent from `now` on.
pub open spec fn hold_left(hold: u16, last_inbound: Instant, now: Instant) -> int {
    let silent = elapsed_nanos(last_inbound, now);
    if silent < hold * NANOS_PER_SEC {
        hold * NANOS_PER_SEC - silent
    } else {
        0
    }
}

/// The words in which a NOTIFICATION ends a session.
pub open spec fn notification_reason(error_code: u8, error_subcode: u8) -> Seq<char> {
    "NOTIFICATION code="@ + decimal(error_code as int) + " subcode="@ + decimal(
        error_subcode as int,
    )
}

/// The words in which the hold timer ends a session.
pub open spec fn hold_reason(hold: u16) -> Seq<char> {
    "hold timer expired after "@ + decimal(hold as int) + "s of peer silence"@
}

/// The words in which a failed write ends a session.
pub open spec fn write_reason(purpose: Purpose, error: Seq<char>) -> Seq<char> {
    match purpose {
        Purpose::Announce => "announce: "@ + error,
        Purpose::Withdraw => "withdraw: "@ + error,
        Purpose::Keepalive => "keepalive: "@ + error,
    }
}

/// A connection on which the OPEN handshake is done.
pub struct LiveSession {
    pub peer_ip: IpAddr,
    pub local_asn: u16,
    pub router_id: Ipv4Addr,
    /// The negotiated hold time in seconds. Zero means the peer disabled the
    /// keepalive regime: we neither send KEEPALIVEs nor enforce a hold timer.
    pub hold: u16,
    /// Inbound TCP bytes that are not a whole message yet.
    pub incoming: Vec<u8>,
    /// When the last bytes came in.
    pub last_inbound: Instant,
}

impl LiveSession {
    pub fn new(session: &PeerSession, negotiated_hold: u16, now: Instant) -> (s: LiveSession)
        ensures
            s.peer_ip == session.peer_ip,
            s.local_asn == session.local_asn,
            s.router_id == session.router_id,
            s.hold == negotiated_hold,
            s.incoming@.len() == 0,
            s.last_inbound == now,
    {
        LiveSession {
            peer_ip: session.peer_ip,
            local_asn: session.local_asn,
            router_id: session.router_id,
            hold: negotiated_hold,
            incoming: Vec::new(),
            last_inbound: now,
        }
    }

    /// The pause between keepalives; `None` if none are sent.
    pub fn keepalive_interval(&self) -> (d: Option<Duration>)
        ensures
            self.hold == 0 ==> d is None,
            self.hold > 0 ==> d is Some && d->0.nanos == keepalive_secs(self.hold) * NANOS_PER_SEC,
    {
        if self.hold == 0 {
            None
        } else {
            let third: u16 = self.hold / 3;
            Some(
                Duration::from_secs(
                    if third < 1 {
                        1
                    } else {
                        third as u64
                    },
                ),
            )
        }
    }

    /// How long the peer may stay silent from `now` on; `None` if for ever.
    pub fn hold_remaining(&self, now: Instant) -> (d: Option<Duration>)
        ensures
            self.hold == 0 ==> d is None,
            self.hold > 0 ==> d is Some && d->0.nanos == hold_left(
                self.hold,
                self.last_inbound,
                now,
            ),
    {
        if self.hold == 0 {
            None
        } else {
            let hold = Duration::from_secs(self.hold as u64);
            let silent = now.duration_since(self.last_inbound);
            Some(
                Duration {
                    nanos: if silent.nanos < hold.nanos {
                        hold.nanos - silent.nanos
                    } else {
                        0
                    },
                },
            )
        }
    }

    /// A command came in; `None` if the supervisor is gone.
    pub fn on_command(&self, cmd: Option<SessionCmd>) -> (a: DriveAction)
        ensures
            match cmd {
                None => a.closes("supervisor dropped"@, true, None),
                Some(SessionCmd::Shutdown) => a.closes("shutdown"@, true, None),
                Some(SessionCmd::Announce(vips)) => a.sends(
                    announcements(vips@, self.router_id, self.local_asn),
                    Purpose::Announce,
                ),
                Some(SessionCmd::Withdraw(vips)) => a.sends(
                    withdrawals(vips@),
                    Purpose::Withdraw,
                ),
            },
    {
        match cmd {
            None => DriveAction::Close {
                disconnect: Disconnect::terminal("supervisor dropped"),
                farewell: None,
                event: None,
            },
            Some(SessionCmd::Shutdown) => DriveAction::Close {
                disconnect: Disconnect::terminal("shutdown"),
                farewell: None,
                event: None,
            },
            Some(SessionCmd::Announce(vips)) => {
                let mut messages: Vec<BytesMut> = Vec::new();
                let mut i: usize = 0;
                while i < vips.len()
                    invariant
                        i <= vips@.len(),
                        messages@.len() == i,
                        forall|j: int|
                            0 <= j < i ==> bytes_in(#[trigger] messages@[j]) == announcements(
                                vips@,
                                self.router_id,
                                self.local_asn,
                            )[j],
                    decreases vips@.len() - i,
                {
                    messages.push(
                        encode_update_announce(vips[i], 32, self.router_id, self.local_asn),
                    );
                    i = i + 1;
                }
                DriveAction::Send { messages, purpose: Purpose::Announce }
            },
            Some(SessionCmd::Withdraw(vips)) => {
                let mut messages: Vec<BytesMut> = Vec::new();
                let mut i: usize = 0;
                while i < vips.len()
                    invariant
                        i <= vips@.len(),
                        messages@.len() == i,
                        forall|j: int|
                            0 <= j < i ==> bytes_in(#[trigger] messages@[j]) == withdrawals(
                                vips@,
                            )[j],
                    decreases vips@.len() - i,
                {
                    messages.push(encode_update_withdraw(vips[i], 32));
                    i = i + 1;
                }
                DriveAction::Send { messages, purpose: Purpose::Withdraw }
            },
        }
    }

    /// A keepalive is due.
    pub fn on_keepalive(&self) -> (a: DriveAction)
        ensures
            a.sends(seq![keepalive()], Purpose::Keepalive),
    {
        let mut messages: Vec<BytesMut> = Vec::new();
        messages.push(encode_keepalive());
        DriveAction::Send { messages, purpose: Purpose::Keepalive }
    }

    /// Bytes came in, or the peer closed the connection and there are none.
    ///
    /// Any byte of inbound traffic — KEEPALIVE, UPDATE, or even a
    /// not-yet-complete message — resets the hold timer per RFC 4271 §8. If a
    /// NOTIFICATION lands, the session is closed — RFC 4271 §6.3.
    pub fn on_data(&mut self, data: &[u8], now: Instant) -> (a: DriveAction)
        ensures
            data@.len() == 0 ==> *final(self) == *old(self) && a.closes(
                "peer closed connection"@,
                false,
                None,
            ),
            data@.len() > 0 ==> ({
                let (codes, rest) = drained(old(self).incoming@ + data@);
                &&& final(self).incoming@ == rest
                &&& *final(self) == LiveSession {
                    incoming: final(self).incoming,
                    last_inbound: now,
                    ..*old(self)
                }
                &&& match codes {
                    None => a is Wait,
                    Some((error_code, error_subcode)) => a.closes(
                        notification_reason(error_code, error_subcode),
                        false,
                        Some(
                            BgpEvent::PeerNotification {
                                peer_ip: old(self).peer_ip,
                                error_code,
                                error_subcode,
                            },
                        ),
                    ),
                }
            }),
    {
        if data.len() == 0 {
            return DriveAction::Close {
                disconnect: Disconnect::transient("peer closed connection".to_string()),
                farewell: None,
                event: None,
            };
        }
        self.last_inbound = now;
        let mut i: usize = 0;
        while i < data.len()
            invariant
                i <= data@.len(),
                self.incoming@ =~= old(self).incoming@ + data@.take(i as int),
                *self == (LiveSession {
                    incoming: self.incoming,
                    last_inbound: now,
                    ..*old(self)
                }),
            decreases data@.len() - i,
        {
            self.incoming.push(data[i]);
            i = i + 1;
        }
        assert(data@.take(i as int) =~= data@);
        match drain_messages(&mut self.incoming) {
            None => DriveAction::Wait,
            Some((error_code, error_subcode)) => {
                let mut reason = "NOTIFICATION code=".to_string();
                push_decimal(&mut reason, error_code as u64);
                reason.append(" subcode=");
                push_decimal(&mut reason, error_subcode as u64);
                DriveAction::Close {
                    disconnect: Disconnect::transient(reason),
                    farewell: None,
                    event: Some(
                        BgpEvent::PeerNotification {
                            peer_ip: self.peer_ip,
                            error_code,
                            error_subcode,
                        },
                    ),
                }
            },
        }
    }

    /// Reading failed.
    pub fn on_read_error(&self, error: &str) -> (a: DriveAction)
        ensures
            a.closes("read: "@ + error@, false, None),
    {
        let mut reason = "read: ".to_string();
        reason.append(error);
        DriveAction::Close {
            disconnect: Disconnect::transient(reason),
            farewell: None,
            event: None,
        }
    }

    /// A write failed.
    pub fn on_write_error(&self, purpose: Purpose, error: &str) -> (a: DriveAction)
        ensures
            a.closes(
                write_reason(purpose, error@),
                false,
                match purpose {
                    Purpose::Announce => Some(BgpEvent::AnnounceFailed { peer_ip: self.peer_ip }),
                    Purpose::Withdraw => Some(BgpEvent::WithdrawFailed { peer_ip: self.peer_ip }),
                    Purpose::Keepalive => None,
                },
            ),
    {
        let (prefix, event) = match purpose {
            Purpose::Announce => (
                "announce: ",
                Some(BgpEvent::AnnounceFailed { peer_ip: self.peer_ip }),
            ),
            Purpose::Withdraw => (
                "withdraw: ",
                Some(BgpEvent::WithdrawFailed { peer_ip: self.peer_ip }),
            ),
            Purpose::Keepalive => ("keepalive: ", None),
        };
        let mut reason = prefix.to_string();
        reason.append(error);
        DriveAction::Close { disconnect: Disconnect::transient(reason), farewell: None, event }
    }

    /// The peer has been silent for the hold time: send a Hold Timer Expired
    /// NOTIFICATION (best effort — the session is already broken) and tear
    /// down.
    pub fn on_hold_expired(&self) -> (a: DriveAction)
        ensures
            a matches DriveAction::Close { disconnect: d, farewell: f, event: e } && d.reason@
                == hold_reason(self.hold) && !d.terminal && e is None && f is Some && bytes_in(f->0)
                == notification(HOLD_TIMER_EXPIRED, 0),
    {
        let mut reason = "hold timer expired after ".to_string();
        push_decimal(&mut reason, self.hold as u64);
        reason.append("s of peer silence");
        DriveAction::Close {
            disconnect: Disconnect::transient(reason),
            farewell: Some(encode_notification(HOLD_TIMER_EXPIRED, 0)),
            event: None,
        }
    }
}

/// The pause after `n` failures in a row, from the first pause on.
pub open spec fn backoff_after(n: nat) -> Duration
    decreases n,
{
    if n == 0 {
        first_backoff()
    } else {
        next_backoff(backoff_after((n - 1) as nat))
    }
}

/// The pauses grow: each is at least the one before, none is shorter than a
/// second or longer than a minute, and from the seventh on each is a minute.
/// A connection takes the pause back to the first.
pub proof fn backoff_doubles_up_to_the_limit(n: nat, state: PeerState, backoff: Duration)
    ensures
        backoff_after(n).nanos <= backoff_after(n + 1).nanos,
        RECONNECT_BACKOFF_MIN_SECS * NANOS_PER_SEC <= backoff_after(n).nanos
            <= RECONNECT_BACKOFF_MAX_SECS * NANOS_PER_SEC,
        n >= 6 ==> backoff_after(n).nanos == RECONNECT_BACKOFF_MAX_SECS * NANOS_PER_SEC,
        n < 6 ==> backoff_after(n + 1).nanos == if n < 5 {
            2 * backoff_after(n).nanos
        } else {
            RECONNECT_BACKOFF_MAX_SECS * NANOS_PER_SEC
        },
        run_step(state, backoff, RunEvent::Connected).1 == backoff_after(0),
    decreases n,
{
    if n <= 6 {
        reveal_with_fuel(backoff_after, 9);
    } else {
        backoff_doubles_up_to_the_limit((n - 1) as nat, state, backoff);
    }
}

/// A shutdown wins in every state: the session stops and is idle.
pub proof fn shutdown_stops(state: PeerState, backoff: Duration, d: Disconnect)
    requires
        d.terminal,
    ensures
        run_step(state, backoff, RunEvent::Drained { shutdown: true }) == (
            PeerState::Idle,
            backoff,
            RunAction::Stop,
        ),
        run_step(state, backoff, RunEvent::Woken { shutdown: true }) == (
            PeerState::Idle,
            backoff,
            RunAction::Stop,
        ),
        run_step(state, backoff, RunEvent::Ended(d)) == (
            PeerState::Idle,
            backoff,
            RunAction::Stop,
        ),
{
}

/// The negotiated hold time is no longer than either side's, and zero exactly
/// if one side's is.
#[verifier::spinoff_prover]
pub proof fn negotiated_hold_is_minimum(
    local_asn: u16,
    peer_hold: u16,
    router_id: Ipv4Addr,
    our_hold: u16,
)
    ensures
        ({
            let reply = crate::bgp::messages::message(
                BgpMessageType::Open,
                crate::bgp::messages::open_body(local_asn, peer_hold, router_id),
            );
            negotiated(reply, our_hold) matches Ok(hold) && hold <= our_hold && hold <= peer_hold
                && (hold == our_hold || hold == peer_hold) && (hold == 0 <==> our_hold == 0
                || peer_hold == 0)
        }),
{
    let body = crate::bgp::messages::open_body(local_asn, peer_hold, router_id);
    let reply = crate::bgp::messages::message(BgpMessageType::Open, body);
    assert(reply.len() >= 19 && message_type(reply) == Some(BgpMessageType::Open)) by {
        crate::bgp::messages::header_round_trip(BgpMessageType::Open, body);
    }
    assert(open_hold_time(reply) == Some(peer_hold as int)) by {
        crate::bgp::messages::open_round_trip(local_asn, peer_hold, router_id);
    }
}

/// A peer has the whole hold time from its last bytes on: hearing from it starts
/// the time anew, and it runs out exactly when the peer has been silent for the
/// hold time.
pub proof fn silence_runs_out_the_hold_time(hold: u16, last_inbound: Instant, now: Instant)
    requires
        hold > 0,
    ensures
        hold_left(hold, now, now) == hold * NANOS_PER_SEC,
        hold_left(hold, last_inbound, now) == 0 <==> elapsed_nanos(last_inbound, now) >= hold
            * NANOS_PER_SEC,
{
}

/// Keepalives go out at least once per hold time, and three times per hold time
/// of three seconds or more.
pub proof fn keepalives_fit_the_hold_time(hold: u16)
    requires
        hold > 0,
    ensures
        1 <= keepalive_secs(hold) <= hold,
        hold >= 3 ==> 3 * keepalive_secs(hold) <= hold,
{
}

} // verus!

//! The BGP supervisor's rules: which peers get a session, and which sessions
//! an announcement goes to.

use vstd::prelude::*;

use crate::base::net::{IpAddr, Ipv4Addr};
use crate::base::time::Duration;
use crate::bgp::session::{
    first_backoff, PeerSession, PeerState, DEFAULT_HOLD_TIME_SECS, RECONNECT_BACKOFF_MIN_SECS,
};
use crate::types::config::{BgpConfig, BgpPeerConfig};

verus! {

/// Abstract fan-out API for VIP announcements. A test double can record
/// announce/withdraw calls without touching real sockets.
pub trait BgpAnnouncer {
    fn announce(&self, vips: &[Ipv4Addr]);

    fn withdraw(&self, vips: &[Ipv4Addr]);
}

/// The low 16 bits of an AS number.
pub open spec fn short_asn(asn: u32) -> u16 {
    (asn % 65536) as u16
}

/// The session that a configured peer starts with.
pub open spec fn initial_session(
    peer: BgpPeerConfig,
    local_asn: u32,
    router_id: Ipv4Addr,
) -> PeerSession {
    PeerSession {
        peer_ip: peer.peer_ip,
        port: peer.port,
        local_asn: short_asn(local_asn),
        router_id,
        hold_time: match peer.hold_time_secs {
            Some(h) => h,
            None => DEFAULT_HOLD_TIME_SECS,
        },
        enabled: peer.enabled,
        state: if peer.enabled {
            PeerState::Idle
        } else {
            PeerState::Disabled
        },
        backoff: first_backoff(),
    }
}

/// One session per configured peer, in order. `None` if the router id is not an
/// IPv4 address: no BGP sessions will start.
pub fn plan_sessions(config: &BgpConfig) -> (r: Option<Vec<PeerSession>>)
    ensures
        match config.router_id {
            IpAddr::V6(_) => r is None,
            IpAddr::V4(router_id) => r matches Some(v) && v@.len() == config.peers@.len() && forall|
                i: int,
            |
                0 <= i < v@.len() ==> (#[trigger] v@[i]) == initial_session(
                    config.peers@[i],
                    config.local_asn,
                    router_id,
                ) && v@[i].wf(),
        },
{
    let router_id: Ipv4Addr = match config.router_id {
        IpAddr::V4(v4) => v4,
        IpAddr::V6(_) => {
            return None;
        },
    };
    let mut out: Vec<PeerSession> = Vec::new();
    let mut i: usize = 0;
    while i < config.peers.len()
        invariant
            i <= config.peers@.len(),
            out@.len() == i,
            forall|j: int|
                0 <= j < i ==> (#[trigger] out@[j]) == initial_session(
                    config.peers@[j],
                    config.local_asn,
                    router_id,
                ) && out@[j].wf(),
        decreases config.peers@.len() - i,
    {
        let peer: &BgpPeerConfig = &config.peers[i];
        out.push(
            PeerSession {
                peer_ip: peer.peer_ip,
                port: peer.port,
                local_asn: (config.local_asn % 65536) as u16,
                router_id,
                hold_time: match peer.hold_time_secs {
                    Some(h) => h,
                    None => DEFAULT_HOLD_TIME_SECS,
                },
                enabled: peer.enabled,
                state: if peer.enabled {
                    PeerState::Idle
                } else {
                    PeerState::Disabled
                },
                backoff: Duration::from_secs(RECONNECT_BACKOFF_MIN_SECS),
            },
        );
        i = i + 1;
    }
    Some(out)
}

/// Whether an announcement or withdrawal of some VIPs goes to a peer: not to a
/// disabled one, and not if there are none.
pub fn goes_to(enabled: bool, vips: &[Ipv4Addr]) -> (b: bool)
    ensures
        b == (enabled && vips@.len() > 0),
{
    enabled && vips.len() > 0
}

} // verus!

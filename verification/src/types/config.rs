//! Node configuration.

use vstd::prelude::*;

use crate::base::net::{IpAddr, Ipv4Addr};
use crate::base::text::{
    chars_of, decimal, decimal_round_trip, is_white_space, number_value, parse_number,
    push_numeral, trim_end, trim_range, trim_start, trimmed,
};
use crate::base::time::{Duration, NANOS_PER_MICRO, NANOS_PER_MILLI, NANOS_PER_SEC};

verus! {

/// Top-level node configuration.
pub struct NodeConfig {
    pub node: NodeSection,
    pub bgp: BgpConfig,
    pub control_plane: ControlPlaneConfig,
    pub forwarder: ForwarderConfig,
    pub health_check_defaults: HealthCheckConfig,
}

pub struct NodeSection {
    pub id: String,
    pub loopback_ip: IpAddr,
    pub data_iface: String,
    pub num_threads: usize,
    /// Address the operations HTTP server binds to (`/healthz`, `/readyz`,
    /// `/metrics`). Defaults to `127.0.0.1:9100`.
    pub metrics_addr: SocketAddr,
    /// Which `PacketIo` backend the forwarder uses.
    pub io_backend: IoBackend,
}

/// An address and a port.
#[derive(Debug, Clone, Copy, PartialEq, Eq, Structural)]
pub struct SocketAddr {
    pub ip: IpAddr,
    pub port: u16,
}

/// Packet I/O backend selector.
#[derive(Debug, Clone, Copy, PartialEq, Eq, Structural)]
pub enum IoBackend {
    /// In-memory ring buffers; no real NIC traffic. The default, suitable
    /// for local dev and integration tests.
    Mock,
    /// AF_XDP socket bound to `data_iface`. Production direction.
    AfXdp,
}

impl Default for IoBackend {
    fn default() -> (b: IoBackend)
        ensures
            b == IoBackend::Mock,
    {
        IoBackend::Mock
    }
}

pub fn default_num_threads() -> (n: usize)
    ensures
        n == 7,
{
    7
}

pub fn default_metrics_addr() -> (a: SocketAddr)
    ensures
        a == (SocketAddr {
            ip: IpAddr::V4(Ipv4Addr { a: 127, b: 0, c: 0, d: 1 }),
            port: 9100,
        }),
{
    SocketAddr { ip: IpAddr::V4(Ipv4Addr::new(127, 0, 0, 1)), port: 9100 }
}

/// BGP configuration for VIP announcement.
///
/// Each LB node holds one independent BGP session per configured peer. All
/// sessions are active-active: VIP announce/withdraw fans out to every live
/// peer, so loss of any single router does not remove the VIP from the other
/// routers' routing tables.
///
/// For backward compatibility, the legacy single-peer form with top-level
/// `peer_ip`/`peer_asn` is still accepted and converted to a one-element
/// `peers` vector.
pub struct BgpConfig {
    pub local_asn: u32,
    pub router_id: IpAddr,
    pub communities: Vec<String>,
    pub next_hop_self: bool,
    /// At least one peer must be configured.
    pub peers: Vec<BgpPeerConfig>,
}

#[derive(Debug, PartialEq, Eq)]
pub struct BgpPeerConfig {
    pub peer_ip: IpAddr,
    pub peer_asn: u32,
    pub port: u16,
    /// Hold time in seconds. `None` defers to the speaker default (90s).
    pub hold_time_secs: Option<u16>,
    /// Per-peer community override. `None` inherits top-level `communities`.
    pub communities: Option<Vec<String>>,
    pub enabled: bool,
    /// TCP-MD5 signature (RFC 2385). Max length is 80 bytes (Linux
    /// TCP_MD5SIG_MAXKEYLEN).
    ///
    /// **Prefer `md5_password_env`** — putting the literal secret here
    /// means anyone with read access to the configuration file can
    /// impersonate this peer.
    pub md5_password: Option<String>,
    /// Name of an environment variable holding the TCP-MD5 password.
    /// Resolved at startup; mutually exclusive with `md5_password`. The
    /// variable must be set when the process starts; missing or empty is a
    /// fatal config error rather than a silent fall-back to unauthenticated
    /// peering.
    pub md5_password_env: Option<String>,
}

/// The password of a peer, or the error in words. `env_value` is what the
/// environment variable named by `md5_password_env` holds, if it is set.
pub open spec fn resolved_password(
    peer_ip: IpAddr,
    inline: Option<Seq<char>>,
    env_name: Option<Seq<char>>,
    env_value: Option<Seq<char>>,
) -> Result<Option<Seq<char>>, Seq<char>> {
    match (inline, env_name) {
        (Some(_), Some(_)) => Err(
            "peer "@ + peer_ip.text()
                + ": md5_password and md5_password_env are mutually exclusive"@,
        ),
        (Some(p), None) => Ok(Some(p)),
        (None, Some(var)) => match env_value {
            Some(v) => if v.len() > 0 {
                Ok(Some(v))
            } else {
                Err(
                    "peer "@ + peer_ip.text() + ": env var $"@ + var
                        + " is empty (md5_password_env)"@,
                )
            },
            None => Err(
                "peer "@ + peer_ip.text() + ": env var $"@ + var
                    + " not set (md5_password_env)"@,
            ),
        },
        (None, None) => Ok(None),
    }
}

/// The view of an optional string.
pub open spec fn opt_view(s: Option<String>) -> Option<Seq<char>> {
    match s {
        Some(t) => Some(t@),
        None => None,
    }
}

fn peer_error(peer_ip: IpAddr, middle: &str, var: &str, end: &str) -> (m: String)
    ensures
        m@ == "peer "@ + peer_ip.text() + middle@ + var@ + end@,
{
    let mut m = "peer ".to_owned();
    peer_ip.push_text(&mut m);
    m.append(middle);
    m.append(var);
    m.append(end);
    m
}

impl BgpPeerConfig {
    /// Resolve the effective TCP-MD5 password. `env_value` is the value of
    /// the environment variable named by `md5_password_env`, if there is one.
    /// Errors if both fields are set (mutually exclusive) or if the named env
    /// var is missing/empty. `Ok(None)` means MD5 is not configured for this
    /// peer.
    pub fn resolved_md5_password(&self, env_value: Option<String>) -> (r: Result<
        Option<String>,
        String,
    >)
        ensures
            ({
                let want = resolved_password(
                    self.peer_ip,
                    opt_view(self.md5_password),
                    opt_view(self.md5_password_env),
                    opt_view(env_value),
                );
                match r {
                    Ok(p) => want == Ok::<Option<Seq<char>>, Seq<char>>(opt_view(p)),
                    Err(m) => want == Err::<Option<Seq<char>>, Seq<char>>(m@),
                }
            }),
    {
        match (&self.md5_password, &self.md5_password_env) {
            (Some(_), Some(_)) => {
                let m = peer_error(
                    self.peer_ip,
                    ": md5_password and md5_password_env are mutually exclusive",
                    "",
                    "",
                );
                proof {
                    reveal_strlit("");
                    assert(m@ =~= "peer "@ + self.peer_ip.text()
                        + ": md5_password and md5_password_env are mutually exclusive"@);
                }
                Err(m)
            },
            (Some(p), None) => Ok(Some(p.clone())),
            (None, Some(var)) => match env_value {
                Some(v) => {
                    if v.as_str().is_empty() {
                        Err(
                            peer_error(
                                self.peer_ip,
                                ": env var $",
                                var.as_str(),
                                " is empty (md5_password_env)",
                            ),
                        )
                    } else {
                        Ok(Some(v))
                    }
                },
                None => Err(
                    peer_error(
                        self.peer_ip,
                        ": env var $",
                        var.as_str(),
                        " not set (md5_password_env)",
                    ),
                ),
            },
            (None, None) => Ok(None),
        }
    }
}

pub fn default_bgp_port() -> (p: u16)
    ensures
        p == 179,
{
    179
}

pub fn default_true() -> (b: bool)
    ensures
        b,
{
    true
}

/// BGP configuration as written: both the legacy flat single-peer form
/// (`peer_ip`/`peer_asn` at the top level) and the `peers = [...]` list.
pub struct BgpConfigRaw {
    pub local_asn: u32,
    pub router_id: IpAddr,
    pub communities: Vec<String>,
    pub next_hop_self: bool,
    pub peer_ip: Option<IpAddr>,
    pub peer_asn: Option<u32>,
    pub peers: Option<Vec<BgpPeerConfig>>,
}

/// The one peer that the legacy form stands for.
pub open spec fn legacy_peer(peer_ip: IpAddr, peer_asn: u32) -> BgpPeerConfig {
    BgpPeerConfig {
        peer_ip,
        peer_asn,
        port: 179,
        hold_time_secs: None,
        communities: None,
        enabled: true,
        md5_password: None,
        md5_password_env: None,
    }
}

/// The peers that a configuration names, or what is wrong with it.
pub open spec fn resolved_peers(raw: BgpConfigRaw) -> Result<Seq<BgpPeerConfig>, Seq<char>> {
    match (raw.peers, raw.peer_ip, raw.peer_asn) {
        (Some(peers), None, None) => if peers@.len() == 0 {
            Err("bgp.peers must contain at least one peer"@)
        } else {
            Ok(peers@)
        },
        (Some(_), _, _) => Err(
            "bgp: specify either `peers = [...]` or legacy `peer_ip`/`peer_asn`, not both"@,
        ),
        (None, Some(ip), Some(asn)) => Ok(seq![legacy_peer(ip, asn)]),
        (None, None, None) => Err(
            "bgp: no peers configured (expected `peers = [...]` or legacy `peer_ip`+`peer_asn`)"@,
        ),
        (None, _, _) => Err(
            "bgp: legacy single-peer form requires both `peer_ip` and `peer_asn`"@,
        ),
    }
}

impl BgpConfig {
    /// Resolves the peers of a configuration as written.
    pub fn from_raw(raw: BgpConfigRaw) -> (r: Result<BgpConfig, &'static str>)
        ensures
            match r {
                Ok(c) => {
                    &&& resolved_peers(raw) == Ok::<Seq<BgpPeerConfig>, Seq<char>>(c.peers@)
                    &&& c.peers@.len() > 0
                    &&& c.local_asn == raw.local_asn
                    &&& c.router_id == raw.router_id
                    &&& c.communities == raw.communities
                    &&& c.next_hop_self == raw.next_hop_self
                },
                Err(m) => resolved_peers(raw) == Err::<Seq<BgpPeerConfig>, Seq<char>>(m@),
            },
    {
        let peers: Vec<BgpPeerConfig> = match (raw.peers, raw.peer_ip, raw.peer_asn) {
            (Some(peers), None, None) => {
                if peers.len() == 0 {
                    return Err("bgp.peers must contain at least one peer");
                }
                peers
            },
            (Some(_), _, _) => {
                return Err(
                    "bgp: specify either `peers = [...]` or legacy `peer_ip`/`peer_asn`, not both",
                );
            },
            (None, Some(peer_ip), Some(peer_asn)) => {
                let mut one: Vec<BgpPeerConfig> = Vec::new();
                one.push(
                    BgpPeerConfig {
                        peer_ip,
                        peer_asn,
                        port: default_bgp_port(),
                        hold_time_secs: None,
                        communities: None,
                        enabled: true,
                        md5_password: None,
                        md5_password_env: None,
                    },
                );
                assert(one@ =~= seq![legacy_peer(peer_ip, peer_asn)]);
                one
            },
            (None, None, None) => {
                return Err(
                    "bgp: no peers configured (expected `peers = [...]` or legacy `peer_ip`+`peer_asn`)",
                );
            },
            (None, _, _) => {
                return Err("bgp: legacy single-peer form requires both `peer_ip` and `peer_asn`");
            },
        };
        Ok(
            BgpConfig {
                local_asn: raw.local_asn,
                router_id: raw.router_id,
                communities: raw.communities,
                next_hop_self: raw.next_hop_self,
                peers,
            },
        )
    }
}

/// Where the load balancer configuration is read from.
pub struct ControlPlaneConfig {
    /// Path to the LB config JSON file (VIPs + pools).
    pub config_file: String,
    /// Local cache path for persisting validated config.
    pub local_cache: String,
}

pub struct ForwarderConfig {
    pub packet_pool_size: usize,
    pub connection_table_size: usize,
    pub fragment_table_size: usize,
    /// Time an IP-fragment → backend mapping is kept. A non-first fragment
    /// that arrives after this window expires is dropped (its 5-tuple can't
    /// be recovered without the first fragment's L4 header).
    pub fragment_ttl: Duration,
    pub batch_size: usize,
    pub batch_flush_interval: Duration,
    /// Legacy single TTL. Used as the default for `connection_ttls.tcp_established`
    /// when `[forwarder.connection_ttls]` is not provided.
    pub connection_ttl: Duration,
    /// Per-protocol-and-state TTLs used by the connection tracker.
    /// Omit the section to use defaults derived from `connection_ttl`.
    pub connection_ttls: Option<ConnTtlsConfig>,
    /// Network MTU of the data interface. The system derives all tunnel
    /// parameters (effective inner MTU, TCP MSS clamp) from this value.
    pub network_mtu: u16,
    /// Maximum ICMP Fragmentation Needed responses per second per VIP.
    pub icmp_rate_limit: u32,
}

/// `given`, or `fallback` where nothing is given.
pub open spec fn or_default(given: Option<Duration>, fallback: Duration) -> Duration {
    match given {
        Some(d) => d,
        None => fallback,
    }
}

fn pick(given: Option<Duration>, fallback: Duration) -> (d: Duration)
    ensures
        d == or_default(given, fallback),
{
    match given {
        Some(d) => d,
        None => fallback,
    }
}

/// The TTLs that hold where only the established one is given.
pub open spec fn ttls_with_established(established: Duration) -> ConnTtls {
    ConnTtls {
        tcp_handshake: Duration { nanos: 5_000_000_000 },
        tcp_established: established,
        tcp_closing: Duration { nanos: 10_000_000_000 },
        udp: Duration { nanos: 30_000_000_000 },
        other: Duration { nanos: 30_000_000_000 },
    }
}

impl ForwarderConfig {
    /// Resolve the effective connection-tracking TTLs, applying defaults for
    /// any field not explicitly set.
    pub fn resolved_conn_ttls(&self) -> (t: ConnTtls)
        ensures
            ({
                let d = ttls_with_established(self.connection_ttl);
                t == match self.connection_ttls {
                    None => d,
                    Some(c) => ConnTtls {
                        tcp_handshake: or_default(c.tcp_handshake, d.tcp_handshake),
                        tcp_established: or_default(c.tcp_established, d.tcp_established),
                        tcp_closing: or_default(c.tcp_closing, d.tcp_closing),
                        udp: or_default(c.udp, d.udp),
                        other: or_default(c.other, d.other),
                    },
                }
            }),
    {
        let defaults = ConnTtls::with_established(self.connection_ttl);
        match &self.connection_ttls {
            None => defaults,
            Some(c) => ConnTtls {
                tcp_handshake: pick(c.tcp_handshake, defaults.tcp_handshake),
                tcp_established: pick(c.tcp_established, defaults.tcp_established),
                tcp_closing: pick(c.tcp_closing, defaults.tcp_closing),
                udp: pick(c.udp, defaults.udp),
                other: pick(c.other, defaults.other),
            },
        }
    }
}

/// Resolved per-protocol-and-state connection TTLs.
///
/// Shorter TTLs for handshake (SYN without ACK) and closing (FIN/RST seen)
/// prevent half-open connections and graceful-closed flows from occupying a
/// slot for the full established duration — this matters at scale where
/// FIN-flood patterns or half-open SYN scans could otherwise bloat the table.
#[derive(Debug, Clone, Copy, PartialEq, Eq, Structural)]
pub struct ConnTtls {
    pub tcp_handshake: Duration,
    pub tcp_established: Duration,
    pub tcp_closing: Duration,
    pub udp: Duration,
    pub other: Duration,
}

impl ConnTtls {
    /// Build a TTL set where `tcp_established` is the operator-chosen value
    /// and the other buckets use sensible defaults.
    pub fn with_established(established: Duration) -> (t: ConnTtls)
        ensures
            t == ttls_with_established(established),
    {
        ConnTtls {
            tcp_handshake: Duration::from_secs(5),
            tcp_established: established,
            tcp_closing: Duration::from_secs(10),
            udp: Duration::from_secs(30),
            other: Duration::from_secs(30),
        }
    }
}

/// [`ConnTtls`] as configured, where every field is optional.
#[derive(Debug, Clone, Copy, PartialEq, Eq, Structural)]
pub struct ConnTtlsConfig {
    pub tcp_handshake: Option<Duration>,
    pub tcp_established: Option<Duration>,
    pub tcp_closing: Option<Duration>,
    pub udp: Option<Duration>,
    pub other: Option<Duration>,
}

impl Default for ConnTtlsConfig {
    fn default() -> (c: ConnTtlsConfig)
        ensures
            c == (ConnTtlsConfig {
                tcp_handshake: None,
                tcp_established: None,
                tcp_closing: None,
                udp: None,
                other: None,
            }),
    {
        ConnTtlsConfig {
            tcp_handshake: None,
            tcp_established: None,
            tcp_closing: None,
            udp: None,
            other: None,
        }
    }
}

pub fn default_packet_pool_size() -> (n: usize)
    ensures
        n == 4096,
{
    4096
}

/// Must be at least twice the expected peak of concurrent flows, to keep the
/// fill ratio under one half.
pub fn default_connection_table_size() -> (n: usize)
    ensures
        n == 131072,
{
    131072
}

pub fn default_fragment_table_size() -> (n: usize)
    ensures
        n == 8192,
{
    8192
}

pub fn default_fragment_ttl() -> (d: Duration)
    ensures
        d.nanos == 10 * NANOS_PER_SEC,
{
    Duration::from_secs(10)
}

pub fn default_batch_size() -> (n: usize)
    ensures
        n == 64,
{
    64
}

pub fn default_network_mtu() -> (n: u16)
    ensures
        n == 1500,
{
    1500
}

pub fn default_icmp_rate_limit() -> (n: u32)
    ensures
        n == 100,
{
    100
}

#[derive(Debug, Clone, Copy, PartialEq, Eq, Structural)]
pub struct HealthCheckConfig {
    pub interval: Duration,
    pub timeout: Duration,
    pub healthy_threshold: u32,
    pub unhealthy_threshold: u32,
}

pub fn default_healthy_threshold() -> (n: u32)
    ensures
        n == 2,
{
    2
}

pub fn default_unhealthy_threshold() -> (n: u32)
    ensures
        n == 3,
{
    3
}

/// The number, the unit and the unit's nanoseconds with which a duration is
/// written: whole seconds, else whole milliseconds, else whole microseconds.
pub open spec fn duration_parts(d: Duration) -> (int, Seq<char>, int) {
    let micros = d.nanos as int / 1000;
    if micros % 1_000_000 == 0 {
        (micros / 1_000_000, "s"@, NANOS_PER_SEC as int)
    } else if micros % 1_000 == 0 {
        (micros / 1_000, "ms"@, NANOS_PER_MILLI as int)
    } else {
        (micros, "us"@, NANOS_PER_MICRO as int)
    }
}

/// A duration in words.
pub open spec fn duration_text(d: Duration) -> Seq<char> {
    decimal(duration_parts(d).0) + duration_parts(d).1
}

/// A duration as a human-readable string.
pub fn format_duration(d: &Duration) -> (s: String)
    ensures
        s@ == duration_text(*d),
{
    let micros: u128 = d.as_micros();
    let mut s = String::new();
    if micros % 1_000_000 == 0 {
        push_numeral(&mut s, micros / 1_000_000, 10);
        s.append("s");
    } else if micros % 1_000 == 0 {
        push_numeral(&mut s, micros / 1_000, 10);
        s.append("ms");
    } else {
        push_numeral(&mut s, micros, 10);
        s.append("us");
    }
    assert(s@ =~= duration_text(*d));
    s
}

/// Whether `s` ends with `suffix`.
pub open spec fn ends_with(s: Seq<char>, suffix: Seq<char>) -> bool {
    suffix.len() <= s.len() && s.skip(s.len() - suffix.len()) == suffix
}

/// The number in front of a unit of `unit` nanoseconds, in nanoseconds.
pub open spec fn scaled(s: Seq<char>, suffix_len: int, unit: int) -> Result<int, Seq<char>> {
    match number_value(trimmed(s.take(s.len() - suffix_len)), u64::MAX as int) {
        Ok(n) => Ok(n * unit),
        Err(e) => Err(e.text()),
    }
}

/// The nanoseconds that a text like `5s`, `50us` or `10ms` stands for, or what
/// is wrong with it.
pub open spec fn duration_value(text: Seq<char>) -> Result<int, Seq<char>> {
    let s = trimmed(text);
    if ends_with(s, "us"@) {
        scaled(s, 2, NANOS_PER_MICRO as int)
    } else if ends_with(s, "ms"@) {
        scaled(s, 2, NANOS_PER_MILLI as int)
    } else if ends_with(s, "s"@) {
        scaled(s, 1, NANOS_PER_SEC as int)
    } else {
        Err("unknown duration format: "@ + s)
    }
}

proof fn lemma_trim_tight(s: Seq<char>)
    requires
        s.len() > 0 ==> !is_white_space(s[0]) && !is_white_space(s.last()),
    ensures
        trimmed(s) == s,
{
    assert(trim_start(s) == s);
    assert(trim_end(s) == s);
}

/// What `format_duration` writes, `parse_duration` reads: a whole number of
/// microseconds comes back exactly, as long as the number in front of the unit
/// fits 64 bits.
pub proof fn duration_round_trip(d: Duration)
    requires
        d.nanos % 1000 == 0,
        duration_parts(d).0 <= u64::MAX,
    ensures
        duration_value(duration_text(d)) == Ok::<int, Seq<char>>(d.nanos as int),
{
    reveal_strlit("us");
    reveal_strlit("ms");
    reveal_strlit("s");
    let (n, suffix, unit) = duration_parts(d);
    let digits = decimal(n);
    let t = digits + suffix;
    assert(duration_text(d) == t);
    decimal_round_trip(n, u64::MAX as int);
    assert(t[0] == digits[0]);
    assert(t.last() == 's');
    lemma_trim_tight(t);
    lemma_trim_tight(digits);
    let k = suffix.len() as int;
    assert(t.skip(t.len() - k) =~= suffix);
    assert(t.take(t.len() - k) =~= digits);
    assert(n * unit == d.nanos);
    assert(t[t.len() - 2] == (if k == 1 {
        digits.last()
    } else {
        suffix[0]
    }));
    assert(ends_with(t, "us"@) ==> t[t.len() - 2] == 'u') by {
        if ends_with(t, "us"@) {
            assert(t.skip(t.len() - 2)[0] == "us"@[0]);
        }
    }
    assert(ends_with(t, "ms"@) ==> t[t.len() - 2] == 'm') by {
        if ends_with(t, "ms"@) {
            assert(t.skip(t.len() - 2)[0] == "ms"@[0]);
        }
    }
}

fn scaled_number(v: &Vec<char>, lo: usize, hi: usize, unit: u128) -> (r: Result<
    Duration,
    String,
>)
    requires
        lo <= hi <= v@.len(),
        unit <= NANOS_PER_SEC,
    ensures
        ({
            let want = number_value(
                trimmed(v@.subrange(lo as int, hi as int)),
                u64::MAX as int,
            );
            match r {
                Ok(d) => want matches Ok(n) && d.nanos == n * unit,
                Err(m) => want matches Err(e) && m@ == e.text(),
            }
        }),
{
    let (a, b) = trim_range(v, lo, hi);
    match parse_number(v, a, b, u64::MAX) {
        Ok(n) => {
            assert(n * unit <= u64::MAX * NANOS_PER_SEC) by (nonlinear_arith)
                requires
                    0 <= n <= u64::MAX,
                    0 <= unit <= NANOS_PER_SEC,
            ;
            Ok(Duration { nanos: n as u128 * unit })
        },
        Err(e) => Err(e.message().to_owned()),
    }
}

/// Parses a duration from a human-readable string like "5s", "50us", "10ms".
pub fn parse_duration(s: &str) -> (r: Result<Duration, String>)
    ensures
        match r {
            Ok(d) => duration_value(s@) == Ok::<int, Seq<char>>(d.nanos as int),
            Err(m) => duration_value(s@) == Err::<int, Seq<char>>(m@),
        },
{
    let v: Vec<char> = chars_of(s);
    let (a, b) = trim_range(&v, 0, v.len());
    let ghost t = trimmed(s@);
    proof {
        assert(v@.subrange(0, v@.len() as int) =~= s@);
        assert(t == v@.subrange(a as int, b as int));
        reveal_strlit("us");
        reveal_strlit("ms");
        reveal_strlit("s");
        assert(t.len() >= 1 ==> (ends_with(t, "s"@) <==> t.last() == 's')) by {
            if t.len() >= 1 {
                assert(t.skip(t.len() - 1) =~= seq![t.last()]);
                assert("s"@ =~= seq!['s']);
                assert(t.skip(t.len() - 1)[0] == t.last() && "s"@[0] == 's');
            }
        }
        assert(t.len() >= 2 ==> (ends_with(t, "us"@) <==> t.last() == 's' && t[t.len() - 2]
            == 'u') && (ends_with(t, "ms"@) <==> t.last() == 's' && t[t.len() - 2] == 'm')) by {
            if t.len() >= 2 {
                let tail = t.skip(t.len() - 2);
                assert(tail =~= seq![t[t.len() - 2], t.last()]);
                assert("us"@ =~= seq!['u', 's']);
                assert("ms"@ =~= seq!['m', 's']);
                assert(tail[0] == t[t.len() - 2] && tail[1] == t.last());
                assert("us"@[0] == 'u' && "us"@[1] == 's');
                assert("ms"@[0] == 'm' && "ms"@[1] == 's');
            }
        }
        assert(t.len() >= 1 ==> t.take(t.len() - 1) =~= v@.subrange(a as int, b - 1));
        assert(t.len() >= 2 ==> t.take(t.len() - 2) =~= v@.subrange(a as int, b - 2));
    }
    if b - a >= 2 && v[b - 1] == 's' && v[b - 2] == 'u' {
        scaled_number(&v, a, b - 2, NANOS_PER_MICRO)
    } else if b - a >= 2 && v[b - 1] == 's' && v[b - 2] == 'm' {
        scaled_number(&v, a, b - 2, NANOS_PER_MILLI)
    } else if b - a >= 1 && v[b - 1] == 's' {
        scaled_number(&v, a, b - 1, NANOS_PER_SEC)
    } else {
        let mut m = "unknown duration format: ".to_owned();
        m.append(s.substring_char(a, b));
        assert(s@.subrange(a as int, b as int) =~= t);
        Err(m)
    }
}

} // verus!

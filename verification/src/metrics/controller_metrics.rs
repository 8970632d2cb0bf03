//! Control-plane metrics.

use prometheus_client::metrics::counter::Counter;
use prometheus_client::metrics::gauge::Gauge;
use prometheus_client::registry::Registry;
use vstd::prelude::*;

use crate::base::text::{decimal, push_decimal};
use crate::metrics::registry::{
    add_counter, add_counters, add_gauge, add_gauges, apart, counter_entry, counters_entry,
    family_counter, family_gauge, gauge_entry, gauges_entry, is_flat, label, label_texts,
    registered, CounterFamily, GaugeFamily, Labels, Registration,
};

verus! {

/// Control-plane metrics.
pub struct ControllerMetrics {
    pub bgp_state: Gauge,
    pub config_last_reload_timestamp: Gauge,
    pub config_reload_errors: Counter,
    pub bgp: BgpMetrics,
}

/// How the control-plane metrics are registered, but for those of BGP.
pub open spec fn controller_registrations(m: ControllerMetrics) -> Seq<Registration> {
    seq![
        gauge_entry(
            "lb_bgp_state"@,
            "1=announcing (at least one peer established), 0=all peers down"@,
            m.bgp_state,
        ),
        gauge_entry(
            "lb_config_last_reload_timestamp"@,
            "Unix timestamp of last successful config reload"@,
            m.config_last_reload_timestamp,
        ),
        counter_entry(
            "lb_config_reload_errors_total"@,
            "Number of failed config reload attempts"@,
            m.config_reload_errors,
        ),
    ]
}

impl ControllerMetrics {
    pub fn register(registry: &mut Registry) -> (m: ControllerMetrics)
        ensures
            registered(*final(registry)) == registered(*old(registry)) + controller_registrations(m)
                + bgp_registrations(m.bgp),
            is_flat(*final(registry)) == is_flat(*old(registry)),
            apart(registered(*final(registry)), registered(*old(registry)).len()),
            forall|from: nat| #[trigger]
                apart(registered(*old(registry)), from) ==> apart(
                    registered(*final(registry)),
                    from,
                ),
    {
        let bgp_state = add_gauge(
            registry,
            "lb_bgp_state",
            "1=announcing (at least one peer established), 0=all peers down",
        );
        let config_last_reload_timestamp = add_gauge(
            registry,
            "lb_config_last_reload_timestamp",
            "Unix timestamp of last successful config reload",
        );
        let config_reload_errors = add_counter(
            registry,
            "lb_config_reload_errors_total",
            "Number of failed config reload attempts",
        );

        let ghost before = registered(*registry);
        let bgp = BgpMetrics::register(registry);
        let m = ControllerMetrics {
            bgp_state,
            config_last_reload_timestamp,
            config_reload_errors,
            bgp,
        };
        assert(before =~= registered(*old(registry)) + controller_registrations(m));
        assert(apart(registered(*old(registry)), registered(*old(registry)).len()));
        m
    }
}

/// Per-peer BGP metrics. Labelled by peer IP so operators can see exactly
/// which router is flapping.
pub struct BgpMetrics {
    pub peer_state: GaugeFamily,
    pub peer_connects: CounterFamily,
    pub peer_disconnects: CounterFamily,
    pub announce_failures: CounterFamily,
    pub withdraw_failures: CounterFamily,
    pub vips_announced: Gauge,
    pub peer_notifications: CounterFamily,
}

#[derive(Debug)]
pub struct PeerLabels {
    pub peer_ip: String,
}

impl PeerLabels {
    /// The labels as names and values.
    pub open spec fn texts(self) -> Seq<(Seq<char>, Seq<char>)> {
        seq![("peer_ip"@, self.peer_ip@)]
    }

    fn labels(&self) -> (l: Labels)
        ensures
            label_texts(l@) == self.texts(),
    {
        let mut l: Labels = Vec::new();
        l.push(label("peer_ip", self.peer_ip.clone()));
        assert(label_texts(l@) =~= self.texts());
        l
    }
}

#[derive(Debug)]
pub struct PeerNotificationLabels {
    pub peer_ip: String,
    /// BGP error code (RFC 4271 §4.5). `1`=msg header, `2`=OPEN, `3`=UPDATE,
    /// `4`=hold-timer-expired, `5`=FSM, `6`=Cease.
    pub code: u8,
    pub subcode: u8,
}

fn decimal_text(n: u8) -> (s: String)
    ensures
        s@ == decimal(n as int),
{
    let mut s = String::new();
    push_decimal(&mut s, n as u64);
    assert(s@ =~= decimal(n as int));
    s
}

impl PeerNotificationLabels {
    /// The labels as names and values.
    pub open spec fn texts(self) -> Seq<(Seq<char>, Seq<char>)> {
        seq![
            ("peer_ip"@, self.peer_ip@),
            ("code"@, decimal(self.code as int)),
            ("subcode"@, decimal(self.subcode as int)),
        ]
    }

    fn labels(&self) -> (l: Labels)
        ensures
            label_texts(l@) == self.texts(),
    {
        let mut l: Labels = Vec::new();
        l.push(label("peer_ip", self.peer_ip.clone()));
        l.push(label("code", decimal_text(self.code)));
        l.push(label("subcode", decimal_text(self.subcode)));
        assert(label_texts(l@) =~= self.texts());
        l
    }
}

/// How the BGP metrics are registered.
pub open spec fn bgp_registrations(m: BgpMetrics) -> Seq<Registration> {
    seq![
        gauges_entry(
            "lb_bgp_peer_state"@,
            "1=Established, 0=not Established (Idle/Connecting/Backoff/Disabled)"@,
            m.peer_state,
        ),
        counters_entry(
            "lb_bgp_peer_connects_total"@,
            "Successful BGP session establishments"@,
            m.peer_connects,
        ),
        counters_entry(
            "lb_bgp_peer_disconnects_total"@,
            "BGP session disconnects (any reason)"@,
            m.peer_disconnects,
        ),
        counters_entry(
            "lb_bgp_announce_failures_total"@,
            "Announce operations that failed on an established session"@,
            m.announce_failures,
        ),
        counters_entry(
            "lb_bgp_withdraw_failures_total"@,
            "Withdraw operations that failed on an established session"@,
            m.withdraw_failures,
        ),
        gauge_entry(
            "lb_bgp_vips_announced"@,
            "Count of VIPs currently being announced to the fleet"@,
            m.vips_announced,
        ),
        counters_entry(
            "lb_bgp_peer_notifications_total"@,
            "NOTIFICATION messages received from a peer (RFC 4271 §4.5); session is torn down after each"@,
            m.peer_notifications,
        ),
    ]
}

impl BgpMetrics {
    pub fn register(registry: &mut Registry) -> (m: BgpMetrics)
        ensures
            registered(*final(registry)) == registered(*old(registry)) + bgp_registrations(m),
            is_flat(*final(registry)) == is_flat(*old(registry)),
            apart(registered(*final(registry)), registered(*old(registry)).len()),
            forall|from: nat| #[trigger]
                apart(registered(*old(registry)), from) ==> apart(
                    registered(*final(registry)),
                    from,
                ),
    {
        let peer_state = add_gauges(
            registry,
            "lb_bgp_peer_state",
            "1=Established, 0=not Established (Idle/Connecting/Backoff/Disabled)",
        );
        let peer_connects = add_counters(
            registry,
            "lb_bgp_peer_connects_total",
            "Successful BGP session establishments",
        );
        let peer_disconnects = add_counters(
            registry,
            "lb_bgp_peer_disconnects_total",
            "BGP session disconnects (any reason)",
        );
        let announce_failures = add_counters(
            registry,
            "lb_bgp_announce_failures_total",
            "Announce operations that failed on an established session",
        );
        let withdraw_failures = add_counters(
            registry,
            "lb_bgp_withdraw_failures_total",
            "Withdraw operations that failed on an established session",
        );
        let vips_announced = add_gauge(
            registry,
            "lb_bgp_vips_announced",
            "Count of VIPs currently being announced to the fleet",
        );
        let peer_notifications = add_counters(
            registry,
            "lb_bgp_peer_notifications_total",
            "NOTIFICATION messages received from a peer (RFC 4271 §4.5); session is torn down after each",
        );

        let m = BgpMetrics {
            peer_state,
            peer_connects,
            peer_disconnects,
            announce_failures,
            withdraw_failures,
            vips_announced,
            peer_notifications,
        };
        assert(registered(*registry) =~= registered(*old(registry)) + bgp_registrations(m));
        assert(apart(registered(*old(registry)), registered(*old(registry)).len()));
        m
    }

    /// The state gauge of a peer.
    pub fn state_of(&self, labels: &PeerLabels) -> (g: Gauge)
        ensures
            g == family_gauge(self.peer_state, labels.texts()),
    {
        self.peer_state.gauge(&labels.labels())
    }

    /// The connects counter of a peer.
    pub fn connects_of(&self, labels: &PeerLabels) -> (c: Counter)
        ensures
            c == family_counter(self.peer_connects, labels.texts()),
    {
        self.peer_connects.counter(&labels.labels())
    }

    /// The disconnects counter of a peer.
    pub fn disconnects_of(&self, labels: &PeerLabels) -> (c: Counter)
        ensures
            c == family_counter(self.peer_disconnects, labels.texts()),
    {
        self.peer_disconnects.counter(&labels.labels())
    }

    /// The counter of failed announcements to a peer.
    pub fn announce_failures_of(&self, labels: &PeerLabels) -> (c: Counter)
        ensures
            c == family_counter(self.announce_failures, labels.texts()),
    {
        self.announce_failures.counter(&labels.labels())
    }

    /// The counter of failed withdrawals to a peer.
    pub fn withdraw_failures_of(&self, labels: &PeerLabels) -> (c: Counter)
        ensures
            c == family_counter(self.withdraw_failures, labels.texts()),
    {
        self.withdraw_failures.counter(&labels.labels())
    }

    /// The counter of a kind of NOTIFICATION from a peer.
    pub fn notifications_of(&self, labels: &PeerNotificationLabels) -> (c: Counter)
        ensures
            c == family_counter(self.peer_notifications, labels.texts()),
    {
        self.peer_notifications.counter(&labels.labels())
    }
}

} // verus!

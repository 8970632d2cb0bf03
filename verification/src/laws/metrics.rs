//! Under which names a node shows what it counts.

use vstd::prelude::*;

use crate::base::text::decimal;
use crate::metrics::controller_metrics::{ControllerMetrics, PeerLabels, PeerNotificationLabels};
use crate::metrics::forwarder_metrics::{EvictionLabels, ForwarderMetrics, TcpTransitionLabels};
use crate::metrics::lb_metrics::all_registrations;
use crate::metrics::registry::Metric;

verus! {

/// Each metric is registered under a name of its own.
pub proof fn metrics_are_registered_under_their_names(
    forwarder: ForwarderMetrics,
    controller: ControllerMetrics,
)
    ensures
        ({
            let all = all_registrations(forwarder, controller);
            &&& all.len() == 28
            &&& all[0].name == "lb_packets_received_total"@ && all[0].metric == Metric::Counter(
                forwarder.packets_received,
            )
            &&& all[1].name == "lb_packets_forwarded_total"@ && all[1].metric == Metric::Counter(
                forwarder.packets_forwarded,
            )
            &&& all[2].name == "lb_packets_dropped_total"@ && all[2].metric == Metric::Counter(
                forwarder.packets_dropped,
            )
            &&& all[3].name == "lb_connection_table_hits_total"@ && all[3].metric == Metric::Counter(
                forwarder.conn_table_hits,
            )
            &&& all[4].name == "lb_connection_table_misses_total"@ && all[4].metric == Metric::Counter(
                forwarder.conn_table_misses,
            )
            &&& all[5].name == "lb_connection_table_size"@ && all[5].metric == Metric::Gauge(
                forwarder.conn_table_size,
            )
            &&& all[6].name == "lb_packet_processing_latency_ns"@ && all[6].metric == Metric::Histogram(
                forwarder.processing_latency_ns,
            )
            &&& all[7].name == "lb_mss_clamp_total"@ && all[7].metric == Metric::Counter(
                forwarder.mss_clamp_total,
            )
            &&& all[8].name == "lb_mss_clamp_noop_total"@ && all[8].metric == Metric::Counter(
                forwarder.mss_clamp_noop_total,
            )
            &&& all[9].name == "lb_mss_clamp_missing_total"@ && all[9].metric == Metric::Counter(
                forwarder.mss_clamp_missing_total,
            )
            &&& all[10].name == "lb_icmp_frag_needed_sent_total"@ && all[10].metric == Metric::Counter(
                forwarder.icmp_frag_needed_sent_total,
            )
            &&& all[11].name == "lb_icmp_frag_needed_ratelimited_total"@ && all[11].metric == Metric::Counter(
                forwarder.icmp_frag_needed_ratelimited_total,
            )
            &&& all[12].name == "lb_packets_oversized_dropped_total"@ && all[12].metric == Metric::Counter(
                forwarder.packets_oversized_dropped_total,
            )
            &&& all[13].name == "lb_connection_table_inserts_total"@ && all[13].metric == Metric::Counter(
                forwarder.conn_table_inserts_total,
            )
            &&& all[14].name == "lb_connection_table_evictions_total"@ && all[14].metric == Metric::CounterFamily(
                forwarder.conn_table_evictions_total,
            )
            &&& all[15].name == "lb_connection_table_tcp_transitions_total"@ && all[15].metric == Metric::CounterFamily(
                forwarder.conn_table_tcp_transitions_total,
            )
            &&& all[16].name == "lb_connection_table_fallback_to_maglev_total"@ && all[16].metric == Metric::Counter(
                forwarder.conn_table_fallback_to_maglev_total,
            )
            &&& all[17].name == "lb_connection_table_fill_bp"@ && all[17].metric == Metric::Gauge(
                forwarder.conn_table_fill_bp,
            )
            &&& all[18].name == "lb_bgp_state"@ && all[18].metric == Metric::Gauge(
                controller.bgp_state,
            )
            &&& all[19].name == "lb_config_last_reload_timestamp"@ && all[19].metric == Metric::Gauge(
                controller.config_last_reload_timestamp,
            )
            &&& all[20].name == "lb_config_reload_errors_total"@ && all[20].metric == Metric::Counter(
                controller.config_reload_errors,
            )
            &&& all[21].name == "lb_bgp_peer_state"@ && all[21].metric == Metric::GaugeFamily(
                controller.bgp.peer_state,
            )
            &&& all[22].name == "lb_bgp_peer_connects_total"@ && all[22].metric == Metric::CounterFamily(
                controller.bgp.peer_connects,
            )
            &&& all[23].name == "lb_bgp_peer_disconnects_total"@ && all[23].metric == Metric::CounterFamily(
                controller.bgp.peer_disconnects,
            )
            &&& all[24].name == "lb_bgp_announce_failures_total"@ && all[24].metric == Metric::CounterFamily(
                controller.bgp.announce_failures,
            )
            &&& all[25].name == "lb_bgp_withdraw_failures_total"@ && all[25].metric == Metric::CounterFamily(
                controller.bgp.withdraw_failures,
            )
            &&& all[26].name == "lb_bgp_vips_announced"@ && all[26].metric == Metric::Gauge(
                controller.bgp.vips_announced,
            )
            &&& all[27].name == "lb_bgp_peer_notifications_total"@ && all[27].metric == Metric::CounterFamily(
                controller.bgp.peer_notifications,
            )
        }),
{
}

/// Labels tell the reason of an eviction, the state that a TCP flow went to, the
/// peer, and the codes of a notification.
pub proof fn labels_tell_what_is_counted(
    e: EvictionLabels,
    t: TcpTransitionLabels,
    p: PeerLabels,
    n: PeerNotificationLabels,
)
    ensures
        e.texts() == seq![("reason"@, e.reason@)],
        t.texts() == seq![("to"@, t.to@)],
        p.texts() == seq![("peer_ip"@, p.peer_ip@)],
        n.texts().len() == 3,
        n.texts()[0] == ("peer_ip"@, n.peer_ip@),
        n.texts()[1] == ("code"@, decimal(n.code as int)),
        n.texts()[2] == ("subcode"@, decimal(n.subcode as int)),
{
}

} // verus!

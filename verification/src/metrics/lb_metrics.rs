//! All metrics of a node.

use prometheus_client::metrics::histogram::Histogram;
use prometheus_client::registry::Registry;
use vstd::prelude::*;

use crate::metrics::controller_metrics::{
    bgp_registrations, controller_registrations, ControllerMetrics,
};
use crate::metrics::forwarder_metrics::{forwarder_registrations, ForwarderMetrics};
use crate::metrics::registry::{
    apart, encode_text, exposes, is_flat, registered, registry_new, Registration,
};

verus! {

/// Global metrics registry shared across the application.
pub struct LbMetrics {
    pub registry: Registry,
    pub forwarder: ForwarderMetrics,
    pub controller: ControllerMetrics,
}

/// How all metrics of a node are registered.
pub open spec fn all_registrations(
    forwarder: ForwarderMetrics,
    controller: ControllerMetrics,
) -> Seq<Registration> {
    forwarder_registrations(forwarder) + controller_registrations(controller) + bgp_registrations(
        controller.bgp,
    )
}

impl LbMetrics {
    /// Registers all metrics. `processing_latency_ns` has the buckets of the
    /// caller's choice.
    pub fn new(processing_latency_ns: Histogram) -> (m: LbMetrics)
        ensures
            m.forwarder.processing_latency_ns == processing_latency_ns,
            registered(m.registry) == all_registrations(m.forwarder, m.controller),
            is_flat(m.registry),
            forall|i: int, j: int|
                0 <= i < j < registered(m.registry).len() ==> (#[trigger] registered(
                    m.registry,
                )[i]).metric != (#[trigger] registered(m.registry)[j]).metric,
    {
        let mut registry = registry_new();
        let forwarder = ForwarderMetrics::register(&mut registry, processing_latency_ns);
        let controller = ControllerMetrics::register(&mut registry);
        assert(registered(registry) =~= all_registrations(forwarder, controller));
        proof {
            let all = registered(registry);
            assert(apart(all, 0));
            assert forall|i: int, j: int| 0 <= i < j < all.len() implies (#[trigger] all[i]).metric
                != (#[trigger] all[j]).metric by {
                if all[j].metric is Histogram {
                    assert(j == 6);
                    assert(!(all[i].metric is Histogram));
                }
            }
        }
        LbMetrics { registry, forwarder, controller }
    }

    /// Encode all metrics as Prometheus text format: their values at the time.
    pub fn encode(&self) -> (text: String)
        ensures
            is_flat(self.registry) ==> exposes(text@, registered(self.registry)),
    {
        encode_text(&self.registry)
    }
}

/// What tells the names of metrics apart: their length and a character of them.
spec fn signature(s: Seq<char>) -> (int, char) {
    (s.len() as int, s[8])
}

/// No two metrics of a node have the same name.
pub proof fn metric_names_are_distinct(forwarder: ForwarderMetrics, controller: ControllerMetrics)
    ensures
        all_registrations(forwarder, controller).len() == 28,
        forall|i: int, j: int|
            0 <= i < j < 28 ==> (#[trigger] all_registrations(forwarder, controller)[i]).name != (
            #[trigger] all_registrations(forwarder, controller)[j]).name,
{
    let all = all_registrations(forwarder, controller);
    reveal_strlit("lb_packets_received_total");
    reveal_strlit("lb_packets_forwarded_total");
    reveal_strlit("lb_packets_dropped_total");
    reveal_strlit("lb_connection_table_hits_total");
    reveal_strlit("lb_connection_table_misses_total");
    reveal_strlit("lb_connection_table_size");
    reveal_strlit("lb_packet_processing_latency_ns");
    reveal_strlit("lb_mss_clamp_total");
    reveal_strlit("lb_mss_clamp_noop_total");
    reveal_strlit("lb_mss_clamp_missing_total");
    reveal_strlit("lb_icmp_frag_needed_sent_total");
    reveal_strlit("lb_icmp_frag_needed_ratelimited_total");
    reveal_strlit("lb_packets_oversized_dropped_total");
    reveal_strlit("lb_connection_table_inserts_total");
    reveal_strlit("lb_connection_table_evictions_total");
    reveal_strlit("lb_connection_table_tcp_transitions_total");
    reveal_strlit("lb_connection_table_fallback_to_maglev_total");
    reveal_strlit("lb_connection_table_fill_bp");
    reveal_strlit("lb_bgp_state");
    reveal_strlit("lb_config_last_reload_timestamp");
    reveal_strlit("lb_config_reload_errors_total");
    reveal_strlit("lb_bgp_peer_state");
    reveal_strlit("lb_bgp_peer_connects_total");
    reveal_strlit("lb_bgp_peer_disconnects_total");
    reveal_strlit("lb_bgp_announce_failures_total");
    reveal_strlit("lb_bgp_withdraw_failures_total");
    reveal_strlit("lb_bgp_vips_announced");
    reveal_strlit("lb_bgp_peer_notifications_total");
    assert(signature(all[0].name) == (25int, 't'));
    assert(signature(all[1].name) == (26int, 't'));
    assert(signature(all[2].name) == (24int, 't'));
    assert(signature(all[3].name) == (30int, 'c'));
    assert(signature(all[4].name) == (32int, 'c'));
    assert(signature(all[5].name) == (24int, 'c'));
    assert(signature(all[6].name) == (31int, 't'));
    assert(signature(all[7].name) == (18int, 'l'));
    assert(signature(all[8].name) == (23int, 'l'));
    assert(signature(all[9].name) == (26int, 'l'));
    assert(signature(all[10].name) == (30int, 'f'));
    assert(signature(all[11].name) == (37int, 'f'));
    assert(signature(all[12].name) == (34int, 't'));
    assert(signature(all[13].name) == (33int, 'c'));
    assert(signature(all[14].name) == (35int, 'c'));
    assert(signature(all[15].name) == (41int, 'c'));
    assert(signature(all[16].name) == (44int, 'c'));
    assert(signature(all[17].name) == (27int, 'c'));
    assert(signature(all[18].name) == (12int, 't'));
    assert(signature(all[19].name) == (31int, 'g'));
    assert(signature(all[20].name) == (29int, 'g'));
    assert(signature(all[21].name) == (17int, 'e'));
    assert(signature(all[22].name) == (26int, 'e'));
    assert(signature(all[23].name) == (29int, 'e'));
    assert(signature(all[24].name) == (30int, 'n'));
    assert(signature(all[25].name) == (30int, 'i'));
    assert(signature(all[26].name) == (21int, 'i'));
    assert(signature(all[27].name) == (31int, 'e'));
    assert forall|i: int, j: int| 0 <= i < j < 28 implies (#[trigger] all[i]).name != (
    #[trigger] all[j]).name by {
        assert(signature(all[i].name) != signature(all[j].name));
    }
}

} // verus!

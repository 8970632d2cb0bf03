//! Data-plane metrics.

use prometheus_client::metrics::counter::Counter;
use prometheus_client::metrics::gauge::Gauge;
use prometheus_client::metrics::histogram::Histogram;
use prometheus_client::registry::Registry;
use vstd::prelude::*;

use crate::metrics::registry::{
    add_counter, add_counters, add_gauge, add_histogram, apart, counter_entry, counters_entry,
    family_counter, gauge_entry, is_flat, label, label_texts, registered, CounterFamily, Labels,
    Metric, Registration,
};

verus! {

/// Data-plane metrics for the forwarder.
pub struct ForwarderMetrics {
    pub packets_received: Counter,
    pub packets_forwarded: Counter,
    pub packets_dropped: Counter,
    pub conn_table_hits: Counter,
    pub conn_table_misses: Counter,
    pub conn_table_size: Gauge,
    pub processing_latency_ns: Histogram,
    pub conn_table_inserts_total: Counter,
    pub conn_table_evictions_total: CounterFamily,
    pub conn_table_tcp_transitions_total: CounterFamily,
    pub conn_table_fallback_to_maglev_total: Counter,
    pub conn_table_fill_bp: Gauge,
    pub mss_clamp_total: Counter,
    pub mss_clamp_noop_total: Counter,
    pub mss_clamp_missing_total: Counter,
    pub icmp_frag_needed_sent_total: Counter,
    pub icmp_frag_needed_ratelimited_total: Counter,
    pub packets_oversized_dropped_total: Counter,
}

/// Why an entry left the connection table.
#[derive(Debug)]
pub struct EvictionLabels {
    /// `expired_on_insert` when an expired slot was reclaimed on insert,
    /// `dropped_full` when every probe slot was occupied.
    pub reason: String,
}

impl EvictionLabels {
    /// The labels as names and values.
    pub open spec fn texts(self) -> Seq<(Seq<char>, Seq<char>)> {
        seq![("reason"@, self.reason@)]
    }

    fn labels(&self) -> (l: Labels)
        ensures
            label_texts(l@) == self.texts(),
    {
        let mut l: Labels = Vec::new();
        l.push(label("reason", self.reason.clone()));
        assert(label_texts(l@) =~= self.texts());
        l
    }
}

/// What state a TCP flow went to.
#[derive(Debug)]
pub struct TcpTransitionLabels {
    /// `established`, `closing_fin`, or `closing_rst`.
    pub to: String,
}

impl TcpTransitionLabels {
    /// The labels as names and values.
    pub open spec fn texts(self) -> Seq<(Seq<char>, Seq<char>)> {
        seq![("to"@, self.to@)]
    }

    fn labels(&self) -> (l: Labels)
        ensures
            label_texts(l@) == self.texts(),
    {
        let mut l: Labels = Vec::new();
        l.push(label("to", self.to.clone()));
        assert(label_texts(l@) =~= self.texts());
        l
    }
}

/// How the data-plane metrics are registered.
pub open spec fn forwarder_registrations(m: ForwarderMetrics) -> Seq<Registration> {
    seq![
        counter_entry(
            "lb_packets_received_total"@,
            "Total packets received by the steering module"@,
            m.packets_received,
        ),
        counter_entry(
            "lb_packets_forwarded_total"@,
            "Total packets successfully GRE-forwarded"@,
            m.packets_forwarded,
        ),
        counter_entry(
            "lb_packets_dropped_total"@,
            "Total packets dropped"@,
            m.packets_dropped,
        ),
        counter_entry(
            "lb_connection_table_hits_total"@,
            "Connection tracking cache hits"@,
            m.conn_table_hits,
        ),
        counter_entry(
            "lb_connection_table_misses_total"@,
            "Connection tracking cache misses"@,
            m.conn_table_misses,
        ),
        gauge_entry(
            "lb_connection_table_size"@,
            "Current number of active entries in connection table"@,
            m.conn_table_size,
        ),
        Registration {
            name: "lb_packet_processing_latency_ns"@,
            help: "Per-packet processing latency in nanoseconds"@,
            metric: Metric::Histogram(m.processing_latency_ns),
        },
        counter_entry(
            "lb_mss_clamp_total"@,
            "TCP SYN packets where MSS was clamped"@,
            m.mss_clamp_total,
        ),
        counter_entry(
            "lb_mss_clamp_noop_total"@,
            "TCP SYN packets where MSS was already within limit"@,
            m.mss_clamp_noop_total,
        ),
        counter_entry(
            "lb_mss_clamp_missing_total"@,
            "TCP SYN packets with no MSS option"@,
            m.mss_clamp_missing_total,
        ),
        counter_entry(
            "lb_icmp_frag_needed_sent_total"@,
            "ICMP Fragmentation Needed responses generated"@,
            m.icmp_frag_needed_sent_total,
        ),
        counter_entry(
            "lb_icmp_frag_needed_ratelimited_total"@,
            "ICMP responses suppressed by rate limiter"@,
            m.icmp_frag_needed_ratelimited_total,
        ),
        counter_entry(
            "lb_packets_oversized_dropped_total"@,
            "Oversized packets dropped (DF set, exceeds inner MTU)"@,
            m.packets_oversized_dropped_total,
        ),
        counter_entry(
            "lb_connection_table_inserts_total"@,
            "Connection tracking insertions (new or reclaimed expired slot)"@,
            m.conn_table_inserts_total,
        ),
        counters_entry(
            "lb_connection_table_evictions_total"@,
            "Connection tracking evictions labelled by reason"@,
            m.conn_table_evictions_total,
        ),
        counters_entry(
            "lb_connection_table_tcp_transitions_total"@,
            "TCP flow state transitions observed by the connection tracker"@,
            m.conn_table_tcp_transitions_total,
        ),
        counter_entry(
            "lb_connection_table_fallback_to_maglev_total"@,
            "Cache hit re-routed via Maglev because the cached backend became unhealthy"@,
            m.conn_table_fallback_to_maglev_total,
        ),
        gauge_entry(
            "lb_connection_table_fill_bp"@,
            "Connection table fill ratio in basis points (0-10000)"@,
            m.conn_table_fill_bp,
        ),
    ]
}

impl ForwarderMetrics {
    /// Registers the metrics. `processing_latency_ns` has the buckets of the
    /// caller's choice.
    pub fn register(registry: &mut Registry, processing_latency_ns: Histogram) -> (m:
        ForwarderMetrics)
        ensures
            m.processing_latency_ns == processing_latency_ns,
            registered(*final(registry)) == registered(*old(registry)) + forwarder_registrations(m),
            is_flat(*final(registry)) == is_flat(*old(registry)),
            apart(registered(*final(registry)), registered(*old(registry)).len()),
            forall|from: nat| #[trigger]
                apart(registered(*old(registry)), from) ==> apart(
                    registered(*final(registry)),
                    from,
                ),
    {
        let packets_received = add_counter(
            registry,
            "lb_packets_received_total",
            "Total packets received by the steering module",
        );
        let packets_forwarded = add_counter(
            registry,
            "lb_packets_forwarded_total",
            "Total packets successfully GRE-forwarded",
        );
        let packets_dropped = add_counter(
            registry,
            "lb_packets_dropped_total",
            "Total packets dropped",
        );
        let conn_table_hits = add_counter(
            registry,
            "lb_connection_table_hits_total",
            "Connection tracking cache hits",
        );
        let conn_table_misses = add_counter(
            registry,
            "lb_connection_table_misses_total",
            "Connection tracking cache misses",
        );
        let conn_table_size = add_gauge(
            registry,
            "lb_connection_table_size",
            "Current number of active entries in connection table",
        );
        add_histogram(
            registry,
            "lb_packet_processing_latency_ns",
            "Per-packet processing latency in nanoseconds",
            &processing_latency_ns,
        );
        let mss_clamp_total = add_counter(
            registry,
            "lb_mss_clamp_total",
            "TCP SYN packets where MSS was clamped",
        );
        let mss_clamp_noop_total = add_counter(
            registry,
            "lb_mss_clamp_noop_total",
            "TCP SYN packets where MSS was already within limit",
        );
        let mss_clamp_missing_total = add_counter(
            registry,
            "lb_mss_clamp_missing_total",
            "TCP SYN packets with no MSS option",
        );
        let icmp_frag_needed_sent_total = add_counter(
            registry,
            "lb_icmp_frag_needed_sent_total",
            "ICMP Fragmentation Needed responses generated",
        );
        let icmp_frag_needed_ratelimited_total = add_counter(
            registry,
            "lb_icmp_frag_needed_ratelimited_total",
            "ICMP responses suppressed by rate limiter",
        );
        let packets_oversized_dropped_total = add_counter(
            registry,
            "lb_packets_oversized_dropped_total",
            "Oversized packets dropped (DF set, exceeds inner MTU)",
        );
        let conn_table_inserts_total = add_counter(
            registry,
            "lb_connection_table_inserts_total",
            "Connection tracking insertions (new or reclaimed expired slot)",
        );
        let conn_table_evictions_total = add_counters(
            registry,
            "lb_connection_table_evictions_total",
            "Connection tracking evictions labelled by reason",
        );
        let conn_table_tcp_transitions_total = add_counters(
            registry,
            "lb_connection_table_tcp_transitions_total",
            "TCP flow state transitions observed by the connection tracker",
        );
        let conn_table_fallback_to_maglev_total = add_counter(
            registry,
            "lb_connection_table_fallback_to_maglev_total",
            "Cache hit re-routed via Maglev because the cached backend became unhealthy",
        );
        let conn_table_fill_bp = add_gauge(
            registry,
            "lb_connection_table_fill_bp",
            "Connection table fill ratio in basis points (0-10000)",
        );

        let m = ForwarderMetrics {
            packets_received,
            packets_forwarded,
            packets_dropped,
            conn_table_hits,
            conn_table_misses,
            conn_table_size,
            processing_latency_ns,
            conn_table_inserts_total,
            conn_table_evictions_total,
            conn_table_tcp_transitions_total,
            conn_table_fallback_to_maglev_total,
            conn_table_fill_bp,
            mss_clamp_total,
            mss_clamp_noop_total,
            mss_clamp_missing_total,
            icmp_frag_needed_sent_total,
            icmp_frag_needed_ratelimited_total,
            packets_oversized_dropped_total,
        };
        assert(registered(*registry) =~= registered(*old(registry)) + forwarder_registrations(m));
        assert(apart(registered(*old(registry)), registered(*old(registry)).len()));
        m
    }

    /// The counter of evictions for a reason.
    pub fn evictions(&self, labels: &EvictionLabels) -> (c: Counter)
        ensures
            c == family_counter(self.conn_table_evictions_total, labels.texts()),
    {
        self.conn_table_evictions_total.counter(&labels.labels())
    }

    /// The counter of TCP transitions to a state.
    pub fn tcp_transitions(&self, labels: &TcpTransitionLabels) -> (c: Counter)
        ensures
            c == family_counter(self.conn_table_tcp_transitions_total, labels.texts()),
    {
        self.conn_table_tcp_transitions_total.counter(&labels.labels())
    }
}

} // verus!

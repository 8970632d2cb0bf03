use lb::metrics::controller_metrics::{ControllerMetrics, PeerLabels, PeerNotificationLabels};
use lb::metrics::forwarder_metrics::{EvictionLabels, ForwarderMetrics, TcpTransitionLabels};
use lb::metrics::lb_metrics::LbMetrics;
use prometheus_client::metrics::histogram::Histogram;
use prometheus_client::registry::Registry;

fn latency() -> Histogram {
    Histogram::new([100.0, 500.0, 1000.0, 5000.0, 10000.0, 50000.0, 100000.0].into_iter())
}

#[test]
fn counters_increment() {
    let mut registry = Registry::default();
    let metrics = ForwarderMetrics::register(&mut registry, latency());

    metrics.packets_received.inc();
    metrics.packets_received.inc();
    metrics.packets_forwarded.inc();

    assert_eq!(metrics.packets_received.get(), 2);
    assert_eq!(metrics.packets_forwarded.get(), 1);
    assert_eq!(metrics.packets_dropped.get(), 0);
}

#[test]
fn gauge_set() {
    let mut registry = Registry::default();
    let metrics = ForwarderMetrics::register(&mut registry, latency());

    metrics.conn_table_size.set(1024);
    assert_eq!(metrics.conn_table_size.get(), 1024);
}

#[test]
fn histogram_observe() {
    let mut registry = Registry::default();
    let metrics = ForwarderMetrics::register(&mut registry, latency());
    metrics.processing_latency_ns.observe(500.0);
    // Just verify it doesn't panic
}

#[test]
fn encode_produces_output() {
    let mut registry = Registry::default();
    let metrics = ForwarderMetrics::register(&mut registry, latency());
    metrics.packets_received.inc();

    let mut buf = String::new();
    prometheus_client::encoding::text::encode(&mut buf, &registry).unwrap();
    assert!(buf.contains("lb_packets_received_total"));
}

fn text_of(registry: &Registry) -> String {
    let mut buf = String::new();
    prometheus_client::encoding::text::encode(&mut buf, registry).unwrap();
    buf
}

#[test]
fn families_count_by_label() {
    let mut registry = Registry::default();
    let metrics = ForwarderMetrics::register(&mut registry, latency());
    let reason = EvictionLabels {
        reason: "dropped_full".into(),
    };
    metrics.evictions(&reason).inc();
    metrics.evictions(&reason).inc();
    metrics
        .tcp_transitions(&TcpTransitionLabels {
            to: "established".into(),
        })
        .inc();
    let text = text_of(&registry);
    assert!(
        text.contains("lb_connection_table_evictions_total_total{reason=\"dropped_full\"} 2"),
        "{text}"
    );
    assert!(
        text.contains("lb_connection_table_tcp_transitions_total_total{to=\"established\"} 1"),
        "{text}"
    );
}

#[test]
fn peers_are_counted_one_by_one() {
    let mut registry = Registry::default();
    let m = ControllerMetrics::register(&mut registry).bgp;
    let peer = PeerLabels {
        peer_ip: "10.0.0.254".into(),
    };
    m.state_of(&peer).set(1);
    m.connects_of(&peer).inc();
    m.disconnects_of(&peer).inc();
    m.announce_failures_of(&peer).inc();
    m.withdraw_failures_of(&peer).inc();
    m.notifications_of(&PeerNotificationLabels {
        peer_ip: "10.0.0.254".into(),
        code: 6,
        subcode: 2,
    })
    .inc();
    let text = text_of(&registry);
    assert!(text.contains("lb_bgp_peer_state{peer_ip=\"10.0.0.254\"} 1"), "{text}");
    assert!(
        text.contains(
            "lb_bgp_peer_notifications_total_total{peer_ip=\"10.0.0.254\",code=\"6\",subcode=\"2\"} 1"
        ),
        "{text}"
    );
    assert!(text.contains("lb_bgp_peer_connects_total_total{peer_ip=\"10.0.0.254\"} 1"));
    assert!(text.contains("lb_bgp_peer_disconnects_total_total{peer_ip=\"10.0.0.254\"} 1"));
    assert!(text.contains("lb_bgp_announce_failures_total_total{peer_ip=\"10.0.0.254\"} 1"));
    assert!(text.contains("lb_bgp_withdraw_failures_total_total{peer_ip=\"10.0.0.254\"} 1"));
}

#[test]
fn every_handle_is_registered_under_its_name() {
    let m = LbMetrics::new(latency());
    m.forwarder.packets_dropped.inc_by(7);
    m.forwarder.conn_table_fill_bp.set(2500);
    m.controller.config_reload_errors.inc();
    m.controller.bgp_state.set(1);
    m.controller.bgp.vips_announced.set(3);
    let text = m.encode();
    assert!(text.contains("lb_packets_dropped_total_total 7"), "{text}");
    assert!(text.contains("lb_connection_table_fill_bp 2500"), "{text}");
    assert!(text.contains("lb_config_reload_errors_total_total 1"), "{text}");
    assert!(text.contains("lb_bgp_state 1"), "{text}");
    assert!(text.contains("lb_bgp_vips_announced 3"), "{text}");
    assert!(text.contains("lb_packet_processing_latency_ns"), "{text}");
}

#[test]
fn the_exposition_holds_every_metric_in_order() {
    let m = LbMetrics::new(latency());
    m.controller.bgp_state.set(-1);
    let text = m.encode();
    let types: Vec<&str> = text.lines().filter(|l| l.starts_with("# TYPE ")).collect();
    assert_eq!(types.len(), 28);
    assert_eq!(types[0], "# TYPE lb_packets_received_total counter");
    assert_eq!(types[6], "# TYPE lb_packet_processing_latency_ns histogram");
    assert_eq!(types[27], "# TYPE lb_bgp_peer_notifications_total counter");
    let lines: Vec<&str> = text.lines().collect();
    assert!(lines[0].starts_with("# HELP lb_packets_received_total "));
    assert!(lines[0].ends_with('.'));
    assert_eq!(lines[2], "lb_packets_received_total_total 0");
    assert!(text.contains("# TYPE lb_bgp_state gauge\nlb_bgp_state -1\n"), "{text}");
    assert!(text.contains("\nlb_packet_processing_latency_ns_sum 0"), "{text}");
    // A family without labels so far has no values.
    assert!(text.ends_with("# TYPE lb_bgp_peer_notifications_total counter\n# EOF\n"), "{text}");
}

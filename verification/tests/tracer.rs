use lb::base::net::{IpAddr, Ipv4Addr};
use lb::config_manager::applier::LookupTables;
use lb::forwarder::tracer::{trace_packet, TraceInputs, TraceRequest, TraceResult};
use lb::forwarder::vip_matcher::VipMatcher;
use lb::hashing::lookup_table::LookupTable;
use lb::health::status_map::HealthMap;
use lb::types::backend::{Backend, BackendPoolId, HealthStatus};
use lb::types::vip::Protocol;

fn with_pool(pool_id: &str, backends: Vec<Backend>) -> (LookupTables, VipMatcher) {
    let lookup = LookupTable::build(&backends, 17).unwrap();
    let mut tables = LookupTables::new();
    tables.insert(BackendPoolId(pool_id.into()), lookup);
    let matcher = VipMatcher::from_entries(vec![(
        IpAddr::V4(Ipv4Addr::new(188, 184, 100, 10)),
        Protocol::Tcp,
        443,
        BackendPoolId(pool_id.into()),
    )]);
    (tables, matcher)
}

fn req() -> TraceRequest {
    TraceRequest {
        src_ip: IpAddr::V4(Ipv4Addr::new(10, 0, 0, 100)),
        src_port: 12345,
        dst_ip: IpAddr::V4(Ipv4Addr::new(188, 184, 100, 10)),
        dst_port: 443,
        protocol: Protocol::Tcp,
    }
}

#[test]
fn trace_returns_backend_for_matching_vip() {
    let (tables, matcher) = with_pool(
        "web",
        vec![
            Backend::new(IpAddr::V4(Ipv4Addr::new(10, 0, 0, 1)), 443),
            Backend::new(IpAddr::V4(Ipv4Addr::new(10, 0, 0, 2)), 443),
        ],
    );
    let health = HealthMap::new();
    let inputs = TraceInputs {
        node_id: "lb-node-test",
        vip_matcher: &matcher,
        lookup_tables: &tables,
        health_status: &health,
    };
    let res = trace_packet(&req(), &inputs);
    assert_eq!(res.pool_id.as_deref(), Some("web"));
    assert!(res.selected_backend.is_some());
    assert!(res.backend_healthy); // unknown-health defaults to healthy
    assert!(res.steps.iter().any(|s| s.contains("VIP matched")));
    assert!(res.steps.iter().any(|s| s.contains("Maglev lookup")));
}

#[test]
fn trace_reports_unhealthy_backend() {
    let backends = vec![Backend::new(IpAddr::V4(Ipv4Addr::new(10, 0, 0, 1)), 443)];
    let (tables, matcher) = with_pool("web", backends);
    let mut health = HealthMap::new();
    health.insert(
        IpAddr::V4(Ipv4Addr::new(10, 0, 0, 1)),
        HealthStatus::Unhealthy,
    );
    let inputs = TraceInputs {
        node_id: "lb-node-test",
        vip_matcher: &matcher,
        lookup_tables: &tables,
        health_status: &health,
    };
    let res = trace_packet(&req(), &inputs);
    assert_eq!(
        res.selected_backend.unwrap(),
        IpAddr::V4(Ipv4Addr::new(10, 0, 0, 1))
    );
    assert!(!res.backend_healthy);
    assert!(res.steps.iter().any(|s| s.contains("UNHEALTHY")));
}

#[test]
fn trace_reports_vip_miss_cleanly() {
    let (tables, matcher) = with_pool(
        "web",
        vec![Backend::new(IpAddr::V4(Ipv4Addr::new(10, 0, 0, 1)), 443)],
    );
    let health = HealthMap::new();
    let inputs = TraceInputs {
        node_id: "lb-node-test",
        vip_matcher: &matcher,
        lookup_tables: &tables,
        health_status: &health,
    };
    let mut bad = req();
    bad.dst_port = 22; // not a configured service
    let res = trace_packet(&bad, &inputs);
    assert!(res.pool_id.is_none());
    assert!(res.selected_backend.is_none());
    assert!(res.steps.iter().any(|s| s.contains("no VIP match")));
}

#[test]
fn trace_is_deterministic_for_same_flow() {
    let (tables, matcher) = with_pool(
        "web",
        vec![
            Backend::new(IpAddr::V4(Ipv4Addr::new(10, 0, 0, 1)), 443),
            Backend::new(IpAddr::V4(Ipv4Addr::new(10, 0, 0, 2)), 443),
            Backend::new(IpAddr::V4(Ipv4Addr::new(10, 0, 0, 3)), 443),
        ],
    );
    let health = HealthMap::new();
    let inputs = TraceInputs {
        node_id: "lb-node-test",
        vip_matcher: &matcher,
        lookup_tables: &tables,
        health_status: &health,
    };
    let a = trace_packet(&req(), &inputs);
    let b = trace_packet(&req(), &inputs);
    assert_eq!(a.selected_backend, b.selected_backend);
    assert_eq!(a.flow_hash, b.flow_hash);
}

#[test]
fn trace_result_display_renders_human_trail() {
    let r = TraceResult {
        node_id: "lb-node-01".into(),
        pool_id: Some("web".into()),
        flow_hash: 0xDEAD_BEEF_CAFE_0000,
        selected_backend: Some(IpAddr::V4(Ipv4Addr::new(10, 0, 0, 1))),
        backend_healthy: true,
        steps: vec![
            "parsed 5-tuple".into(),
            "VIP matched → pool `web`".into(),
            "Maglev → 10.0.0.1".into(),
        ],
    };
    let s = r.to_text();
    assert!(s.contains("lb-node-01"));
    assert!(s.contains("web"));
    assert!(s.contains("10.0.0.1"));
    assert!(s.contains("healthy"));
    assert!(s.contains("parsed 5-tuple"));
    assert_eq!(
        s,
        "node:    lb-node-01\n\
         hash:    0xdeadbeefcafe0000\n\
         pool:    web\n\
         backend: 10.0.0.1 (healthy)\n\
         steps:\n  - parsed 5-tuple\n  - VIP matched → pool `web`\n  - Maglev → 10.0.0.1\n"
    );
}

use lb::base::net::{IpAddr, Ipv4Addr};
use lb::config_manager::applier::LookupTables;
use lb::config_manager::loader::LbConfig;
use lb::forwarder::vip_matcher::VipMatcher;
use lb::node::ops_server::{healthz, readyz};
use lb::node::setup::{apply_lb_config, build_vip_matcher};
use lb::node::trace_args::{parse_protocol, split_addr, trace_url};
use lb::types::backend::{Backend, BackendPool, BackendPoolId};
use lb::types::vip::{Protocol, Vip, VipId, VipService};

#[test]
fn healthz_is_always_ok() {
    let a = healthz();
    assert_eq!(a.status, 200);
    assert_eq!(a.body, "ok\n");
}

#[test]
fn readyz_reflects_ready_flag_and_forwarder() {
    assert_eq!(readyz(false, true).status, 503);
    assert_eq!(readyz(true, false).status, 503);
    assert_eq!(readyz(true, true).status, 200);
    assert_eq!(readyz(false, false).body, "config not applied\n");
    assert_eq!(readyz(true, false).body, "forwarder stopped\n");
    assert_eq!(readyz(true, true).body, "ok\n");
}

#[test]
fn parse_addr_rejects_garbage() {
    assert!(split_addr("not-an-address").is_none());
    assert!(split_addr("10.0.0.1").is_none());
    assert!(split_addr("10.0.0.1:notnum").is_none());
}

#[test]
fn endpoints_are_split_into_host_and_port() {
    assert_eq!(split_addr("10.0.0.1:443"), Some(("10.0.0.1".into(), 443)));
    assert_eq!(split_addr("[::1]:9100"), Some(("::1".into(), 9100)));
    assert_eq!(split_addr("::1:80"), Some(("::1".into(), 80)));
    assert_eq!(split_addr("[::1]"), None);
    assert_eq!(split_addr("[::1]9100"), None);
    assert_eq!(split_addr("[::1"), None);
    assert_eq!(split_addr("10.0.0.1:65536"), None);
    assert_eq!(split_addr("10.0.0.1:"), None);
    assert_eq!(split_addr(""), None);
}

#[test]
fn protocols_are_named_in_any_case() {
    assert_eq!(parse_protocol("tcp"), Some(Protocol::Tcp));
    assert_eq!(parse_protocol("UDP"), Some(Protocol::Udp));
    assert_eq!(parse_protocol("tCp"), Some(Protocol::Tcp));
    assert_eq!(parse_protocol("icmp"), None);
    assert_eq!(parse_protocol("tc"), None);
}

#[test]
fn the_trace_url_has_one_slash() {
    assert_eq!(
        trace_url("http://127.0.0.1:9100"),
        "http://127.0.0.1:9100/v1/trace"
    );
    assert_eq!(trace_url("http://lb//"), "http://lb/v1/trace");
}

fn config() -> LbConfig {
    let vip = IpAddr::V4(Ipv4Addr::new(188, 184, 100, 10));
    LbConfig {
        vips: vec![Vip {
            id: VipId("web".into()),
            address: vip,
            services: vec![
                VipService {
                    protocol: Protocol::Tcp,
                    port: 443,
                    backend_pool: "https".into(),
                },
                VipService {
                    protocol: Protocol::Udp,
                    port: 53,
                    backend_pool: "dns".into(),
                },
            ],
            owner: "test".into(),
            description: "".into(),
        }],
        pools: vec![
            BackendPool {
                id: BackendPoolId("https".into()),
                backends: vec![Backend::new(IpAddr::V4(Ipv4Addr::new(10, 0, 0, 1)), 443)],
                health_check: None,
            },
            BackendPool {
                id: BackendPoolId("dns".into()),
                backends: vec![],
                health_check: None,
            },
        ],
    }
}

#[test]
fn every_service_is_matched() {
    let vip = IpAddr::V4(Ipv4Addr::new(188, 184, 100, 10));
    let m = build_vip_matcher(&config());
    assert_eq!(
        m.match_packet(vip, Protocol::Tcp, 443),
        Some(&BackendPoolId("https".into()))
    );
    assert_eq!(
        m.match_packet(vip, Protocol::Udp, 53),
        Some(&BackendPoolId("dns".into()))
    );
    assert_eq!(m.match_packet(vip, Protocol::Tcp, 53), None);
}

#[test]
fn empty_pools_get_no_table_at_start() {
    let mut tables = LookupTables::new();
    let mut matcher = VipMatcher::new();
    apply_lb_config(&config(), &mut tables, &mut matcher);
    assert_eq!(tables.len(), 1);
    let table = tables.get(&BackendPoolId("https".into())).unwrap();
    assert_eq!(table.table_size(), 65537);
    assert!(matcher
        .match_packet(
            IpAddr::V4(Ipv4Addr::new(188, 184, 100, 10)),
            Protocol::Tcp,
            443
        )
        .is_some());
}

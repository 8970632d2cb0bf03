use lb::base::net::{IpAddr, Ipv4Addr};
use lb::base::time::{Duration, Instant};
use lb::bgp::session::SessionCmd;
use lb::bgp::speaker::BgpAnnouncer;
use lb::config_manager::applier::LookupTables;
use lb::config_manager::loader::LbConfig;
use lb::controller::{BgpUpdate, Controller};
use lb::hashing::lookup_table::LookupTable;
use lb::health::status_map::HealthMap;
use lb::types::backend::{Backend, BackendPool, BackendPoolId, HealthStatus};
use lb::types::vip::{Protocol, Vip, VipId, VipService};

/// So many milliseconds after the start.
fn at(millis: u64) -> Instant {
    Instant {
        nanos: 1_000_000_000,
    }
    .plus(Duration::from_millis(millis))
}

fn make_config() -> LbConfig {
    LbConfig {
        vips: vec![Vip {
            id: VipId("web".into()),
            address: IpAddr::V4(Ipv4Addr::new(188, 184, 100, 10)),
            services: vec![VipService {
                protocol: Protocol::Tcp,
                port: 443,
                backend_pool: "web-pool".into(),
            }],
            owner: "test".into(),
            description: "".into(),
        }],
        pools: vec![BackendPool {
            id: BackendPoolId("web-pool".into()),
            backends: vec![
                Backend::new(IpAddr::V4(Ipv4Addr::new(10, 0, 0, 1)), 443),
                Backend::new(IpAddr::V4(Ipv4Addr::new(10, 0, 0, 2)), 443),
            ],
            health_check: None,
        }],
    }
}

fn make_multi_pool_config() -> LbConfig {
    LbConfig {
        vips: vec![],
        pools: vec![
            BackendPool {
                id: BackendPoolId("pool-a".into()),
                backends: vec![
                    Backend::new(IpAddr::V4(Ipv4Addr::new(10, 0, 0, 1)), 443),
                    Backend::new(IpAddr::V4(Ipv4Addr::new(10, 0, 0, 2)), 443),
                    Backend::new(IpAddr::V4(Ipv4Addr::new(10, 0, 0, 3)), 443),
                ],
                health_check: None,
            },
            BackendPool {
                id: BackendPoolId("pool-b".into()),
                backends: vec![
                    Backend::new(IpAddr::V4(Ipv4Addr::new(10, 0, 0, 2)), 8080),
                    Backend::new(IpAddr::V4(Ipv4Addr::new(10, 0, 0, 3)), 8080),
                    Backend::new(IpAddr::V4(Ipv4Addr::new(10, 0, 0, 4)), 8080),
                ],
                health_check: None,
            },
            BackendPool {
                id: BackendPoolId("pool-c".into()),
                backends: vec![
                    Backend::new(IpAddr::V4(Ipv4Addr::new(10, 0, 0, 5)), 9090),
                    Backend::new(IpAddr::V4(Ipv4Addr::new(10, 0, 0, 6)), 9090),
                ],
                health_check: None,
            },
        ],
    }
}

fn setup_controller(config: LbConfig) -> Controller {
    let mut tables = LookupTables::new();
    for pool in &config.pools {
        let table = LookupTable::build(&pool.backends, 17).unwrap();
        tables.insert(pool.id.clone(), table);
    }
    let mut controller = Controller::new(tables, HealthMap::new(), 17);
    controller.apply_config(config);
    controller
}

fn num_backends(controller: &Controller, pool: &BackendPoolId) -> usize {
    controller.lookup_tables().get(pool).unwrap().num_backends()
}

fn has_table(controller: &Controller, pool: &BackendPoolId) -> bool {
    controller.lookup_tables().contains_key(pool)
}

#[test]
fn apply_config_updates_lookup_tables() {
    let pool_id = BackendPoolId("web-pool".into());
    let initial_table = LookupTable::build(
        &[Backend::new(IpAddr::V4(Ipv4Addr::new(10, 0, 0, 99)), 80)],
        17,
    )
    .unwrap();

    let mut tables = LookupTables::new();
    tables.insert(pool_id.clone(), initial_table);
    let mut controller = Controller::new(tables, HealthMap::new(), 17);

    controller.apply_config(make_config());

    // Table should now have 2 backends
    assert_eq!(num_backends(&controller, &pool_id), 2);
}

#[test]
fn apply_config_drops_pools_no_longer_in_config() {
    // Closes the "removed pool stays in shared map" gap.
    let mut config = make_config();
    config.pools.push(BackendPool {
        id: BackendPoolId("legacy-pool".into()),
        backends: vec![Backend::new(IpAddr::V4(Ipv4Addr::new(10, 9, 9, 9)), 80)],
        health_check: None,
    });
    let mut controller = setup_controller(config);
    assert!(has_table(&controller, &BackendPoolId("legacy-pool".into())));

    controller.apply_config(make_config()); // legacy-pool removed

    assert!(has_table(&controller, &BackendPoolId("web-pool".into())));
    assert!(
        !has_table(&controller, &BackendPoolId("legacy-pool".into())),
        "legacy-pool should have been dropped from the shared map"
    );
}

#[test]
fn apply_config_inserts_new_pool_at_runtime() {
    // Closes the audit's "adding a new pool requires a restart" finding.
    let mut controller = setup_controller(make_config());
    assert!(!has_table(&controller, &BackendPoolId("api".into())));

    let mut extended = make_config();
    extended.pools.push(BackendPool {
        id: BackendPoolId("api".into()),
        backends: vec![Backend::new(IpAddr::V4(Ipv4Addr::new(10, 1, 0, 1)), 8080)],
        health_check: None,
    });
    controller.apply_config(extended);

    assert!(
        has_table(&controller, &BackendPoolId("api".into())),
        "newly added pool should be in the shared map without a restart"
    );
}

#[test]
fn health_change_is_debounced() {
    let mut controller = setup_controller(make_config());
    let pool_id = BackendPoolId("web-pool".into());

    assert_eq!(num_backends(&controller, &pool_id), 2);

    // Mark one backend unhealthy — should NOT rebuild immediately
    controller.on_health_change(IpAddr::V4(Ipv4Addr::new(10, 0, 0, 2)), HealthStatus::Unhealthy, at(0));

    // Health status is updated immediately in DashMap
    assert_eq!(
        controller
            .health_status()
            .get(&IpAddr::V4(Ipv4Addr::new(10, 0, 0, 2)))
            .unwrap(),
        HealthStatus::Unhealthy,
    );

    // But the lookup table hasn't been rebuilt yet (within debounce window)
    assert!(controller.has_pending_rebuilds());
    assert_eq!(num_backends(&controller, &pool_id), 2);
}

#[test]
fn flush_pending_forces_rebuild() {
    let mut controller = setup_controller(make_config());
    let pool_id = BackendPoolId("web-pool".into());

    controller.on_health_change(IpAddr::V4(Ipv4Addr::new(10, 0, 0, 2)), HealthStatus::Unhealthy, at(0));

    // Force flush
    controller.flush_pending();

    assert!(!controller.has_pending_rebuilds());
    assert_eq!(num_backends(&controller, &pool_id), 1);
}

#[test]
fn debounce_coalesces_correlated_failures() {
    let config = make_multi_pool_config();
    let mut controller = setup_controller(config);

    let pool_a = BackendPoolId("pool-a".into());
    let pool_b = BackendPoolId("pool-b".into());
    let pool_c = BackendPoolId("pool-c".into());

    assert_eq!(num_backends(&controller, &pool_a), 3);
    assert_eq!(num_backends(&controller, &pool_b), 3);
    assert_eq!(num_backends(&controller, &pool_c), 2);

    // Simulate a rack switch failure: backends 10.0.0.2 and 10.0.0.3 go
    // down simultaneously. Both appear in pool-a and pool-b.
    controller.on_health_change(IpAddr::V4(Ipv4Addr::new(10, 0, 0, 2)), HealthStatus::Unhealthy, at(0));
    controller.on_health_change(IpAddr::V4(Ipv4Addr::new(10, 0, 0, 3)), HealthStatus::Unhealthy, at(0));

    // Tables haven't been rebuilt yet (debounce window)
    assert_eq!(num_backends(&controller, &pool_a), 3);
    assert_eq!(num_backends(&controller, &pool_b), 3);

    // Flush — pool-a and pool-b are rebuilt ONCE each, with both changes applied
    controller.flush_pending();

    assert_eq!(num_backends(&controller, &pool_a), 1); // only 10.0.0.1 left
    assert_eq!(num_backends(&controller, &pool_b), 1); // only 10.0.0.4 left
    assert_eq!(num_backends(&controller, &pool_c), 2); // unaffected
}

#[test]
fn tick_flushes_after_debounce_window() {
    let mut controller = setup_controller(make_config());
    let pool_id = BackendPoolId("web-pool".into());

    controller.on_health_change(IpAddr::V4(Ipv4Addr::new(10, 0, 0, 2)), HealthStatus::Unhealthy, at(0));

    // tick() right away — still within debounce window, no flush
    controller.tick(at(0));
    assert_eq!(num_backends(&controller, &pool_id), 2);

    // Wait for the debounce window to elapse
    // Now tick() should flush
    controller.tick(at(60));
    assert!(!controller.has_pending_rebuilds());
    assert_eq!(num_backends(&controller, &pool_id), 1);
}

#[test]
fn health_change_after_debounce_window_triggers_flush() {
    let config = make_multi_pool_config();
    let mut controller = setup_controller(config);

    let pool_a = BackendPoolId("pool-a".into());
    let pool_b = BackendPoolId("pool-b".into());

    // First change: starts the debounce window
    controller.on_health_change(IpAddr::V4(Ipv4Addr::new(10, 0, 0, 2)), HealthStatus::Unhealthy, at(0));
    assert!(controller.has_pending_rebuilds());

    // Wait past the debounce window
    // Second change: on_health_change accumulates the new pools into
    // pending_pools, then maybe_flush sees the window has elapsed and
    // flushes everything in one batch. The rebuild uses the current
    // DashMap state, which already includes both changes.
    controller.on_health_change(IpAddr::V4(Ipv4Addr::new(10, 0, 0, 3)), HealthStatus::Unhealthy, at(60));

    // Both changes flushed together — no pending work remains
    assert!(!controller.has_pending_rebuilds());
    assert_eq!(num_backends(&controller, &pool_a), 1); // only 10.0.0.1
    assert_eq!(num_backends(&controller, &pool_b), 1); // only 10.0.0.4
}

#[test]
fn health_change_unknown_backend_is_noop() {
    let mut controller = setup_controller(make_config());
    let pool_id = BackendPoolId("web-pool".into());

    // Health change for a backend that's not in any pool
    controller.on_health_change(IpAddr::V4(Ipv4Addr::new(10, 99, 99, 99)), HealthStatus::Unhealthy, at(0));

    assert!(!controller.has_pending_rebuilds());
    assert_eq!(num_backends(&controller, &pool_id), 2);
}

#[test]
fn apply_config_clears_pending_rebuilds() {
    let mut controller = setup_controller(make_config());
    let pool_id = BackendPoolId("web-pool".into());

    // Accumulate a pending change
    controller.on_health_change(IpAddr::V4(Ipv4Addr::new(10, 0, 0, 2)), HealthStatus::Unhealthy, at(0));
    assert!(controller.has_pending_rebuilds());

    // A full config apply supersedes pending changes
    controller.apply_config(make_config());

    assert!(!controller.has_pending_rebuilds());
    // apply_config rebuilt with current health, so 10.0.0.2 is excluded
    assert_eq!(num_backends(&controller, &pool_id), 1);
}

/// In-memory BGP announcer that records every call. Lets us test the
/// controller's VIP-diff logic without touching real TCP sockets.
#[derive(Default)]
struct MockAnnouncer {
    events: parking_lot::Mutex<Vec<AnnouncerEvent>>,
}

#[derive(Debug, Clone, PartialEq, Eq)]
enum AnnouncerEvent {
    Announce(Vec<Ipv4Addr>),
    Withdraw(Vec<Ipv4Addr>),
}

impl BgpAnnouncer for MockAnnouncer {
    fn announce(&self, vips: &[Ipv4Addr]) {
        self.events
            .lock()
            .push(AnnouncerEvent::Announce(vips.to_vec()));
    }
    fn withdraw(&self, vips: &[Ipv4Addr]) {
        self.events
            .lock()
            .push(AnnouncerEvent::Withdraw(vips.to_vec()));
    }
}

impl MockAnnouncer {
    fn drain(&self) -> Vec<AnnouncerEvent> {
        std::mem::take(&mut *self.events.lock())
    }

    fn send(&self, update: BgpUpdate) {
        for cmd in update.commands() {
            match cmd {
                SessionCmd::Announce(vips) => self.announce(&vips),
                SessionCmd::Withdraw(vips) => self.withdraw(&vips),
                SessionCmd::Shutdown => panic!("unexpected shutdown"),
            }
        }
    }

    fn announce_all(&self, vips: Vec<Ipv4Addr>) {
        self.send(BgpUpdate {
            announce: vips,
            withdraw: vec![],
        });
    }

    fn withdraw_all(&self, vips: Vec<Ipv4Addr>) {
        self.send(BgpUpdate {
            announce: vec![],
            withdraw: vips,
        });
    }
}

fn vip_v4(a: u8, b: u8, c: u8, d: u8) -> Ipv4Addr {
    Ipv4Addr::new(a, b, c, d)
}

fn make_bgp_config() -> (LbConfig, Ipv4Addr, Ipv4Addr) {
    let vip_a = vip_v4(188, 184, 100, 10);
    let vip_b = vip_v4(188, 184, 100, 11);
    let cfg = LbConfig {
        vips: vec![
            Vip {
                id: VipId("web".into()),
                address: IpAddr::V4(vip_a),
                services: vec![VipService {
                    protocol: Protocol::Tcp,
                    port: 443,
                    backend_pool: "pool-a".into(),
                }],
                owner: "test".into(),
                description: "".into(),
            },
            Vip {
                id: VipId("api".into()),
                address: IpAddr::V4(vip_b),
                services: vec![VipService {
                    protocol: Protocol::Tcp,
                    port: 443,
                    backend_pool: "pool-b".into(),
                }],
                owner: "test".into(),
                description: "".into(),
            },
        ],
        pools: vec![
            BackendPool {
                id: BackendPoolId("pool-a".into()),
                backends: vec![
                    Backend::new(IpAddr::V4(Ipv4Addr::new(10, 0, 0, 1)), 443),
                    Backend::new(IpAddr::V4(Ipv4Addr::new(10, 0, 0, 2)), 443),
                ],
                health_check: None,
            },
            BackendPool {
                id: BackendPoolId("pool-b".into()),
                backends: vec![Backend::new(IpAddr::V4(Ipv4Addr::new(10, 0, 1, 1)), 443)],
                health_check: None,
            },
        ],
    };
    (cfg, vip_a, vip_b)
}

fn setup_with_bgp() -> (Controller, MockAnnouncer, Ipv4Addr, Ipv4Addr) {
    let (cfg, vip_a, vip_b) = make_bgp_config();
    let mut tables = LookupTables::new();
    for pool in &cfg.pools {
        let t = LookupTable::build(&pool.backends, 17).unwrap();
        tables.insert(pool.id.clone(), t);
    }
    let mock = MockAnnouncer::default();
    let mut ctl = Controller::new(tables, HealthMap::new(), 17).with_bgp();
    mock.send(ctl.apply_config(cfg));
    (ctl, mock, vip_a, vip_b)
}

#[test]
fn apply_config_announces_vips_with_healthy_pools() {
    let (_ctl, mock, vip_a, vip_b) = setup_with_bgp();

    // Both pools have no explicit health = treated as healthy by default,
    // so both VIPs should be announced.
    let events = mock.drain();
    let announced: Vec<Ipv4Addr> = events
        .iter()
        .filter_map(|e| match e {
            AnnouncerEvent::Announce(v) => Some(v.clone()),
            _ => None,
        })
        .flatten()
        .collect();
    assert!(announced.contains(&vip_a));
    assert!(announced.contains(&vip_b));
}

#[test]
fn withdraw_when_all_pool_backends_unhealthy() {
    let (mut ctl, mock, _vip_a, vip_b) = setup_with_bgp();
    mock.drain(); // clear initial announcements

    // pool-b has exactly one backend (10.0.1.1). Take it down.
    mock.send(ctl.on_health_change(IpAddr::V4(Ipv4Addr::new(10, 0, 1, 1)), HealthStatus::Unhealthy, at(0)));

    let events = mock.drain();
    assert!(
        events
            .iter()
            .any(|e| matches!(e, AnnouncerEvent::Withdraw(v) if v.contains(&vip_b))),
        "expected withdraw of {vip_b:?}, got {events:?}"
    );
}

#[test]
fn reannounce_when_pool_recovers() {
    let (mut ctl, mock, _vip_a, vip_b) = setup_with_bgp();
    mock.drain();

    // Take down, then bring back up.
    mock.send(ctl.on_health_change(IpAddr::V4(Ipv4Addr::new(10, 0, 1, 1)), HealthStatus::Unhealthy, at(0)));
    mock.drain();
    mock.send(ctl.on_health_change(IpAddr::V4(Ipv4Addr::new(10, 0, 1, 1)), HealthStatus::Healthy, at(0)));

    let events = mock.drain();
    assert!(
        events
            .iter()
            .any(|e| matches!(e, AnnouncerEvent::Announce(v) if v.contains(&vip_b))),
        "expected re-announce of {vip_b:?}, got {events:?}"
    );
}

#[test]
fn partially_healthy_pool_keeps_vip_announced() {
    let (mut ctl, mock, vip_a, _) = setup_with_bgp();
    mock.drain();

    // pool-a has two backends — take only one down. The VIP must stay up.
    mock.send(ctl.on_health_change(IpAddr::V4(Ipv4Addr::new(10, 0, 0, 1)), HealthStatus::Unhealthy, at(0)));

    let events = mock.drain();
    for e in &events {
        if let AnnouncerEvent::Withdraw(v) = e {
            assert!(!v.contains(&vip_a), "vip_a withdrawn too early: {events:?}");
        }
    }
}

#[test]
fn apply_config_rediff_announces_only_new_vips() {
    let (mut ctl, mock, vip_a, vip_b) = setup_with_bgp();
    mock.drain();

    // Reapply the same config — no diff, nothing should fire.
    let (cfg, _, _) = make_bgp_config();
    mock.send(ctl.apply_config(cfg));

    let events = mock.drain();
    let any_nonempty = events.iter().any(|e| match e {
        AnnouncerEvent::Announce(v) | AnnouncerEvent::Withdraw(v) => !v.is_empty(),
    });
    assert!(!any_nonempty, "reapply fired unexpected events: {events:?}");
    // Silence unused
    let _ = (vip_a, vip_b);
}

#[test]
fn reannounce_all_emits_full_set() {
    let (ctl, mock, vip_a, vip_b) = setup_with_bgp();
    mock.drain();

    mock.announce_all(ctl.reannounce_all());

    let events = mock.drain();
    assert_eq!(events.len(), 1);
    match &events[0] {
        AnnouncerEvent::Announce(v) => {
            assert!(v.contains(&vip_a));
            assert!(v.contains(&vip_b));
        }
        _ => panic!("expected single Announce, got {events:?}"),
    }
}

#[test]
fn withdraw_all_emits_withdraw_and_clears_announced_set() {
    let (mut ctl, mock, vip_a, vip_b) = setup_with_bgp();
    mock.drain();

    mock.withdraw_all(ctl.withdraw_all());

    let events = mock.drain();
    assert_eq!(events.len(), 1);
    match &events[0] {
        AnnouncerEvent::Withdraw(v) => {
            assert!(v.contains(&vip_a));
            assert!(v.contains(&vip_b));
        }
        _ => panic!("expected single Withdraw, got {events:?}"),
    }

    // Idempotent: a second call must not fire anything.
    mock.withdraw_all(ctl.withdraw_all());
    let events = mock.drain();
    assert!(
        events.is_empty(),
        "withdraw_all fired after the set was already empty: {events:?}"
    );

    // `reannounce_all` must not fire either — the announced set is empty.
    mock.announce_all(ctl.reannounce_all());
    assert!(mock.drain().is_empty());
}

#[test]
fn health_change_only_rebuilds_affected_pools() {
    let config = make_multi_pool_config();
    let mut controller = setup_controller(config);

    let pool_a = BackendPoolId("pool-a".into());
    let pool_b = BackendPoolId("pool-b".into());
    let pool_c = BackendPoolId("pool-c".into());

    // Mark 10.0.0.1 unhealthy — only in pool-a
    controller.on_health_change(IpAddr::V4(Ipv4Addr::new(10, 0, 0, 1)), HealthStatus::Unhealthy, at(0));
    controller.flush_pending();

    assert_eq!(num_backends(&controller, &pool_a), 2); // 10.0.0.2, 10.0.0.3
    assert_eq!(num_backends(&controller, &pool_b), 3); // unchanged
    assert_eq!(num_backends(&controller, &pool_c), 2); // unchanged
}

#[test]
fn the_window_opens_with_the_first_change() {
    let mut controller = setup_controller(make_config());
    let pool_id = BackendPoolId("web-pool".into());
    let a = IpAddr::V4(Ipv4Addr::new(10, 0, 0, 1));
    controller.on_health_change(a, HealthStatus::Unhealthy, at(0));
    controller.on_health_change(a, HealthStatus::Healthy, at(30));
    controller.on_health_change(a, HealthStatus::Unhealthy, at(49));
    assert!(controller.has_pending_rebuilds());
    controller.tick(at(49));
    assert_eq!(num_backends(&controller, &pool_id), 2);
    controller.tick(at(50));
    assert!(!controller.has_pending_rebuilds());
    assert_eq!(num_backends(&controller, &pool_id), 1);
}

#[test]
fn debounced_rebuilds_lose_nothing() {
    let mut controller = setup_controller(make_multi_pool_config());
    for last in [1u8, 2, 4, 6] {
        controller.on_health_change(
            IpAddr::V4(Ipv4Addr::new(10, 0, 0, last)),
            HealthStatus::Unhealthy,
            at(0),
        );
    }
    controller.flush_pending();
    let mut fresh = Controller::new(LookupTables::new(), HealthMap::new(), 17);
    for last in [1u8, 2, 4, 6] {
        fresh.on_health_change(
            IpAddr::V4(Ipv4Addr::new(10, 0, 0, last)),
            HealthStatus::Unhealthy,
            at(0),
        );
    }
    fresh.apply_config(make_multi_pool_config());
    for name in ["pool-a", "pool-b", "pool-c"] {
        let id = BackendPoolId(name.into());
        let a = controller.lookup_tables().get(&id).unwrap();
        let b = fresh.lookup_tables().get(&id).unwrap();
        assert_eq!(a.entries(), b.entries());
        assert_eq!(a.backends(), b.backends());
    }
}

#[test]
fn announcements_are_in_ascending_order() {
    let (mut cfg, vip_a, vip_b) = make_bgp_config();
    cfg.vips.reverse();
    let mut ctl = Controller::new(LookupTables::new(), HealthMap::new(), 17).with_bgp();
    let update = ctl.apply_config(cfg);
    assert_eq!(update.announce, vec![vip_a, vip_b]);
    assert!(update.withdraw.is_empty());
}

#[test]
fn without_a_speaker_nothing_is_announced() {
    let (cfg, _, _) = make_bgp_config();
    let mut ctl = Controller::new(LookupTables::new(), HealthMap::new(), 17);
    assert!(ctl.apply_config(cfg).commands().is_empty());
    assert!(ctl.reannounce_all().is_empty());
    assert!(ctl.withdraw_all().is_empty());
}

#[test]
fn the_configuration_and_the_cache_path_are_kept() {
    let mut ctl = Controller::new(LookupTables::new(), HealthMap::new(), 17)
        .with_cache_path("/var/lib/lb/cache.json".into());
    assert!(ctl.config().is_none());
    ctl.apply_config(make_config());
    assert_eq!(ctl.config().unwrap().pools.len(), 1);
    assert_eq!(ctl.cache_path().map(|s| s.as_str()), Some("/var/lib/lb/cache.json"));
}

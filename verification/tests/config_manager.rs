use lb::base::net::{IpAddr, Ipv4Addr};
use lb::config_manager::applier::{
    apply_tables, build_backend_pool_index, build_lookup_tables, build_lookup_tables_for_pools,
    replace_tables, LookupTables,
};
use lb::config_manager::loader::LbConfig;
use lb::config_manager::pool_set::PoolSet;
use lb::config_manager::validator::{validate, validate_config, PoolMap};
use lb::config_manager::watcher::{is_relevant_event, ChangeKind, PathMatch};
use lb::hashing::lookup_table::LookupTable;
use lb::health::status_map::HealthMap;
use lb::types::backend::{Backend, BackendPool, BackendPoolId, HealthStatus};
use lb::types::vip::{Protocol, Vip, VipId, VipService};

fn make_config() -> LbConfig {
    LbConfig {
        vips: vec![],
        pools: vec![BackendPool {
            id: BackendPoolId("web".into()),
            backends: vec![
                Backend::new(IpAddr::V4(Ipv4Addr::new(10, 0, 0, 1)), 443),
                Backend::new(IpAddr::V4(Ipv4Addr::new(10, 0, 0, 2)), 443),
                Backend::new(IpAddr::V4(Ipv4Addr::new(10, 0, 0, 3)), 443),
            ],
            health_check: None,
        }],
    }
}

#[test]
fn build_tables_all_healthy() {
    let config = make_config();
    let health = HealthMap::new(); // no status = assume healthy
    let tables = build_lookup_tables(&config, &health, 17);
    assert!(tables.contains_key(&BackendPoolId("web".into())));
    assert_eq!(tables.get(&BackendPoolId("web".into())).unwrap().num_backends(), 3);
}

#[test]
fn drained_backend_is_excluded_from_lookup_table() {
    let mut config = make_config();
    // Mark 10.0.0.2 as drained.
    config.pools[0].backends[1].drain = true;
    let health = HealthMap::new();
    let tables = build_lookup_tables(&config, &health, 65537);
    let table = tables.get(&BackendPoolId("web".into())).unwrap();
    assert_eq!(table.num_backends(), 2);
    // The drained IP must not appear in the lookup output.
    let drained = IpAddr::V4(Ipv4Addr::new(10, 0, 0, 2));
    for hash in 0..1000u64 {
        assert_ne!(table.lookup(hash).ip, drained);
    }
}

#[test]
fn all_drained_falls_back_to_all_backends() {
    let mut config = make_config();
    for b in &mut config.pools[0].backends {
        b.drain = true;
    }
    let health = HealthMap::new();
    let tables = build_lookup_tables(&config, &health, 17);
    // Same fallback semantics as all-unhealthy: serve traffic, the
    // operator clearly didn't intend the LB to black-hole the VIP.
    // We have to clear the drain bit on the fallback build because
    // `LookupTable::build` filters weight=0 too — drain doesn't
    // affect weight today, so this works without further coupling.
    let table = tables.get(&BackendPoolId("web".into())).unwrap();
    assert_eq!(table.num_backends(), 3);
}

#[test]
fn build_tables_one_unhealthy() {
    let config = make_config();
    let mut health = HealthMap::new();
    health.insert(
        IpAddr::V4(Ipv4Addr::new(10, 0, 0, 2)),
        HealthStatus::Unhealthy,
    );
    let tables = build_lookup_tables(&config, &health, 17);
    assert_eq!(tables.get(&BackendPoolId("web".into())).unwrap().num_backends(), 2);
}

#[test]
fn build_tables_all_unhealthy_fallback() {
    let config = make_config();
    let mut health = HealthMap::new();
    for i in 1..=3 {
        health.insert(
            IpAddr::V4(Ipv4Addr::new(10, 0, 0, i)),
            HealthStatus::Unhealthy,
        );
    }
    let tables = build_lookup_tables(&config, &health, 17);
    // Fallback: use all backends
    assert_eq!(tables.get(&BackendPoolId("web".into())).unwrap().num_backends(), 3);
}

#[test]
fn apply_tables_merges_into_shared_map() {
    let config = make_config();
    let health = HealthMap::new();
    let tables = build_lookup_tables(&config, &health, 17);

    let pool_id = BackendPoolId("web".into());
    let initial = LookupTable::build(
        &[Backend::new(IpAddr::V4(Ipv4Addr::new(10, 0, 0, 99)), 80)],
        17,
    )
    .unwrap();
    let mut shared = LookupTables::new();
    shared.insert(pool_id.clone(), initial);

    assert_eq!(shared.get(&pool_id).unwrap().num_backends(), 1);

    apply_tables(tables, &mut shared);

    assert_eq!(shared.get(&pool_id).unwrap().num_backends(), 3);
}

#[test]
fn apply_tables_inserts_new_pool_at_runtime() {
    // Closes the "adding a new pool requires a restart" gap from the
    // production-readiness audit. The shared map starts with `web`;
    // a config reload that introduces `api` must reach the data plane.
    let initial = LookupTable::build(
        &[Backend::new(IpAddr::V4(Ipv4Addr::new(10, 0, 0, 1)), 443)],
        17,
    )
    .unwrap();
    let mut shared = LookupTables::new();
    shared.insert(BackendPoolId("web".into()), initial);

    let new_pool = LookupTable::build(
        &[Backend::new(IpAddr::V4(Ipv4Addr::new(10, 1, 0, 1)), 8080)],
        17,
    )
    .unwrap();
    let mut updates = LookupTables::new();
    updates.insert(BackendPoolId("api".into()), new_pool);

    apply_tables(updates, &mut shared);

    let snap = &shared;
    assert!(snap.contains_key(&BackendPoolId("web".into())));
    assert!(snap.contains_key(&BackendPoolId("api".into())));
}

#[test]
fn replace_tables_drops_pools_not_in_new_set() {
    // Full-config-apply path: a pool removed from the JSON should
    // disappear from the shared map.
    let mut shared = LookupTables::new();
    shared.insert(
        BackendPoolId("web".into()),
        LookupTable::build(
                &[Backend::new(IpAddr::V4(Ipv4Addr::new(10, 0, 0, 1)), 443)],
                17,
            )
            .unwrap(),
    );
    shared.insert(
        BackendPoolId("legacy".into()),
        LookupTable::build(
                &[Backend::new(IpAddr::V4(Ipv4Addr::new(10, 0, 0, 9)), 80)],
                17,
            )
            .unwrap(),
    );

    let mut new_state = LookupTables::new();
    new_state.insert(
        BackendPoolId("web".into()),
        LookupTable::build(
                &[Backend::new(IpAddr::V4(Ipv4Addr::new(10, 0, 0, 1)), 443)],
                17,
            )
            .unwrap(),
    );
    replace_tables(new_state, &mut shared);

    let snap = &shared;
    assert!(snap.contains_key(&BackendPoolId("web".into())));
    assert!(
        !snap.contains_key(&BackendPoolId("legacy".into())),
        "replace_tables must drop pools no longer in the config"
    );
}

#[test]
fn backend_pool_index_maps_ips_to_pools() {
    let config = LbConfig {
        vips: vec![],
        pools: vec![
            BackendPool {
                id: BackendPoolId("pool-a".into()),
                backends: vec![
                    Backend::new(IpAddr::V4(Ipv4Addr::new(10, 0, 0, 1)), 443),
                    Backend::new(IpAddr::V4(Ipv4Addr::new(10, 0, 0, 2)), 443),
                ],
                health_check: None,
            },
            BackendPool {
                id: BackendPoolId("pool-b".into()),
                backends: vec![
                    Backend::new(IpAddr::V4(Ipv4Addr::new(10, 0, 0, 2)), 8080),
                    Backend::new(IpAddr::V4(Ipv4Addr::new(10, 0, 0, 3)), 8080),
                ],
                health_check: None,
            },
        ],
    };

    let index = build_backend_pool_index(&config);

    // 10.0.0.1 is only in pool-a
    let pools_1 = index.get(&IpAddr::V4(Ipv4Addr::new(10, 0, 0, 1))).unwrap();
    assert_eq!(pools_1.len(), 1);
    assert!(pools_1.contains(&BackendPoolId("pool-a".into())));
    assert!(!pools_1.contains(&BackendPoolId("pool-b".into())));

    // 10.0.0.2 is in both pools
    let pools_2 = index.get(&IpAddr::V4(Ipv4Addr::new(10, 0, 0, 2))).unwrap();
    assert_eq!(pools_2.len(), 2);
    assert!(pools_2.contains(&BackendPoolId("pool-a".into())));
    assert!(pools_2.contains(&BackendPoolId("pool-b".into())));

    // 10.0.0.3 is only in pool-b
    let pools_3 = index.get(&IpAddr::V4(Ipv4Addr::new(10, 0, 0, 3))).unwrap();
    assert_eq!(pools_3.len(), 1);
    assert!(!pools_3.contains(&BackendPoolId("pool-a".into())));
    assert!(pools_3.contains(&BackendPoolId("pool-b".into())));
}

#[test]
fn build_for_subset_of_pools() {
    let config = LbConfig {
        vips: vec![],
        pools: vec![
            BackendPool {
                id: BackendPoolId("pool-a".into()),
                backends: vec![Backend::new(IpAddr::V4(Ipv4Addr::new(10, 0, 0, 1)), 443)],
                health_check: None,
            },
            BackendPool {
                id: BackendPoolId("pool-b".into()),
                backends: vec![Backend::new(IpAddr::V4(Ipv4Addr::new(10, 0, 0, 2)), 8080)],
                health_check: None,
            },
        ],
    };

    // Build only pool-a
    let health = HealthMap::new();
    let tables = build_lookup_tables_for_pools(&config.pools[..1], &health, 17);
    assert_eq!(tables.len(), 1);
    assert!(tables.contains_key(&BackendPoolId("pool-a".into())));
}

fn test_vip(pool_name: &str) -> Vip {
    Vip {
        id: VipId("test-vip".into()),
        address: IpAddr::V4(Ipv4Addr::new(188, 184, 100, 10)),
        services: vec![VipService {
            protocol: Protocol::Tcp,
            port: 443,
            backend_pool: pool_name.into(),
        }],
        owner: "test".into(),
        description: "".into(),
    }
}

fn test_pool() -> BackendPool {
    BackendPool {
        id: BackendPoolId("web".into()),
        backends: vec![Backend::new(
            IpAddr::V4(Ipv4Addr::new(10, 0, 0, 1)),
            443,
        )],
        health_check: None,
    }
}

#[test]
fn valid_config() {
    let vips = vec![test_vip("web")];
    let mut pools = PoolMap::new();
    pools.insert("web".into(), test_pool());
    assert!(validate(&vips, &pools).is_ok());
}

#[test]
fn dangling_pool_reference() {
    let vips = vec![test_vip("nonexistent")];
    let pools = PoolMap::new();
    let err = validate(&vips, &pools).unwrap_err();
    assert!(err.errors[0].contains("does not exist"));
}

#[test]
fn empty_pool() {
    let vips = vec![test_vip("empty")];
    let mut pools = PoolMap::new();
    pools.insert(
        "empty".into(),
        BackendPool {
            id: BackendPoolId("empty".into()),
            backends: vec![],
            health_check: None,
        },
    );
    let err = validate(&vips, &pools).unwrap_err();
    assert!(err.errors.iter().any(|e| e.contains("no backends")));
}

#[test]
fn whole_configurations_are_validated() {
    let good = LbConfig {
        vips: vec![test_vip("web")],
        pools: vec![test_pool()],
    };
    assert!(validate_config(&good).is_ok());
    let bad = LbConfig {
        vips: vec![test_vip("api")],
        pools: vec![test_pool()],
    };
    let err = validate_config(&bad).unwrap_err();
    assert_eq!(err.errors.len(), 1);
    assert!(err.errors[0].contains("does not exist"));
}

#[test]
fn addresses_in_no_pool_are_not_indexed() {
    let index = build_backend_pool_index(&make_config());
    assert!(index
        .get(&IpAddr::V4(Ipv4Addr::new(10, 9, 9, 9)))
        .is_none());
    assert_eq!(index.len(), 3);
}

#[test]
fn pools_without_weight_get_no_table() {
    let mut config = make_config();
    for b in &mut config.pools[0].backends {
        b.weight = 0;
    }
    let tables = build_lookup_tables(&config, &HealthMap::new(), 17);
    assert_eq!(tables.len(), 0);
}

#[test]
fn pool_sets_hold_each_name_once() {
    let mut a = PoolSet::new();
    assert!(a.is_empty());
    a.insert(BackendPoolId("x".into()));
    a.insert(BackendPoolId("x".into()));
    let mut b = PoolSet::new();
    b.insert(BackendPoolId("y".into()));
    a.extend(&b);
    assert!(a.contains(&BackendPoolId("x".into())));
    assert!(a.contains(&BackendPoolId("y".into())));
    assert!(!b.contains(&BackendPoolId("x".into())));
    let c = a.clone();
    assert!(c.contains(&BackendPoolId("y".into())));
}

#[test]
fn only_changes_of_the_file_count() {
    let ours = PathMatch {
        same_path: true,
        same_name: true,
    };
    let kqueue = PathMatch {
        same_path: false,
        same_name: true,
    };
    let other = PathMatch {
        same_path: false,
        same_name: false,
    };
    assert!(is_relevant_event(ChangeKind::Modify, &[ours]));
    assert!(is_relevant_event(ChangeKind::Create, &[other, kqueue]));
    assert!(is_relevant_event(ChangeKind::Remove, &[ours]));
    assert!(!is_relevant_event(ChangeKind::Access, &[ours]));
    assert!(!is_relevant_event(ChangeKind::Modify, &[other]));
    assert!(!is_relevant_event(ChangeKind::Modify, &[]));
}

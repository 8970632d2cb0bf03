use lb::base::net::{IpAddr, Ipv4Addr};
use lb::base::time::{Duration, Instant};
use lb::forwarder::conn_table::{promote_state, ConnTable, InsertResult};
use lb::types::config::ConnTtls;
use lb::types::packet::{FlowProto, TcpFlowState};

fn start() -> Instant {
    Instant { nanos: 1_000_000_000 }
}

fn ip(last: u8) -> IpAddr {
    IpAddr::V4(Ipv4Addr::new(10, 0, 0, last))
}

fn tcp_ttls() -> ConnTtls {
    ConnTtls::with_established(Duration::from_secs(60))
}

#[test]
fn conn_table_insert_and_get() {
    let now = start();
    let mut table = ConnTable::new(64, tcp_ttls());
    assert_eq!(
        table.insert(42, ip(1), FlowProto::Tcp, TcpFlowState::Established, now),
        InsertResult::Inserted
    );
    assert_eq!(table.get(42, now), Some(ip(1)));
    assert_eq!(table.len(), 1);
}

#[test]
fn conn_table_miss_on_empty() {
    let table = ConnTable::new(64, tcp_ttls());
    assert_eq!(table.get(42, start()), None);
}

#[test]
fn update_existing_returns_updated() {
    let now = start();
    let mut table = ConnTable::new(64, tcp_ttls());
    assert_eq!(
        table.insert(42, ip(1), FlowProto::Tcp, TcpFlowState::Established, now),
        InsertResult::Inserted
    );
    assert_eq!(
        table.insert(42, ip(2), FlowProto::Tcp, TcpFlowState::Established, now),
        InsertResult::Updated
    );
    assert_eq!(table.get(42, now), Some(ip(2)));
    assert_eq!(table.len(), 1);
}

#[test]
fn collision_handling() {
    let now = start();
    let mut table = ConnTable::new(4, tcp_ttls());
    table.insert(0, ip(1), FlowProto::Tcp, TcpFlowState::Established, now);
    table.insert(4, ip(2), FlowProto::Tcp, TcpFlowState::Established, now);
    assert_eq!(table.get(0, now), Some(ip(1)));
    assert_eq!(table.get(4, now), Some(ip(2)));
    assert_eq!(table.len(), 2);
}

#[test]
fn robin_hood_rebalances_probes() {
    let now = start();
    let mut table = ConnTable::new(8, tcp_ttls());
    for &(h, last) in &[(0u64, 1u8), (8, 2), (1, 3), (16, 4)] {
        table.insert(h, ip(last), FlowProto::Tcp, TcpFlowState::Established, now);
    }
    assert_eq!(table.get(0, now), Some(ip(1)));
    assert_eq!(table.get(8, now), Some(ip(2)));
    assert_eq!(table.get(1, now), Some(ip(3)));
    assert_eq!(table.get(16, now), Some(ip(4)));
    assert_eq!(table.len(), 4);
}

#[test]
fn tcp_handshake_short_ttl_expires_fast() {
    let ttls = ConnTtls {
        tcp_handshake: Duration::from_millis(1),
        tcp_established: Duration::from_secs(60),
        tcp_closing: Duration::from_secs(10),
        udp: Duration::from_secs(30),
        other: Duration::from_secs(30),
    };
    let mut table = ConnTable::new(64, ttls);
    table.insert(
        7,
        ip(1),
        FlowProto::Tcp,
        TcpFlowState::Handshake,
        start(),
    );
    let later = start().plus(Duration::from_millis(5));
    assert_eq!(table.get(7, later), None);
}

#[test]
fn tcp_established_survives_longer_than_handshake() {
    let ttls = ConnTtls {
        tcp_handshake: Duration::from_millis(1),
        tcp_established: Duration::from_secs(60),
        tcp_closing: Duration::from_secs(10),
        udp: Duration::from_secs(30),
        other: Duration::from_secs(30),
    };
    let mut table = ConnTable::new(64, ttls);
    table.insert(
        7,
        ip(1),
        FlowProto::Tcp,
        TcpFlowState::Established,
        start(),
    );
    let later = start().plus(Duration::from_millis(5));
    assert_eq!(table.get(7, later), Some(ip(1)));
}

#[test]
fn mark_closing_shortens_ttl() {
    let ttls = ConnTtls {
        tcp_handshake: Duration::from_millis(1),
        tcp_established: Duration::from_secs(60),
        tcp_closing: Duration::from_millis(1),
        udp: Duration::from_secs(30),
        other: Duration::from_secs(30),
    };
    let mut table = ConnTable::new(64, ttls);
    let now = start();
    table.insert(7, ip(1), FlowProto::Tcp, TcpFlowState::Established, now);
    assert!(table.get(7, now).is_some());

    table.mark_closing(7, now);
    let later = start().plus(Duration::from_millis(5));
    assert_eq!(table.get(7, later), None);
}

#[test]
fn mark_established_promotes_handshake() {
    let ttls = ConnTtls {
        tcp_handshake: Duration::from_millis(5),
        tcp_established: Duration::from_secs(60),
        tcp_closing: Duration::from_secs(10),
        udp: Duration::from_secs(30),
        other: Duration::from_secs(30),
    };
    let mut table = ConnTable::new(64, ttls);
    let now = start();
    table.insert(7, ip(1), FlowProto::Tcp, TcpFlowState::Handshake, now);

    // Promote to Established — the entry should now survive past the
    // handshake TTL.
    table.mark_established(7, now);
    let later = start().plus(Duration::from_millis(20));
    assert_eq!(table.get(7, later), Some(ip(1)));
}

#[test]
fn mark_closing_is_noop_on_missing_entry() {
    let mut table = ConnTable::new(64, tcp_ttls());
    table.mark_closing(9999, start()); // must not panic
    assert_eq!(table.len(), 0);
}

#[test]
fn mark_established_does_not_resurrect_closing() {
    let ttls = ConnTtls {
        tcp_handshake: Duration::from_secs(5),
        tcp_established: Duration::from_secs(60),
        tcp_closing: Duration::from_millis(2),
        udp: Duration::from_secs(30),
        other: Duration::from_secs(30),
    };
    let mut table = ConnTable::new(64, ttls);
    let now = start();
    table.insert(7, ip(1), FlowProto::Tcp, TcpFlowState::Established, now);
    table.mark_closing(7, now);
    // A late retransmit shouldn't undo the Closing state.
    table.mark_established(7, now);
    let later = start().plus(Duration::from_millis(10));
    assert_eq!(table.get(7, later), None);
}

#[test]
fn udp_uses_udp_ttl() {
    let ttls = ConnTtls {
        tcp_handshake: Duration::from_secs(60),
        tcp_established: Duration::from_secs(60),
        tcp_closing: Duration::from_secs(60),
        udp: Duration::from_millis(1),
        other: Duration::from_secs(60),
    };
    let mut table = ConnTable::new(64, ttls);
    table.insert(
        7,
        ip(1),
        FlowProto::Udp,
        TcpFlowState::NotTcp,
        start(),
    );
    let later = start().plus(Duration::from_millis(5));
    assert_eq!(table.get(7, later), None);
}

#[test]
fn insert_returns_evicted_on_expired_slot() {
    let ttls = ConnTtls {
        tcp_handshake: Duration::from_secs(60),
        tcp_established: Duration::from_millis(1),
        tcp_closing: Duration::from_secs(60),
        udp: Duration::from_secs(60),
        other: Duration::from_secs(60),
    };
    let mut table = ConnTable::new(4, ttls);
    table.insert(
        0,
        ip(1),
        FlowProto::Tcp,
        TcpFlowState::Established,
        start(),
    );
    let later = start().plus(Duration::from_millis(5));
    let now = later;
    assert_eq!(
        table.insert(4, ip(2), FlowProto::Tcp, TcpFlowState::Established, now),
        InsertResult::EvictedExpired
    );
    assert_eq!(table.get(4, now), Some(ip(2)));
}

#[test]
fn insert_returns_dropped_full_when_packed() {
    let now = start();
    let mut table = ConnTable::new(4, tcp_ttls());
    for i in 0..4u64 {
        table.insert(
            i * 7,
            ip(i as u8 + 1),
            FlowProto::Tcp,
            TcpFlowState::Established,
            now,
        );
    }
    assert_eq!(
        table.insert(999, ip(99), FlowProto::Tcp, TcpFlowState::Established, now),
        InsertResult::DroppedFull
    );
    assert_eq!(table.len(), 4);
}

#[test]
fn high_fill_all_entries_retrievable() {
    let now = start();
    let capacity = 64;
    let fill = capacity * 90 / 100;
    let mut table = ConnTable::new(capacity, tcp_ttls());

    let keys: Vec<u64> = (0..fill as u64).map(|i| i * 31 + 7).collect();
    for (i, &k) in keys.iter().enumerate() {
        table.insert(
            k,
            ip((i % 254) as u8 + 1),
            FlowProto::Tcp,
            TcpFlowState::Established,
            now,
        );
    }
    for (i, &k) in keys.iter().enumerate() {
        assert_eq!(
            table.get(k, now),
            Some(ip((i % 254) as u8 + 1)),
            "missing key {k} at index {i}"
        );
    }
}

#[test]
fn fill_bp_tracks_size() {
    let now = start();
    let mut table = ConnTable::new(128usize, tcp_ttls());
    assert_eq!(table.fill_bp(), 0);
    for i in 0..32u64 {
        table.insert(
            i * 31 + 5,
            ip(i as u8 + 1),
            FlowProto::Tcp,
            TcpFlowState::Established,
            now,
        );
    }
    assert!(table.fill_bp() > 0);
}

#[test]
fn insertions_keep_other_flows() {
    let now = start();
    let mut table = ConnTable::new(16, tcp_ttls());
    for h in [0u64, 16, 32, 1, 17, 33, 2] {
        table.insert(h, ip(h as u8), FlowProto::Tcp, TcpFlowState::Established, now);
        assert_eq!(table.get(0, now), Some(ip(0)));
        assert_eq!(table.get(h, now), Some(ip(h as u8)));
    }
    assert_eq!(table.len(), 7);
}

#[test]
fn a_dropped_flow_leaves_the_table_alone() {
    let now = start();
    let mut table = ConnTable::new(4, tcp_ttls());
    for h in 0..4u64 {
        table.insert(h, ip(h as u8), FlowProto::Tcp, TcpFlowState::Established, now);
    }
    assert_eq!(
        table.insert(4, ip(9), FlowProto::Tcp, TcpFlowState::Established, now),
        InsertResult::DroppedFull
    );
    for h in 0..4u64 {
        assert_eq!(table.get(h, now), Some(ip(h as u8)));
    }
    assert_eq!(table.get(4, now), None);
}

#[test]
fn touch_keeps_a_flow_alive() {
    let mut table = ConnTable::new(16, ConnTtls::with_established(Duration::from_secs(60)));
    table.insert(3, ip(1), FlowProto::Tcp, TcpFlowState::Established, start());
    let soon = start().plus(Duration::from_secs(50));
    table.touch(3, soon);
    let late = start().plus(Duration::from_secs(100));
    assert_eq!(table.get(3, late), Some(ip(1)));
    assert_eq!(table.get(3, late.plus(Duration::from_secs(60))), None);
}

#[test]
fn fill_is_counted_in_basis_points() {
    let mut table = ConnTable::new(8, tcp_ttls());
    assert!(table.is_empty());
    assert_eq!(table.capacity(), 8);
    for h in 0..2u64 {
        table.insert(h, ip(1), FlowProto::Tcp, TcpFlowState::Established, start());
    }
    assert_eq!(table.fill_bp(), 2500);
    assert!(!table.is_empty());
}

#[test]
fn tcp_states_only_move_forward() {
    assert_eq!(
        promote_state(TcpFlowState::Handshake, TcpFlowState::Established),
        TcpFlowState::Established
    );
    assert_eq!(
        promote_state(TcpFlowState::Established, TcpFlowState::Handshake),
        TcpFlowState::Established
    );
    assert_eq!(
        promote_state(TcpFlowState::Closing, TcpFlowState::Established),
        TcpFlowState::Closing
    );
}

#[test]
fn reclaiming_an_expired_slot_hides_no_live_flow() {
    let ttls = ConnTtls {
        tcp_handshake: Duration::from_secs(60),
        tcp_established: Duration::from_secs(60),
        tcp_closing: Duration::from_secs(1),
        udp: Duration::from_secs(60),
        other: Duration::from_secs(60),
    };
    let t0 = start();
    let t1 = t0.plus(Duration::from_secs(2));
    let mut table = ConnTable::new(4, ttls);
    table.insert(0, ip(1), FlowProto::Tcp, TcpFlowState::Established, t0);
    table.insert(4, ip(2), FlowProto::Tcp, TcpFlowState::Closing, t0);
    table.insert(8, ip(3), FlowProto::Tcp, TcpFlowState::Established, t0);
    assert_eq!(
        table.insert(1, ip(4), FlowProto::Tcp, TcpFlowState::Established, t1),
        InsertResult::EvictedExpired
    );
    assert_eq!(table.get(0, t1), Some(ip(1)));
    assert_eq!(table.get(8, t1), Some(ip(3)));
    assert_eq!(table.get(1, t1), Some(ip(4)));
    assert_eq!(table.get(4, t1), None);
    assert_eq!(table.len(), 3);
}

#[test]
fn an_expired_slot_on_the_way_does_not_duplicate_a_flow() {
    let ttls = ConnTtls {
        tcp_handshake: Duration::from_secs(60),
        tcp_established: Duration::from_secs(60),
        tcp_closing: Duration::from_secs(60),
        udp: Duration::from_secs(1),
        other: Duration::from_secs(60),
    };
    let t0 = start();
    let t1 = t0.plus(Duration::from_secs(2));
    let mut table = ConnTable::new(4, ttls);
    table.insert(0, ip(1), FlowProto::Udp, TcpFlowState::NotTcp, t0);
    table.insert(4, ip(2), FlowProto::Tcp, TcpFlowState::Closing, t0);
    // The slot in front of the flow has expired, the flow itself is closing.
    assert_eq!(
        table.insert(4, ip(3), FlowProto::Tcp, TcpFlowState::Established, t1),
        InsertResult::Updated
    );
    table.mark_established(4, t1);
    assert_eq!(table.len(), 2);
    assert_eq!(table.get(4, t1), Some(ip(3)));
    // A replaced flow keeps its slot.
    assert_eq!(
        table.insert(0, ip(5), FlowProto::Udp, TcpFlowState::NotTcp, t1),
        InsertResult::EvictedExpired
    );
    assert_eq!(table.get(0, t1), Some(ip(5)));
    assert_eq!(table.len(), 2);
}

#[test]
fn flows_survive_reclaiming_all_around_the_table() {
    let ttls = ConnTtls {
        tcp_handshake: Duration::from_secs(60),
        tcp_established: Duration::from_secs(60),
        tcp_closing: Duration::from_secs(1),
        udp: Duration::from_secs(60),
        other: Duration::from_secs(60),
    };
    let t0 = start();
    let t1 = t0.plus(Duration::from_secs(2));
    for n in 0..64u64 {
        let mut table = ConnTable::new(8, ttls);
        for k in 0..8u64 {
            let state = if (n >> (k % 6)) & 1 == 1 {
                TcpFlowState::Closing
            } else {
                TcpFlowState::Established
            };
            table.insert(6 + (k * k) % 5 + 8 * k, ip(k as u8), FlowProto::Tcp, state, t0);
        }
        let live: Vec<(u64, Option<IpAddr>)> = (0..200).map(|h| (h, table.get(h, t1))).collect();
        for new in 0..3u64 {
            table.insert(1000 + new, ip(99), FlowProto::Tcp, TcpFlowState::Established, t1);
        }
        for (h, backend) in live {
            assert_eq!(table.get(h, t1), backend, "flow {h}");
        }
    }
}

use lb::base::net::{IpAddr, Ipv4Addr};
use lb::base::time::{Duration, Instant};
use lb::forwarder::fragment_table::FragmentTable;

fn start() -> Instant {
    Instant { nanos: 1_000_000_000 }
}

fn ip(last: u8) -> IpAddr {
    IpAddr::V4(Ipv4Addr::new(10, 0, 0, last))
}

#[test]
fn fragment_table_insert_and_get() {
    let now = start();
    let mut table = FragmentTable::new(64, Duration::from_secs(10));
    table.insert(42, ip(1), now);
    assert_eq!(table.get(42, now), Some(ip(1)));
}

#[test]
fn fragment_table_miss_on_empty() {
    let table = FragmentTable::new(64, Duration::from_secs(10));
    assert_eq!(table.get(42, start()), None);
}

#[test]
fn ttl_expiry() {
    let mut table = FragmentTable::new(64, Duration::from_millis(1));
    table.insert(42, ip(1), start());
    let later = start().plus(Duration::from_millis(5));
    assert_eq!(table.get(42, later), None);
}

#[test]
fn same_hash_returns_same_backend() {
    let now = start();
    let mut table = FragmentTable::new(64, Duration::from_secs(10));
    table.insert(100, ip(5), now);
    assert_eq!(table.get(100, now), Some(ip(5)));
    assert_eq!(table.get(100, now), Some(ip(5)));
}

#[test]
fn robin_hood_rebalances() {
    let now = start();
    let mut table = FragmentTable::new(8, Duration::from_secs(10));
    table.insert(0, ip(1), now);
    table.insert(8, ip(2), now); // collides at slot 0
    table.insert(16, ip(3), now); // collides at slot 0

    assert_eq!(table.get(0, now), Some(ip(1)));
    assert_eq!(table.get(8, now), Some(ip(2)));
    assert_eq!(table.get(16, now), Some(ip(3)));
}

#[test]
fn miss_early_terminates() {
    let now = start();
    let mut table = FragmentTable::new(16, Duration::from_secs(10));
    table.insert(0, ip(1), now);
    table.insert(16, ip(2), now);
    // Hash 32 maps to slot 0 but doesn't exist — Robin Hood early terminates
    assert_eq!(table.get(32, now), None);
}

#[test]
fn a_full_fragment_table_keeps_what_it_has() {
    let now = start();
    let mut table = FragmentTable::new(2, Duration::from_secs(10));
    table.insert(0, ip(1), now);
    table.insert(1, ip(2), now);
    table.insert(2, ip(3), now);
    assert_eq!(table.get(0, now), Some(ip(1)));
    assert_eq!(table.get(1, now), Some(ip(2)));
    assert_eq!(table.get(2, now), None);
}

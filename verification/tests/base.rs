use lb::base::addr_set::AddrSet;
use lb::base::assoc::AssocMap;
use lb::base::checksum::ip_checksum;
use lb::base::net::{IpAddr, Ipv4Addr, Ipv6Addr};
use lb::base::power::power_of_two;
use lb::base::time::{Duration, Instant};

#[test]
fn addresses_are_written_canonically() {
    let text = |s: [u16; 8]| {
        IpAddr::V6(Ipv6Addr::new(s[0], s[1], s[2], s[3], s[4], s[5], s[6], s[7])).to_text()
    };
    assert_eq!(IpAddr::V4(Ipv4Addr::new(192, 168, 0, 1)).to_text(), "192.168.0.1");
    assert_eq!(text([0; 8]), "::");
    assert_eq!(text([0, 0, 0, 0, 0, 0, 0, 1]), "::1");
    assert_eq!(text([0x2001, 0xdb8, 0, 0, 1, 0, 0, 1]), "2001:db8::1:0:0:1");
    assert_eq!(text([1, 0, 2, 0, 3, 0, 4, 0]), "1:0:2:0:3:0:4:0");
    assert_eq!(text([0xfe80, 0, 0, 0, 0, 0, 0, 0]), "fe80::");
    assert_eq!(text([0, 0, 0, 0, 0, 0xffff, 0xc0a8, 1]), "::ffff:192.168.0.1");
}

#[test]
fn address_sets_are_ordered() {
    let a = |last: u8| Ipv4Addr::new(10, 0, 0, last);
    let mut s = AddrSet::new();
    assert!(s.is_empty());
    for last in [3, 1, 2, 3] {
        s.insert(a(last));
    }
    assert_eq!(s.to_list(), vec![a(1), a(2), a(3)]);
    assert!(s.contains(a(2)));
    let mut t = AddrSet::new();
    t.insert(a(2));
    t.insert(a(9));
    assert_eq!(s.minus(&t), vec![a(1), a(3)]);
    assert_eq!(t.minus(&s), vec![a(9)]);
}

#[test]
fn maps_hold_one_value_per_key() {
    let mut m: AssocMap<String, u32> = AssocMap::new();
    m.insert("a".into(), 1);
    m.insert("b".into(), 2);
    m.insert("a".into(), 3);
    assert_eq!(m.len(), 2);
    assert_eq!(m.get(&"a".to_string()), Some(&3));
    assert_eq!(m.item(1), (&"b".to_string(), &2));
    assert!(!m.contains_key(&"c".to_string()));
    let mut n: AssocMap<String, u32> = AssocMap::new();
    n.insert("b".into(), 9);
    n.insert("c".into(), 8);
    m.extend(n);
    assert_eq!(m.len(), 3);
    assert_eq!(m.get(&"b".to_string()), Some(&9));
}

#[test]
fn checksums_are_as_in_the_textbook() {
    let header = [
        0x45, 0x00, 0x00, 0x73, 0x00, 0x00, 0x40, 0x00, 0x40, 0x11, 0x00, 0x00, 0xc0, 0xa8, 0x00,
        0x01, 0xc0, 0xa8, 0x00, 0xc7,
    ];
    assert_eq!(ip_checksum(&header), 0xb861);
    assert_eq!(ip_checksum(&[]), 0xffff);
    assert_eq!(ip_checksum(&[0x01]), 0xfeff);
}

#[test]
fn powers_of_two_are_told() {
    let powers: Vec<u64> = (0..40u64).filter(|n| power_of_two(*n)).collect();
    assert_eq!(powers, vec![1, 2, 4, 8, 16, 32]);
}

#[test]
fn time_does_not_run_backwards() {
    let t = Instant { nanos: 5 };
    let u = t.plus(Duration::from_micros(2));
    assert_eq!(u.duration_since(t), Duration::from_micros(2));
    assert_eq!(t.duration_since(u), Duration { nanos: 0 });
    assert_eq!(Duration::from_millis(1500).as_secs(), 1);
    assert_eq!(Duration::from_millis(2).as_micros(), 2000);
}

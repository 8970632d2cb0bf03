use lb::base::net::{IpAddr, Ipv4Addr};
use lb::hashing::lookup_table::{LookupTable, DEFAULT_TABLE_SIZE};
use lb::hashing::permutation::{offset, preference_list, preference_slots, skip};
use lb::types::backend::Backend;

fn make_backends(n: usize) -> Vec<Backend> {
    (0..n)
        .map(|i| Backend::new(IpAddr::V4(Ipv4Addr::new(10, 0, 0, i as u8 + 1)), 443))
        .collect()
}

#[test]
fn build_fills_all_slots() {
    let backends = make_backends(3);
    let table = LookupTable::build(&backends, 17).unwrap();
    assert!(table.entries().iter().all(|&e| e != usize::MAX));
}

#[test]
fn distribution_is_uniform() {
    let m = 65537;
    let backends = make_backends(5);
    let table = LookupTable::build(&backends, m).unwrap();

    let mut counts = vec![0usize; backends.len()];
    for &entry in table.entries() {
        counts[entry] += 1;
    }

    let expected = m / backends.len();
    for count in &counts {
        // Each backend should get within 1 of m/n
        assert!(
            (*count as isize - expected as isize).unsigned_abs() <= 1,
            "count {count} far from expected {expected}"
        );
    }
}

#[test]
fn deterministic_build() {
    let backends = make_backends(10);
    let t1 = LookupTable::build(&backends, 65537).unwrap();
    let t2 = LookupTable::build(&backends, 65537).unwrap();
    assert_eq!(t1.entries(), t2.entries());
}

#[test]
fn minimal_disruption_on_removal() {
    let m = 65537;
    let backends_full = make_backends(10);
    let backends_minus_one = make_backends(9);

    let t1 = LookupTable::build(&backends_full, m).unwrap();
    let t2 = LookupTable::build(&backends_minus_one, m).unwrap();

    let changed = t1
        .entries()
        .iter()
        .zip(t2.entries())
        .filter(|(&a, &b)| a != b)
        .count();

    // Removing 1 backend from 10 should affect roughly 1/10 of entries
    let max_expected = m / 5; // generous upper bound: 20%
    assert!(
        changed < max_expected,
        "changed {changed} entries, expected < {max_expected}"
    );
}

#[test]
fn single_backend_all_slots() {
    let backends = make_backends(1);
    let table = LookupTable::build(&backends, 17).unwrap();
    assert!(table.entries().iter().all(|&e| e == 0));
}

#[test]
fn empty_backends_returns_error() {
    let result = LookupTable::build(&[], 17);
    assert!(result.is_err());
}

#[test]
fn all_zero_weight_backends_returns_error() {
    let mut backends = make_backends(2);
    for b in &mut backends {
        b.weight = 0;
    }
    let result = LookupTable::build(&backends, 17);
    assert!(result.is_err());
}

#[test]
fn weight_zero_backend_is_excluded() {
    let mut backends = make_backends(3);
    backends[1].weight = 0; // drain the middle one
    let table = LookupTable::build(&backends, 65537).unwrap();
    assert_eq!(table.num_backends(), 2);
    // The zero-weight backend's IP never appears in the lookup result.
    let drained_ip = backends[1].ip;
    for hash in 0..1000u64 {
        assert_ne!(table.lookup(hash).ip, drained_ip);
    }
}

#[test]
fn higher_weight_takes_proportionally_more_slots() {
    let m = 65537;
    let mut backends = make_backends(3);
    backends[0].weight = 1;
    backends[1].weight = 2;
    backends[2].weight = 3;
    let total: u32 = backends.iter().map(|b| b.weight).sum();

    let table = LookupTable::build(&backends, m).unwrap();
    let mut counts = vec![0usize; backends.len()];
    for &entry in table.entries() {
        counts[entry] += 1;
    }

    // Each backend should land within ~5% of its expected share. Maglev's
    // iterative fill never hits the analytic ratio exactly because of
    // collisions, but should be close at m=65537.
    for (i, &count) in counts.iter().enumerate() {
        let expected = (m as u32 * backends[i].weight / total) as usize;
        let tolerance = expected / 20 + 1;
        assert!(
            (count as isize - expected as isize).unsigned_abs() <= tolerance,
            "backend {i}: weight={} got {count} entries, expected ~{expected} (±{tolerance})",
            backends[i].weight
        );
    }
}

#[test]
fn lookup_returns_valid_backend() {
    let backends = make_backends(5);
    let table = LookupTable::build(&backends, 65537).unwrap();
    let b = table.lookup(12345);
    assert!(backends.contains(b));
}

#[test]
fn same_hash_same_backend() {
    let backends = make_backends(5);
    let table = LookupTable::build(&backends, 65537).unwrap();
    let b1 = table.lookup(99999);
    let b2 = table.lookup(99999);
    assert_eq!(b1, b2);
}

#[test]
fn offset_within_range() {
    let m = 65537;
    let o = offset(b"10.0.0.1:443", m);
    assert!(o < m);
}

#[test]
fn skip_within_range() {
    let m = 65537;
    let s = skip(b"10.0.0.1:443", m);
    assert!(s >= 1);
    assert!(s < m);
}

#[test]
fn preference_list_covers_all_slots() {
    let m = 17; // small prime for testing
    let prefs: Vec<usize> = preference_list(b"backend-1", m);
    assert_eq!(prefs.len(), m);
    let mut seen = vec![false; m];
    for &p in &prefs {
        seen[p] = true;
    }
    // Since m is prime and skip is in [1, m-1], the permutation visits all slots
    assert!(seen.iter().all(|&s| s));
}

#[test]
fn deterministic() {
    let m = 65537;
    let o1 = offset(b"test", m);
    let o2 = offset(b"test", m);
    assert_eq!(o1, o2);
}

#[test]
fn a_preference_list_steps_by_its_skip() {
    assert_eq!(preference_slots(3, 4, 7), vec![3, 0, 4, 1, 5, 2, 6]);
    let m = 17;
    let (o, s) = (offset(b"b", m), skip(b"b", m));
    assert_eq!(preference_list(b"b", m), preference_slots(o, s, m));
}

#[test]
fn offset_and_skip_come_from_the_digests_of_the_name() {
    let name = b"10.0.0.1:443";
    let m = 65537u64;
    assert_eq!(
        offset(name, 65537) as u64,
        xxhash_rust::xxh3::xxh3_64_with_seed(name, 0) % m
    );
    assert_eq!(
        skip(name, 65537) as u64,
        xxhash_rust::xxh3::xxh3_64_with_seed(name, 1) % (m - 1) + 1
    );
}

#[test]
fn selection_depends_on_the_backends_alone() {
    let backends = make_backends(4);
    let a = LookupTable::build(&backends, DEFAULT_TABLE_SIZE).unwrap();
    let b = LookupTable::build(&backends.clone(), DEFAULT_TABLE_SIZE).unwrap();
    for hash in [0u64, 1, 65536, 65537, u64::MAX] {
        assert_eq!(a.lookup(hash), b.lookup(hash));
    }
    assert_eq!(a.table_size(), DEFAULT_TABLE_SIZE);
    assert_eq!(a.backends(), &backends[..]);
}

#[test]
fn slots_repeat_with_the_table_size() {
    let table = LookupTable::build(&make_backends(3), 17).unwrap();
    for hash in 0..17u64 {
        assert_eq!(table.lookup(hash), table.lookup(hash + 17));
        assert_eq!(
            table.lookup(hash),
            &table.backends()[table.entries()[hash as usize]]
        );
    }
}

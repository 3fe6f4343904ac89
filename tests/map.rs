use expiring_map::ExpiringMap;

fn both() -> Vec<ExpiringMap<u64, u64>> {
    vec![ExpiringMap::new_btree_map(), ExpiringMap::new_hash_map()]
}

#[test]
fn single_key_lifecycle() {
    let mut m: ExpiringMap<String, i32> = ExpiringMap::new_btree_map();
    assert_eq!(m.insert(String::from("a"), 10, 5, 0), None);
    assert_eq!(m.get(&String::from("a"), 4), Some(&10));
    assert_eq!(m.get(&String::from("a"), 5), None);
    assert_eq!(m.remove(&String::from("a")), Some(10));
    assert_eq!(m.get(&String::from("a"), 5), None);
    assert_eq!(m.len(), 0);
}

#[test]
fn single_key_lifecycle_hashed() {
    let mut m: ExpiringMap<String, i32> = ExpiringMap::new_hash_map();
    assert_eq!(m.insert(String::from("a"), 10, 5, 0), None);
    assert_eq!(m.get(&String::from("a"), 4), Some(&10));
    assert_eq!(m.get(&String::from("a"), 5), None);
    assert_eq!(m.remove(&String::from("a")), Some(10));
    assert_eq!(m.get(&String::from("a"), 5), None);
    assert_eq!(m.len(), 0);
}

#[test]
fn present_before_expiry_absent_from_it_on() {
    for mut m in both() {
        m.insert(1, 100, 20, 10);
        for now in 0..30u64 {
            assert_eq!(m.get(&1, now), Some(&100), "now = {}", now);
        }
        for now in 30..60u64 {
            assert_eq!(m.get(&1, now), None, "now = {}", now);
            assert!(!m.contains_key(&1, now));
        }
        assert!(m.contains_key(&1, 29));
    }
}

#[test]
fn reads_leave_expired_entries_in_place() {
    for mut m in both() {
        m.insert(1, 1, 1, 0);
        m.insert(2, 2, 100, 0);
        assert_eq!(m.len(), 2);
        assert_eq!(m.get(&1, 50), None);
        assert_eq!(m.len(), 2);
        assert!(!m.contains_key(&1, 50));
        assert_eq!(m.len(), 2);
        assert_eq!(m.get_mut(&1, 50), None);
        assert_eq!(m.len(), 2);
        assert_eq!(m.get(&1, 0), Some(&1));
    }
}

#[test]
fn insert_returns_previous_value() {
    for mut m in both() {
        assert_eq!(m.insert(7, 1, 10, 0), None);
        assert_eq!(m.insert(7, 2, 10, 0), Some(1));
        assert_eq!(m.get(&7, 5), Some(&2));
        assert_eq!(m.len(), 1);
    }
}

#[test]
fn insert_returns_previous_value_even_if_expired() {
    for mut m in both() {
        m.insert(7, 1, 3, 0);
        assert_eq!(m.get(&7, 4), None);
        assert_eq!(m.insert(7, 2, 10, 4), Some(1));
        assert_eq!(m.get(&7, 13), Some(&2));
        assert_eq!(m.get(&7, 14), None);
    }
}

#[test]
fn remove_returns_expired_value() {
    for mut m in both() {
        m.insert(3, 30, 1, 0);
        assert_eq!(m.get(&3, 10), None);
        assert_eq!(m.remove(&3), Some(30));
        assert_eq!(m.remove(&3), None);
        assert_eq!(m.len(), 0);
    }
}

#[test]
fn remove_missing_key() {
    for mut m in both() {
        assert_eq!(m.remove(&3), None);
        m.insert(4, 40, 1, 0);
        assert_eq!(m.remove(&3), None);
        assert_eq!(m.len(), 1);
    }
}

#[test]
fn get_mut_changes_live_value_and_keeps_expiry() {
    for mut m in both() {
        m.insert(1, 10, 5, 0);
        *m.get_mut(&1, 2).unwrap() += 5;
        assert_eq!(m.get(&1, 4), Some(&15));
        assert_eq!(m.get(&1, 5), None);
        assert_eq!(m.get_mut(&1, 5), None);
        assert_eq!(m.get_mut(&9, 0), None);
    }
}

#[test]
fn empty_map_reads() {
    for m in both() {
        assert_eq!(m.len(), 0);
        assert_eq!(m.get(&0, 0), None);
        assert!(!m.contains_key(&0, 0));
        assert_eq!(m.iter(0).next(), None);
    }
}

#[test]
fn largest_instant_never_reached_before_it() {
    for mut m in both() {
        m.insert(1, 1, u64::MAX, 5);
        assert_eq!(m.get(&1, u64::MAX - 1), Some(&1));
        assert_eq!(m.get(&1, u64::MAX), None);
    }
}

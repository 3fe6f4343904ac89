use expiring_map::ExpiringMap;
use std::collections::BTreeSet;

fn collect(m: &ExpiringMap<u64, u64>, now: u64) -> Vec<(u64, u64)> {
    let mut it = m.iter(now);
    let mut out = Vec::new();
    while let Some((k, v)) = it.next() {
        out.push((*k, *v));
    }
    out
}

#[test]
fn ordered_map_yields_increasing_keys() {
    let mut m = ExpiringMap::new_btree_map();
    m.insert(3u64, 30u64, 10, 0);
    m.insert(1, 10, 10, 0);
    m.insert(2, 20, 10, 0);
    assert_eq!(collect(&m, 0), vec![(1, 10), (2, 20), (3, 30)]);
}

#[test]
fn hashed_map_yields_the_live_set() {
    let mut m = ExpiringMap::new_hash_map();
    m.insert(3u64, 30u64, 10, 0);
    m.insert(1, 10, 10, 0);
    m.insert(2, 20, 10, 0);
    m.insert(4, 40, 1, 0);
    let got: BTreeSet<(u64, u64)> = collect(&m, 5).into_iter().collect();
    let want: BTreeSet<(u64, u64)> = [(1, 10), (2, 20), (3, 30)].into_iter().collect();
    assert_eq!(got, want);
    assert_eq!(collect(&m, 5).len(), 3);
}

#[test]
fn iteration_keeps_only_unexpired_pair() {
    let mut m = ExpiringMap::new_btree_map();
    m.insert(1u64, 100u64, 2, 0);
    m.insert(2, 200, 50, 0);
    m.insert(3, 300, 5, 0);
    assert_eq!(collect(&m, 10), vec![(2, 200)]);
    assert_eq!(m.len(), 3);
}

#[test]
fn iteration_keeps_only_unexpired_pair_hashed() {
    let mut m = ExpiringMap::new_hash_map();
    m.insert(1u64, 100u64, 2, 0);
    m.insert(2, 200, 50, 0);
    m.insert(3, 300, 5, 0);
    assert_eq!(collect(&m, 10), vec![(2, 200)]);
}

#[test]
fn iteration_judges_expiry_at_its_start_instant() {
    let mut m = ExpiringMap::new_btree_map();
    m.insert(1u64, 10u64, 5, 0);
    m.insert(2, 20, 6, 0);
    m.insert(3, 30, 7, 0);
    let mut it = m.iter(4);
    assert_eq!(it.now(), 4);
    assert_eq!(it.next(), Some((&1, &10)));
    // the clock has moved past every expiry, the walk still uses its own instant
    assert!(!m.contains_key(&2, 100));
    assert_eq!(it.next(), Some((&2, &20)));
    assert_eq!(it.now(), 4);
    assert_eq!(it.next(), Some((&3, &30)));
    assert_eq!(it.next(), None);
    assert_eq!(it.next(), None);
}

#[test]
fn iter_mut_changes_live_values_only() {
    for mut m in [ExpiringMap::new_btree_map(), ExpiringMap::new_hash_map()] {
        m.insert(1u64, 10u64, 5, 0);
        m.insert(2, 20, 50, 0);
        m.insert(3, 30, 50, 0);
        let mut seen = Vec::new();
        let mut it = m.iter_mut(10);
        while let Some((k, v)) = it.next() {
            seen.push(*k);
            *v += 1;
        }
        seen.sort();
        assert_eq!(seen, vec![2, 3]);
        assert_eq!(m.get(&1, 0), Some(&10));
        assert_eq!(m.get(&2, 10), Some(&21));
        assert_eq!(m.get(&3, 10), Some(&31));
    }
}

#[test]
fn iter_mut_ordered_walks_increasing_keys() {
    let mut m = ExpiringMap::new_btree_map();
    m.insert(9u64, 0u64, 5, 0);
    m.insert(4, 0, 5, 0);
    m.insert(6, 0, 5, 0);
    let mut it = m.iter_mut(0);
    assert_eq!(it.now(), 0);
    let mut keys = Vec::new();
    while let Some((k, _)) = it.next() {
        keys.push(*k);
    }
    assert_eq!(keys, vec![4, 6, 9]);
}

#[test]
fn into_iter_moves_out_live_pairs_in_order() {
    let mut m = ExpiringMap::new_btree_map();
    m.insert(5u64, String::from("e"), 10, 0);
    m.insert(2, String::from("b"), 1, 0);
    m.insert(8, String::from("h"), 10, 0);
    let mut it = m.into_iter(3);
    assert_eq!(it.now(), 3);
    assert_eq!(it.next(), Some((5, String::from("e"))));
    assert_eq!(it.next(), Some((8, String::from("h"))));
    assert_eq!(it.next(), None);
}

#[test]
fn into_iter_hashed_moves_out_live_pairs() {
    let mut m = ExpiringMap::new_hash_map();
    m.insert(5u64, 50u64, 10, 0);
    m.insert(2, 20, 1, 0);
    m.insert(8, 80, 10, 0);
    let mut it = m.into_iter(3);
    let mut got = Vec::new();
    while let Some(kv) = it.next() {
        got.push(kv);
    }
    got.sort();
    assert_eq!(got, vec![(5, 50), (8, 80)]);
}

#[test]
fn iteration_over_all_expired_is_empty() {
    let mut m = ExpiringMap::new_btree_map();
    m.insert(1u64, 1u64, 1, 0);
    m.insert(2, 2, 1, 0);
    assert_eq!(collect(&m, 1), vec![]);
    assert_eq!(m.len(), 2);
}

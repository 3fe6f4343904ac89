use std::collections::BTreeMap;
use std::collections::HashMap;
use std::hash::Hash;
use vstd::laws_cmp::obeys_cmp;
use crate::iter::{GenericMapIntoIter, GenericMapIter, GenericMapIterMut};
use vstd::prelude::*;
use vstd::std_specs::cmp::OrdSpec;
use vstd::std_specs::iter::IteratorSpec;
use vstd::std_specs::hash::obeys_key_model;

verus! {

/// Keys whose `Ord`, `Eq` and `Hash` agree with mathematical equality, so
/// that both kinds of backend behave as a finite map.
pub open spec fn valid_key<K: Ord + Hash>() -> bool {
    obeys_cmp::<K>() && obeys_key_model::<K>()
}

/// `s` lists every pair of `m` exactly once.
pub open spec fn lists_map<K, V>(s: Seq<(K, V)>, m: Map<K, V>) -> bool {
    &&& forall|i: int| 0 <= i < s.len() ==> #[trigger] m.contains_key(s[i].0) && m[s[i].0] == s[i].1
    &&& forall|k: K| #[trigger] m.contains_key(k) ==> exists|i: int| 0 <= i < s.len() && s[i].0 == k
    &&& forall|i: int, j: int| #![trigger s[i], s[j]] 0 <= i < j < s.len() ==> s[i].0 != s[j].0
}

/// The keys of `s` are strictly increasing.
pub open spec fn sorted_by_key<K: Ord, V>(s: Seq<(K, V)>) -> bool {
    forall|i: int, j: int|
        #![trigger s[i], s[j]]
        0 <= i < j < s.len() ==> s[i].0.cmp_spec(&s[j].0) is Less
}

/// A listing of a map's pairs that has each pair once, and only pairs of
/// the map, lists every key of the map once.
proof fn lemma_listing<K, V>(v: Seq<(&K, &V)>, m: Map<K, V>)
    requires
        forall|i: int|
            0 <= i < v.len() ==> #[trigger] m.contains_key(*v[i].0) && m[*v[i].0] == *v[i].1,
        forall|k: K| #[trigger] m.contains_key(k) ==> v.contains((&k, &m[k])),
        v.no_duplicates(),
    ensures
        lists_map(v.map_values(|p: (&K, &V)| (*p.0, *p.1)), m),
{
    let s = v.map_values(|p: (&K, &V)| (*p.0, *p.1));
    assert forall|k: K| #[trigger] m.contains_key(k) implies exists|i: int|
        0 <= i < s.len() && s[i].0 == k by {
        let i = choose|i: int| 0 <= i < v.len() && v[i] == (&k, &m[k]);
        assert(s[i].0 == k);
    }
    assert forall|i: int, j: int| 0 <= i < j < s.len() implies s[i].0 != s[j].0 by {
        if s[i].0 == s[j].0 {
            assert(m.contains_key(*v[i].0));
            assert(m.contains_key(*v[j].0));
            assert(v[i] == v[j]);
        }
    }
}

/// Relies on `BTreeMap::get_mut`: a mutable reference to the value under
/// `key`, or `None` when the key is absent.
#[verifier::external_body]
fn btree_map_get_mut<'a, K: Ord, V>(m: &'a mut BTreeMap<K, V>, key: &K) -> (r: Option<&'a mut V>)
    requires
        obeys_cmp::<K>(),
    ensures
        match r {
            Some(v) => {
                &&& old(m)@.contains_key(*key)
                &&& *v == old(m)@[*key]
                &&& final(m)@ == old(m)@.insert(*key, *final(v))
            },
            None => !old(m)@.contains_key(*key) && final(m)@ == old(m)@,
        },
{
    m.get_mut(key)
}

/// Relies on `HashMap::get_mut`: a mutable reference to the value under
/// `key`, or `None` when the key is absent.
#[verifier::external_body]
fn hash_map_get_mut<'a, K: Hash + Eq, V>(m: &'a mut HashMap<K, V>, key: &K) -> (r: Option<&'a mut V>)
    requires
        obeys_key_model::<K>(),
    ensures
        match r {
            Some(v) => {
                &&& old(m)@.contains_key(*key)
                &&& *v == old(m)@[*key]
                &&& final(m)@ == old(m)@.insert(*key, *final(v))
            },
            None => !old(m)@.contains_key(*key) && final(m)@ == old(m)@,
        },
{
    m.get_mut(key)
}

/// Relies on `Vec::from_iter` over the consuming iterator of `BTreeMap`,
/// which yields every pair of the map once, in increasing key order.
#[verifier::external_body]
fn btree_map_into_vec<K: Ord, V>(m: BTreeMap<K, V>) -> (r: Vec<(K, V)>)
    requires
        obeys_cmp::<K>(),
    ensures
        lists_map(r@, m@),
        sorted_by_key(r@),
{
    Vec::from_iter(m)
}

/// Relies on `Vec::from_iter` over the consuming iterator of `HashMap`,
/// which yields every pair of the map once, in an unspecified order.
#[verifier::external_body]
fn hash_map_into_vec<K: Hash + Eq, V>(m: HashMap<K, V>) -> (r: Vec<(K, V)>)
    requires
        obeys_key_model::<K>(),
    ensures
        lists_map(r@, m@),
{
    Vec::from_iter(m)
}

/// Relies on `Vec::from_iter` over `BTreeMap::iter_mut`, which yields every
/// pair of the map once, in increasing key order, with a mutable reference
/// to the value.
#[verifier::external_body]
fn btree_map_entries_mut<'a, K: Ord, V>(m: &'a mut BTreeMap<K, V>) -> (r: Vec<(&'a K, &'a mut V)>)
    requires
        obeys_cmp::<K>(),
    ensures
        lists_map(r@.map_values(|p: (&K, &mut V)| (*p.0, *p.1)), old(m)@),
        sorted_by_key(r@.map_values(|p: (&K, &mut V)| (*p.0, *p.1))),
{
    Vec::from_iter(m)
}

/// Relies on `Vec::from_iter` over `HashMap::iter_mut`, which yields every
/// pair of the map once, in an unspecified order, with a mutable reference
/// to the value.
#[verifier::external_body]
fn hash_map_entries_mut<'a, K: Hash + Eq, V>(m: &'a mut HashMap<K, V>) -> (r: Vec<(&'a K, &'a mut V)>)
    requires
        obeys_key_model::<K>(),
    ensures
        lists_map(r@.map_values(|p: (&K, &mut V)| (*p.0, *p.1)), old(m)@),
{
    Vec::from_iter(m)
}

/// The storage behind an expiring map: one of a closed set of std maps,
/// chosen at construction and kept for the map's whole life.
pub enum GenericMap<K, V> {
    BTreeMap(BTreeMap<K, V>),
    HashMap(HashMap<K, V>),
}

impl<K, V> View for GenericMap<K, V> {
    type V = Map<K, V>;

    open spec fn view(&self) -> Map<K, V> {
        match self {
            GenericMap::BTreeMap(m) => m@,
            GenericMap::HashMap(m) => m@,
        }
    }
}

impl<K, V> GenericMap<K, V> {
    /// Whether the backend walks its keys in increasing order.
    pub open spec fn is_ordered(&self) -> bool {
        self is BTreeMap
    }
}

impl<K: Ord + Hash + Eq, V> GenericMap<K, V> {
    pub fn new_btree_map() -> (r: Self)
        ensures
            r@ == Map::<K, V>::empty(),
            r.is_ordered(),
    {
        GenericMap::BTreeMap(BTreeMap::new())
    }

    pub fn new_hash_map() -> (r: Self)
        ensures
            r@ == Map::<K, V>::empty(),
            !r.is_ordered(),
    {
        GenericMap::HashMap(HashMap::new())
    }

    pub fn len(&self) -> (r: usize)
        requires
            valid_key::<K>(),
        ensures
            r == self@.len(),
    {
        match self {
            GenericMap::BTreeMap(m) => m.len(),
            GenericMap::HashMap(m) => m.len(),
        }
    }

    pub fn get(&self, key: &K) -> (r: Option<&V>)
        requires
            valid_key::<K>(),
        ensures
            match r {
                Some(v) => self@.contains_key(*key) && *v == self@[*key],
                None => !self@.contains_key(*key),
            },
    {
        match self {
            GenericMap::BTreeMap(m) => m.get(key),
            GenericMap::HashMap(m) => m.get(key),
        }
    }

    pub fn get_mut(&mut self, key: &K) -> (r: Option<&mut V>)
        requires
            valid_key::<K>(),
        ensures
            final(self).is_ordered() == old(self).is_ordered(),
            match r {
                Some(v) => {
                    &&& old(self)@.contains_key(*key)
                    &&& *v == old(self)@[*key]
                    &&& final(self)@ == old(self)@.insert(*key, *final(v))
                },
                None => !old(self)@.contains_key(*key) && final(self)@ == old(self)@,
            },
    {
        match self {
            GenericMap::BTreeMap(m) => btree_map_get_mut(m, key),
            GenericMap::HashMap(m) => hash_map_get_mut(m, key),
        }
    }

    pub fn insert(&mut self, key: K, value: V) -> (r: Option<V>)
        requires
            valid_key::<K>(),
        ensures
            final(self)@ == old(self)@.insert(key, value),
            final(self).is_ordered() == old(self).is_ordered(),
            match r {
                Some(v) => old(self)@.contains_key(key) && v == old(self)@[key],
                None => !old(self)@.contains_key(key),
            },
    {
        match self {
            GenericMap::BTreeMap(m) => m.insert(key, value),
            GenericMap::HashMap(m) => m.insert(key, value),
        }
    }

    pub fn remove(&mut self, key: &K) -> (r: Option<V>)
        requires
            valid_key::<K>(),
        ensures
            final(self)@ == old(self)@.remove(*key),
            final(self).is_ordered() == old(self).is_ordered(),
            match r {
                Some(v) => old(self)@.contains_key(*key) && v == old(self)@[*key],
                None => !old(self)@.contains_key(*key),
            },
    {
        match self {
            GenericMap::BTreeMap(m) => m.remove(key),
            GenericMap::HashMap(m) => m.remove(key),
        }
    }

    /// Walks the pairs in the backend's own order: increasing keys for the
    /// ordered backend, an unspecified order for the hashed one.
    pub fn iter(&self) -> (r: GenericMapIter<'_, K, V>)
        requires
            valid_key::<K>(),
        ensures
            lists_map(r.remaining(), self@),
            self.is_ordered() ==> sorted_by_key(r.remaining()),
    {
        let mut items: Vec<(&K, &V)> = Vec::new();
        match self {
            GenericMap::BTreeMap(m) => {
                let ghost all = m.iter().remaining();
                for kv in it: m.iter()
                    invariant
                        it.seq() == all,
                        items@ == all.take(it.index()),
                {
                    items.push(kv);
                }
                proof {
                    assert(items@ == all);
                    lemma_listing(all, m@);
                    let keys = all.map_values(|kv: (&K, &V)| *kv.0);
                    assert(vstd::std_specs::btree::increasing_seq(keys));
                    let s = all.map_values(|p: (&K, &V)| (*p.0, *p.1));
                    assert forall|i: int, j: int| 0 <= i < j < s.len() implies s[i].0.cmp_spec(
                        &s[j].0,
                    ) is Less by {
                        assert(keys[i] == s[i].0);
                        assert(keys[j] == s[j].0);
                    }
                }
            },
            GenericMap::HashMap(m) => {
                let ghost all = m.iter().remaining();
                for kv in it: m.iter()
                    invariant
                        it.seq() == all,
                        items@ == all.take(it.index()),
                {
                    items.push(kv);
                }
                proof {
                    assert(items@ == all);
                    lemma_listing(all, m@);
                }
            },
        }
        GenericMapIter::new(items)
    }

    /// Walks the pairs in the backend's own order with mutable access to
    /// the values.
    pub fn iter_mut(&mut self) -> (r: GenericMapIterMut<'_, K, V>)
        requires
            valid_key::<K>(),
        ensures
            lists_map(r.remaining(), old(self)@),
            old(self).is_ordered() ==> sorted_by_key(r.remaining()),
    {
        match self {
            GenericMap::BTreeMap(m) => GenericMapIterMut::new(btree_map_entries_mut(m)),
            GenericMap::HashMap(m) => GenericMapIterMut::new(hash_map_entries_mut(m)),
        }
    }

    /// Moves the pairs out in the backend's own order.
    pub fn into_iter(self) -> (r: GenericMapIntoIter<K, V>)
        requires
            valid_key::<K>(),
        ensures
            lists_map(r.remaining(), self@),
            self.is_ordered() ==> sorted_by_key(r.remaining()),
    {
        match self {
            GenericMap::BTreeMap(m) => GenericMapIntoIter::new(btree_map_into_vec(m)),
            GenericMap::HashMap(m) => GenericMapIntoIter::new(hash_map_into_vec(m)),
        }
    }
}

} // verus!

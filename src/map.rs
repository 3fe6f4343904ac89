use crate::backend::{lists_map, sorted_by_key, valid_key, GenericMap};
use crate::entry::{expiry_after, ExpirableEntry};
use crate::iter::{
    lemma_live_items_members, lemma_live_items_pairwise, live_items, IntoIter, Iter, IterMut,
};
use std::hash::Hash;
use vstd::prelude::*;
use vstd::std_specs::cmp::OrdSpec;

verus! {

/// The live keys of `m` at `now`, with their values.
pub open spec fn live_map<K, V>(m: Map<K, ExpirableEntry<V>>, now: u64) -> Map<K, V> {
    Map::new(
        |k: K| m.contains_key(k) && !m[k].spec_is_expired(now),
        |k: K| m[k].spec_value(),
    )
}

/// Keeping the live pairs of a listing of `m` lists the live part of `m`,
/// in the same order.
proof fn lemma_live_listing<K: Ord, V>(
    s: Seq<(K, ExpirableEntry<V>)>,
    m: Map<K, ExpirableEntry<V>>,
    now: u64,
    ordered: bool,
)
    requires
        lists_map(s, m),
        ordered ==> sorted_by_key(s),
    ensures
        lists_map(live_items(s, now), live_map(m, now)),
        ordered ==> sorted_by_key(live_items(s, now)),
{
    let out = live_items(s, now);
    let lv = live_map(m, now);
    lemma_live_items_members(s, now);
    lemma_live_items_pairwise(s, now, |a: K, b: K| a != b);
    if ordered {
        lemma_live_items_pairwise(s, now, |a: K, b: K| a.cmp_spec(&b) is Less);
    }
    assert forall|i: int| 0 <= i < out.len() implies #[trigger] lv.contains_key(out[i].0)
        && lv[out[i].0] == out[i].1 by {
        let j = choose|j: int|
            0 <= j < s.len() && s[j].0 == #[trigger] out[i].0 && !s[j].1.spec_is_expired(now)
                && out[i].1 == s[j].1.spec_value();
        assert(m.contains_key(s[j].0));
    }
    assert forall|k: K| #[trigger] lv.contains_key(k) implies exists|i: int|
        0 <= i < out.len() && out[i].0 == k by {
        let j = choose|j: int| 0 <= j < s.len() && s[j].0 == k;
        assert(m.contains_key(s[j].0) && m[s[j].0] == s[j].1);
        let i = choose|i: int| 0 <= i < out.len() && out[i] == (s[j].0, s[j].1.spec_value());
        assert(out[i].0 == k);
    }
}

/// A map whose entries stop being visible once their expiry instant is
/// reached. Expired entries stay stored until removed; every read takes the
/// current instant and treats them as absent.
pub struct ExpiringMap<K, V> {
    inner: GenericMap<K, ExpirableEntry<V>>,
}

impl<K, V> View for ExpiringMap<K, V> {
    type V = Map<K, ExpirableEntry<V>>;

    /// Every stored entry, expired or not.
    closed spec fn view(&self) -> Map<K, ExpirableEntry<V>> {
        self.inner@
    }
}

impl<K, V> ExpiringMap<K, V> {
    /// Whether the backend keeps its keys in increasing order.
    pub closed spec fn is_ordered(&self) -> bool {
        self.inner.is_ordered()
    }

    /// Whether `key` holds an entry that is not expired at `now`.
    pub open spec fn is_live(&self, key: K, now: u64) -> bool {
        self@.contains_key(key) && !self@[key].spec_is_expired(now)
    }

    /// The map as a reader sees it at `now`: the live keys with their values.
    pub open spec fn live_view(&self, now: u64) -> Map<K, V> {
        live_map(self@, now)
    }
}

impl<K: Ord + Hash + Eq, V> ExpiringMap<K, V> {
    /// An empty map stored in an ordered tree.
    pub fn new_btree_map() -> (r: Self)
        ensures
            r@ == Map::<K, ExpirableEntry<V>>::empty(),
            r.is_ordered(),
    {
        ExpiringMap { inner: GenericMap::new_btree_map() }
    }

    /// An empty map stored in a hash table.
    pub fn new_hash_map() -> (r: Self)
        ensures
            r@ == Map::<K, ExpirableEntry<V>>::empty(),
            !r.is_ordered(),
    {
        ExpiringMap { inner: GenericMap::new_hash_map() }
    }

    /// The number of stored entries, expired ones included.
    pub fn len(&self) -> (r: usize)
        requires
            valid_key::<K>(),
        ensures
            r == self@.len(),
    {
        self.inner.len()
    }

    /// Stores `value` under `key`, to expire `ttl` units after `now`, and
    /// returns the value it replaces, whether or not that one had expired.
    pub fn insert(&mut self, key: K, value: V, ttl: u64, now: u64) -> (r: Option<V>)
        requires
            valid_key::<K>(),
        ensures
            final(self)@.contains_key(key),
            final(self)@[key].spec_value() == value,
            final(self)@[key].spec_expires_at() == expiry_after(now, ttl),
            final(self)@.remove(key) == old(self)@.remove(key),
            final(self).is_ordered() == old(self).is_ordered(),
            match r {
                Some(v) => old(self)@.contains_key(key) && v == old(self)@[key].spec_value(),
                None => !old(self)@.contains_key(key),
            },
    {
        let entry = ExpirableEntry::with_ttl(value, ttl, now);
        let r = match self.inner.insert(key, entry) {
            Some(e) => Some(e.owned_value()),
            None => None,
        };
        proof {
            assert(final(self)@.remove(key) =~= old(self)@.remove(key));
        }
        r
    }

    /// The value under `key` if its entry is live at `now`. An expired entry
    /// is left in place.
    pub fn get(&self, key: &K, now: u64) -> (r: Option<&V>)
        requires
            valid_key::<K>(),
        ensures
            match r {
                Some(v) => self.is_live(*key, now) && *v == self@[*key].spec_value(),
                None => !self.is_live(*key, now),
            },
    {
        match self.inner.get(key) {
            Some(e) => {
                if e.is_expired(now) {
                    None
                } else {
                    Some(e.value())
                }
            },
            None => None,
        }
    }

    /// Mutable access to the value under `key` if its entry is live at
    /// `now`; the entry keeps its expiry instant.
    pub fn get_mut(&mut self, key: &K, now: u64) -> (r: Option<&mut V>)
        requires
            valid_key::<K>(),
        ensures
            final(self).is_ordered() == old(self).is_ordered(),
            match r {
                Some(v) => {
                    &&& old(self).is_live(*key, now)
                    &&& *v == old(self)@[*key].spec_value()
                    &&& final(self)@.contains_key(*key)
                    &&& final(self)@[*key].spec_value() == *final(v)
                    &&& final(self)@[*key].spec_expires_at() == old(self)@[*key].spec_expires_at()
                    &&& final(self)@.remove(*key) == old(self)@.remove(*key)
                },
                None => !old(self).is_live(*key, now) && final(self)@ == old(self)@,
            },
    {
        match self.inner.get_mut(key) {
            Some(e) => {
                if e.is_expired(now) {
                    None
                } else {
                    Some(e.value_mut())
                }
            },
            None => None,
        }
    }

    /// Whether `key` holds an entry that is live at `now`.
    pub fn contains_key(&self, key: &K, now: u64) -> (r: bool)
        requires
            valid_key::<K>(),
        ensures
            r == self.is_live(*key, now),
    {
        match self.inner.get(key) {
            Some(e) => !e.is_expired(now),
            None => false,
        }
    }

    /// Takes the entry under `key` out of the map and returns its value,
    /// whether or not it had expired.
    pub fn remove(&mut self, key: &K) -> (r: Option<V>)
        requires
            valid_key::<K>(),
        ensures
            final(self)@ == old(self)@.remove(*key),
            final(self).is_ordered() == old(self).is_ordered(),
            match r {
                Some(v) => old(self)@.contains_key(*key) && v == old(self)@[*key].spec_value(),
                None => !old(self)@.contains_key(*key),
            },
    {
        match self.inner.remove(key) {
            Some(e) => Some(e.owned_value()),
            None => None,
        }
    }

    /// Walks the pairs that are live at `now`, each once: in increasing key
    /// order for an ordered map, in an unspecified order otherwise.
    pub fn iter(&self, now: u64) -> (r: Iter<'_, K, V>)
        requires
            valid_key::<K>(),
        ensures
            r.spec_now() == now,
            lists_map(r.remaining(), self.live_view(now)),
            self.is_ordered() ==> sorted_by_key(r.remaining()),
    {
        let inner = self.inner.iter();
        let r = Iter::new(inner, now);
        proof {
            lemma_live_listing(inner.remaining(), self@, now, self.is_ordered());
        }
        r
    }

    /// Walks the pairs that are live at `now` with mutable access to their
    /// values, in the same order as `iter`.
    pub fn iter_mut(&mut self, now: u64) -> (r: IterMut<'_, K, V>)
        requires
            valid_key::<K>(),
        ensures
            r.spec_now() == now,
            lists_map(r.remaining(), old(self).live_view(now)),
            old(self).is_ordered() ==> sorted_by_key(r.remaining()),
    {
        let inner = self.inner.iter_mut();
        proof {
            lemma_live_listing(inner.remaining(), old(self)@, now, old(self).is_ordered());
        }
        IterMut::new(inner, now)
    }

    /// Moves out the pairs that are live at `now`, in the same order as
    /// `iter`; expired entries are dropped.
    pub fn into_iter(self, now: u64) -> (r: IntoIter<K, V>)
        requires
            valid_key::<K>(),
        ensures
            r.spec_now() == now,
            lists_map(r.remaining(), self.live_view(now)),
            self.is_ordered() ==> sorted_by_key(r.remaining()),
    {
        let ghost m = self@;
        let ghost ordered = self.is_ordered();
        let inner = self.inner.into_iter();
        proof {
            lemma_live_listing(inner.remaining(), m, now, ordered);
        }
        IntoIter::new(inner, now)
    }
}

/// A stored key reads as present at every instant before its expiry instant
/// and as absent at that instant and every later one: once a read at some
/// instant finds it absent, no read at a later instant finds it present.
pub proof fn lemma_expiry_threshold<K, V>(m: &ExpiringMap<K, V>, key: K, t1: u64, t2: u64)
    requires
        m@.contains_key(key),
        t1 <= t2,
    ensures
        m.is_live(key, t1) <==> t1 < m@[key].spec_expires_at(),
        m.is_live(key, t2) ==> m.is_live(key, t1),
        !m.is_live(key, t1) ==> !m.is_live(key, t2),
{
}

} // verus!

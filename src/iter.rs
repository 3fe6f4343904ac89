use crate::entry::ExpirableEntry;
use vstd::prelude::*;

verus! {

/// The pairs of a backend, in the backend's own order, handed out one at a
/// time.
pub struct GenericMapIter<'a, K, V> {
    items: Vec<(&'a K, &'a V)>,
    pos: usize,
}

impl<'a, K, V> GenericMapIter<'a, K, V> {
    #[verifier::type_invariant]
    closed spec fn inv(&self) -> bool {
        self.pos <= self.items.len()
    }

    /// The pairs that are still to come.
    pub closed spec fn remaining(&self) -> Seq<(K, V)> {
        self.items@.subrange(self.pos as int, self.items.len() as int).map_values(
            |p: (&K, &V)| (*p.0, *p.1),
        )
    }

    pub fn new(items: Vec<(&'a K, &'a V)>) -> (r: Self)
        ensures
            r.remaining() == items@.map_values(|p: (&K, &V)| (*p.0, *p.1)),
    {
        let r = GenericMapIter { items, pos: 0 };
        assert(r.items@.subrange(0, r.items.len() as int) == r.items@);
        r
    }

    pub fn next(&mut self) -> (r: Option<(&'a K, &'a V)>)
        ensures
            old(self).remaining().len() > 0 ==> {
                &&& r matches Some(kv) && (*kv.0, *kv.1) == old(self).remaining()[0]
                &&& final(self).remaining() == old(self).remaining().drop_first()
            },
            old(self).remaining().len() == 0 ==> r is None && final(self).remaining() == old(
                self,
            ).remaining(),
    {
        proof {
            use_type_invariant(&*self);
        }
        if self.pos < self.items.len() {
            let kv = self.items[self.pos];
            self.pos = self.pos + 1;
            assert(self.remaining() =~= old(self).remaining().drop_first());
            Some(kv)
        } else {
            None
        }
    }
}

/// The elements of `v` in the opposite order.
fn reversed<T>(v: Vec<T>) -> (r: Vec<T>)
    ensures
        r@ == v@.reverse(),
{
    let ghost v0 = v@;
    let mut v = v;
    let mut r: Vec<T> = Vec::new();
    while v.len() > 0
        invariant
            v@.len() <= v0.len(),
            v@ == v0.subrange(0, v@.len() as int),
            r@ == v0.subrange(v@.len() as int, v0.len() as int).reverse(),
        decreases v@.len(),
    {
        let ghost n = v@.len() as int;
        match v.pop() {
            Some(x) => {
                r.push(x);
                assert(x == v0[n - 1]);
                assert(v@ =~= v0.subrange(0, n - 1));
                assert(r@ =~= v0.subrange(n - 1, v0.len() as int).reverse());
            },
            None => {},
        }
    }
    assert(v0.subrange(0, v0.len() as int) =~= v0);
    r
}

/// The pairs of a backend, in the backend's own order, each handed out with
/// a mutable reference to its value.
pub struct GenericMapIterMut<'a, K, V> {
    rev: Vec<(&'a K, &'a mut V)>,
}

impl<'a, K, V> GenericMapIterMut<'a, K, V> {
    /// The pairs that are still to come, with the values they hold now.
    pub closed spec fn remaining(&self) -> Seq<(K, V)> {
        self.rev@.reverse().map_values(|p: (&K, &mut V)| (*p.0, *p.1))
    }

    pub fn new(items: Vec<(&'a K, &'a mut V)>) -> (r: Self)
        ensures
            r.remaining() == items@.map_values(|p: (&K, &mut V)| (*p.0, *p.1)),
    {
        let r = GenericMapIterMut { rev: reversed(items) };
        assert(r.rev@.reverse() =~= items@);
        r
    }

    pub fn next(&mut self) -> (r: Option<(&'a K, &'a mut V)>)
        ensures
            old(self).remaining().len() > 0 ==> {
                &&& r matches Some(kv) && (*kv.0, *kv.1) == old(self).remaining()[0]
                &&& final(self).remaining() == old(self).remaining().drop_first()
            },
            old(self).remaining().len() == 0 ==> r is None && final(self).remaining() == old(
                self,
            ).remaining(),
    {
        let r = self.rev.pop();
        proof {
            if old(self).rev@.len() > 0 {
                assert(self.rev@.reverse() =~= old(self).rev@.reverse().drop_first());
            }
        }
        r
    }
}

/// The pairs of a backend, in the backend's own order, moved out one at a
/// time.
pub struct GenericMapIntoIter<K, V> {
    rev: Vec<(K, V)>,
}

impl<K, V> GenericMapIntoIter<K, V> {
    /// The pairs that are still to come.
    pub closed spec fn remaining(&self) -> Seq<(K, V)> {
        self.rev@.reverse()
    }

    pub fn new(items: Vec<(K, V)>) -> (r: Self)
        ensures
            r.remaining() == items@,
    {
        let r = GenericMapIntoIter { rev: reversed(items) };
        assert(r.rev@.reverse() =~= items@);
        r
    }

    pub fn next(&mut self) -> (r: Option<(K, V)>)
        ensures
            old(self).remaining().len() > 0 ==> {
                &&& r == Some(old(self).remaining()[0])
                &&& final(self).remaining() == old(self).remaining().drop_first()
            },
            old(self).remaining().len() == 0 ==> r is None && final(self).remaining() == old(
                self,
            ).remaining(),
    {
        let r = self.rev.pop();
        proof {
            if old(self).rev@.len() > 0 {
                assert(self.rev@.reverse() =~= old(self).rev@.reverse().drop_first());
            }
        }
        r
    }
}

/// Walks the live pairs of a map, judging expiry against one instant fixed
/// when the walk began.
pub struct Iter<'a, K, V> {
    inner: GenericMapIter<'a, K, ExpirableEntry<V>>,
    now: u64,
}

impl<'a, K, V> Iter<'a, K, V> {
    /// The instant against which this walk judges expiry.
    pub closed spec fn spec_now(&self) -> u64 {
        self.now
    }

    /// The pairs that the walk will still hand out, in order.
    pub closed spec fn remaining(&self) -> Seq<(K, V)> {
        live_items(self.inner.remaining(), self.now)
    }

    pub fn new(inner: GenericMapIter<'a, K, ExpirableEntry<V>>, now: u64) -> (r: Self)
        ensures
            r.spec_now() == now,
            r.remaining() == live_items(inner.remaining(), now),
    {
        Iter { inner, now }
    }

    pub fn now(&self) -> (r: u64)
        ensures
            r == self.spec_now(),
    {
        self.now
    }

    /// Hands out the next pair whose entry is live at the walk's instant,
    /// passing over expired ones.
    pub fn next(&mut self) -> (r: Option<(&'a K, &'a V)>)
        ensures
            final(self).spec_now() == old(self).spec_now(),
            old(self).remaining().len() > 0 ==> {
                &&& r matches Some(kv) && (*kv.0, *kv.1) == old(self).remaining()[0]
                &&& final(self).remaining() == old(self).remaining().drop_first()
            },
            old(self).remaining().len() == 0 ==> r is None && final(self).remaining() == old(
                self,
            ).remaining(),
    {
        loop
            invariant
                self.now == old(self).now,
                live_items(self.inner.remaining(), self.now) == old(self).remaining(),
            decreases self.inner.remaining().len(),
        {
            match self.inner.next() {
                None => {
                    return None;
                },
                Some((k, e)) => {
                    if !e.is_expired(self.now) {
                        return Some((k, e.value()));
                    }
                },
            }
        }
    }
}

/// Walks the live pairs of a map with mutable access to their values,
/// judging expiry against one instant fixed when the walk began.
pub struct IterMut<'a, K, V> {
    inner: GenericMapIterMut<'a, K, ExpirableEntry<V>>,
    now: u64,
}

impl<'a, K, V> IterMut<'a, K, V> {
    /// The instant against which this walk judges expiry.
    pub closed spec fn spec_now(&self) -> u64 {
        self.now
    }

    /// The pairs that the walk will still hand out, in order.
    pub closed spec fn remaining(&self) -> Seq<(K, V)> {
        live_items(self.inner.remaining(), self.now)
    }

    pub fn new(inner: GenericMapIterMut<'a, K, ExpirableEntry<V>>, now: u64) -> (r: Self)
        ensures
            r.spec_now() == now,
            r.remaining() == live_items(inner.remaining(), now),
    {
        IterMut { inner, now }
    }

    pub fn now(&self) -> (r: u64)
        ensures
            r == self.spec_now(),
    {
        self.now
    }

    /// Hands out the next pair whose entry is live at the walk's instant,
    /// passing over expired ones.
    pub fn next(&mut self) -> (r: Option<(&'a K, &'a mut V)>)
        ensures
            final(self).spec_now() == old(self).spec_now(),
            old(self).remaining().len() > 0 ==> {
                &&& r matches Some(kv) && (*kv.0, *kv.1) == old(self).remaining()[0]
                &&& final(self).remaining() == old(self).remaining().drop_first()
            },
            old(self).remaining().len() == 0 ==> r is None && final(self).remaining() == old(
                self,
            ).remaining(),
    {
        loop
            invariant
                self.now == old(self).now,
                live_items(self.inner.remaining(), self.now) == old(self).remaining(),
            decreases self.inner.remaining().len(),
        {
            match self.inner.next() {
                None => {
                    return None;
                },
                Some((k, e)) => {
                    if !e.is_expired(self.now) {
                        return Some((k, e.value_mut()));
                    }
                },
            }
        }
    }
}

/// Moves the live pairs out of a map, judging expiry against one instant
/// fixed when the walk began.
pub struct IntoIter<K, V> {
    inner: GenericMapIntoIter<K, ExpirableEntry<V>>,
    now: u64,
}

impl<K, V> IntoIter<K, V> {
    /// The instant against which this walk judges expiry.
    pub closed spec fn spec_now(&self) -> u64 {
        self.now
    }

    /// The pairs that the walk will still hand out, in order.
    pub closed spec fn remaining(&self) -> Seq<(K, V)> {
        live_items(self.inner.remaining(), self.now)
    }

    pub fn new(inner: GenericMapIntoIter<K, ExpirableEntry<V>>, now: u64) -> (r: Self)
        ensures
            r.spec_now() == now,
            r.remaining() == live_items(inner.remaining(), now),
    {
        IntoIter { inner, now }
    }

    pub fn now(&self) -> (r: u64)
        ensures
            r == self.spec_now(),
    {
        self.now
    }

    /// Hands out the next pair whose entry is live at the walk's instant,
    /// dropping expired ones on the way.
    pub fn next(&mut self) -> (r: Option<(K, V)>)
        ensures
            final(self).spec_now() == old(self).spec_now(),
            old(self).remaining().len() > 0 ==> {
                &&& r == Some(old(self).remaining()[0])
                &&& final(self).remaining() == old(self).remaining().drop_first()
            },
            old(self).remaining().len() == 0 ==> r is None && final(self).remaining() == old(
                self,
            ).remaining(),
    {
        loop
            invariant
                self.now == old(self).now,
                live_items(self.inner.remaining(), self.now) == old(self).remaining(),
            decreases self.inner.remaining().len(),
        {
            match self.inner.next() {
                None => {
                    return None;
                },
                Some((k, e)) => {
                    if !e.is_expired(self.now) {
                        return Some((k, e.owned_value()));
                    }
                },
            }
        }
    }
}

/// The pairs of `s` whose entry is not expired at `now`, in the order of
/// `s`, each with the entry's value.
pub open spec fn live_items<K, V>(s: Seq<(K, ExpirableEntry<V>)>, now: u64) -> Seq<(K, V)>
    decreases s.len(),
{
    if s.len() == 0 {
        Seq::empty()
    } else {
        let rest = live_items(s.drop_first(), now);
        if s[0].1.spec_is_expired(now) {
            rest
        } else {
            seq![(s[0].0, s[0].1.spec_value())] + rest
        }
    }
}

/// Each pair kept by `live_items` comes from a live entry of `s`, and each
/// live entry of `s` is kept.
pub proof fn lemma_live_items_members<K, V>(s: Seq<(K, ExpirableEntry<V>)>, now: u64)
    ensures
        forall|i: int|
            0 <= i < live_items(s, now).len() ==> exists|j: int|
                0 <= j < s.len() && s[j].0 == #[trigger] live_items(s, now)[i].0
                    && !s[j].1.spec_is_expired(now) && live_items(s, now)[i].1
                    == s[j].1.spec_value(),
        forall|j: int|
            0 <= j < s.len() && !(#[trigger] s[j]).1.spec_is_expired(now) ==> exists|i: int|
                0 <= i < live_items(s, now).len() && live_items(s, now)[i] == (
                    s[j].0,
                    s[j].1.spec_value(),
                ),
    decreases s.len(),
{
    if s.len() > 0 {
        let t = s.drop_first();
        lemma_live_items_members(t, now);
        let out = live_items(s, now);
        let rest = live_items(t, now);
        assert forall|i: int| 0 <= i < out.len() implies exists|j: int|
            0 <= j < s.len() && s[j].0 == #[trigger] out[i].0 && !s[j].1.spec_is_expired(now)
                && out[i].1 == s[j].1.spec_value() by {
            if s[0].1.spec_is_expired(now) {
                let j = choose|j: int|
                    0 <= j < t.len() && t[j].0 == #[trigger] rest[i].0
                        && !t[j].1.spec_is_expired(now) && rest[i].1 == t[j].1.spec_value();
                assert(s[j + 1] == t[j]);
            } else if i == 0 {
                assert(out[0] == (s[0].0, s[0].1.spec_value()));
            } else {
                assert(out[i] == rest[i - 1]);
                let j = choose|j: int|
                    0 <= j < t.len() && t[j].0 == #[trigger] rest[i - 1].0
                        && !t[j].1.spec_is_expired(now) && rest[i - 1].1 == t[j].1.spec_value();
                assert(s[j + 1] == t[j]);
            }
        }
        assert forall|j: int| 0 <= j < s.len() && !(#[trigger] s[j]).1.spec_is_expired(now) implies exists|i: int|
            0 <= i < out.len() && out[i] == (s[j].0, s[j].1.spec_value()) by {
            if j == 0 {
                assert(out[0] == (s[0].0, s[0].1.spec_value()));
            } else {
                assert(t[j - 1] == s[j]);
                let i = choose|i: int|
                    0 <= i < rest.len() && rest[i] == (t[j - 1].0, t[j - 1].1.spec_value());
                if s[0].1.spec_is_expired(now) {
                    assert(out[i] == rest[i]);
                } else {
                    assert(out[i + 1] == rest[i]);
                }
            }
        }
    }
}

/// A relation that holds between the keys of any two pairs of `s`, in
/// order, also holds between those of any two pairs kept by `live_items`.
pub proof fn lemma_live_items_pairwise<K, V>(
    s: Seq<(K, ExpirableEntry<V>)>,
    now: u64,
    r: spec_fn(K, K) -> bool,
)
    requires
        forall|i: int, j: int| #![trigger s[i], s[j]] 0 <= i < j < s.len() ==> r(s[i].0, s[j].0),
    ensures
        forall|i: int, j: int|
            #![trigger live_items(s, now)[i], live_items(s, now)[j]]
            0 <= i < j < live_items(s, now).len() ==> r(
                live_items(s, now)[i].0,
                live_items(s, now)[j].0,
            ),
    decreases s.len(),
{
    if s.len() > 0 {
        let t = s.drop_first();
        assert forall|i: int, j: int| #![trigger t[i], t[j]] 0 <= i < j < t.len() implies r(
            t[i].0,
            t[j].0,
        ) by {
            assert(t[i] == s[i + 1] && t[j] == s[j + 1]);
        }
        lemma_live_items_pairwise(t, now, r);
        lemma_live_items_members(t, now);
        let out = live_items(s, now);
        let rest = live_items(t, now);
        if !s[0].1.spec_is_expired(now) {
            assert forall|i: int, j: int|
                #![trigger out[i], out[j]]
                0 <= i < j < out.len() implies r(out[i].0, out[j].0) by {
                assert(out[j] == rest[j - 1]);
                if i == 0 {
                    let k = choose|k: int|
                        0 <= k < t.len() && t[k].0 == #[trigger] rest[j - 1].0
                            && !t[k].1.spec_is_expired(now) && rest[j - 1].1
                            == t[k].1.spec_value();
                    assert(t[k] == s[k + 1]);
                } else {
                    assert(out[i] == rest[i - 1]);
                }
            }
        }
    }
}

} // verus!

use vstd::prelude::*;

verus! {

/// A stored value together with the instant at which it stops being visible.
pub struct ExpirableEntry<V> {
    value: V,
    expires_at: u64,
}

impl<V> ExpirableEntry<V> {
    /// The wrapped value.
    pub closed spec fn spec_value(&self) -> V {
        self.value
    }

    /// The instant from which the entry counts as expired.
    pub closed spec fn spec_expires_at(&self) -> u64 {
        self.expires_at
    }

    /// An entry is expired at `now` once `now` has reached its expiry instant.
    pub open spec fn spec_is_expired(&self, now: u64) -> bool {
        now >= self.spec_expires_at()
    }

    pub fn new(value: V, expires_at: u64) -> (r: Self)
        ensures
            r.spec_value() == value,
            r.spec_expires_at() == expires_at,
    {
        ExpirableEntry { value, expires_at }
    }

    /// Builds an entry that lives for `ttl` time units from `now`; an expiry
    /// past the largest instant is clamped to it.
    pub fn with_ttl(value: V, ttl: u64, now: u64) -> (r: Self)
        ensures
            r.spec_value() == value,
            r.spec_expires_at() == expiry_after(now, ttl),
    {
        ExpirableEntry { value, expires_at: now.saturating_add(ttl) }
    }

    pub fn expires_at(&self) -> (r: u64)
        ensures
            r == self.spec_expires_at(),
    {
        self.expires_at
    }

    pub fn is_expired(&self, now: u64) -> (r: bool)
        ensures
            r == self.spec_is_expired(now),
    {
        now >= self.expires_at
    }

    pub fn value(&self) -> (r: &V)
        ensures
            *r == self.spec_value(),
    {
        &self.value
    }

    pub fn value_mut(&mut self) -> (r: &mut V)
        ensures
            *r == old(self).spec_value(),
            final(self).spec_value() == *final(r),
            final(self).spec_expires_at() == old(self).spec_expires_at(),
    {
        &mut self.value
    }

    pub fn owned_value(self) -> (r: V)
        ensures
            r == self.spec_value(),
    {
        self.value
    }
}

/// The expiry instant of an entry that lives `ttl` units from `now`, clamped
/// to the largest representable instant.
pub open spec fn expiry_after(now: u64, ttl: u64) -> u64 {
    if now + ttl > u64::MAX {
        u64::MAX
    } else {
        (now + ttl) as u64
    }
}

} // verus!

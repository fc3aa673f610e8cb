//! Keyed fallback caches: the last successful answer per key, served when a
//! fresh fetch fails.

use vstd::prelude::*;
use crate::quote::QuoteResponse;

verus! {

/// A key compared by its view.
pub trait CacheKey: View + Sized {
    fn same_key(&self, other: &Self) -> (r: bool)
        ensures
            r == (self@ == other@);
}

/// A value that can hand out a copy of itself.
pub trait CacheValue: View + Sized {
    fn copy_value(&self) -> (r: Self)
        ensures
            r@ == self@;
}

impl CacheKey for String {
    fn same_key(&self, other: &Self) -> (r: bool) {
        *self == *other
    }
}

impl CacheKey for (String, i64) {
    fn same_key(&self, other: &Self) -> (r: bool) {
        self.0 == other.0 && self.1 == other.1
    }
}

impl CacheValue for i64 {
    fn copy_value(&self) -> (r: Self) {
        *self
    }
}

impl CacheValue for i128 {
    fn copy_value(&self) -> (r: Self) {
        *self
    }
}

impl CacheValue for crate::dashboard::Trend {
    fn copy_value(&self) -> (r: Self) {
        *self
    }
}

impl CacheValue for String {
    fn copy_value(&self) -> (r: Self) {
        self.clone()
    }
}

impl CacheValue for QuoteResponse {
    fn copy_value(&self) -> (r: Self) {
        self.duplicate()
    }
}

/// Mapping from key to last-known-good value. Entries are written only on a
/// successful fetch and never expire. The entries are kept in a vector and
/// compared by their views: the keys are text (and text with a day), for
/// which a hashed map's lookups give no usable statement about the view.
pub struct FallbackCache<K: CacheKey, V: CacheValue> {
    entries: Vec<(K, V)>,
    contents: Ghost<Map<K::V, V::V>>,
}

/// What `get_or_fetch` leaves in the cache and returns, given the cache's
/// contents, the key, and the outcome of the fresh fetch.
pub open spec fn fetch_step<KV, VV, E>(m: Map<KV, VV>, k: KV, fetched: Result<VV, E>) -> (Map<KV, VV>, Result<VV, E>) {
    match fetched {
        Ok(v) => (m.insert(k, v), Ok(v)),
        Err(e) => if m.contains_key(k) {
            (m, Ok(m[k]))
        } else {
            (m, Err(e))
        },
    }
}

/// View of a fetch outcome.
pub open spec fn outcome_view<V: View, E>(r: Result<V, E>) -> Result<V::V, E> {
    match r {
        Ok(v) => Ok(v@),
        Err(e) => Err(e),
    }
}

impl<K: CacheKey, V: CacheValue> View for FallbackCache<K, V> {
    type V = Map<K::V, V::V>;

    closed spec fn view(&self) -> Map<K::V, V::V> {
        self.contents@
    }
}

impl<K: CacheKey, V: CacheValue> FallbackCache<K, V> {
    pub closed spec fn wf(&self) -> bool {
        &&& forall|i: int, j: int|
            0 <= i < j < self.entries@.len() ==> (#[trigger] self.entries@[i]).0@ != (#[trigger] self.entries@[j]).0@
        &&& forall|i: int|
            0 <= i < self.entries@.len() ==> {
                &&& self.contents@.contains_key((#[trigger] self.entries@[i]).0@)
                &&& self.contents@[self.entries@[i].0@] == self.entries@[i].1@
            }
        &&& forall|k: K::V|
            #[trigger] self.contents@.contains_key(k) ==> exists|i: int|
                0 <= i < self.entries@.len() && (#[trigger] self.entries@[i]).0@ == k
    }

    pub fn new() -> (r: Self)
        ensures
            r.wf(),
            r@ == Map::<K::V, V::V>::empty(),
    {
        FallbackCache { entries: Vec::new(), contents: Ghost(Map::empty()) }
    }

    /// Number of keys held.
    pub fn len(&self) -> (r: usize)
        requires
            self.wf(),
        ensures
            r == self@.dom().len(),
    {
        proof {
            self.lemma_len();
        }
        self.entries.len()
    }

    proof fn lemma_len(&self)
        requires
            self.wf(),
        ensures
            self.entries@.len() == self@.dom().len(),
    {
        let keys = self.entries@.map_values(|e: (K, V)| e.0@);
        assert forall|i: int, j: int| 0 <= i < j < keys.len() implies keys[i] != keys[j] by {
            assert(keys[i] == self.entries@[i].0@);
            assert(keys[j] == self.entries@[j].0@);
        }
        assert(keys.no_duplicates());
        assert forall|k: K::V| #[trigger] self.contents@.dom().contains(k) <==> keys.to_set().contains(k) by {
            if self.contents@.contains_key(k) {
                let i = choose|i: int| 0 <= i < self.entries@.len() && (#[trigger] self.entries@[i]).0@ == k;
                assert(keys[i] == k);
            }
            if keys.to_set().contains(k) {
                let i = choose|i: int| 0 <= i < keys.len() && keys[i] == k;
                assert(self.entries@[i].0@ == k);
            }
        }
        assert(self.contents@.dom() =~= keys.to_set());
        keys.unique_seq_to_set();
    }

    /// Position of the entry for `key`, if any.
    fn find(&self, key: &K) -> (r: Option<usize>)
        requires
            self.wf(),
        ensures
            r matches Some(i) ==> i < self.entries@.len() && self.entries@[i as int].0@ == key@,
            r is None ==> !self@.contains_key(key@),
    {
        let mut i: usize = 0;
        while i < self.entries.len()
            invariant
                self.wf(),
                0 <= i <= self.entries@.len(),
                forall|j: int| 0 <= j < i ==> (#[trigger] self.entries@[j]).0@ != key@,
            decreases self.entries@.len() - i,
        {
            if self.entries[i].0.same_key(key) {
                return Some(i);
            }
            i = i + 1;
        }
        None
    }

    /// The stored value for `key`.
    pub fn lookup(&self, key: &K) -> (r: Option<V>)
        requires
            self.wf(),
        ensures
            r is Some <==> self@.contains_key(key@),
            r matches Some(v) ==> v@ == self@[key@],
    {
        match self.find(key) {
            Some(i) => Some(self.entries[i].1.copy_value()),
            None => None,
        }
    }

    /// Remembers `value` under `key`, replacing an earlier value.
    pub fn store(&mut self, key: K, value: V)
        requires
            old(self).wf(),
        ensures
            final(self).wf(),
            final(self)@ == old(self)@.insert(key@, value@),
    {
        let ghost kv = key@;
        let ghost vv = value@;
        match self.find(&key) {
            Some(i) => {
                self.entries.set(i, (key, value));
                self.contents = Ghost(self.contents@.insert(kv, vv));
                assert forall|k: K::V| #[trigger] self.contents@.contains_key(k) implies exists|j: int|
                    0 <= j < self.entries@.len() && (#[trigger] self.entries@[j]).0@ == k by {
                    if k != kv {
                        assert(old(self).contents@.contains_key(k));
                        let j = choose|j: int| 0 <= j < old(self).entries@.len() && (#[trigger] old(self).entries@[j]).0@ == k;
                        assert(self.entries@[j].0@ == k);
                    } else {
                        assert(self.entries@[i as int].0@ == k);
                    }
                }
            },
            None => {
                self.entries.push((key, value));
                self.contents = Ghost(self.contents@.insert(kv, vv));
                let ghost n: int = self.entries@.len() - 1;
                assert forall|k: K::V| #[trigger] self.contents@.contains_key(k) implies exists|j: int|
                    0 <= j < self.entries@.len() && (#[trigger] self.entries@[j]).0@ == k by {
                    if k != kv {
                        assert(old(self).contents@.contains_key(k));
                        let j = choose|j: int| 0 <= j < old(self).entries@.len() && (#[trigger] old(self).entries@[j]).0@ == k;
                        assert(self.entries@[j].0@ == k);
                    } else {
                        assert(self.entries@[n].0@ == k);
                    }
                }
            },
        }
        assert(self@ == self.contents@);
    }

    /// Fetch first: on success remember and return the fresh value; on
    /// failure return the remembered value for `key`, or the failure when
    /// there is none.
    pub fn get_or_fetch<E>(&mut self, key: K, fetched: Result<V, E>) -> (r: Result<V, E>)
        requires
            old(self).wf(),
        ensures
            final(self).wf(),
            (final(self)@, outcome_view(r)) == fetch_step(old(self)@, key@, outcome_view(fetched)),
    {
        match fetched {
            Ok(v) => {
                let kept = v.copy_value();
                self.store(key, kept);
                Ok(v)
            },
            Err(e) => match self.lookup(&key) {
                Some(v) => Ok(v),
                None => Err(e),
            },
        }
    }
}

/// A value remembered by a successful fetch is served when the next fetch of
/// the same key fails.
pub proof fn lemma_fallback_after_success<KV, VV, E>(m: Map<KV, VV>, k: KV, v: VV, e: E)
    ensures
        fetch_step(fetch_step(m, k, Ok::<VV, E>(v)).0, k, Err::<VV, E>(e)).1 == Ok::<VV, E>(v),
{
    assert(m.insert(k, v)[k] == v);
}

/// The four caches behind position resolution and historic aggregation.
pub struct QuoteCaches {
    /// ticker -> latest quotes
    pub latest: FallbackCache<String, QuoteResponse>,
    /// ticker -> previous close
    pub previous_close: FallbackCache<String, i64>,
    /// (ticker, day timestamp) -> quotes from that day on
    pub historic: FallbackCache<(String, i64), QuoteResponse>,
    /// ticker -> display name
    pub names: FallbackCache<String, String>,
}

impl QuoteCaches {
    pub open spec fn wf(&self) -> bool {
        &&& self.latest.wf()
        &&& self.previous_close.wf()
        &&& self.historic.wf()
        &&& self.names.wf()
    }

    pub fn new() -> (r: QuoteCaches)
        ensures
            r.wf(),
            r.latest@ == Map::<Seq<char>, Option<Seq<crate::quote::Quote>>>::empty(),
            r.previous_close@ == Map::<Seq<char>, i64>::empty(),
            r.historic@ == Map::<(Seq<char>, i64), Option<Seq<crate::quote::Quote>>>::empty(),
            r.names@ == Map::<Seq<char>, Seq<char>>::empty(),
    {
        QuoteCaches {
            latest: FallbackCache::new(),
            previous_close: FallbackCache::new(),
            historic: FallbackCache::new(),
            names: FallbackCache::new(),
        }
    }
}

} // verus!

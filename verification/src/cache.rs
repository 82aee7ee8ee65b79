use vstd::prelude::*;

use core::marker::PhantomData;

use crate::metrics::{recorded, MetricType, Metrics};
use crate::store::{
    cleaned_to, due_at, entries_set, found_at, lazily_expired, lemma_store_wf_distinct, live_list,
    selected_from, Item, SampleItem, Storage, Store,
};
use crate::table::{distinct_keys, has_key, idx_of, lemma_update_facts, value_of};
use crate::time::now_seconds;
use crate::tiny_lfu::{estimate_spec, incremented, pristine, TinyLFU, TinyLFUCache, MAX_WINDOW_SIZE};
use crate::ttl::expiry_instant;

verus! {

/// A callback capability: `evict` is invoked with key and value for every
/// item that the cache removes on its own (an eviction or an expiry), never
/// for an explicit removal.
pub trait OnEvict<K, V> {
    fn evict(&self, k: &K, v: &V);
}

/// The "do nothing" eviction observer.
pub struct VoidEvict<K, V> {
    _k: PhantomData<K>,
    _v: PhantomData<V>,
}

impl<K, V> OnEvict<K, V> for VoidEvict<K, V> {
    fn evict(&self, _k: &K, _v: &V) {
    }
}

/// The key-hash capability: a cache key yields the 64-bit identifier under
/// which it is stored. Distinct keys may collide; equal keys never differ.
pub trait CacheKey: Sized {
    /// The hashed identifier of this key.
    spec fn hash_spec(&self) -> u64;

    /// Compute the hashed identifier.
    fn key_hash(&self) -> (r: u64)
        ensures
            r == self.hash_spec(),
    ;
}

impl CacheKey for u8 {
    open spec fn hash_spec(&self) -> u64 {
        *self as u64
    }

    fn key_hash(&self) -> (r: u64) {
        *self as u64
    }
}

impl CacheKey for u16 {
    open spec fn hash_spec(&self) -> u64 {
        *self as u64
    }

    fn key_hash(&self) -> (r: u64) {
        *self as u64
    }
}

impl CacheKey for u32 {
    open spec fn hash_spec(&self) -> u64 {
        *self as u64
    }

    fn key_hash(&self) -> (r: u64) {
        *self as u64
    }
}

impl CacheKey for u64 {
    open spec fn hash_spec(&self) -> u64 {
        *self
    }

    fn key_hash(&self) -> (r: u64) {
        *self
    }
}

impl CacheKey for usize {
    open spec fn hash_spec(&self) -> u64 {
        *self as u64
    }

    fn key_hash(&self) -> (r: u64) {
        *self as u64
    }
}

/// The expiry instant an entry admitted at `now` with the time to live
/// `ttl_secs` carries: none when the time to live is 0 ("never expires").
pub open spec fn expiry_of(now: u64, ttl_secs: u64) -> Option<u64> {
    if ttl_secs == 0 {
        None
    } else {
        Some(expiry_instant(now, ttl_secs))
    }
}

/// The outcome of one insertion decided at the instant `now`: how the
/// entries after the pre-insert cleanup (`mid`) relate to the entries after
/// the call (`post`), given the estimator state `est` at decision time.
///
/// A resident key is updated unconditionally and its previous value
/// returned; a fresh key is admitted unconditionally while room is left;
/// a fresh key hitting a full store is compared against a sampled victim:
/// the victim is evicted either way, and the new key is admitted exactly
/// when its estimate is not below the victim's.
pub open spec fn insert_outcome<K, V>(
    mid: Seq<(u64, Item<K, V>)>,
    post: Seq<(u64, Item<K, V>)>,
    est: TinyLFUCache,
    cap: int,
    h: u64,
    k: K,
    v: V,
    ttl_secs: u64,
    now: u64,
    r: Result<Option<V>, Option<()>>,
) -> bool {
    if has_key(mid, h) {
        &&& post == entries_set(mid, h, (Item { expiration_time: expiry_of(now, ttl_secs), k: k, v: v }))
        &&& r == Ok::<Option<V>, Option<()>>(Some(value_of(mid, h).v))
    } else if mid.len() < cap {
        &&& post == entries_set(mid, h, (Item { expiration_time: expiry_of(now, ttl_secs), k: k, v: v }))
        &&& r == Ok::<Option<V>, Option<()>>(None)
    } else {
        exists|victim: SampleItem|
            #[trigger] victim_outcome(mid, post, est, h, k, v, ttl_secs, now, r, victim)
    }
}

/// The full-store case of one insertion: the sampled `victim` is a
/// resident carrying its estimate; it is evicted either way, and the new
/// key is admitted exactly when its estimate is not below the victim's.
pub open spec fn victim_outcome<K, V>(
    mid: Seq<(u64, Item<K, V>)>,
    post: Seq<(u64, Item<K, V>)>,
    est: TinyLFUCache,
    h: u64,
    k: K,
    v: V,
    ttl_secs: u64,
    now: u64,
    r: Result<Option<V>, Option<()>>,
    victim: SampleItem,
) -> bool {
    &&& has_key(mid, victim.key)
    &&& victim.estimate == estimate_spec(&est, victim.key)
    &&& exists|draws: Seq<SampleItem>| #[trigger] selected_from(mid, &est, draws, victim)
    &&& if estimate_spec(&est, h) >= victim.estimate {
        &&& post == entries_set(
            mid.remove(idx_of(mid, victim.key)),
            h,
            (Item { expiration_time: expiry_of(now, ttl_secs), k: k, v: v }),
        )
        &&& r == Ok::<Option<V>, Option<()>>(None)
    } else {
        &&& post == mid.remove(idx_of(mid, victim.key))
        &&& r == Err::<Option<V>, Option<()>>(Some(()))
    }
}

/// The metric events of one insertion, when collection is active: an
/// update records key-updated then key-inserted; an admission with room
/// records key-inserted; an admission over a full store records one
/// key-evicted then key-inserted; a rejection still records the victim's
/// key-evicted. With collection off, nothing is recorded.
pub open spec fn insert_metrics<K, V>(
    mid: Seq<(u64, Item<K, V>)>,
    m_pre: Option<Metrics>,
    m_post: Option<Metrics>,
    h: u64,
    cap: int,
    admitted: bool,
) -> bool {
    match (m_pre, m_post) {
        (Some(a), Some(b)) => {
            if has_key(mid, h) {
                exists|ma: Metrics|
                    #[trigger] recorded(a, ma, MetricType::KeyUpdate, h, 1) && recorded(
                        ma,
                        b,
                        MetricType::KeyInsert,
                        h,
                        1,
                    )
            } else if mid.len() < cap {
                recorded(a, b, MetricType::KeyInsert, h, 1)
            } else if admitted {
                exists|ma: Metrics, vk: u64|
                    #[trigger] recorded(a, ma, MetricType::KeyEvict, vk, 1) && recorded(
                        ma,
                        b,
                        MetricType::KeyInsert,
                        h,
                        1,
                    )
            } else {
                exists|vk: u64| #[trigger] recorded(a, b, MetricType::KeyEvict, vk, 1)
            }
        },
        (None, None) => true,
        _ => false,
    }
}

/// The admission/eviction engine: a resident store and a frequency
/// estimator composed into one insertion protocol, with an optional
/// eviction callback and an optional metrics sink.
pub struct Cache<K, V, E = VoidEvict<K, V>> {
    store: Storage<K, V>,
    estimator: TinyLFUCache,
    on_evict: Option<E>,
    metrics: Option<Metrics>,
}

impl<K, V, E> Cache<K, V, E> {
    /// Well-formedness; established by construction, preserved throughout.
    pub closed spec fn wf(&self) -> bool {
        &&& self.store.wf()
        &&& self.estimator.wf()
        &&& self.store.entries().len() <= self.store.capacity_spec()
        &&& 1 <= self.store.capacity_spec()
        &&& (self.metrics matches Some(m) ==> m.wf())
    }

    /// The resident `(hashed key, entry)` pairs, in insertion order.
    pub closed spec fn entries(&self) -> Seq<(u64, Item<K, V>)> {
        self.store.entries()
    }

    /// The configured capacity.
    pub closed spec fn capacity_spec(&self) -> int {
        self.store.capacity_spec()
    }

    /// The state of the frequency estimator.
    pub closed spec fn estimator_spec(&self) -> TinyLFUCache {
        self.estimator
    }

    /// Whether metric collection is active.
    pub closed spec fn metrics_on(&self) -> bool {
        self.metrics is Some
    }

    /// The collected metrics, when collection is active.
    pub closed spec fn metrics_view(&self) -> Option<Metrics> {
        self.metrics
    }
}

impl<K: CacheKey, V> Cache<K, V> {
    /// Create a cache holding at most `capacity` entries, with the default
    /// estimator window.
    pub fn new(capacity: usize) -> (r: Self)
        requires
            capacity >= 1,
        ensures
            r.wf(),
            r.capacity_spec() == capacity,
            r.entries() == Seq::<(u64, Item<K, V>)>::empty(),
            !r.metrics_on(),
            pristine(r.estimator_spec(), MAX_WINDOW_SIZE as int),
            forall|x: u64| #[trigger] estimate_spec(&r.estimator_spec(), x) == 0,
    {
        Self::with_window_size(capacity, MAX_WINDOW_SIZE)
    }

    /// Create a cache holding at most `capacity` entries whose estimator
    /// ages its counts every `window_size` increments.
    pub fn with_window_size(capacity: usize, window_size: usize) -> (r: Self)
        requires
            capacity >= 1,
            1 <= window_size <= 10000,
        ensures
            r.wf(),
            r.capacity_spec() == capacity,
            r.entries() == Seq::<(u64, Item<K, V>)>::empty(),
            !r.metrics_on(),
            pristine(r.estimator_spec(), window_size as int),
            forall|x: u64| #[trigger] estimate_spec(&r.estimator_spec(), x) == 0,
    {
        Self {
            metrics: None,
            on_evict: None,
            estimator: TinyLFUCache::new(window_size),
            store: Storage::with_capacity(capacity),
        }
    }
}

impl<K: CacheKey, V, E: OnEvict<K, V>> Cache<K, V, E> {
    /// Create a cache with the default estimator window and a callback for
    /// evicted items.
    pub fn with_on_evict(capacity: usize, on_evict: E) -> (r: Self)
        requires
            capacity >= 1,
        ensures
            r.wf(),
            r.capacity_spec() == capacity,
            r.entries() == Seq::<(u64, Item<K, V>)>::empty(),
            !r.metrics_on(),
            pristine(r.estimator_spec(), MAX_WINDOW_SIZE as int),
            forall|x: u64| #[trigger] estimate_spec(&r.estimator_spec(), x) == 0,
    {
        Self::with_on_evict_and_window_size(capacity, on_evict, MAX_WINDOW_SIZE)
    }

    /// Create a cache with a callback for evicted items whose estimator
    /// ages its counts every `window_size` increments.
    pub fn with_on_evict_and_window_size(capacity: usize, on_evict: E, window_size: usize) -> (r:
        Self)
        requires
            capacity >= 1,
            1 <= window_size <= 10000,
        ensures
            r.wf(),
            r.capacity_spec() == capacity,
            r.entries() == Seq::<(u64, Item<K, V>)>::empty(),
            !r.metrics_on(),
            pristine(r.estimator_spec(), window_size as int),
            forall|x: u64| #[trigger] estimate_spec(&r.estimator_spec(), x) == 0,
    {
        Self {
            metrics: None,
            on_evict: Some(on_evict),
            estimator: TinyLFUCache::new(window_size),
            store: Storage::with_capacity(capacity),
        }
    }

    /// Activate metric collection.
    pub fn with_metrics(self) -> (r: Self)
        requires
            self.wf(),
        ensures
            r.wf(),
            r.entries() == self.entries(),
            r.capacity_spec() == self.capacity_spec(),
            r.estimator_spec() == self.estimator_spec(),
            r.metrics_on(),
            r.metrics_view() matches Some(m) && m.wf() && m.shaped() && (forall|t: MetricType|
                #[trigger] m.total_spec(t) == 0) && (forall|t: MetricType, i: int|
                0 <= i < 256 ==> #[trigger] m.row(t)[i] == 0),
    {
        let mut r = self;
        r.metrics = Some(Metrics::new());
        r
    }

    /// The hashed identifier the cache stores `k` under.
    pub fn key_hash(&self, k: &K) -> (r: u64)
        ensures
            r == k.hash_spec(),
    {
        k.key_hash()
    }

    /// How many entries the cache can hold.
    pub fn capacity(&self) -> (r: usize)
        ensures
            r == self.capacity_spec(),
    {
        self.store.capacity()
    }

    /// How many entries are resident.
    pub fn len(&self) -> (r: usize)
        ensures
            r == self.entries().len(),
    {
        self.store.len()
    }

    /// Whether no entry is resident.
    pub fn is_empty(&self) -> (r: bool)
        ensures
            r == (self.entries().len() == 0),
    {
        self.store.is_empty()
    }

    /// How much room is left.
    pub fn room_left(&self) -> (r: usize)
        requires
            self.wf(),
        ensures
            r == self.capacity_spec() - self.entries().len(),
    {
        proof {
            assert(self.entries().len() <= self.capacity_spec());
        }
        self.store.room_left()
    }

    /// Whether a lookup would find `k`: resident, and not past its expiry.
    /// The estimator is not touched.
    pub fn contains(&self, k: &K) -> (r: bool)
        requires
            self.wf(),
        ensures
            r ==> has_key(self.entries(), k.hash_spec()),
            !has_key(self.entries(), k.hash_spec()) ==> !r,
            has_key(self.entries(), k.hash_spec()) && value_of(
                self.entries(),
                k.hash_spec(),
            ).expiration_time is None ==> r,
            exists|now: u64| r == #[trigger] found_at(self.entries(), k.hash_spec(), now),
    {
        let h = self.key_hash(k);
        let r = self.store.contains(&h);
        proof {
            let now = choose|now: u64| r == #[trigger] found_at(self.store.entries(), h, now);
            assert(r == found_at(self.entries(), h, now));
        }
        r
    }

    /// The estimator's current estimate for `k`.
    pub fn estimate(&self, k: &K) -> (r: i64)
        requires
            self.wf(),
        ensures
            r == estimate_spec(&self.estimator_spec(), k.hash_spec()),
            r >= 0,
    {
        let h = self.key_hash(k);
        self.estimator.estimate(&h)
    }

    /// Record one sighting of `k` with the estimator, raising its
    /// popularity without a lookup.
    pub fn touch(&mut self, k: &K)
        requires
            old(self).wf(),
        ensures
            final(self).wf(),
            final(self).entries() == old(self).entries(),
            final(self).capacity_spec() == old(self).capacity_spec(),
            final(self).metrics_view() == old(self).metrics_view(),
            incremented(old(self).estimator_spec(), final(self).estimator_spec(), k.hash_spec()),
    {
        let h = self.key_hash(k);
        self.estimator.increment(&h);
        proof {
            assert(incremented(old(self).estimator_spec(), self.estimator, h));
        }
    }

    /// Remove the entry for `k` and return its value. The estimator is not
    /// touched (popularity survives removal and reinsertion), and the
    /// eviction callback is not invoked (an explicit removal is no
    /// eviction).
    pub fn remove(&mut self, k: &K) -> (r: Option<V>)
        requires
            old(self).wf(),
        ensures
            final(self).wf(),
            final(self).capacity_spec() == old(self).capacity_spec(),
            final(self).estimator_spec() == old(self).estimator_spec(),
            final(self).metrics_view() == old(self).metrics_view(),
            r == if has_key(old(self).entries(), k.hash_spec()) {
                Some(value_of(old(self).entries(), k.hash_spec()).v)
            } else {
                None::<V>
            },
            final(self).entries() == if has_key(old(self).entries(), k.hash_spec()) {
                old(self).entries().remove(idx_of(old(self).entries(), k.hash_spec()))
            } else {
                old(self).entries()
            },
    {
        let h = self.key_hash(k);
        match self.store.remove(&h) {
            Some(item) => Some(item.v),
            None => None,
        }
    }

    /// Remove every entry, then hard-reset the estimator, then zero the
    /// metrics.
    pub fn clear(&mut self)
        requires
            old(self).wf(),
        ensures
            final(self).wf(),
            final(self).capacity_spec() == old(self).capacity_spec(),
            final(self).entries() == Seq::<(u64, Item<K, V>)>::empty(),
            final(self).metrics_on() == old(self).metrics_on(),
            forall|x: u64| #[trigger] estimate_spec(&final(self).estimator_spec(), x) == 0,
            final(self).metrics_view() matches Some(m) ==> forall|t: MetricType|
                #[trigger] m.total_spec(t) == 0,
    {
        self.store.clear();
        self.estimator.clear();
        if let Some(m) = &mut self.metrics {
            m.clear();
        }
    }

    /// The collected metrics, when collection is active.
    pub fn metrics(&self) -> (r: Option<Metrics>)
        requires
            self.wf(),
        ensures
            r is Some <==> self.metrics_on(),
            r matches Some(m) ==> self.metrics_view() matches Some(m2) && forall|t: MetricType|
                #[trigger] m.total_spec(t) == m2.total_spec(t),
    {
        match &self.metrics {
            Some(m) => Some(m.snapshot()),
            None => None,
        }
    }

    /// Replace the value of a resident, unexpired entry in place, keeping
    /// the entry's expiry, and return the superseded value. The lookup
    /// side effects are those of `get`: the estimator records the
    /// sighting, and a hit or a miss is recorded. This is the
    /// mutation-by-value counterpart of a mutable lookup, which cannot
    /// hand out a reference here.
    pub fn update_value(&mut self, k: &K, v: V) -> (r: Option<V>)
        requires
            old(self).wf(),
        ensures
            final(self).wf(),
            final(self).capacity_spec() == old(self).capacity_spec(),
            incremented(old(self).estimator_spec(), final(self).estimator_spec(), k.hash_spec()),
            exists|now: u64| (r is Some) == #[trigger] found_at(
                old(self).entries(),
                k.hash_spec(),
                now,
            ),
            r is None ==> final(self).entries() == old(self).entries(),
            r matches Some(prev) ==> prev == value_of(old(self).entries(), k.hash_spec()).v
                && final(self).entries() == old(self).entries().update(
                idx_of(old(self).entries(), k.hash_spec()),
                (
                    k.hash_spec(),
                    (Item {
                        expiration_time: value_of(
                            old(self).entries(),
                            k.hash_spec(),
                        ).expiration_time,
                        k: value_of(old(self).entries(), k.hash_spec()).k,
                        v: v,
                    }),
                ),
            ),
            old(self).metrics_view() is None ==> final(self).metrics_view() is None,
            old(self).metrics_view() matches Some(m0) ==> (final(self).metrics_view()
                matches Some(m1) && recorded(
                m0,
                m1,
                if r is Some {
                    MetricType::Hit
                } else {
                    MetricType::Miss
                },
                k.hash_spec(),
                1,
            )),
    {
        let h = self.key_hash(k);
        self.estimator.increment(&h);
        proof {
            assert(incremented(old(self).estimator_spec(), self.estimator, h));
        }
        let now = now_seconds();
        let found = self.store.get_at(&h, now).is_some();
        proof {
            assert(found == found_at(old(self).entries(), h, now));
        }
        if let Some(m) = &mut self.metrics {
            if found {
                m.insert(MetricType::Hit, &h, 1);
            } else {
                m.insert(MetricType::Miss, &h, 1);
            }
        }
        self.store.replace_value_at(&h, now, v)
    }

    /// Remove the sampled victim, if one was chosen, reporting it as an
    /// eviction.
    fn remove_victim(&mut self, victim: Option<SampleItem>)
        requires
            old(self).wf(),
        ensures
            final(self).wf(),
            final(self).capacity_spec() == old(self).capacity_spec(),
            final(self).estimator_spec() == old(self).estimator_spec(),
            old(self).metrics_view() is None ==> final(self).metrics_view() is None,
            old(self).metrics_view() matches Some(m0) ==> (final(self).metrics_view()
                matches Some(m1) && (match victim {
                Some(s) => if has_key(old(self).entries(), s.key) {
                    exists|vk: u64| #[trigger] recorded(m0, m1, MetricType::KeyEvict, vk, 1)
                } else {
                    m1 == m0
                },
                None => m1 == m0,
            })),
            match victim {
                Some(s) => final(self).entries() == if has_key(old(self).entries(), s.key) {
                    old(self).entries().remove(idx_of(old(self).entries(), s.key))
                } else {
                    old(self).entries()
                },
                None => final(self).entries() == old(self).entries(),
            },
    {
        if let Some(victim) = victim {
            if let Some(removed) = self.store.remove(&victim.key) {
                let k = self.key_hash(&removed.k);
                if let Some(m) = &mut self.metrics {
                    m.insert(MetricType::KeyEvict, &k, 1);
                }
                if let Some(on_evict) = &self.on_evict {
                    on_evict.evict(&removed.k, &removed.v);
                }
            }
        }
    }

    /// Write the entry through to the store with its time to live.
    fn insert_item_with_ttl(&mut self, k: u64, item: Item<K, V>, ttl_secs: u64, now: u64) -> (r:
        Option<V>)
        requires
            old(self).wf(),
            has_key(old(self).entries(), k) || old(self).entries().len() < old(self).capacity_spec(),
        ensures
            final(self).wf(),
            final(self).capacity_spec() == old(self).capacity_spec(),
            final(self).estimator_spec() == old(self).estimator_spec(),
            final(self).metrics_view() == old(self).metrics_view(),
            r == if has_key(old(self).entries(), k) {
                Some(value_of(old(self).entries(), k).v)
            } else {
                None::<V>
            },
            final(self).entries() == entries_set(
                old(self).entries(),
                k,
                (Item { expiration_time: expiry_of(now, ttl_secs), k: item.k, v: item.v }),
            ),
    {
        match self.store.insert_with_ttl_at(k, item, ttl_secs, now) {
            Some(old_item) => Some(old_item.v),
            None => None,
        }
    }

    /// Decide admissibility of the hashed key `k` at the instant `now`:
    /// a resident key or a store with room admits outright; otherwise a
    /// victim is sampled and the verdict carries it.
    fn can_be_insert(&mut self, k: &u64, now: u64) -> (r: Result<
        Option<SampleItem>,
        Option<SampleItem>,
    >)
        requires
            old(self).wf(),
            forall|x: u64|
                #[trigger] has_key(old(self).entries(), x) ==> !due_at(
                    value_of(old(self).entries(), x),
                    now,
                ),
        ensures
            final(self).wf(),
            final(self).entries() == old(self).entries(),
            final(self).capacity_spec() == old(self).capacity_spec(),
            final(self).estimator_spec() == old(self).estimator_spec(),
            old(self).metrics_view() is None ==> final(self).metrics_view() is None,
            old(self).metrics_view() matches Some(m0) ==> (final(self).metrics_view()
                matches Some(m1) && if has_key(old(self).entries(), *k) {
                recorded(m0, m1, MetricType::KeyUpdate, *k, 1)
            } else {
                m1 == m0
            }),
            has_key(old(self).entries(), *k) ==> r == Ok::<
                Option<SampleItem>,
                Option<SampleItem>,
            >(None),
            r matches Ok(Some(victim)) ==> exists|draws: Seq<SampleItem>|
                #[trigger] selected_from(
                    old(self).entries(),
                    &old(self).estimator_spec(),
                    draws,
                    victim,
                ),
            r matches Err(Some(victim)) ==> exists|draws: Seq<SampleItem>|
                #[trigger] selected_from(
                    old(self).entries(),
                    &old(self).estimator_spec(),
                    draws,
                    victim,
                ),
            match r {
                Ok(None) => has_key(old(self).entries(), *k) || old(self).entries().len() < old(self).capacity_spec(),
                Ok(Some(victim)) => !has_key(old(self).entries(), *k) && old(self).entries().len() >= old(self).capacity_spec() && has_key(
                    old(self).entries(),
                    victim.key,
                ) && victim.estimate == estimate_spec(&old(self).estimator_spec(), victim.key)
                    && estimate_spec(&old(self).estimator_spec(), *k) >= victim.estimate,
                Err(Some(victim)) => !has_key(old(self).entries(), *k) && old(self).entries().len() >= old(self).capacity_spec() && has_key(
                    old(self).entries(),
                    victim.key,
                ) && victim.estimate == estimate_spec(&old(self).estimator_spec(), victim.key)
                    && estimate_spec(&old(self).estimator_spec(), *k) < victim.estimate,
                Err(None) => false,
            },
    {
        // no need to find a victim if the key is already resident
        let resident = self.store.get_at(k, now).is_some();
        proof {
            if has_key(self.entries(), *k) {
                assert(!due_at(value_of(self.entries(), *k), now));
                assert(!lazily_expired(value_of(self.entries(), *k), now));
            }
        }
        if resident {
            let key = *k;
            if let Some(m) = &mut self.metrics {
                m.insert(MetricType::KeyUpdate, &key, 1);
            }
            return Ok(None);
        }
        // admit outright while there is room
        if self.store.room_left() > 0 {
            return Ok(None);
        }
        // sample a victim and compare the incoming key's estimate
        let incoming_estimate = self.estimator.estimate(k);
        let victim = self.store.sample(&self.estimator);
        match victim {
            Some(victim) => {
                proof {
                    let draws = choose|draws: Seq<SampleItem>|
                        #[trigger] selected_from(self.store.entries(), &self.estimator, draws, victim);
                    assert(selected_from(
                        old(self).entries(),
                        &old(self).estimator_spec(),
                        draws,
                        victim,
                    ));
                }
                if incoming_estimate < victim.estimate {
                    Err(Some(victim))
                } else {
                    Ok(Some(victim))
                }
            },
            None => {
                // the store is full and the capacity is at least 1, so a
                // sample always exists
                proof {
                    assert(false);
                }
                Err(None)
            },
        }
    }

    /// Insert `k` with the value `v` and no time to live.
    pub fn insert(&mut self, k: K, v: V) -> (r: Result<Option<V>, Option<()>>)
        requires
            old(self).wf(),
        ensures
            final(self).wf(),
            final(self).capacity_spec() == old(self).capacity_spec(),
            final(self).metrics_on() == old(self).metrics_on(),
            exists|now: u64, mid: Seq<(u64, Item<K, V>)>|
                #[trigger] cleaned_to(old(self).entries(), mid, now) && distinct_keys(mid)
                    && mid.len() <= old(self).entries().len() && insert_outcome(
                    mid,
                    final(self).entries(),
                    old(self).estimator_spec(),
                    old(self).capacity_spec(),
                    k.hash_spec(),
                    k,
                    v,
                    0,
                    now,
                    r,
                ) && insert_metrics(
                    mid,
                    old(self).metrics_view(),
                    final(self).metrics_view(),
                    k.hash_spec(),
                    old(self).capacity_spec(),
                    r is Ok,
                ),
            r is Ok ==> incremented(
                old(self).estimator_spec(),
                final(self).estimator_spec(),
                k.hash_spec(),
            ),
            r is Err ==> final(self).estimator_spec() == old(self).estimator_spec(),
    {
        self.insert_with_ttl(k, v, 0)
    }

    /// Insert `k` with the value `v` and a time to live of `ttl_secs`
    /// seconds (0 means the entry never expires). Expired entries are
    /// cleaned up first, so a victim search never competes with dead
    /// entries. The insertion can be rejected (`Err`) only when the cache
    /// is full and the key's estimate is below the sampled victim's; the
    /// victim is evicted even then.
    pub fn insert_with_ttl(&mut self, k: K, v: V, ttl_secs: u64) -> (r: Result<
        Option<V>,
        Option<()>,
    >)
        requires
            old(self).wf(),
        ensures
            final(self).wf(),
            final(self).capacity_spec() == old(self).capacity_spec(),
            final(self).metrics_on() == old(self).metrics_on(),
            exists|now: u64, mid: Seq<(u64, Item<K, V>)>|
                #[trigger] cleaned_to(old(self).entries(), mid, now) && distinct_keys(mid)
                    && mid.len() <= old(self).entries().len() && insert_outcome(
                    mid,
                    final(self).entries(),
                    old(self).estimator_spec(),
                    old(self).capacity_spec(),
                    k.hash_spec(),
                    k,
                    v,
                    ttl_secs,
                    now,
                    r,
                ) && insert_metrics(
                    mid,
                    old(self).metrics_view(),
                    final(self).metrics_view(),
                    k.hash_spec(),
                    old(self).capacity_spec(),
                    r is Ok,
                ),
            r is Ok ==> incremented(
                old(self).estimator_spec(),
                final(self).estimator_spec(),
                k.hash_spec(),
            ),
            r is Err ==> final(self).estimator_spec() == old(self).estimator_spec(),
    {
        let now = now_seconds();
        self.store.cleanup_at(now, &self.on_evict);
        let ghost mid = self.store.entries();
        let ghost est0 = self.estimator;
        proof {
            assert forall|x: u64| #[trigger] has_key(mid, x) implies !due_at(
                value_of(mid, x),
                now,
            ) by {
                assert(value_of(mid, x) == value_of(old(self).entries(), x));
            }
        }

        let key_hash = self.key_hash(&k);
        let item = Item::new(k, v);

        let ghost m_start = self.metrics;
        match self.can_be_insert(&key_hash, now) {
            Ok(victim) => {
                let ghost m_decided = self.metrics;
                self.estimator.increment(&key_hash);
                proof {
                    assert(incremented(est0, self.estimator, key_hash));
                }
                let ghost vsnap = victim;
                self.remove_victim(victim);
                let ghost m_evicted = self.metrics;
                let ghost removed_state = self.store.entries();
                if let Some(m) = &mut self.metrics {
                    m.insert(MetricType::KeyInsert, &key_hash, 1);
                }
                let prev = self.insert_item_with_ttl(key_hash, item, ttl_secs, now);
                proof {
                    let r: Result<Option<V>, Option<()>> = Ok(prev);
                    assert(insert_outcome(
                        mid,
                        self.entries(),
                        est0,
                        self.capacity_spec(),
                        key_hash,
                        item.k,
                        item.v,
                        ttl_secs,
                        now,
                        r,
                    )) by {
                        if !has_key(mid, key_hash) && !(mid.len() < self.capacity_spec()) {
                            let s = vsnap->Some_0;
                            assert(has_key(mid, s.key));
                            assert(estimate_spec(&est0, key_hash) >= s.estimate);
                            let draws = choose|draws: Seq<SampleItem>|
                                #[trigger] selected_from(mid, &est0, draws, s);
                            assert(selected_from(mid, &est0, draws, s));
                            assert(victim_outcome(
                                mid,
                                self.entries(),
                                est0,
                                key_hash,
                                item.k,
                                item.v,
                                ttl_secs,
                                now,
                                r,
                                s,
                            ));
                        }
                    }
                    assert(cleaned_to(old(self).entries(), mid, now));
                    assert(insert_metrics(
                        mid,
                        old(self).metrics_view(),
                        self.metrics_view(),
                        key_hash,
                        self.capacity_spec(),
                        true,
                    )) by {
                        if m_start is Some {
                            let a = m_start->Some_0;
                            let ma1 = m_decided->Some_0;
                            let ma2 = m_evicted->Some_0;
                            let b = self.metrics_view()->Some_0;
                            if has_key(mid, key_hash) {
                                assert(recorded(a, ma1, MetricType::KeyUpdate, key_hash, 1));
                                assert(ma2 == ma1);
                                assert(recorded(ma1, b, MetricType::KeyInsert, key_hash, 1));
                            } else if mid.len() < self.capacity_spec() {
                                assert(ma2 == a);
                                assert(recorded(a, b, MetricType::KeyInsert, key_hash, 1));
                            } else {
                                let s = vsnap->Some_0;
                                assert(ma1 == a);
                                assert(has_key(mid, s.key));
                                let vk = choose|vk: u64|
                                    recorded(a, ma2, MetricType::KeyEvict, vk, 1);
                                assert(recorded(a, ma2, MetricType::KeyEvict, vk, 1) && recorded(
                                    ma2,
                                    b,
                                    MetricType::KeyInsert,
                                    key_hash,
                                    1,
                                ));
                            }
                        }
                    }
                }
                Ok(prev)
            },
            Err(victim) => {
                let ghost vsnap = victim;
                self.remove_victim(victim);
                proof {
                    let r: Result<Option<V>, Option<()>> = Err(Some(()));
                    assert(insert_outcome(
                        mid,
                        self.entries(),
                        est0,
                        self.capacity_spec(),
                        key_hash,
                        item.k,
                        item.v,
                        ttl_secs,
                        now,
                        r,
                    )) by {
                        let s = vsnap->Some_0;
                        assert(has_key(mid, s.key));
                        assert(estimate_spec(&est0, key_hash) < s.estimate);
                        let draws = choose|draws: Seq<SampleItem>|
                            #[trigger] selected_from(mid, &est0, draws, s);
                        assert(selected_from(mid, &est0, draws, s));
                        assert(victim_outcome(
                            mid,
                            self.entries(),
                            est0,
                            key_hash,
                            item.k,
                            item.v,
                            ttl_secs,
                            now,
                            r,
                            s,
                        ));
                    }
                    assert(cleaned_to(old(self).entries(), mid, now));
                    assert(insert_metrics(
                        mid,
                        old(self).metrics_view(),
                        self.metrics_view(),
                        key_hash,
                        self.capacity_spec(),
                        false,
                    )) by {
                        if m_start is Some {
                            let a = m_start->Some_0;
                            let b = self.metrics_view()->Some_0;
                            let s = vsnap->Some_0;
                            assert(has_key(mid, s.key));
                            let vk = choose|vk: u64| recorded(a, b, MetricType::KeyEvict, vk, 1);
                            assert(recorded(a, b, MetricType::KeyEvict, vk, 1));
                        }
                    }
                }
                Err(Some(()))
            },
        }
    }
}

impl<K: CacheKey, V: Copy, E: OnEvict<K, V>> Cache<K, V, E> {
    /// Look `k` up. The estimator always records the sighting; a hit
    /// returns the value, and an entry past its expiry counts as a miss.
    ///
    /// The value is returned by copy, so the value type must be `Copy`
    /// here; `Storage::get` serves borrowing lookups of any value type,
    /// and `update_value` writes a resident entry in place.
    pub fn get(&mut self, k: &K) -> (r: Option<V>)
        requires
            old(self).wf(),
        ensures
            final(self).wf(),
            final(self).entries() == old(self).entries(),
            final(self).capacity_spec() == old(self).capacity_spec(),
            final(self).metrics_on() == old(self).metrics_on(),
            incremented(old(self).estimator_spec(), final(self).estimator_spec(), k.hash_spec()),
            r matches Some(v) ==> has_key(old(self).entries(), k.hash_spec()) && v == value_of(
                old(self).entries(),
                k.hash_spec(),
            ).v,
            !has_key(old(self).entries(), k.hash_spec()) ==> r is None,
            has_key(old(self).entries(), k.hash_spec()) && value_of(
                old(self).entries(),
                k.hash_spec(),
            ).expiration_time is None ==> r == Some(
                value_of(old(self).entries(), k.hash_spec()).v,
            ),
            exists|now: u64| (r is Some) == #[trigger] found_at(
                old(self).entries(),
                k.hash_spec(),
                now,
            ),
            old(self).metrics_view() is None ==> final(self).metrics_view() is None,
            old(self).metrics_view() matches Some(m0) ==> (final(self).metrics_view()
                matches Some(m1) && recorded(
                m0,
                m1,
                if r is Some {
                    MetricType::Hit
                } else {
                    MetricType::Miss
                },
                k.hash_spec(),
                1,
            )),
    {
        let h = self.key_hash(k);
        self.estimator.increment(&h);
        proof {
            assert(incremented(old(self).estimator_spec(), self.estimator, h));
        }
        let got = self.store.get(&h);
        proof {
            let now = choose|now: u64| (got is Some) == #[trigger] found_at(
                self.store.entries(),
                h,
                now,
            );
            assert((got is Some) == found_at(old(self).entries(), h, now));
        }
        let result: Option<V> = match got {
            Some(item) => Some(item.v),
            None => None,
        };
        let found = result.is_some();
        if let Some(m) = &mut self.metrics {
            if found {
                m.insert(MetricType::Hit, &h, 1);
            } else {
                m.insert(MetricType::Miss, &h, 1);
            }
        }
        result
    }
}

impl<K: CacheKey + Copy, V: Copy, E: OnEvict<K, V>> Cache<K, V, E> {
    /// The resident entries in insertion order, skipping entries past
    /// their expiry. The entry type of the result is `(key, value)`.
    pub fn iter(&self) -> (r: Vec<(K, V)>)
        requires
            self.wf(),
        ensures
            exists|now: u64| r@ == #[trigger] live_list(self.entries(), now),
    {
        let now = now_seconds();
        let out = self.store.live_entries_at(now);
        proof {
            assert(out@ == live_list(self.entries(), now));
        }
        out
    }
}

/// The cache's well-formedness, spelled out for callers: entry keys are
/// pairwise distinct, and the resident count never exceeds the (positive)
/// capacity.
pub proof fn lemma_cache_wf_facts<K, V, E>(c: &Cache<K, V, E>)
    requires
        c.wf(),
    ensures
        distinct_keys(c.entries()),
        c.entries().len() <= c.capacity_spec(),
        1 <= c.capacity_spec(),
{
    lemma_store_wf_distinct(&c.store);
}

/// Law: one insertion never grows the resident set past the capacity.
/// With the store at capacity, a fresh key is admitted only over exactly
/// one evicted victim — or rejected, which still evicts the victim, so the
/// resident count never ends above the capacity.
pub proof fn lemma_insert_bounded<K, V>(
    mid: Seq<(u64, Item<K, V>)>,
    post: Seq<(u64, Item<K, V>)>,
    est: TinyLFUCache,
    cap: int,
    h: u64,
    k: K,
    v: V,
    ttl_secs: u64,
    now: u64,
    r: Result<Option<V>, Option<()>>,
)
    requires
        distinct_keys(mid),
        mid.len() <= cap,
        insert_outcome(mid, post, est, cap, h, k, v, ttl_secs, now, r),
    ensures
        post.len() <= cap,
        !has_key(mid, h) && mid.len() == cap ==> (r is Err ==> post.len() == cap - 1) && (
        r is Ok ==> post.len() == cap),
{
    if has_key(mid, h) {
        let i = idx_of(mid, h);
        assert(0 <= i < mid.len() && mid[i].0 == h);
    } else if mid.len() < cap {
    } else {
        let victim = choose|victim: SampleItem|
            #[trigger] victim_outcome(mid, post, est, h, k, v, ttl_secs, now, r, victim);
        let i = idx_of(mid, victim.key);
        assert(0 <= i < mid.len() && mid[i].0 == victim.key);
        crate::table::lemma_remove_facts(mid, i, victim.key);
        let removed = mid.remove(i);
        assert(!has_key(removed, h));
    }
}

/// Law: overwriting a resident key returns the superseded value, stores
/// the new one under the same key, and keeps every other resident: the
/// update path evicts nobody and never samples a victim.
pub proof fn lemma_update_path<K, V>(
    mid: Seq<(u64, Item<K, V>)>,
    post: Seq<(u64, Item<K, V>)>,
    est: TinyLFUCache,
    cap: int,
    h: u64,
    k: K,
    v: V,
    ttl_secs: u64,
    now: u64,
    r: Result<Option<V>, Option<()>>,
)
    requires
        distinct_keys(mid),
        has_key(mid, h),
        insert_outcome(mid, post, est, cap, h, k, v, ttl_secs, now, r),
    ensures
        r == Ok::<Option<V>, Option<()>>(Some(value_of(mid, h).v)),
        has_key(post, h),
        value_of(post, h).v == v,
        forall|x: u64| #[trigger] has_key(post, x) == has_key(mid, x),
        forall|x: u64|
            x != h && has_key(mid, x) ==> #[trigger] value_of(post, x) == value_of(mid, x),
{
    let i = idx_of(mid, h);
    assert(0 <= i < mid.len() && mid[i].0 == h);
    lemma_update_facts(
        mid,
        i,
        h,
        (Item { expiration_time: expiry_of(now, ttl_secs), k: k, v: v }),
    );
}

/// Law: a key whose estimate is at least every resident's estimate is
/// always admitted — in particular, one with a strictly higher estimate
/// than the sampled victim is never rejected.
pub proof fn lemma_high_estimate_admitted<K, V>(
    mid: Seq<(u64, Item<K, V>)>,
    post: Seq<(u64, Item<K, V>)>,
    est: TinyLFUCache,
    cap: int,
    h: u64,
    k: K,
    v: V,
    ttl_secs: u64,
    now: u64,
    r: Result<Option<V>, Option<()>>,
)
    requires
        insert_outcome(mid, post, est, cap, h, k, v, ttl_secs, now, r),
        forall|x: u64|
            #[trigger] has_key(mid, x) ==> estimate_spec(&est, h) >= estimate_spec(&est, x),
    ensures
        r is Ok,
{
    if !has_key(mid, h) && !(mid.len() < cap) {
        let victim = choose|victim: SampleItem|
            #[trigger] victim_outcome(mid, post, est, h, k, v, ttl_secs, now, r, victim);
        assert(has_key(mid, victim.key));
        assert(estimate_spec(&est, h) >= estimate_spec(&est, victim.key));
    }
}

} // verus!

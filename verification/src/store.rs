use vstd::prelude::*;

use crate::cache::OnEvict;
use crate::rng::random_index;
use crate::table::{
    distinct_keys, find_key, get_ref, has_key, idx_of, lemma_idx_of_is, lemma_push_facts,
    lemma_update_facts, remove_key, set_key, value_of,
};
use crate::time::now_seconds;
use vstd::std_specs::cmp::PartialOrdSpec;
use crate::tiny_lfu::{estimate_spec, TinyLFU};
use crate::ttl::{expiry_instant, Expiration, ExpirationMap};

verus! {

/// How many random residents are inspected to pick an eviction victim.
pub const SAMPLES_NUM: usize = 5;

/// The total order on samples: by estimate, ties broken by key.
pub open spec fn sample_order(a: SampleItem, b: SampleItem) -> core::cmp::Ordering {
    if a.estimate < b.estimate {
        core::cmp::Ordering::Less
    } else if a.estimate > b.estimate {
        core::cmp::Ordering::Greater
    } else if a.key < b.key {
        core::cmp::Ordering::Less
    } else if a.key > b.key {
        core::cmp::Ordering::Greater
    } else {
        core::cmp::Ordering::Equal
    }
}

/// Whether `a` precedes or equals `b` in the sample order.
pub open spec fn sample_le(a: SampleItem, b: SampleItem) -> bool {
    sample_order(a, b) != core::cmp::Ordering::Greater
}

/// A transient eviction candidate: a resident key together with its
/// frequency estimate at the moment it was sampled.
#[derive(Clone, Copy, Debug, Hash)]
pub struct SampleItem {
    /// The hashed key of the sampled resident.
    pub key: u64,
    /// Its frequency estimate when it was sampled.
    pub estimate: i64,
}

impl SampleItem {
    /// Create a sample with the given key and estimate.
    pub fn new(key: u64, estimate: i64) -> (r: Self)
        ensures
            r.key == key,
            r.estimate == estimate,
    {
        Self { key, estimate }
    }

    /// The total order on samples: by estimate, ties broken by key.
    pub fn cmp(&self, other: &SampleItem) -> (r: core::cmp::Ordering)
        ensures
            r == sample_order(*self, *other),
    {
        if self.estimate < other.estimate {
            core::cmp::Ordering::Less
        } else if self.estimate > other.estimate {
            core::cmp::Ordering::Greater
        } else if self.key < other.key {
            core::cmp::Ordering::Less
        } else if self.key > other.key {
            core::cmp::Ordering::Greater
        } else {
            core::cmp::Ordering::Equal
        }
    }
}

impl PartialEq for SampleItem {
    /// Samples stand for residents, so equality compares the keys alone.
    fn eq(&self, other: &SampleItem) -> (r: bool) {
        self.key == other.key
    }
}

impl vstd::std_specs::cmp::PartialEqSpecImpl for SampleItem {
    open spec fn obeys_eq_spec() -> bool {
        true
    }

    open spec fn eq_spec(&self, other: &SampleItem) -> bool {
        self.key == other.key
    }
}

impl Eq for SampleItem {

}

impl PartialOrd for SampleItem {
    fn partial_cmp(&self, other: &SampleItem) -> (r: Option<core::cmp::Ordering>) {
        if self.estimate < other.estimate {
            Some(core::cmp::Ordering::Less)
        } else if self.estimate > other.estimate {
            Some(core::cmp::Ordering::Greater)
        } else if self.key < other.key {
            Some(core::cmp::Ordering::Less)
        } else if self.key > other.key {
            Some(core::cmp::Ordering::Greater)
        } else {
            Some(core::cmp::Ordering::Equal)
        }
    }
}

impl vstd::std_specs::cmp::PartialOrdSpecImpl for SampleItem {
    open spec fn obeys_partial_cmp_spec() -> bool {
        true
    }

    open spec fn partial_cmp_spec(&self, other: &SampleItem) -> Option<core::cmp::Ordering> {
        Some(sample_order(*self, *other))
    }
}

/// The selection rule of the sampling eviction: from a non-empty list of
/// drawn samples, keep the one with the lowest estimate, ties broken by
/// the lower hashed key.
pub fn min_sample_of(samples: &Vec<SampleItem>) -> (r: SampleItem)
    requires
        samples@.len() >= 1,
    ensures
        samples@.contains(r),
        forall|i: int| 0 <= i < samples@.len() ==> sample_le(r, #[trigger] samples@[i]),
{
    let n = samples.len();
    let mut best: SampleItem = samples[0];
    proof {
        assert(samples@.contains(best)) by {
            assert(samples@[0] == best);
        }
    }
    let mut i: usize = 1;
    while i < n
        invariant
            1 <= i <= n,
            n == samples@.len(),
            samples@.contains(best),
            forall|j: int| 0 <= j < i ==> sample_le(best, #[trigger] samples@[j]),
        decreases n - i,
    {
        let cand = samples[i];
        let ghost prev = best;
        if cand.estimate < best.estimate || (cand.estimate == best.estimate && cand.key
            < best.key) {
            best = cand;
            proof {
                assert(samples@.contains(best)) by {
                    assert(samples@[i as int] == best);
                }
            }
        }
        proof {
            assert forall|j: int| 0 <= j < i + 1 implies sample_le(best, #[trigger] samples@[j]) by {
                if j < i {
                    assert(sample_le(prev, samples@[j]));
                }
            }
        }
        i += 1;
    }
    best
}

/// A stored entry: the user key, the value, and the absolute expiry
/// instant, if the entry has one.
#[derive(Debug)]
pub struct Item<K, V> {
    /// When the entry expires, in whole seconds since the Unix epoch;
    /// `None` means it never expires.
    pub expiration_time: Option<u64>,
    /// The user key.
    pub k: K,
    /// The value.
    pub v: V,
}

impl<K, V> Item<K, V> {
    /// Create an entry without an expiry.
    pub fn new(k: K, v: V) -> (r: Self)
        ensures
            r.expiration_time is None,
            r.k == k,
            r.v == v,
    {
        Self { expiration_time: None, k, v }
    }

    /// Borrow the value.
    pub fn deref(&self) -> (r: &V)
        ensures
            *r == self.v,
    {
        &self.v
    }
}

/// Whether a lookup at the instant `now` treats the entry as expired: it
/// has an expiry instant and the clock has passed it.
pub open spec fn lazily_expired<K, V>(item: Item<K, V>, now: u64) -> bool {
    item.expiration_time matches Some(t) && now > t
}

/// Whether a cleanup at the instant `now` removes the entry: it has an
/// expiry instant that is `now` or earlier.
pub open spec fn due_at<K, V>(item: Item<K, V>, now: u64) -> bool {
    item.expiration_time matches Some(t) && t <= now
}

/// Whether a lookup of `k` at the instant `now` finds an entry: one is
/// present and not past its expiry.
pub open spec fn found_at<K, V>(s: Seq<(u64, Item<K, V>)>, k: u64, now: u64) -> bool {
    has_key(s, k) && !lazily_expired(value_of(s, k), now)
}

/// Whether `post` is `pre` with exactly the entries due at `now` removed,
/// all other entries kept unchanged.
pub open spec fn cleaned_to<K, V>(
    pre: Seq<(u64, Item<K, V>)>,
    post: Seq<(u64, Item<K, V>)>,
    now: u64,
) -> bool {
    &&& forall|x: u64|
        #[trigger] has_key(post, x) <==> has_key(pre, x) && !due_at(value_of(pre, x), now)
    &&& forall|x: u64| has_key(post, x) ==> #[trigger] value_of(post, x) == value_of(pre, x)
}

/// The entry list after binding `k` to `item`: an existing binding is
/// replaced in place, a fresh key is appended at the back.
pub open spec fn entries_set<K, V>(
    s: Seq<(u64, Item<K, V>)>,
    k: u64,
    item: Item<K, V>,
) -> Seq<(u64, Item<K, V>)> {
    if has_key(s, k) {
        s.update(idx_of(s, k), (k, item))
    } else {
        s.push((k, item))
    }
}

/// Whether `s` is what the sampling rule selects from the draws: every
/// draw is a resident carrying its estimate, and `s` is the drawn sample
/// with the lowest estimate, ties broken by the lower hashed key.
pub open spec fn selected_from<K, V, A: TinyLFU>(
    entries: Seq<(u64, Item<K, V>)>,
    estimator: &A,
    draws: Seq<SampleItem>,
    s: SampleItem,
) -> bool {
    &&& draws.len() == SAMPLES_NUM
    &&& forall|i: int| 0 <= i < draws.len() ==> has_key(entries, (#[trigger] draws[i]).key)
    &&& forall|i: int|
        0 <= i < draws.len() ==> (#[trigger] draws[i]).estimate == estimate_spec(
            estimator,
            draws[i].key,
        )
    &&& draws.contains(s)
    &&& forall|i: int| 0 <= i < draws.len() ==> sample_le(s, #[trigger] draws[i])
}

/// A fixed-capacity resident store: an insertion-ordered map from hashed
/// key to entry, with expiry bookkeeping.
///
/// The model is the sequence of `(key, entry)` pairs in insertion order.
pub trait Store<K, V>: Sized {
    /// Well-formedness; established by construction, preserved throughout.
    spec fn wf(&self) -> bool;

    /// The resident `(key, entry)` pairs, in insertion order.
    spec fn entries(&self) -> Seq<(u64, Item<K, V>)>;

    /// How many entries the store is meant to hold at most.
    spec fn capacity_spec(&self) -> int;

    /// The configured capacity.
    fn capacity(&self) -> (r: usize)
        ensures
            r == self.capacity_spec(),
    ;

    /// How many entries are resident.
    fn len(&self) -> (r: usize)
        ensures
            r == self.entries().len(),
    ;

    /// Whether no entry is resident.
    fn is_empty(&self) -> (r: bool)
        ensures
            r == (self.entries().len() == 0),
    ;

    /// How much room is left: the capacity minus the resident count (0 if
    /// the store has grown past its capacity).
    fn room_left(&self) -> (r: usize)
        ensures
            r == if self.entries().len() <= self.capacity_spec() {
                self.capacity_spec() - self.entries().len()
            } else {
                0int
            },
    ;

    /// Whether a lookup finds `k`: present, and not past its expiry.
    fn contains(&self, k: &u64) -> (r: bool)
        requires
            self.wf(),
        ensures
            r ==> has_key(self.entries(), *k),
            !has_key(self.entries(), *k) ==> !r,
            has_key(self.entries(), *k) && value_of(self.entries(), *k).expiration_time is None
                ==> r,
            exists|now: u64| r == #[trigger] found_at(self.entries(), *k, now),
    ;

    /// Look `k` up; an entry past its expiry is treated as absent.
    fn get(&self, k: &u64) -> (r: Option<&Item<K, V>>)
        requires
            self.wf(),
        ensures
            r matches Some(item) ==> has_key(self.entries(), *k) && *item == value_of(
                self.entries(),
                *k,
            ),
            !has_key(self.entries(), *k) ==> r is None,
            has_key(self.entries(), *k) && value_of(self.entries(), *k).expiration_time is None
                ==> (r matches Some(item) && *item == value_of(self.entries(), *k)),
            exists|now: u64| (r is Some) == #[trigger] found_at(self.entries(), *k, now),
    ;

    /// Insert an entry without a time to live. Returns the superseded
    /// entry, if the key was already bound.
    fn insert(&mut self, k: u64, item: Item<K, V>) -> (r: Option<Item<K, V>>)
        requires
            old(self).wf(),
        ensures
            final(self).wf(),
            final(self).capacity_spec() == old(self).capacity_spec(),
            r == if has_key(old(self).entries(), k) {
                Some(value_of(old(self).entries(), k))
            } else {
                None::<Item<K, V>>
            },
            final(self).entries() == entries_set(
                old(self).entries(),
                k,
                (Item { expiration_time: None, k: item.k, v: item.v }),
            ),
    ;

    /// Insert an entry that lives `ttl_secs` seconds from now (0 means it
    /// never expires). The old binding's expiry is deregistered first.
    /// Returns the superseded entry.
    fn insert_with_ttl(&mut self, k: u64, item: Item<K, V>, ttl_secs: u64) -> (r: Option<
        Item<K, V>,
    >)
        requires
            old(self).wf(),
        ensures
            final(self).wf(),
            final(self).capacity_spec() == old(self).capacity_spec(),
            r == if has_key(old(self).entries(), k) {
                Some(value_of(old(self).entries(), k))
            } else {
                None::<Item<K, V>>
            },
            ttl_secs == 0 ==> final(self).entries() == entries_set(
                old(self).entries(),
                k,
                (Item { expiration_time: None, k: item.k, v: item.v }),
            ),
            ttl_secs > 0 ==> exists|t: u64|
                t >= ttl_secs && final(self).entries() == entries_set(
                    old(self).entries(),
                    k,
                    (Item { expiration_time: Some(t), k: item.k, v: item.v }),
                ),
    ;

    /// Remove the entry for `k`, deregistering its expiry, and return it.
    fn remove(&mut self, k: &u64) -> (r: Option<Item<K, V>>)
        requires
            old(self).wf(),
        ensures
            final(self).wf(),
            final(self).capacity_spec() == old(self).capacity_spec(),
            r == if has_key(old(self).entries(), *k) {
                Some(value_of(old(self).entries(), *k))
            } else {
                None::<Item<K, V>>
            },
            final(self).entries() == if has_key(old(self).entries(), *k) {
                old(self).entries().remove(idx_of(old(self).entries(), *k))
            } else {
                old(self).entries()
            },
    ;

    /// Physically remove every entry whose expiry is due, invoking
    /// `on_evict` with each removed entry's key and value.
    fn cleanup<E: OnEvict<K, V>>(&mut self, on_evict: &Option<E>)
        requires
            old(self).wf(),
        ensures
            final(self).wf(),
            final(self).capacity_spec() == old(self).capacity_spec(),
            final(self).entries().len() <= old(self).entries().len(),
            exists|now: u64|
                #[trigger] cleaned_to(old(self).entries(), final(self).entries(), now),
    ;

    /// Remove every entry and every expiry registration.
    fn clear(&mut self)
        ensures
            final(self).wf(),
            final(self).capacity_spec() == old(self).capacity_spec(),
            final(self).entries() == Seq::<(u64, Item<K, V>)>::empty(),
    ;

    /// If any entry is resident, inspect `SAMPLES_NUM` residents drawn
    /// uniformly at random (with replacement) and return the drawn sample
    /// with the lowest estimate, ties broken by lower key.
    fn sample<A: TinyLFU>(&self, estimator: &A) -> (r: Option<SampleItem>)
        requires
            self.wf(),
            estimator.wf(),
        ensures
            r is Some <==> self.entries().len() > 0,
            r matches Some(s) ==> has_key(self.entries(), s.key) && s.estimate == estimate_spec(
                estimator,
                s.key,
            ),
            r matches Some(s) ==> exists|draws: Seq<SampleItem>|
                #[trigger] selected_from(self.entries(), estimator, draws, s),
    ;
}

/// The resident store used by the cache: entries in insertion order with
/// an expiration map kept consistent with their expiry instants.
pub struct Storage<K, V> {
    data: Vec<(u64, Item<K, V>)>,
    expiration_map: ExpirationMap,
    capacity: usize,
}

impl<K, V> Storage<K, V> {
    /// Create a store meant to hold at most `capacity` entries.
    pub fn with_capacity(capacity: usize) -> (r: Self)
        ensures
            r.wf(),
            r.capacity_spec() == capacity,
            r.entries() == Seq::<(u64, Item<K, V>)>::empty(),
    {
        let r = Self { capacity, data: Vec::new(), expiration_map: ExpirationMap::new() };
        proof {
            assert(r.entries() =~= Seq::<(u64, Item<K, V>)>::empty());
        }
        r
    }

    /// Look `k` up as of the instant `now`; an entry past its expiry is
    /// treated as absent.
    pub fn get_at(&self, k: &u64, now: u64) -> (r: Option<&Item<K, V>>)
        requires
            self.wf(),
        ensures
            match r {
                Some(item) => has_key(self.entries(), *k) && *item == value_of(self.entries(), *k)
                    && !lazily_expired(*item, now),
                None => !has_key(self.entries(), *k) || lazily_expired(
                    value_of(self.entries(), *k),
                    now,
                ),
            },
    {
        match get_ref(&self.data, *k) {
            Some(item) => {
                match &item.expiration_time {
                    Some(expiration_time) => {
                        if now > *expiration_time {
                            None
                        } else {
                            Some(item)
                        }
                    },
                    None => Some(item),
                }
            },
            None => None,
        }
    }

    /// Insert an entry whose expiry is placed `ttl_secs` seconds after the
    /// instant `now` (0 means it never expires). Returns the superseded
    /// entry.
    pub fn insert_with_ttl_at(&mut self, k: u64, item: Item<K, V>, ttl_secs: u64, now: u64) -> (r:
        Option<Item<K, V>>)
        requires
            old(self).wf(),
        ensures
            final(self).wf(),
            final(self).capacity_spec() == old(self).capacity_spec(),
            r == if has_key(old(self).entries(), k) {
                Some(value_of(old(self).entries(), k))
            } else {
                None::<Item<K, V>>
            },
            final(self).entries() == entries_set(
                old(self).entries(),
                k,
                (Item {
                    expiration_time: if ttl_secs == 0 {
                        None
                    } else {
                        Some(expiry_instant(now, ttl_secs))
                    },
                    k: item.k,
                    v: item.v,
                }),
            ),
    {
        let ghost pre = *self;
        // deregister the expiry of the binding being replaced
        let old_expiry: Option<u64> = match get_ref(&self.data, k) {
            Some(it) => it.expiration_time,
            None => None,
        };
        if let Some(t) = old_expiry {
            self.expiration_map.remove(&k, t);
        }
        let ghost mid = *self;
        let new_expiry = self.expiration_map.insert_at(k, ttl_secs, now);
        let mut item = item;
        item.expiration_time = new_expiry;
        let prev = set_key(&mut self.data, k, item);
        proof {
            assert forall|x: u64, t: u64| #[trigger]
                self.expiration_map.registered().contains((x, t)) <==> (has_key(self.data@, x)
                && value_of(self.data@, x).expiration_time == Some(t)) by {
                if x == k {
                } else {
                    assert(self.expiration_map.registered().contains((x, t)) == pre
                        .expiration_map.registered().contains((x, t)));
                    if has_key(pre.data@, x) {
                        assert(value_of(self.data@, x) == value_of(pre.data@, x));
                    }
                }
            }
        }
        prev
    }

    /// Replace the value of the entry for `k` in place, as of the instant
    /// `now`, keeping the entry's expiry; an absent or expired entry is
    /// left alone. Returns the superseded value.
    pub fn replace_value_at(&mut self, k: &u64, now: u64, v: V) -> (r: Option<V>)
        requires
            old(self).wf(),
        ensures
            final(self).wf(),
            final(self).capacity_spec() == old(self).capacity_spec(),
            (r is Some) == found_at(old(self).entries(), *k, now),
            r is None ==> final(self).entries() == old(self).entries(),
            r matches Some(prev) ==> prev == value_of(old(self).entries(), *k).v && final(self).entries() == old(self).entries().update(
                idx_of(old(self).entries(), *k),
                (
                    *k,
                    (Item {
                        expiration_time: value_of(old(self).entries(), *k).expiration_time,
                        k: value_of(old(self).entries(), *k).k,
                        v: v,
                    }),
                ),
            ),
    {
        match find_key(&self.data, *k) {
            Some(i) => {
                let expired = match &self.data[i].1.expiration_time {
                    Some(t) => now > *t,
                    None => false,
                };
                if expired {
                    return None;
                }
                let ghost pre = *self;
                let mut tmp = v;
                core::mem::swap(&mut self.data[i].1.v, &mut tmp);
                proof {
                    let newitem = (Item {
                        expiration_time: value_of(pre.data@, *k).expiration_time,
                        k: value_of(pre.data@, *k).k,
                        v: v,
                    });
                    assert(self.data@ == pre.data@.update(i as int, (*k, newitem)));
                    lemma_update_facts(pre.data@, i as int, *k, newitem);
                    assert forall|x: u64, t: u64| #[trigger]
                        self.expiration_map.registered().contains((x, t)) <==> (has_key(
                            self.data@,
                            x,
                        ) && value_of(self.data@, x).expiration_time == Some(t)) by {
                        if x != *k && has_key(pre.data@, x) {
                            assert(value_of(self.data@, x) == value_of(pre.data@, x));
                        }
                    }
                }
                Some(tmp)
            },
            None => None,
        }
    }

    /// Physically remove every entry whose expiry is `now` or earlier,
    /// invoking `on_evict` with each removed entry's key and value.
    pub fn cleanup_at<E: OnEvict<K, V>>(&mut self, now: u64, on_evict: &Option<E>)
        requires
            old(self).wf(),
        ensures
            final(self).wf(),
            final(self).capacity_spec() == old(self).capacity_spec(),
            final(self).entries().len() <= old(self).entries().len(),
            distinct_keys(final(self).entries()),
            cleaned_to(old(self).entries(), final(self).entries(), now),
    {
        let ghost pre = *self;
        let keys = self.expiration_map.cleanup(now);
        let n = keys.len();
        let mut i: usize = 0;
        while i < n
            invariant
                i <= n,
                n == keys@.len(),
                pre.wf(),
                self.capacity == pre.capacity,
                self.data@.len() <= pre.data@.len(),
                distinct_keys(self.data@),
                forall|p: (u64, u64)|
                    #[trigger] self.expiration_map.registered().contains(p) <==> pre
                        .expiration_map.registered().contains(p) && p.1 > now,
                forall|q: u64|
                    #[trigger] keys@.contains(q) <==> exists|t: u64|
                        t <= now && #[trigger] pre.expiration_map.registered().contains((q, t)),
                forall|x: u64|
                    #[trigger] has_key(self.data@, x) <==> has_key(pre.data@, x) && !(due_at(
                        value_of(pre.data@, x),
                        now,
                    ) && keys@.take(i as int).contains(x)),
                forall|x: u64|
                    has_key(self.data@, x) ==> #[trigger] value_of(self.data@, x) == value_of(
                        pre.data@,
                        x,
                    ),
            decreases n - i,
        {
            broadcast use vstd::seq_lib::group_seq_properties;

            let key = keys[i];
            let ghost dpre = self.data@;
            proof {
                assert(keys@.take(i as int + 1) =~= keys@.take(i as int).push(keys@[i as int]));
            }
            let mut due = false;
            match get_ref(&self.data, key) {
                Some(item) => {
                    match &item.expiration_time {
                        Some(expiration_time) => {
                            if now >= *expiration_time {
                                due = true;
                            }
                            // a future expiry would mean a stale
                            // registration: skipped, never fatal
                        },
                        None => {
                            // a registration without an expiry on the
                            // entry is stale: skipped, never fatal
                        },
                    }
                },
                None => {
                    // a registration for a missing entry is stale:
                    // skipped, never fatal
                },
            }
            if due {
                let removed = remove_key(&mut self.data, key);
                if let Some(removed_item) = removed {
                    if let Some(cb) = on_evict {
                        cb.evict(&removed_item.k, &removed_item.v);
                    }
                }
            }
            proof {
                assert forall|x: u64| #[trigger]
                    has_key(self.data@, x) <==> has_key(pre.data@, x) && !(due_at(
                        value_of(pre.data@, x),
                        now,
                    ) && keys@.take(i as int + 1).contains(x)) by {
                    if x == key {
                        if has_key(dpre, x) && due_at(value_of(pre.data@, x), now) {
                            assert(value_of(dpre, x) == value_of(pre.data@, x));
                            assert(due);
                            assert(!has_key(self.data@, x));
                        }
                    } else {
                        assert(has_key(self.data@, x) == has_key(dpre, x));
                    }
                }
            }
            i += 1;
        }
        proof {
            assert(keys@.take(n as int) =~= keys@);
            assert forall|x: u64| #[trigger]
                has_key(self.data@, x) <==> has_key(pre.data@, x) && !due_at(
                    value_of(pre.data@, x),
                    now,
                ) by {
                if has_key(pre.data@, x) && due_at(value_of(pre.data@, x), now) {
                    let t = choose|t: u64| value_of(pre.data@, x).expiration_time == Some(t);
                    assert(pre.expiration_map.registered().contains((x, t)));
                    assert(t <= now);
                    assert(keys@.contains(x));
                }
            }
            assert forall|x: u64, t: u64| #[trigger]
                self.expiration_map.registered().contains((x, t)) <==> (has_key(self.data@, x)
                && value_of(self.data@, x).expiration_time == Some(t)) by {
                if self.expiration_map.registered().contains((x, t)) {
                    assert(pre.expiration_map.registered().contains((x, t)) && t > now);
                    assert(has_key(pre.data@, x) && value_of(pre.data@, x).expiration_time == Some(
                        t,
                    ));
                    assert(!due_at(value_of(pre.data@, x), now));
                    assert(has_key(self.data@, x));
                }
                if has_key(self.data@, x) && value_of(self.data@, x).expiration_time == Some(t) {
                    assert(has_key(pre.data@, x));
                    assert(value_of(pre.data@, x) == value_of(self.data@, x));
                    assert(pre.expiration_map.registered().contains((x, t)));
                    assert(!due_at(value_of(pre.data@, x), now));
                    assert(t > now);
                }
            }
        }
    }
}

impl<K, V> Store<K, V> for Storage<K, V> {
    closed spec fn wf(&self) -> bool {
        &&& distinct_keys(self.data@)
        &&& forall|k: u64, t: u64|
            #[trigger] self.expiration_map.registered().contains((k, t)) <==> (has_key(
                self.data@,
                k,
            ) && value_of(self.data@, k).expiration_time == Some(t))
    }

    closed spec fn entries(&self) -> Seq<(u64, Item<K, V>)> {
        self.data@
    }

    closed spec fn capacity_spec(&self) -> int {
        self.capacity as int
    }

    fn capacity(&self) -> (r: usize) {
        self.capacity
    }

    fn len(&self) -> (r: usize) {
        self.data.len()
    }

    fn is_empty(&self) -> (r: bool) {
        self.data.len() == 0
    }

    fn room_left(&self) -> (r: usize) {
        let len = self.data.len();
        if len <= self.capacity {
            self.capacity - len
        } else {
            0
        }
    }

    fn contains(&self, k: &u64) -> (r: bool) {
        let now = now_seconds();
        let found = self.get_at(k, now).is_some();
        proof {
            assert(found == found_at(self.entries(), *k, now));
        }
        found
    }

    fn get(&self, k: &u64) -> (r: Option<&Item<K, V>>) {
        let now = now_seconds();
        let got = self.get_at(k, now);
        proof {
            assert((got is Some) == found_at(self.entries(), *k, now));
        }
        got
    }

    fn insert(&mut self, k: u64, item: Item<K, V>) -> (r: Option<Item<K, V>>) {
        self.insert_with_ttl(k, item, 0)
    }

    fn insert_with_ttl(&mut self, k: u64, item: Item<K, V>, ttl_secs: u64) -> (r: Option<
        Item<K, V>,
    >) {
        let now = now_seconds();
        self.insert_with_ttl_at(k, item, ttl_secs, now)
    }

    fn remove(&mut self, k: &u64) -> (r: Option<Item<K, V>>) {
        let ghost pre = *self;
        let removed = remove_key(&mut self.data, *k);
        match removed {
            Some(item) => {
                if let Some(t) = item.expiration_time {
                    self.expiration_map.remove(k, t);
                }
                proof {
                    assert forall|x: u64, t2: u64| #[trigger]
                        self.expiration_map.registered().contains((x, t2)) <==> (has_key(
                            self.data@,
                            x,
                        ) && value_of(self.data@, x).expiration_time == Some(t2)) by {
                        if x != *k && has_key(pre.data@, x) {
                            assert(value_of(self.data@, x) == value_of(pre.data@, x));
                        }
                    }
                }
                Some(item)
            },
            None => None,
        }
    }

    fn cleanup<E: OnEvict<K, V>>(&mut self, on_evict: &Option<E>) {
        let now = now_seconds();
        self.cleanup_at(now, on_evict);
    }

    fn clear(&mut self) {
        self.expiration_map.clear();
        self.data = Vec::new();
        proof {
            assert(self.entries() =~= Seq::<(u64, Item<K, V>)>::empty());
        }
    }

    fn sample<A: TinyLFU>(&self, estimator: &A) -> (r: Option<SampleItem>) {
        let n = self.data.len();
        if n == 0 {
            return None;
        }
        let mut draws: Vec<SampleItem> = Vec::new();
        let mut i: usize = 0;
        while i < SAMPLES_NUM
            invariant
                self.wf(),
                estimator.wf(),
                n == self.data@.len(),
                n >= 1,
                i <= SAMPLES_NUM,
                draws@.len() == i,
                forall|j: int| 0 <= j < i ==> has_key(self.data@, (#[trigger] draws@[j]).key),
                forall|j: int|
                    0 <= j < i ==> (#[trigger] draws@[j]).estimate == estimate_spec(
                        estimator,
                        draws@[j].key,
                    ),
            decreases SAMPLES_NUM - i,
        {
            let idx = random_index(n);
            let key: u64 = self.data[idx].0;
            proof {
                lemma_idx_of_is(self.data@, idx as int);
            }
            let est = estimator.estimate(&key);
            draws.push(SampleItem::new(key, est));
            i += 1;
        }
        let best = min_sample_of(&draws);
        proof {
            let j = choose|j: int| 0 <= j < draws@.len() && draws@[j] == best;
            assert(has_key(self.entries(), best.key));
            assert(best.estimate == estimate_spec(estimator, best.key));
            assert(selected_from(self.entries(), estimator, draws@, best));
        }
        Some(best)
    }
}

/// The `(key, value)` pairs of the entries that are not past their expiry
/// at the instant `now`, in order.
pub open spec fn live_list<K, V>(s: Seq<(u64, Item<K, V>)>, now: u64) -> Seq<(K, V)>
    decreases s.len(),
{
    if s.len() == 0 {
        Seq::empty()
    } else if lazily_expired(s.last().1, now) {
        live_list(s.drop_last(), now)
    } else {
        live_list(s.drop_last(), now).push((s.last().1.k, s.last().1.v))
    }
}

impl<K: Copy, V: Copy> Storage<K, V> {
    /// The `(key, value)` pairs of the entries that are not past their
    /// expiry at the instant `now`, in insertion order.
    pub fn live_entries_at(&self, now: u64) -> (r: Vec<(K, V)>)
        requires
            self.wf(),
        ensures
            r@ == live_list(self.entries(), now),
    {
        let n = self.data.len();
        let mut out: Vec<(K, V)> = Vec::new();
        let mut i: usize = 0;
        while i < n
            invariant
                i <= n,
                n == self.data@.len(),
                out@ == live_list(self.data@.take(i as int), now),
            decreases n - i,
        {
            let e = &self.data[i];
            proof {
                assert(self.data@.take(i as int + 1).drop_last() =~= self.data@.take(i as int));
                assert(self.data@.take(i as int + 1).last() == self.data@[i as int]);
            }
            let alive = match &e.1.expiration_time {
                Some(t) => !(now > *t),
                None => true,
            };
            if alive {
                out.push((e.1.k, e.1.v));
            }
            i += 1;
        }
        proof {
            assert(self.data@.take(n as int) =~= self.data@);
        }
        out
    }
}

/// Law: binding `k` to an entry that is not past its expiry at `now` and
/// then looking it up at `now` yields exactly that entry; every other key
/// keeps its binding.
pub proof fn lemma_insert_get_round_trip<K, V>(
    s: Seq<(u64, Item<K, V>)>,
    k: u64,
    item: Item<K, V>,
    now: u64,
)
    requires
        distinct_keys(s),
        !lazily_expired(item, now),
    ensures
        has_key(entries_set(s, k, item), k),
        value_of(entries_set(s, k, item), k) == item,
        !lazily_expired(value_of(entries_set(s, k, item), k), now),
        forall|x: u64| x != k ==> #[trigger] has_key(entries_set(s, k, item), x) == has_key(s, x),
        forall|x: u64|
            x != k && has_key(s, x) ==> #[trigger] value_of(entries_set(s, k, item), x)
                == value_of(s, x),
{
    if has_key(s, k) {
        let i = idx_of(s, k);
        assert(0 <= i < s.len() && s[i].0 == k);
        lemma_update_facts(s, i, k, item);
    } else {
        lemma_push_facts(s, k, item);
    }
}

/// Law: an entry without an expiry instant is never treated as expired by
/// a lookup and never removed by a cleanup.
pub proof fn lemma_no_ttl_never_expires<K, V>(item: Item<K, V>, now: u64)
    requires
        item.expiration_time is None,
    ensures
        !lazily_expired(item, now),
        !due_at(item, now),
{
}

/// Law: an entry given a positive time to live at the instant `now` is not
/// yet expired at `now`.
pub proof fn lemma_fresh_ttl_alive<K, V>(item: Item<K, V>, now: u64, d: u64)
    requires
        d > 0,
        item.expiration_time == Some(crate::ttl::expiry_instant(now, d)),
    ensures
        !lazily_expired(item, now),
{
}

/// Law: once the clock passes an entry's expiry instant, a lookup treats
/// the entry as expired and a cleanup is due to remove it.
pub proof fn lemma_entry_expires<K, V>(item: Item<K, V>, t: u64, now: u64)
    requires
        item.expiration_time == Some(t),
        now > t,
    ensures
        lazily_expired(item, now),
        due_at(item, now),
{
}

/// The store's well-formedness keeps its entry keys pairwise distinct.
pub proof fn lemma_store_wf_distinct<K, V>(s: &Storage<K, V>)
    requires
        s.wf(),
    ensures
        distinct_keys(s.entries()),
{
}

/// Law: a cleanup at `now` physically removes every entry whose expiry is
/// due at `now`.
pub proof fn lemma_cleanup_removes_expired<K, V>(
    pre: Seq<(u64, Item<K, V>)>,
    post: Seq<(u64, Item<K, V>)>,
    x: u64,
    now: u64,
)
    requires
        cleaned_to(pre, post, now),
        has_key(pre, x),
        due_at(value_of(pre, x), now),
    ensures
        !has_key(post, x),
{
}

} // verus!

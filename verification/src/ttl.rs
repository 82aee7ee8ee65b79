use vstd::prelude::*;

use crate::time::now_seconds;

verus! {

/// The instant `ttl_secs` whole seconds after `now`, saturating at the top
/// of the representable range.
pub open spec fn expiry_instant(now: u64, ttl_secs: u64) -> u64 {
    if now + ttl_secs > u64::MAX {
        u64::MAX
    } else {
        (now + ttl_secs) as u64
    }
}

/// Keeps track of when cache entries expire. Expiry is bucketed at whole
/// seconds: every instant is a number of seconds since the Unix epoch.
///
/// The model is the set of `(key, instant)` registrations currently held:
/// the entry for `key` is due to expire once the clock passes `instant`.
pub trait Expiration: Sized {
    /// The set of `(key, instant)` registrations currently held.
    spec fn registered(&self) -> Set<(u64, u64)>;

    /// Register `k` to expire `ttl_secs` from the current clock reading.
    /// A time to live of 0 means "never expires": nothing is recorded and
    /// `None` is returned. Otherwise the absolute expiry instant is
    /// registered and returned.
    fn insert(&mut self, k: u64, ttl_secs: u64) -> (r: Option<u64>)
        ensures
            ttl_secs == 0 ==> r is None && final(self).registered() == old(self).registered(),
            ttl_secs > 0 ==> (r matches Some(t) && t >= ttl_secs && final(self).registered()
                == old(self).registered().insert((k, t))),
    ;

    /// Replace the registration of `k` at `instant` by one `new_ttl` seconds
    /// from the current clock reading (or by none, when `new_ttl` is 0).
    fn update(&mut self, k: u64, instant: u64, new_ttl: u64) -> (r: Option<u64>)
        ensures
            new_ttl == 0 ==> r is None && final(self).registered() == old(
                self,
            ).registered().remove((k, instant)),
            new_ttl > 0 ==> (r matches Some(t) && t >= new_ttl && final(self).registered() == old(
                self,
            ).registered().remove((k, instant)).insert((k, t))),
    ;

    /// Drop the registration of `k` at `instant`; reports whether it was
    /// held.
    fn remove(&mut self, k: &u64, instant: u64) -> (r: bool)
        ensures
            r == old(self).registered().contains((*k, instant)),
            final(self).registered() == old(self).registered().remove((*k, instant)),
    ;

    /// Drain every registration that is due at `now` (its instant is `now`
    /// or earlier) and return the drained keys.
    fn cleanup(&mut self, now: u64) -> (r: Vec<u64>)
        ensures
            forall|p: (u64, u64)|
                #[trigger] final(self).registered().contains(p) <==> old(
                    self,
                ).registered().contains(p) && p.1 > now,
            forall|k: u64|
                #[trigger] r@.contains(k) <==> exists|t: u64|
                    t <= now && #[trigger] old(self).registered().contains((k, t)),
    ;

    /// Drop every registration.
    fn clear(&mut self)
        ensures
            final(self).registered() == Set::<(u64, u64)>::empty(),
    ;

    /// Whether no registration is held.
    fn is_empty(&self) -> (r: bool)
        ensures
            r <==> self.registered() == Set::<(u64, u64)>::empty(),
    ;
}

/// Holds expiry registrations as a flat list of `(key, instant)` pairs.
pub struct ExpirationMap {
    entries: Vec<(u64, u64)>,
}

impl ExpirationMap {
    /// Create an expiration map with no registrations.
    pub fn new() -> (r: Self)
        ensures
            r.registered() == Set::<(u64, u64)>::empty(),
    {
        let r = Self { entries: Vec::new() };
        proof {
            assert(r.registered() =~= Set::<(u64, u64)>::empty());
        }
        r
    }

    /// Whether `k` is registered to expire at `t`.
    fn contains_pair(&self, k: u64, t: u64) -> (r: bool)
        ensures
            r == self.registered().contains((k, t)),
    {
        let n = self.entries.len();
        let mut i: usize = 0;
        while i < n
            invariant
                i <= n,
                n == self.entries.len(),
                forall|j: int| 0 <= j < i ==> self.entries@[j] != (k, t),
            decreases n - i,
        {
            let e = self.entries[i];
            if e.0 == k && e.1 == t {
                proof {
                    assert(self.entries@.contains((k, t))) by {
                        assert(self.entries@[i as int] == (k, t));
                    }
                }
                return true;
            }
            i += 1;
        }
        proof {
            assert(!self.entries@.contains((k, t)));
        }
        false
    }

    /// Register `k` to expire `ttl_secs` seconds after the instant `now`,
    /// saturating; a time to live of 0 records nothing.
    pub fn insert_at(&mut self, k: u64, ttl_secs: u64, now: u64) -> (r: Option<u64>)
        ensures
            ttl_secs == 0 ==> r is None && final(self).registered() == old(self).registered(),
            ttl_secs > 0 ==> r == Some(expiry_instant(now, ttl_secs)) && final(self).registered()
                == old(self).registered().insert((k, expiry_instant(now, ttl_secs))),
    {
        broadcast use Seq::lemma_push_to_set_commute;

        if ttl_secs == 0 {
            return None;
        }
        let t = now.saturating_add(ttl_secs);
        if !self.contains_pair(k, t) {
            self.entries.push((k, t));
        } else {
            proof {
                assert(old(self).registered().insert((k, t)) =~= old(self).registered());
            }
        }
        Some(t)
    }

    /// Replace the registration of `k` at `instant` by one placed `new_ttl`
    /// seconds after `now` (or by none, when `new_ttl` is 0).
    pub fn update_at(&mut self, k: u64, instant: u64, new_ttl: u64, now: u64) -> (r: Option<u64>)
        ensures
            new_ttl == 0 ==> r is None && final(self).registered() == old(
                self,
            ).registered().remove((k, instant)),
            new_ttl > 0 ==> r == Some(expiry_instant(now, new_ttl)) && final(self).registered()
                == old(self).registered().remove((k, instant)).insert(
                (k, expiry_instant(now, new_ttl)),
            ),
    {
        self.remove(&k, instant);
        self.insert_at(k, new_ttl, now)
    }
}

impl Expiration for ExpirationMap {
    closed spec fn registered(&self) -> Set<(u64, u64)> {
        self.entries@.to_set()
    }

    fn insert(&mut self, k: u64, ttl_secs: u64) -> (r: Option<u64>) {
        let now = now_seconds();
        self.insert_at(k, ttl_secs, now)
    }

    fn update(&mut self, k: u64, instant: u64, new_ttl: u64) -> (r: Option<u64>) {
        let now = now_seconds();
        self.update_at(k, instant, new_ttl, now)
    }

    fn remove(&mut self, k: &u64, instant: u64) -> (r: bool) {
        broadcast use vstd::seq_lib::group_seq_properties;

        let key: u64 = *k;
        let n = self.entries.len();
        let mut kept: Vec<(u64, u64)> = Vec::new();
        let mut found = false;
        let mut i: usize = 0;
        while i < n
            invariant
                i <= n,
                n == self.entries.len(),
                self.entries == old(self).entries,
                found == self.entries@.take(i as int).contains((key, instant)),
                forall|p: (u64, u64)|
                    #[trigger] kept@.contains(p) <==> self.entries@.take(i as int).contains(p) && p
                        != (key, instant),
            decreases n - i,
        {
            broadcast use vstd::seq_lib::group_seq_properties;

            let e = self.entries[i];
            let ghost i0 = i as int;
            let ghost s = self.entries@;
            let ghost kept0 = kept@;
            proof {
                assert(s.take(i0 + 1) =~= s.take(i0).push(s[i0]));
            }
            if e.0 == key && e.1 == instant {
                found = true;
            } else {
                kept.push(e);
            }
            proof {
                assert(found == s.take(i0 + 1).contains((key, instant))) by {
                    if e == (key, instant) {
                        assert(s.take(i0).push(s[i0]).contains((key, instant)));
                    }
                }
                assert forall|p: (u64, u64)| #[trigger] kept@.contains(p) <==> s.take(i0
                    + 1).contains(p) && p != (key, instant) by {
                    assert(s.take(i0 + 1).contains(p) == s.take(i0).push(s[i0]).contains(p));
                    if e != (key, instant) {
                        assert(kept@ == kept0.push(e));
                        assert(kept@.contains(p) == (kept0.contains(p) || p == e));
                    }
                }
            }
            i += 1;
        }
        proof {
            assert(self.entries@.take(n as int) =~= self.entries@);
        }
        self.entries = kept;
        proof {
            assert(self.registered() =~= old(self).registered().remove((key, instant)));
        }
        found
    }

    fn cleanup(&mut self, now: u64) -> (r: Vec<u64>) {
        broadcast use vstd::seq_lib::group_seq_properties;

        let n = self.entries.len();
        let mut kept: Vec<(u64, u64)> = Vec::new();
        let mut drained: Vec<u64> = Vec::new();
        let mut i: usize = 0;
        while i < n
            invariant
                i <= n,
                n == self.entries.len(),
                self.entries == old(self).entries,
                forall|p: (u64, u64)|
                    #[trigger] kept@.contains(p) <==> self.entries@.take(i as int).contains(p)
                        && p.1 > now,
                forall|q: u64|
                    #[trigger] drained@.contains(q) <==> exists|t: u64|
                        t <= now && #[trigger] self.entries@.take(i as int).contains((q, t)),
            decreases n - i,
        {
            broadcast use vstd::seq_lib::group_seq_properties;

            let e = self.entries[i];
            let ghost i0 = i as int;
            let ghost s = self.entries@;
            let ghost dr0 = drained@;
            proof {
                assert(s.take(i0 + 1) =~= s.take(i0).push(s[i0]));
            }
            if e.1 <= now {
                drained.push(e.0);
            } else {
                kept.push(e);
            }
            proof {
                assert forall|q: u64| #[trigger] drained@.contains(q) implies exists|t: u64|
                    t <= now && #[trigger] s.take(i0 + 1).contains((q, t)) by {
                    if dr0.contains(q) {
                        let t = choose|t: u64| t <= now && #[trigger] s.take(i0).contains((q, t));
                        assert(s.take(i0).push(s[i0]).contains((q, t)));
                    } else {
                        assert(e.1 <= now && q == e.0);
                        assert(s.take(i0 + 1)[i0] == s[i0]);
                        assert(s.take(i0 + 1).contains((q, e.1)));
                    }
                }
                assert forall|q: u64|
                    (exists|t: u64| t <= now && #[trigger] s.take(i0 + 1).contains((q, t)))
                        implies #[trigger] drained@.contains(q) by {
                    let t = choose|t: u64| t <= now && #[trigger] s.take(i0 + 1).contains((q, t));
                    assert(s.take(i0).push(s[i0]).contains((q, t)));
                    if s.take(i0).contains((q, t)) {
                        assert(dr0.contains(q));
                    } else {
                        assert((q, t) == s[i0]);
                    }
                }
            }
            i += 1;
        }
        proof {
            assert(self.entries@.take(n as int) =~= self.entries@);
            assert forall|q: u64| #[trigger] drained@.contains(q) <==> exists|t: u64|
                t <= now && #[trigger] old(self).registered().contains((q, t)) by {
                if drained@.contains(q) {
                    let t = choose|t: u64|
                        t <= now && #[trigger] self.entries@.take(n as int).contains((q, t));
                    assert(old(self).registered().contains((q, t)));
                }
                if exists|t: u64| t <= now && #[trigger] old(self).registered().contains((q, t)) {
                    let t = choose|t: u64|
                        t <= now && #[trigger] old(self).registered().contains((q, t));
                    assert(self.entries@.take(n as int).contains((q, t)));
                }
            }
        }
        self.entries = kept;
        drained
    }

    fn clear(&mut self) {
        self.entries = Vec::new();
        proof {
            assert(self.registered() =~= Set::<(u64, u64)>::empty());
        }
    }

    fn is_empty(&self) -> (r: bool) {
        if self.entries.len() == 0 {
            proof {
                assert(self.registered() =~= Set::<(u64, u64)>::empty());
            }
            true
        } else {
            proof {
                assert(self.registered().contains(self.entries@[0]));
            }
            false
        }
    }
}

} // verus!

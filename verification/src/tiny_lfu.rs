use vstd::prelude::*;

use crate::table::{
    add_val, distinct_keys, distinct_vals, drop_val, get_ref, has_key, holds_val, set_key,
    remove_key, value_of,
};

verus! {

/// Largest admissible aging window: at most this many increments happen
/// between two resets.
pub const MAX_WINDOW_SIZE: usize = 10000;

/// The estimate reported for a key: its recorded count, plus one when the
/// doorkeeper has seen the key since the last reset.
pub open spec fn estimate_spec<A: TinyLFU>(a: &A, k: u64) -> int {
    a.count_of(k) + if a.seen(k) {
        1int
    } else {
        0int
    }
}

/// A count after one more sighting, saturating at the top of its range.
pub open spec fn bumped_count(c: u32) -> u32 {
    if c < u32::MAX {
        (c + 1) as u32
    } else {
        c
    }
}

/// An approximate per-key access counter with periodic aging: a counting
/// table, a doorkeeper membership filter that makes the first sighting of a
/// key free, and two touched-key windows that drive the aging reset.
pub trait TinyLFU: Sized {
    /// Well-formedness; established by construction, preserved throughout.
    spec fn wf(&self) -> bool;

    /// The access count recorded for `k`.
    spec fn count_of(&self, k: u64) -> u32;

    /// Whether the doorkeeper has seen `k` since the last reset.
    spec fn seen(&self, k: u64) -> bool;

    /// Whether `k` was counted during the current window.
    spec fn in_current_window(&self, k: u64) -> bool;

    /// Whether `k` was last counted during the previous window.
    spec fn in_previous_window(&self, k: u64) -> bool;

    /// How many increments happened since the last reset.
    spec fn increments(&self) -> int;

    /// The aging window: how many increments run between resets.
    spec fn window_size(&self) -> int;

    /// The estimated number of recent sightings of `k`; never negative.
    fn estimate(&self, k: &u64) -> (r: i64)
        requires
            self.wf(),
        ensures
            r == self.count_of(*k) + if self.seen(*k) {
                1int
            } else {
                0int
            },
            r >= 0,
    ;

    /// Record one sighting of `k`. A full window is aged by a reset first.
    /// The first sighting of a key only marks the doorkeeper; later
    /// sightings bump its count and move it into the current window.
    fn increment(&mut self, k: &u64)
        requires
            old(self).wf(),
        ensures
            final(self).wf(),
            final(self).window_size() == old(self).window_size(),
            old(self).increments() >= old(self).window_size() ==> final(self).increments() == 1,
            old(self).increments() >= old(self).window_size() ==> forall|x: u64|
                old(self).in_previous_window(x) ==> #[trigger] final(self).count_of(x) == 0,
            old(self).increments() >= old(self).window_size() ==> forall|x: u64|
                !old(self).in_previous_window(x) && old(self).in_current_window(x)
                    ==> #[trigger] final(self).count_of(x) == (old(self).count_of(x) as int
                    / 2) as u32,
            old(self).increments() >= old(self).window_size() ==> forall|x: u64|
                !old(self).in_previous_window(x) && !old(self).in_current_window(x)
                    ==> #[trigger] final(self).count_of(x) == old(self).count_of(x),
            old(self).increments() >= old(self).window_size() ==> forall|x: u64|
                #[trigger] final(self).seen(x) == (x == *k),
            old(self).increments() >= old(self).window_size() ==> forall|x: u64|
                !(#[trigger] final(self).in_current_window(x)),
            old(self).increments() >= old(self).window_size() ==> forall|x: u64|
                #[trigger] final(self).in_previous_window(x) == old(self).in_current_window(x),
            old(self).increments() < old(self).window_size() && !old(self).seen(*k) ==> final(self).increments() == old(self).increments() + 1,
            old(self).increments() < old(self).window_size() && !old(self).seen(*k) ==> forall|
                x: u64,
            |
                #[trigger] final(self).count_of(x) == old(self).count_of(x),
            old(self).increments() < old(self).window_size() && !old(self).seen(*k) ==> forall|
                x: u64,
            |
                #[trigger] final(self).seen(x) == (old(self).seen(x) || x == *k),
            old(self).increments() < old(self).window_size() && !old(self).seen(*k) ==> forall|
                x: u64,
            |
                #[trigger] final(self).in_current_window(x) == old(self).in_current_window(x),
            old(self).increments() < old(self).window_size() && !old(self).seen(*k) ==> forall|
                x: u64,
            |
                #[trigger] final(self).in_previous_window(x) == old(self).in_previous_window(x),
            old(self).increments() < old(self).window_size() && old(self).seen(*k) ==> final(self).increments() == old(self).increments() + 1,
            old(self).increments() < old(self).window_size() && old(self).seen(*k) ==> forall|
                x: u64,
            |
                x != *k ==> #[trigger] final(self).count_of(x) == old(self).count_of(x),
            old(self).increments() < old(self).window_size() && old(self).seen(*k) ==> final(self).count_of(*k) == bumped_count(old(self).count_of(*k)),
            old(self).increments() < old(self).window_size() && old(self).seen(*k) ==> forall|
                x: u64,
            |
                #[trigger] final(self).seen(x) == old(self).seen(x),
            old(self).increments() < old(self).window_size() && old(self).seen(*k) ==> forall|
                x: u64,
            |
                #[trigger] final(self).in_current_window(x) == (old(self).in_current_window(x) || x
                    == *k),
            old(self).increments() < old(self).window_size() && old(self).seen(*k) ==> forall|
                x: u64,
            |
                #[trigger] final(self).in_previous_window(x) == (old(self).in_previous_window(x)
                    && x != *k),
    ;

    /// Age the recorded counts: zero every key last touched in the previous
    /// window, halve (rounding the subtracted amount up) every key touched
    /// in the current window and move it to the previous window, clear the
    /// doorkeeper, and restart the increment counter.
    fn reset(&mut self)
        requires
            old(self).wf(),
        ensures
            final(self).wf(),
            final(self).window_size() == old(self).window_size(),
            final(self).increments() == 0,
            forall|x: u64|
                old(self).in_previous_window(x) ==> #[trigger] final(self).count_of(x) == 0,
            forall|x: u64|
                !old(self).in_previous_window(x) && old(self).in_current_window(x) ==> #[trigger]
                final(self).count_of(x) == (old(self).count_of(x) as int / 2) as u32,
            forall|x: u64|
                !old(self).in_previous_window(x) && !old(self).in_current_window(x) ==> #[trigger]
                final(self).count_of(x) == old(self).count_of(x),
            forall|x: u64| !(#[trigger] final(self).seen(x)),
            forall|x: u64| !(#[trigger] final(self).in_current_window(x)),
            forall|x: u64|
                #[trigger] final(self).in_previous_window(x) == old(self).in_current_window(x),
    ;

    /// Hard reset: empty the counting table, the doorkeeper, and the
    /// increment counter (the windows are left as they are).
    fn clear(&mut self)
        requires
            old(self).wf(),
        ensures
            final(self).wf(),
            final(self).window_size() == old(self).window_size(),
            final(self).increments() == 0,
            forall|x: u64| #[trigger] final(self).count_of(x) == 0,
            forall|x: u64| !(#[trigger] final(self).seen(x)),
            forall|x: u64|
                #[trigger] final(self).in_current_window(x) == old(self).in_current_window(x),
            forall|x: u64|
                #[trigger] final(self).in_previous_window(x) == old(self).in_previous_window(x),
    ;
}

/// Whether the estimator `e` is in its freshly constructed state for the
/// aging window `window_size`: no counts, an empty doorkeeper, empty
/// windows, and no increments yet.
pub open spec fn pristine(e: TinyLFUCache, window_size: int) -> bool {
    &&& e.window_size() == window_size
    &&& e.increments() == 0
    &&& forall|x: u64| #[trigger] e.count_of(x) == 0
    &&& forall|x: u64| !(#[trigger] e.seen(x))
    &&& forall|x: u64| !(#[trigger] e.in_current_window(x))
    &&& forall|x: u64| !(#[trigger] e.in_previous_window(x))
}

/// Whether `post` is `pre` after exactly one recorded sighting of `k`:
/// a full window is aged first; the first sighting of a key since the last
/// reset only marks the doorkeeper, later sightings bump its count and
/// move it into the current window.
pub open spec fn incremented(pre: TinyLFUCache, post: TinyLFUCache, k: u64) -> bool {
    &&& post.wf()
    &&& post.window_size() == pre.window_size()
    &&& (pre.increments() >= pre.window_size() ==> {
        &&& post.increments() == 1
        &&& forall|x: u64| pre.in_previous_window(x) ==> #[trigger] post.count_of(x) == 0
        &&& forall|x: u64|
            !pre.in_previous_window(x) && pre.in_current_window(x) ==> #[trigger] post.count_of(x)
                == (pre.count_of(x) as int / 2) as u32
        &&& forall|x: u64|
            !pre.in_previous_window(x) && !pre.in_current_window(x) ==> #[trigger] post.count_of(
                x,
            ) == pre.count_of(x)
        &&& forall|x: u64| #[trigger] post.seen(x) == (x == k)
        &&& forall|x: u64| !(#[trigger] post.in_current_window(x))
        &&& forall|x: u64| #[trigger] post.in_previous_window(x) == pre.in_current_window(x)
    })
    &&& (pre.increments() < pre.window_size() && !pre.seen(k) ==> {
        &&& post.increments() == pre.increments() + 1
        &&& forall|x: u64| #[trigger] post.count_of(x) == pre.count_of(x)
        &&& forall|x: u64| #[trigger] post.seen(x) == (pre.seen(x) || x == k)
        &&& forall|x: u64| #[trigger] post.in_current_window(x) == pre.in_current_window(x)
        &&& forall|x: u64| #[trigger] post.in_previous_window(x) == pre.in_previous_window(x)
    })
    &&& (pre.increments() < pre.window_size() && pre.seen(k) ==> {
        &&& post.increments() == pre.increments() + 1
        &&& forall|x: u64| x != k ==> #[trigger] post.count_of(x) == pre.count_of(x)
        &&& post.count_of(k) == bumped_count(pre.count_of(k))
        &&& forall|x: u64| #[trigger] post.seen(x) == pre.seen(x)
        &&& forall|x: u64|
            #[trigger] post.in_current_window(x) == (pre.in_current_window(x) || x == k)
        &&& forall|x: u64|
            #[trigger] post.in_previous_window(x) == (pre.in_previous_window(x) && x != k)
    })
}

/// The count recorded for `x` in a counting table: its bound value, or 0
/// when it has none.
spec fn table_count(s: Seq<(u64, u32)>, x: u64) -> u32 {
    if has_key(s, x) {
        value_of(s, x)
    } else {
        0u32
    }
}

/// The frequency estimator used by the cache: an exact counting table with
/// doorkeeper and windowed aging.
pub struct TinyLFUCache {
    counts: Vec<(u64, u32)>,
    doorkeeper: Vec<u64>,
    increments: usize,
    window_size: usize,
    actual_window: Vec<u64>,
    previous_window: Vec<u64>,
}

impl TinyLFUCache {
    /// Create an estimator that ages its counts every `window_size`
    /// increments. Construction demands a window in 1..=`MAX_WINDOW_SIZE`.
    pub fn new(window_size: usize) -> (r: Self)
        requires
            1 <= window_size <= MAX_WINDOW_SIZE,
        ensures
            r.wf(),
            r.window_size() == window_size,
            r.increments() == 0,
            forall|x: u64| #[trigger] r.count_of(x) == 0,
            forall|x: u64| !(#[trigger] r.seen(x)),
            forall|x: u64| !(#[trigger] r.in_current_window(x)),
            forall|x: u64| !(#[trigger] r.in_previous_window(x)),
    {
        Self {
            counts: Vec::new(),
            doorkeeper: Vec::new(),
            increments: 0,
            window_size,
            actual_window: Vec::new(),
            previous_window: Vec::new(),
        }
    }
}

impl TinyLFU for TinyLFUCache {
    closed spec fn wf(&self) -> bool {
        &&& distinct_keys(self.counts@)
        &&& distinct_vals(self.actual_window@)
        &&& distinct_vals(self.previous_window@)
        &&& forall|x: u64|
            #[trigger] self.actual_window@.contains(x) ==> !self.previous_window@.contains(x)
        &&& self.increments <= self.window_size
        &&& 1 <= self.window_size <= MAX_WINDOW_SIZE
    }

    closed spec fn count_of(&self, k: u64) -> u32 {
        table_count(self.counts@, k)
    }

    closed spec fn seen(&self, k: u64) -> bool {
        self.doorkeeper@.contains(k)
    }

    closed spec fn in_current_window(&self, k: u64) -> bool {
        self.actual_window@.contains(k)
    }

    closed spec fn in_previous_window(&self, k: u64) -> bool {
        self.previous_window@.contains(k)
    }

    closed spec fn increments(&self) -> int {
        self.increments as int
    }

    closed spec fn window_size(&self) -> int {
        self.window_size as int
    }

    fn estimate(&self, k: &u64) -> (r: i64) {
        let c: u32 = match get_ref(&self.counts, *k) {
            Some(v) => *v,
            None => 0,
        };
        if holds_val(&self.doorkeeper, *k) {
            c as i64 + 1
        } else {
            c as i64
        }
    }

    fn increment(&mut self, k: &u64) {
        let flushed = self.increments >= self.window_size;
        if flushed {
            self.reset();
            proof {
                assert(!self.seen(*k));
                assert(self.increments() == 0);
            }
        }
        let ghost mid = *self;
        if !holds_val(&self.doorkeeper, *k) {
            add_val(&mut self.doorkeeper, *k);
        } else {
            let c: u32 = match get_ref(&self.counts, *k) {
                Some(v) => *v,
                None => 0,
            };
            let bumped: u32 = if c < u32::MAX {
                c + 1
            } else {
                c
            };
            set_key(&mut self.counts, *k, bumped);
            drop_val(&mut self.previous_window, *k);
            add_val(&mut self.actual_window, *k);
        }
        self.increments = self.increments + 1;
        proof {
            if flushed {
                assert(self.counts == mid.counts);
                assert forall|x: u64| #[trigger] self.count_of(x) == mid.count_of(x) by {}
                assert forall|x: u64| #[trigger] self.seen(x) == (x == *k) by {
                    assert(!mid.seen(x));
                }
                assert forall|x: u64| !(#[trigger] self.in_current_window(x)) by {
                    assert(!mid.in_current_window(x));
                }
                assert forall|x: u64| #[trigger] self.in_previous_window(x)
                    == mid.in_previous_window(x) by {}
                assert(self.increments() == 1);
            }
        }
    }

    fn reset(&mut self) {
        let ghost c0 = self.counts@;
        // Zero every key last touched in the previous window.
        let n = self.previous_window.len();
        let mut i: usize = 0;
        while i < n
            invariant
                i <= n,
                n == self.previous_window@.len(),
                self.previous_window == old(self).previous_window,
                self.actual_window == old(self).actual_window,
                self.doorkeeper == old(self).doorkeeper,
                self.increments == old(self).increments,
                self.window_size == old(self).window_size,
                old(self).wf(),
                c0 == old(self).counts@,
                distinct_keys(self.counts@),
                forall|x: u64|
                    self.previous_window@.take(i as int).contains(x) ==> !has_key(
                        #[trigger] self.counts@,
                        x,
                    ),
                forall|x: u64|
                    !self.previous_window@.take(i as int).contains(x) ==> #[trigger] table_count(
                        self.counts@,
                        x,
                    ) == table_count(c0, x),
            decreases n - i,
        {
            broadcast use vstd::seq_lib::group_seq_properties;

            let key = self.previous_window[i];
            let ghost cpre = self.counts@;
            let ghost p = self.previous_window@;
            remove_key(&mut self.counts, key);
            proof {
                assert(p.take(i as int + 1) =~= p.take(i as int).push(p[i as int]));
                assert forall|x: u64| p.take(i as int + 1).contains(x) implies !has_key(
                    #[trigger] self.counts@,
                    x,
                ) by {
                    if x != key {
                        assert(p.take(i as int).contains(x));
                        assert(!has_key(cpre, x));
                    }
                }
                assert forall|x: u64| !p.take(i as int + 1).contains(x) implies #[trigger]
                table_count(self.counts@, x) == table_count(c0, x) by {
                    assert(p.take(i as int + 1).contains(p[i as int]));
                    assert(x != key);
                    assert(!p.take(i as int).contains(x));
                    assert(table_count(cpre, x) == table_count(c0, x));
                    assert(has_key(self.counts@, x) == has_key(cpre, x));
                    if has_key(cpre, x) {
                        assert(value_of(self.counts@, x) == value_of(cpre, x));
                    }
                }
            }
            i += 1;
        }
        let ghost c1 = self.counts@;
        proof {
            assert(self.previous_window@.take(n as int) =~= self.previous_window@);
        }
        // Halve every key touched in the current window.
        let m = self.actual_window.len();
        let mut j: usize = 0;
        while j < m
            invariant
                j <= m,
                m == self.actual_window@.len(),
                self.previous_window == old(self).previous_window,
                self.actual_window == old(self).actual_window,
                self.doorkeeper == old(self).doorkeeper,
                self.increments == old(self).increments,
                self.window_size == old(self).window_size,
                old(self).wf(),
                distinct_keys(self.counts@),
                forall|x: u64|
                    self.actual_window@.take(j as int).contains(x) ==> #[trigger] table_count(
                        self.counts@,
                        x,
                    ) == (table_count(c1, x) as int / 2) as u32,
                forall|x: u64|
                    !self.actual_window@.take(j as int).contains(x) ==> #[trigger] table_count(
                        self.counts@,
                        x,
                    ) == table_count(c1, x),
            decreases m - j,
        {
            broadcast use vstd::seq_lib::group_seq_properties;

            let key = self.actual_window[j];
            let ghost cpre = self.counts@;
            let ghost a = self.actual_window@;
            proof {
                assert(a.take(j as int + 1) =~= a.take(j as int).push(a[j as int]));
                assert(!a.take(j as int).contains(key)) by {
                    if a.take(j as int).contains(key) {
                        let jj = choose|jj: int| 0 <= jj < j && #[trigger] a.take(j as int)[jj]
                            == key;
                        assert(a[jj] == key);
                        assert(a[j as int] == key);
                        assert(distinct_vals(a));
                    }
                }
            }
            let c: u32 = match get_ref(&self.counts, key) {
                Some(v) => *v,
                None => 0,
            };
            set_key(&mut self.counts, key, c / 2);
            proof {
                assert(table_count(cpre, key) == table_count(c1, key));
                assert(c == table_count(cpre, key));
                assert(table_count(self.counts@, key) == c / 2);
                assert(table_count(self.counts@, key) == (table_count(c1, key) as int / 2) as u32);
                assert forall|x: u64| !a.take(j as int + 1).contains(x) implies #[trigger]
                table_count(self.counts@, x) == table_count(c1, x) by {
                    assert(x != key);
                    assert(!a.take(j as int).contains(x));
                    assert(table_count(self.counts@, x) == table_count(cpre, x));
                }
                assert forall|x: u64| a.take(j as int + 1).contains(x) implies #[trigger]
                table_count(self.counts@, x) == (table_count(c1, x) as int / 2) as u32 by {
                    if x != key {
                        assert(a.take(j as int).contains(x));
                        assert(table_count(self.counts@, x) == table_count(cpre, x));
                    }
                }
            }
            j += 1;
        }
        proof {
            assert(self.actual_window@.take(m as int) =~= self.actual_window@);
        }
        // Rotate the windows, clear the doorkeeper, restart the counter.
        let mut rotated: Vec<u64> = Vec::new();
        core::mem::swap(&mut self.actual_window, &mut rotated);
        self.previous_window = rotated;
        self.doorkeeper = Vec::new();
        self.increments = 0;
    }

    fn clear(&mut self) {
        self.counts = Vec::new();
        self.doorkeeper = Vec::new();
        self.increments = 0;
    }
}

} // verus!

use vstd::prelude::*;

use vstd::string::StringExecFns;

verus! {

/// Number of metric rows held (one per event kind, with a spare row).
const METRICS: usize = 6;

/// Number of buckets per metric row.
const ROW_LEN: usize = 256;

/// The event kinds the cache reports.
#[derive(Debug, Clone)]
pub enum MetricType {
    /// A lookup found its key.
    Hit,
    /// A lookup missed.
    Miss,
    /// A fresh key was admitted.
    KeyInsert,
    /// A resident key was overwritten.
    KeyUpdate,
    /// A resident entry was evicted or expired.
    KeyEvict,
}

impl MetricType {
    /// The row that collects this kind.
    pub open spec fn idx_spec(&self) -> int {
        match self {
            MetricType::Hit => 0,
            MetricType::Miss => 1,
            MetricType::KeyInsert => 2,
            MetricType::KeyUpdate => 3,
            MetricType::KeyEvict => 4,
        }
    }

    fn metric_idx(&self) -> (r: usize)
        ensures
            r == self.idx_spec(),
    {
        match self {
            MetricType::Hit => 0,
            MetricType::Miss => 1,
            MetricType::KeyInsert => 2,
            MetricType::KeyUpdate => 3,
            MetricType::KeyEvict => 4,
        }
    }
}

/// The bucket a hashed key falls into within a row.
pub open spec fn bucket_of(k: u64) -> int {
    ((k % 25) * 10) as int
}

/// The sum of a row of counters.
pub open spec fn row_total(s: Seq<usize>) -> int
    decreases s.len(),
{
    if s.len() == 0 {
        0
    } else {
        row_total(s.drop_last()) + s.last()
    }
}

/// Addition on counters, saturating at the top of the range.
pub open spec fn sat_add_usize(a: usize, b: usize) -> usize {
    if a + b > usize::MAX {
        usize::MAX
    } else {
        (a + b) as usize
    }
}

/// A sum clamped to what a counter can report.
pub open spec fn clamped(total: int) -> int {
    if total <= usize::MAX {
        total
    } else {
        usize::MAX as int
    }
}

/// The decimal digits of `n`.
pub open spec fn dec_str(n: int) -> Seq<char>
    decreases n,
{
    if n < 10 {
        seq![dec_digit(n)]
    } else {
        dec_str(n / 10).push(dec_digit(n % 10))
    }
}

/// The character for one decimal digit.
pub open spec fn dec_digit(d: int) -> char {
    if d == 0 {
        '0'
    } else if d == 1 {
        '1'
    } else if d == 2 {
        '2'
    } else if d == 3 {
        '3'
    } else if d == 4 {
        '4'
    } else if d == 5 {
        '5'
    } else if d == 6 {
        '6'
    } else if d == 7 {
        '7'
    } else if d == 8 {
        '8'
    } else {
        '9'
    }
}

/// An aggregate observer of cache events: a small fixed histogram per
/// event kind, keyed by hashed key modulo a constant bucket count.
/// Per-kind totals stay exact (up to counter saturation) since deltas only
/// ever add; per-bucket detail may collide.
pub struct Metrics {
    all: Vec<Vec<usize>>,
}

impl Metrics {
    /// Well-formedness: the histogram has its fixed shape.
    pub closed spec fn wf(&self) -> bool {
        &&& self.all@.len() == METRICS
        &&& forall|i: int| 0 <= i < METRICS ==> #[trigger] self.all@[i]@.len() == ROW_LEN
    }

    /// The counter row that collects the kind `m`.
    pub closed spec fn row(&self, m: MetricType) -> Seq<usize> {
        self.all@[m.idx_spec()]@
    }

    /// What `get` reports for the kind `m`: the row's sum, clamped.
    pub open spec fn total_spec(&self, m: MetricType) -> int {
        clamped(row_total(self.row(m)))
    }

    /// The histogram's fixed shape, for callers: every kind's row holds
    /// 256 buckets.
    pub open spec fn shaped(&self) -> bool {
        forall|m: MetricType| #[trigger] self.row(m).len() == 256
    }

    /// Create a collector with every counter at zero.
    pub fn new() -> (r: Self)
        ensures
            r.wf(),
            r.shaped(),
            forall|m: MetricType, i: int| 0 <= i < 256 ==> #[trigger] r.row(m)[i] == 0,
            forall|m: MetricType| #[trigger] r.total_spec(m) == 0,
    {
        let mut all: Vec<Vec<usize>> = Vec::new();
        let mut i: usize = 0;
        while i < METRICS
            invariant
                i <= METRICS,
                all@.len() == i,
                forall|j: int| 0 <= j < i ==> #[trigger] all@[j]@ == Seq::new(256, |n: int| 0usize),
            decreases METRICS - i,
        {
            let mut row: Vec<usize> = Vec::new();
            let mut j: usize = 0;
            while j < ROW_LEN
                invariant
                    j <= ROW_LEN,
                    row@.len() == j,
                    forall|n: int| 0 <= n < j ==> #[trigger] row@[n] == 0,
                decreases ROW_LEN - j,
            {
                row.push(0);
                j += 1;
            }
            proof {
                assert(row@ =~= Seq::new(256, |n: int| 0usize));
            }
            all.push(row);
            i += 1;
        }
        let r = Self { all };
        proof {
            assert forall|m: MetricType| #[trigger] r.total_spec(m) == 0 by {
                lemma_row_total_zero(r.row(m), 256);
            }
            assert forall|m: MetricType| #[trigger] r.row(m).len() == 256 by {
                assert(0 <= m.idx_spec() < 6);
            }
        }
        r
    }

    /// Add `delta` to the bucket of `k` for the kind `metric`, saturating.
    pub fn insert(&mut self, metric: MetricType, k: &u64, delta: usize)
        requires
            old(self).wf(),
        ensures
            final(self).wf(),
            old(self).shaped() ==> final(self).shaped(),
            recorded(*old(self), *final(self), metric, *k, delta),
            old(self).row(metric)[bucket_of(*k)] + delta <= usize::MAX ==> row_total(
                final(self).row(metric),
            ) == row_total(old(self).row(metric)) + delta,
    {
        let idx: usize = ((*k % 25) * 10) as usize;
        let row_idx = metric.metric_idx();
        let row = &mut self.all[row_idx];
        let cur = row[idx];
        row[idx] = cur.saturating_add(delta);
        proof {
            lemma_bucket_of_bounds(*k);
            if old(self).row(metric)[bucket_of(*k)] + delta <= usize::MAX {
                lemma_row_total_update(
                    old(self).row(metric),
                    bucket_of(*k),
                    sat_add_usize(old(self).row(metric)[bucket_of(*k)], delta),
                );
            }
        }
    }

    /// The clamped total collected for the kind `metric`.
    pub fn get(&self, metric: MetricType) -> (r: usize)
        requires
            self.wf(),
        ensures
            r == self.total_spec(metric),
    {
        let row = &self.all[metric.metric_idx()];
        let n = row.len();
        let mut acc: usize = 0;
        let mut i: usize = 0;
        while i < n
            invariant
                i <= n,
                n == row@.len(),
                acc == clamped(row_total(row@.take(i as int))),
            decreases n - i,
        {
            let v = row[i];
            proof {
                assert(row@.take(i as int + 1).drop_last() =~= row@.take(i as int));
                assert(row@.take(i as int + 1).last() == row@[i as int]);
            }
            acc = acc.saturating_add(v);
            i += 1;
        }
        proof {
            assert(row@.take(n as int) =~= row@);
        }
        acc
    }

    /// The total of lookups that found their key.
    pub fn hits(&self) -> (r: usize)
        requires
            self.wf(),
        ensures
            r == self.total_spec(MetricType::Hit),
    {
        self.get(MetricType::Hit)
    }

    /// The total of lookups that missed.
    pub fn misses(&self) -> (r: usize)
        requires
            self.wf(),
        ensures
            r == self.total_spec(MetricType::Miss),
    {
        self.get(MetricType::Miss)
    }

    /// The total of fresh keys admitted.
    pub fn keys_inserted(&self) -> (r: usize)
        requires
            self.wf(),
        ensures
            r == self.total_spec(MetricType::KeyInsert),
    {
        self.get(MetricType::KeyInsert)
    }

    /// The total of resident keys overwritten.
    pub fn keys_updated(&self) -> (r: usize)
        requires
            self.wf(),
        ensures
            r == self.total_spec(MetricType::KeyUpdate),
    {
        self.get(MetricType::KeyUpdate)
    }

    /// The total of entries evicted or expired.
    pub fn keys_evicted(&self) -> (r: usize)
        requires
            self.wf(),
        ensures
            r == self.total_spec(MetricType::KeyEvict),
    {
        self.get(MetricType::KeyEvict)
    }

    /// Zero every counter of every kind.
    pub fn clear(&mut self)
        requires
            old(self).wf(),
        ensures
            final(self).wf(),
            final(self).shaped(),
            forall|m: MetricType, i: int| 0 <= i < 256 ==> #[trigger] final(self).row(m)[i] == 0,
            forall|m: MetricType| #[trigger] final(self).total_spec(m) == 0,
    {
        let fresh = Self::new();
        self.all = fresh.all;
        proof {
            assert forall|m: MetricType| #[trigger] self.total_spec(m) == 0 by {
                assert(self.row(m) == fresh.row(m));
            }
        }
    }

    /// An independent copy of the collected counters.
    pub fn snapshot(&self) -> (r: Metrics)
        requires
            self.wf(),
        ensures
            r.wf(),
            self.shaped() ==> r.shaped(),
            forall|m: MetricType| #[trigger] r.row(m) == self.row(m),
    {
        let mut all: Vec<Vec<usize>> = Vec::new();
        let mut i: usize = 0;
        while i < METRICS
            invariant
                i <= METRICS,
                self.wf(),
                all@.len() == i,
                forall|j: int| 0 <= j < i ==> #[trigger] all@[j]@ == self.all@[j]@,
            decreases METRICS - i,
        {
            let src_row = &self.all[i];
            let n = src_row.len();
            let mut row: Vec<usize> = Vec::new();
            let mut j: usize = 0;
            while j < n
                invariant
                    j <= n,
                    n == src_row@.len(),
                    row@.len() == j,
                    forall|t: int| 0 <= t < j ==> #[trigger] row@[t] == src_row@[t],
                decreases n - j,
            {
                row.push(src_row[j]);
                j += 1;
            }
            proof {
                assert(row@ =~= src_row@);
            }
            all.push(row);
            i += 1;
        }
        let r = Metrics { all };
        proof {
            assert forall|m: MetricType| #[trigger] r.row(m) == self.row(m) by {
                assert(r.all@[m.idx_spec()]@ == self.all@[m.idx_spec()]@);
            }
        }
        r
    }

    /// A one-line description of the collected totals.
    pub fn debug_string(&self) -> (r: String)
        requires
            self.wf(),
        ensures
            r@ == "Metrics { hits: "@ + dec_str(self.total_spec(MetricType::Hit)) + ", misses: "@
                + dec_str(self.total_spec(MetricType::Miss)) + ", keys_inserted: "@ + dec_str(
                self.total_spec(MetricType::KeyInsert),
            ) + ", keys_updated: "@ + dec_str(self.total_spec(MetricType::KeyUpdate))
                + ", keys_evicted: "@ + dec_str(self.total_spec(MetricType::KeyEvict)) + " }"@,
    {
        let mut s = "Metrics { hits: ".to_owned();
        s.append(usize_to_string(self.hits()).as_str());
        s.append(", misses: ");
        s.append(usize_to_string(self.misses()).as_str());
        s.append(", keys_inserted: ");
        s.append(usize_to_string(self.keys_inserted()).as_str());
        s.append(", keys_updated: ");
        s.append(usize_to_string(self.keys_updated()).as_str());
        s.append(", keys_evicted: ");
        s.append(usize_to_string(self.keys_evicted()).as_str());
        s.append(" }");
        s
    }
}

/// Whether `post` is `pre` with one event of kind `t` recorded for the
/// hashed key `k` with weight `delta`: the key's bucket in that kind's row
/// grows by `delta` (saturating) and every other kind's row is unchanged.
pub open spec fn recorded(pre: Metrics, post: Metrics, t: MetricType, k: u64, delta: usize) -> bool {
    &&& post.row(t) == pre.row(t).update(
        bucket_of(k),
        sat_add_usize(pre.row(t)[bucket_of(k)], delta),
    )
    &&& forall|u: MetricType| u.idx_spec() != t.idx_spec() ==> #[trigger] post.row(u) == pre.row(u)
}

/// The bucket of any hashed key lies within a row.
pub proof fn lemma_bucket_of_bounds(k: u64)
    ensures
        0 <= bucket_of(k) < 256,
{
    assert(k % 25 < 25);
}

/// Law: raising one counter changes the row's sum by exactly the
/// difference; totals are sums of the recorded deltas.
pub proof fn lemma_row_total_update(s: Seq<usize>, i: int, v: usize)
    requires
        0 <= i < s.len(),
    ensures
        row_total(s.update(i, v)) == row_total(s) - s[i] + v,
    decreases s.len(),
{
    let s2 = s.update(i, v);
    if i == s.len() - 1 {
        assert(s2.drop_last() =~= s.drop_last());
        assert(s2.last() == v);
    } else {
        assert(s2.drop_last() =~= s.drop_last().update(i, v));
        lemma_row_total_update(s.drop_last(), i, v);
        assert(s2.last() == s.last());
    }
}

/// A row of zeroes sums to zero.
proof fn lemma_row_total_zero(s: Seq<usize>, n: int)
    requires
        s.len() == n,
        forall|i: int| 0 <= i < n ==> #[trigger] s[i] == 0,
    ensures
        row_total(s) == 0,
    decreases n,
{
    if n > 0 {
        lemma_row_total_zero(s.drop_last(), n - 1);
    }
}

/// The decimal digits of `n`, as text.
fn usize_to_string(n: usize) -> (r: String)
    ensures
        r@ == dec_str(n as int),
    decreases n,
{
    if n < 10 {
        let digit: &str = match n {
            0 => "0",
            1 => "1",
            2 => "2",
            3 => "3",
            4 => "4",
            5 => "5",
            6 => "6",
            7 => "7",
            8 => "8",
            _ => "9",
        };
        proof {
            reveal_strlit("0");
            reveal_strlit("1");
            reveal_strlit("2");
            reveal_strlit("3");
            reveal_strlit("4");
            reveal_strlit("5");
            reveal_strlit("6");
            reveal_strlit("7");
            reveal_strlit("8");
            reveal_strlit("9");
        }
        digit.to_owned()
    } else {
        let mut s = usize_to_string(n / 10);
        let digit: &str = match n % 10 {
            0 => "0",
            1 => "1",
            2 => "2",
            3 => "3",
            4 => "4",
            5 => "5",
            6 => "6",
            7 => "7",
            8 => "8",
            _ => "9",
        };
        proof {
            reveal_strlit("0");
            reveal_strlit("1");
            reveal_strlit("2");
            reveal_strlit("3");
            reveal_strlit("4");
            reveal_strlit("5");
            reveal_strlit("6");
            reveal_strlit("7");
            reveal_strlit("8");
            reveal_strlit("9");
        }
        s.append(digit);
        s
    }
}

} // verus!

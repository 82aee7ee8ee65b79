//! Association-list helpers: a `Vec<(u64, V)>` read as a key-value table.

use vstd::prelude::*;

verus! {

/// Whether the association list `s` holds an entry for key `k`.
pub open spec fn has_key<V>(s: Seq<(u64, V)>, k: u64) -> bool {
    exists|i: int| 0 <= i < s.len() && s[i].0 == k
}

/// The position of the entry for key `k` in `s` (meaningful when the keys of
/// `s` are distinct and `k` is present).
pub open spec fn idx_of<V>(s: Seq<(u64, V)>, k: u64) -> int {
    choose|i: int| 0 <= i < s.len() && s[i].0 == k
}

/// The value associated with key `k` in `s`.
pub open spec fn value_of<V>(s: Seq<(u64, V)>, k: u64) -> V {
    s[idx_of(s, k)].1
}

/// Whether the keys of `s` are pairwise distinct.
pub open spec fn distinct_keys<V>(s: Seq<(u64, V)>) -> bool {
    forall|i: int, j: int| 0 <= i < j < s.len() ==> s[i].0 != s[j].0
}

/// Whether the values of `s` are pairwise distinct.
pub open spec fn distinct_vals(s: Seq<u64>) -> bool {
    forall|i: int, j: int| 0 <= i < j < s.len() ==> s[i] != s[j]
}

/// With distinct keys, the entry position of any present key is the position
/// of its one occurrence.
pub proof fn lemma_idx_of_is<V>(s: Seq<(u64, V)>, i: int)
    requires
        distinct_keys(s),
        0 <= i < s.len(),
    ensures
        has_key(s, s[i].0),
        idx_of(s, s[i].0) == i,
{
    assert(has_key(s, s[i].0)) by {
        assert(0 <= i < s.len() && s[i].0 == s[i].0);
    }
    let j = idx_of(s, s[i].0);
    assert(0 <= j < s.len() && s[j].0 == s[i].0);
    if i < j {
        assert(false);
    } else if j < i {
        assert(false);
    }
}

/// Find the position of the entry for key `k`, if one is present.
pub fn find_key<V>(v: &Vec<(u64, V)>, k: u64) -> (r: Option<usize>)
    requires
        distinct_keys(v@),
    ensures
        match r {
            Some(i) => i < v@.len() && v@[i as int].0 == k && has_key(v@, k) && idx_of(v@, k)
                == i as int,
            None => !has_key(v@, k),
        },
{
    let n = v.len();
    let mut i: usize = 0;
    while i < n
        invariant
            i <= n,
            n == v@.len(),
            distinct_keys(v@),
            forall|j: int| 0 <= j < i ==> v@[j].0 != k,
        decreases n - i,
    {
        if v[i].0 == k {
            proof {
                lemma_idx_of_is(v@, i as int);
            }
            return Some(i);
        }
        i += 1;
    }
    None
}

/// Look up the value for key `k`.
pub fn get_ref<'a, V>(v: &'a Vec<(u64, V)>, k: u64) -> (r: Option<&'a V>)
    requires
        distinct_keys(v@),
    ensures
        match r {
            Some(val) => has_key(v@, k) && *val == value_of(v@, k),
            None => !has_key(v@, k),
        },
{
    match find_key(v, k) {
        Some(i) => Some(&v[i].1),
        None => None,
    }
}

/// Bind `k` to `val`, replacing any existing binding; a fresh key is
/// appended at the back. Returns the replaced value.
pub fn set_key<V>(v: &mut Vec<(u64, V)>, k: u64, val: V) -> (r: Option<V>)
    requires
        distinct_keys(old(v)@),
    ensures
        distinct_keys(final(v)@),
        has_key(final(v)@, k),
        value_of(final(v)@, k) == val,
        forall|x: u64| x != k ==> #[trigger] has_key(final(v)@, x) == has_key(old(v)@, x),
        forall|x: u64|
            x != k && has_key(final(v)@, x) ==> #[trigger] value_of(final(v)@, x) == value_of(
                old(v)@,
                x,
            ),
        match r {
            Some(prev) => has_key(old(v)@, k) && prev == value_of(old(v)@, k) && final(v)@ == old(
                v,
            )@.update(idx_of(old(v)@, k), (k, val)),
            None => !has_key(old(v)@, k) && final(v)@ == old(v)@.push((k, val)),
        },
{
    match find_key(v, k) {
        Some(i) => {
            let ghost s0 = v@;
            let mut entry = (k, val);
            core::mem::swap(&mut v[i], &mut entry);
            proof {
                assert(v@ == s0.update(i as int, (k, val)));
                lemma_update_facts(s0, i as int, k, val);
            }
            Some(entry.1)
        },
        None => {
            let ghost s0 = v@;
            v.push((k, val));
            proof {
                lemma_push_facts(s0, k, val);
            }
            None
        },
    }
}

/// Drop the binding of `k`, shifting later entries forward. Returns the
/// removed value.
pub fn remove_key<V>(v: &mut Vec<(u64, V)>, k: u64) -> (r: Option<V>)
    requires
        distinct_keys(old(v)@),
    ensures
        distinct_keys(final(v)@),
        !has_key(final(v)@, k),
        forall|x: u64| x != k ==> #[trigger] has_key(final(v)@, x) == has_key(old(v)@, x),
        forall|x: u64|
            x != k && has_key(final(v)@, x) ==> #[trigger] value_of(final(v)@, x) == value_of(
                old(v)@,
                x,
            ),
        match r {
            Some(prev) => has_key(old(v)@, k) && prev == value_of(old(v)@, k) && final(v)@ == old(
                v,
            )@.remove(idx_of(old(v)@, k)),
            None => !has_key(old(v)@, k) && final(v)@ == old(v)@,
        },
{
    match find_key(v, k) {
        Some(i) => {
            let ghost s0 = v@;
            let entry = v.remove(i);
            proof {
                lemma_remove_facts(s0, i as int, k);
            }
            Some(entry.1)
        },
        None => None,
    }
}

/// Replacing the entry at the position of `k` keeps the other bindings.
pub proof fn lemma_update_facts<V>(s: Seq<(u64, V)>, i: int, k: u64, val: V)
    requires
        distinct_keys(s),
        0 <= i < s.len(),
        s[i].0 == k,
    ensures
        distinct_keys(s.update(i, (k, val))),
        has_key(s.update(i, (k, val)), k),
        value_of(s.update(i, (k, val)), k) == val,
        forall|x: u64|
            x != k ==> #[trigger] has_key(s.update(i, (k, val)), x) == has_key(s, x),
        forall|x: u64|
            x != k && has_key(s, x) ==> #[trigger] value_of(s.update(i, (k, val)), x) == value_of(
                s,
                x,
            ),
{
    let s2 = s.update(i, (k, val));
    assert(distinct_keys(s2)) by {
        assert forall|a: int, b: int| 0 <= a < b < s2.len() implies s2[a].0 != s2[b].0 by {
            assert(s[a].0 != s[b].0);
        }
    }
    lemma_idx_of_is(s2, i);
    assert forall|x: u64| x != k implies #[trigger] has_key(s2, x) == has_key(s, x) by {
        if has_key(s2, x) {
            let j = choose|j: int| 0 <= j < s2.len() && s2[j].0 == x;
            assert(s[j].0 == x);
        }
        if has_key(s, x) {
            let j = choose|j: int| 0 <= j < s.len() && s[j].0 == x;
            assert(s2[j].0 == x);
        }
    }
    assert forall|x: u64| x != k && has_key(s, x) implies #[trigger] value_of(s2, x) == value_of(
        s,
        x,
    ) by {
        let j = idx_of(s, x);
        assert(0 <= j < s.len() && s[j].0 == x);
        assert(s2[j].0 == x);
        lemma_idx_of_is(s2, j);
        lemma_idx_of_is(s, j);
    }
}

/// Appending an entry for a fresh key keeps the other bindings.
pub proof fn lemma_push_facts<V>(s: Seq<(u64, V)>, k: u64, val: V)
    requires
        distinct_keys(s),
        !has_key(s, k),
    ensures
        distinct_keys(s.push((k, val))),
        has_key(s.push((k, val)), k),
        value_of(s.push((k, val)), k) == val,
        forall|x: u64| x != k ==> #[trigger] has_key(s.push((k, val)), x) == has_key(s, x),
        forall|x: u64|
            x != k && has_key(s, x) ==> #[trigger] value_of(s.push((k, val)), x) == value_of(s, x),
{
    let s2 = s.push((k, val));
    assert(distinct_keys(s2)) by {
        assert forall|a: int, b: int| 0 <= a < b < s2.len() implies s2[a].0 != s2[b].0 by {
            if b < s.len() {
                assert(s[a].0 != s[b].0);
            } else {
                assert(s2[b] == (k, val));
                assert(s2[a].0 == s[a].0);
                if s[a].0 == k {
                    assert(has_key(s, k)) by {
                        assert(s[a].0 == k);
                    }
                }
            }
        }
    }
    assert(s2[s.len() as int].0 == k);
    lemma_idx_of_is(s2, s.len() as int);
    assert forall|x: u64| x != k implies #[trigger] has_key(s2, x) == has_key(s, x) by {
        if has_key(s2, x) {
            let j = choose|j: int| 0 <= j < s2.len() && s2[j].0 == x;
            assert(j < s.len());
            assert(s[j].0 == x);
        }
        if has_key(s, x) {
            let j = choose|j: int| 0 <= j < s.len() && s[j].0 == x;
            assert(s2[j].0 == x);
        }
    }
    assert forall|x: u64| x != k && has_key(s, x) implies #[trigger] value_of(s2, x) == value_of(
        s,
        x,
    ) by {
        let j = idx_of(s, x);
        assert(0 <= j < s.len() && s[j].0 == x);
        assert(s2[j].0 == x);
        lemma_idx_of_is(s2, j);
        lemma_idx_of_is(s, j);
    }
}

/// Removing the entry at the position of `k` keeps the other bindings.
pub proof fn lemma_remove_facts<V>(s: Seq<(u64, V)>, i: int, k: u64)
    requires
        distinct_keys(s),
        0 <= i < s.len(),
        s[i].0 == k,
    ensures
        distinct_keys(s.remove(i)),
        !has_key(s.remove(i), k),
        forall|x: u64| x != k ==> #[trigger] has_key(s.remove(i), x) == has_key(s, x),
        forall|x: u64|
            x != k && has_key(s, x) ==> #[trigger] value_of(s.remove(i), x) == value_of(s, x),
{
    let s2 = s.remove(i);
    assert forall|a: int, b: int| 0 <= a < b < s2.len() implies s2[a].0 != s2[b].0 by {
        let a0 = if a < i {
            a
        } else {
            a + 1
        };
        let b0 = if b < i {
            b
        } else {
            b + 1
        };
        assert(s2[a] == s[a0] && s2[b] == s[b0]);
        assert(s[a0].0 != s[b0].0);
    }
    assert(!has_key(s2, k)) by {
        if has_key(s2, k) {
            let j = choose|j: int| 0 <= j < s2.len() && s2[j].0 == k;
            let j0 = if j < i {
                j
            } else {
                j + 1
            };
            assert(s[j0].0 == k);
            assert(j0 != i);
            assert(s[i].0 == s[j0].0);
        }
    }
    assert forall|x: u64| x != k implies #[trigger] has_key(s2, x) == has_key(s, x) by {
        if has_key(s2, x) {
            let j = choose|j: int| 0 <= j < s2.len() && s2[j].0 == x;
            let j0 = if j < i {
                j
            } else {
                j + 1
            };
            assert(s[j0].0 == x);
        }
        if has_key(s, x) {
            let j = choose|j: int| 0 <= j < s.len() && s[j].0 == x;
            assert(j != i);
            if j < i {
                assert(s2[j].0 == x);
            } else {
                assert(s2[j - 1].0 == x);
            }
        }
    }
    assert forall|x: u64| x != k && has_key(s, x) implies #[trigger] value_of(s2, x) == value_of(
        s,
        x,
    ) by {
        let j = idx_of(s, x);
        assert(0 <= j < s.len() && s[j].0 == x);
        assert(j != i);
        let j2 = if j < i {
            j
        } else {
            j - 1
        };
        assert(s2[j2] == s[j]);
        lemma_idx_of_is(s2, j2);
        lemma_idx_of_is(s, j);
    }
}

/// Whether the vector holds the value `k`.
pub fn holds_val(v: &Vec<u64>, k: u64) -> (r: bool)
    ensures
        r == v@.contains(k),
{
    let n = v.len();
    let mut i: usize = 0;
    while i < n
        invariant
            i <= n,
            n == v@.len(),
            forall|j: int| 0 <= j < i ==> v@[j] != k,
        decreases n - i,
    {
        if v[i] == k {
            proof {
                assert(v@.contains(k)) by {
                    assert(v@[i as int] == k);
                }
            }
            return true;
        }
        i += 1;
    }
    false
}

/// Add the value `k` unless it is already held.
pub fn add_val(v: &mut Vec<u64>, k: u64)
    ensures
        forall|x: u64| #[trigger] final(v)@.contains(x) == (old(v)@.contains(x) || x == k),
        distinct_vals(old(v)@) ==> distinct_vals(final(v)@),
{
    broadcast use vstd::seq_lib::group_seq_properties;

    if !holds_val(v, k) {
        let ghost s0 = v@;
        v.push(k);
        proof {
            assert(distinct_vals(s0) ==> distinct_vals(v@)) by {
                if distinct_vals(s0) {
                    assert forall|a: int, b: int| 0 <= a < b < v@.len() implies v@[a] != v@[b] by {
                        if b < s0.len() {
                            assert(s0[a] != s0[b]);
                        } else {
                            assert(v@[b] == k);
                            assert(s0.contains(s0[a])) by {
                                assert(s0[a] == s0[a]);
                            }
                        }
                    }
                }
            }
        }
    } else {
        proof {
            assert(forall|x: u64| #[trigger] v@.contains(x) == (old(v)@.contains(x) || x == k));
        }
    }
}

/// Drop every occurrence of the value `k`.
pub fn drop_val(v: &mut Vec<u64>, k: u64)
    ensures
        forall|x: u64| #[trigger] final(v)@.contains(x) == (old(v)@.contains(x) && x != k),
        distinct_vals(old(v)@) ==> distinct_vals(final(v)@),
{
    let n = v.len();
    let mut kept: Vec<u64> = Vec::new();
    let mut i: usize = 0;
    while i < n
        invariant
            i <= n,
            n == v@.len(),
            v@ == old(v)@,
            forall|x: u64|
                #[trigger] kept@.contains(x) == (v@.take(i as int).contains(x) && x != k),
            distinct_vals(v@) ==> distinct_vals(kept@),
        decreases n - i,
    {
        broadcast use vstd::seq_lib::group_seq_properties;

        let e = v[i];
        let ghost i0 = i as int;
        let ghost s = v@;
        let ghost kept0 = kept@;
        proof {
            assert(s.take(i0 + 1) =~= s.take(i0).push(s[i0]));
        }
        if e != k {
            kept.push(e);
            proof {
                assert(distinct_vals(s) ==> distinct_vals(kept@)) by {
                    if distinct_vals(s) {
                        assert forall|a: int, b: int|
                            0 <= a < b < kept@.len() implies kept@[a] != kept@[b] by {
                            if b < kept0.len() {
                                assert(kept0[a] != kept0[b]);
                            } else {
                                assert(kept@[b] == e);
                                assert(kept0.contains(kept0[a])) by {
                                    assert(kept0[a] == kept0[a]);
                                }
                                assert(s.take(i0).contains(kept0[a]));
                                let j = choose|j: int|
                                    0 <= j < i0 && #[trigger] s.take(i0)[j] == kept0[a];
                                assert(s[j] == kept0[a]);
                                assert(s[i0] == e);
                            }
                        }
                    }
                }
            }
        }
        i += 1;
    }
    proof {
        assert(v@.take(n as int) =~= v@);
    }
    *v = kept;
}

} // verus!

//! Tables keyed by strings, held as vectors of (key, value) pairs with each
//! key at most once: the model of a map whose keys are names.
use vstd::prelude::*;
use crate::text::str_eq;

verus! {

/// Some entry has key `k`.
pub open spec fn has_key<W>(v: Seq<(Seq<char>, W)>, k: Seq<char>) -> bool {
    exists|i: int| 0 <= i < v.len() && #[trigger] v[i].0 == k
}

/// No key occurs twice.
pub open spec fn distinct_keys<W>(v: Seq<(Seq<char>, W)>) -> bool {
    forall|i: int, j: int| 0 <= i < v.len() && 0 <= j < v.len() && i != j ==> v[i].0 != v[j].0
}

/// The value stored under `k`.
pub open spec fn lookup<W>(v: Seq<(Seq<char>, W)>, k: Seq<char>) -> Option<W> {
    if has_key(v, k) {
        Some(v[choose|i: int| 0 <= i < v.len() && #[trigger] v[i].0 == k].1)
    } else {
        None
    }
}

/// The keys of a string-keyed vector, with its values.
pub open spec fn keyed<V>(v: Seq<(String, V)>) -> Seq<(Seq<char>, V)> {
    v.map_values(|p: (String, V)| (p.0@, p.1))
}

/// In a table with distinct keys, the entry at `i` is what `lookup` finds.
pub proof fn lemma_lookup_at<W>(v: Seq<(Seq<char>, W)>, i: int)
    requires
        distinct_keys(v),
        0 <= i < v.len(),
    ensures
        lookup(v, v[i].0) == Some(v[i].1),
{
    let k = v[i].0;
    assert(has_key(v, k));
    let j = choose|j: int| 0 <= j < v.len() && #[trigger] v[j].0 == k;
    assert(j == i);
}

/// The index of the entry with key `k`, if any.
pub fn find_key<V>(v: &Vec<(String, V)>, k: &str) -> (r: Option<usize>)
    ensures
        match r {
            Some(i) => i < v@.len() && v@[i as int].0@ == k@,
            None => forall|i: int| 0 <= i < v@.len() ==> #[trigger] v@[i].0@ != k@,
        },
{
    let mut i: usize = 0;
    while i < v.len()
        invariant
            i <= v@.len(),
            forall|j: int| 0 <= j < i ==> #[trigger] v@[j].0@ != k@,
        decreases v@.len() - i,
    {
        if str_eq(v[i].0.as_str(), k) {
            return Some(i);
        }
        i = i + 1;
    }
    None
}

/// Stores `val` under `key`: replaces the value of an existing entry, or
/// appends a new entry.
pub fn assoc_set<V>(v: &mut Vec<(String, V)>, key: String, val: V)
    requires
        distinct_keys(keyed(old(v)@)),
    ensures
        distinct_keys(keyed(final(v)@)),
        exists|i: int| 0 <= i < final(v)@.len() && final(v)@[i].0@ == key@ && final(v)@[i].1 == val,
        forall|k: Seq<char>|
            k != key@ ==> #[trigger] lookup(keyed(final(v)@), k) == lookup(keyed(old(v)@), k),
        lookup(keyed(final(v)@), key@) == Some(val),
        (exists|i: int|
            0 <= i < old(v)@.len() && old(v)@[i].0@ == key@ && keyed(final(v)@) == keyed(old(v)@).update(
                i,
                (key@, val),
            )) || (!has_key(keyed(old(v)@), key@) && keyed(final(v)@) == keyed(old(v)@).push((key@, val))),
{
    let ghost old_v = keyed(v@);
    match find_key(v, key.as_str()) {
        Some(i) => {
            let k2 = key.clone();
            v.set(i, (key, val));
            proof {
                let nv = keyed(v@);
                assert(nv =~= old_v.update(i as int, (k2@, val)));
                assert(old_v[i as int].0 == k2@);
                assert forall|j: int| 0 <= j < nv.len() implies #[trigger] nv[j].0 == old_v[j].0 by {}
                assert(distinct_keys(nv));
                assert forall|k: Seq<char>| k != k2@ implies #[trigger] lookup(nv, k) == lookup(old_v, k) by {
                    if has_key(old_v, k) {
                        let j = choose|j: int| 0 <= j < old_v.len() && #[trigger] old_v[j].0 == k;
                        assert(j != i);
                        assert(nv[j] == old_v[j]);
                        lemma_lookup_at(old_v, j);
                        lemma_lookup_at(nv, j);
                    } else {
                        assert forall|j: int| 0 <= j < nv.len() implies #[trigger] nv[j].0 != k by {
                            if j != i {
                                assert(nv[j] == old_v[j]);
                            }
                        }
                    }
                }
                lemma_lookup_at(nv, i as int);
                assert(v@[i as int].0@ == k2@ && v@[i as int].1 == val);
            }
        },
        None => {
            let ghost kv = key@;
            v.push((key, val));
            proof {
                let nv = keyed(v@);
                assert(nv =~= old_v.push((kv, val)));
                let n = old_v.len() as int;
                assert(distinct_keys(nv)) by {
                    assert forall|a: int, b: int|
                        0 <= a < nv.len() && 0 <= b < nv.len() && a != b implies nv[a].0 != nv[b].0 by {
                        if a == n {
                            assert(old_v[b].0 == v@[b].0@);
                        } else if b == n {
                            assert(old_v[a].0 == v@[a].0@);
                        }
                    }
                }
                assert forall|k: Seq<char>| k != kv implies #[trigger] lookup(nv, k) == lookup(old_v, k) by {
                    if has_key(old_v, k) {
                        let j = choose|j: int| 0 <= j < old_v.len() && #[trigger] old_v[j].0 == k;
                        assert(nv[j] == old_v[j]);
                        lemma_lookup_at(old_v, j);
                        lemma_lookup_at(nv, j);
                    } else {
                        assert forall|j: int| 0 <= j < nv.len() implies #[trigger] nv[j].0 != k by {
                            if j < n {
                                assert(nv[j] == old_v[j]);
                            }
                        }
                    }
                }
                lemma_lookup_at(nv, n);
                assert(v@[n].0@ == kv && v@[n].1 == val);
            }
        },
    }
}

/// Removes the entry with key `key`, if any, and returns its value.
pub fn assoc_remove<V>(v: &mut Vec<(String, V)>, key: &str) -> (r: Option<V>)
    requires
        distinct_keys(keyed(old(v)@)),
    ensures
        distinct_keys(keyed(final(v)@)),
        r == lookup(keyed(old(v)@), key@),
        lookup(keyed(final(v)@), key@) is None,
        forall|k: Seq<char>|
            k != key@ ==> #[trigger] lookup(keyed(final(v)@), k) == lookup(keyed(old(v)@), k),
{
    let ghost old_v = keyed(v@);
    match find_key(v, key) {
        Some(i) => {
            proof {
                lemma_lookup_at(old_v, i as int);
            }
            let (_, val) = v.remove(i);
            proof {
                let nv = keyed(v@);
                assert(nv =~= old_v.remove(i as int));
                assert(distinct_keys(nv)) by {
                    assert forall|a: int, b: int|
                        0 <= a < nv.len() && 0 <= b < nv.len() && a != b implies nv[a].0 != nv[b].0 by {
                        let a2 = if a < i { a } else { a + 1 };
                        let b2 = if b < i { b } else { b + 1 };
                        assert(nv[a] == old_v[a2] && nv[b] == old_v[b2]);
                    }
                }
                assert forall|j: int| 0 <= j < nv.len() implies #[trigger] nv[j].0 != key@ by {
                    let j2 = if j < i { j } else { j + 1 };
                    assert(nv[j] == old_v[j2]);
                }
                assert forall|k: Seq<char>| k != key@ implies #[trigger] lookup(nv, k) == lookup(old_v, k) by {
                    if has_key(old_v, k) {
                        let j = choose|j: int| 0 <= j < old_v.len() && #[trigger] old_v[j].0 == k;
                        assert(j != i);
                        let j2 = if j < i { j } else { j - 1 };
                        assert(nv[j2] == old_v[j]);
                        lemma_lookup_at(old_v, j);
                        lemma_lookup_at(nv, j2);
                    } else {
                        assert forall|j: int| 0 <= j < nv.len() implies #[trigger] nv[j].0 != k by {
                            let j2 = if j < i { j } else { j + 1 };
                            assert(nv[j] == old_v[j2]);
                        }
                    }
                }
            }
            Some(val)
        },
        None => {
            proof {
                assert forall|j: int| 0 <= j < old_v.len() implies #[trigger] old_v[j].0 != key@ by {
                    assert(old_v[j].0 == v@[j].0@);
                }
            }
            None
        },
    }
}

// ── lists keyed by number ───────────────────────────────────────────────────

/// The value stored under `id` first in `s`, if any.
pub open spec fn first_with<V>(s: Seq<(u64, V)>, id: u64) -> Option<V>
    decreases s.len(),
{
    if s.len() == 0 {
        None
    } else if s[0].0 == id {
        Some(s[0].1)
    } else {
        first_with(s.drop_first(), id)
    }
}

/// `first_with` finds the entry at the first index holding `id`.
pub proof fn lemma_first_with_at<V>(s: Seq<(u64, V)>, id: u64, i: int)
    requires
        0 <= i < s.len(),
        s[i].0 == id,
        forall|j: int| 0 <= j < i ==> s[j].0 != id,
    ensures
        first_with(s, id) == Some(s[i].1),
    decreases i,
{
    if i > 0 {
        lemma_first_with_at(s.drop_first(), id, i - 1);
    }
}

/// `first_with` finds nothing when no entry holds `id`.
pub proof fn lemma_first_with_none<V>(s: Seq<(u64, V)>, id: u64)
    requires
        forall|j: int| 0 <= j < s.len() ==> s[j].0 != id,
    ensures
        first_with(s, id) is None,
    decreases s.len(),
{
    if s.len() > 0 {
        lemma_first_with_none(s.drop_first(), id);
    }
}

/// Appending an entry changes what `first_with` finds only for a key it
/// did not find before.
pub proof fn lemma_first_with_push<V>(s: Seq<(u64, V)>, k: u64, v: V, id: u64)
    ensures
        first_with(s.push((k, v)), id) == if first_with(s, id) is Some {
            first_with(s, id)
        } else if k == id {
            Some(v)
        } else {
            None
        },
    decreases s.len(),
{
    let t = s.push((k, v));
    if s.len() > 0 {
        assert(t.drop_first() =~= s.drop_first().push((k, v)));
        assert(t[0] == s[0]);
        lemma_first_with_push(s.drop_first(), k, v, id);
    } else {
        assert(t.drop_first() =~= Seq::<(u64, V)>::empty());
        assert(first_with(t.drop_first(), id) is None);
        assert(t[0] == (k, v));
    }
}

/// Removing an element of a duplicate-free sequence removes that value and
/// keeps it duplicate-free.
pub proof fn lemma_remove_distinct(s: Seq<u64>, k: int)
    requires
        s.no_duplicates(),
        0 <= k < s.len(),
    ensures
        s.remove(k).no_duplicates(),
        forall|x: u64| #[trigger] s.remove(k).contains(x) <==> (s.contains(x) && x != s[k]),
{
    let r = s.remove(k);
    assert forall|x: u64| #[trigger] r.contains(x) <==> (s.contains(x) && x != s[k]) by {
        if r.contains(x) {
            let j = choose|j: int| 0 <= j < r.len() && r[j] == x;
            if j < k {
                assert(s[j] == x);
            } else {
                assert(s[j + 1] == x);
            }
        }
        if s.contains(x) && x != s[k] {
            let j = choose|j: int| 0 <= j < s.len() && s[j] == x;
            if j < k {
                assert(r[j] == x);
            } else {
                assert(j != k);
                assert(r[j - 1] == x);
            }
        }
    }
    assert forall|i: int, j: int| 0 <= i < r.len() && 0 <= j < r.len() && i != j implies r[i] != r[j] by {
        let si = if i < k { i } else { i + 1 };
        let sj = if j < k { j } else { j + 1 };
        assert(r[i] == s[si]);
        assert(r[j] == s[sj]);
    }
}

/// What `first_with` finds is an entry of the list.
pub proof fn lemma_first_with_entry<V>(s: Seq<(u64, V)>, id: u64)
    requires
        first_with(s, id) is Some,
    ensures
        exists|k: int| 0 <= k < s.len() && #[trigger] s[k] == (id, first_with(s, id)->0),
    decreases s.len(),
{
    if s[0].0 != id {
        lemma_first_with_entry(s.drop_first(), id);
        let k = choose|k: int|
            0 <= k < s.drop_first().len() && #[trigger] s.drop_first()[k] == (id, first_with(
                s.drop_first(),
                id,
            )->0);
        assert(s[k + 1] == s.drop_first()[k]);
    } else {
        assert(s[0] == (id, first_with(s, id)->0));
    }
}

/// Replacing the value of an entry changes what `first_with` finds only for
/// that entry's key, and only when it is the first entry with that key.
pub proof fn lemma_first_with_update<V>(s: Seq<(u64, V)>, k: int, v: V, id: u64)
    requires
        0 <= k < s.len(),
        forall|j: int| 0 <= j < k ==> s[j].0 != s[k].0,
    ensures
        first_with(s.update(k, (s[k].0, v)), id) == if id == s[k].0 {
            Some(v)
        } else {
            first_with(s, id)
        },
    decreases k,
{
    let t = s.update(k, (s[k].0, v));
    if k == 0 {
        assert(t.drop_first() =~= s.drop_first());
    } else {
        assert(t.drop_first() =~= s.drop_first().update(k - 1, (s[k].0, v)));
        assert(t[0] == s[0]);
        lemma_first_with_update(s.drop_first(), k - 1, v, id);
    }
}

/// The index of the first entry holding `id`.
pub fn find_id<V>(s: &Vec<(u64, V)>, id: u64) -> (r: Option<usize>)
    ensures
        match r {
            Some(i) => i < s@.len() && s@[i as int].0 == id && forall|j: int|
                0 <= j < i ==> s@[j].0 != id,
            None => forall|j: int| 0 <= j < s@.len() ==> s@[j].0 != id,
        },
{
    let mut i: usize = 0;
    while i < s.len()
        invariant
            i <= s@.len(),
            forall|j: int| 0 <= j < i ==> s@[j].0 != id,
        decreases s@.len() - i,
    {
        if s[i].0 == id {
            return Some(i);
        }
        i = i + 1;
    }
    None
}

/// The index of `x` in `v`, if it occurs.
pub fn index_of(v: &Vec<u64>, x: u64) -> (r: Option<usize>)
    ensures
        match r {
            Some(k) => k < v@.len() && v@[k as int] == x,
            None => !v@.contains(x),
        },
{
    let mut k: usize = 0;
    while k < v.len()
        invariant
            k <= v@.len(),
            forall|j: int| 0 <= j < k ==> v@[j] != x,
        decreases v@.len() - k,
    {
        if v[k] == x {
            return Some(k);
        }
        k = k + 1;
    }
    None
}

} // verus!

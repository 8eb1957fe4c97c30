//! Maps keyed by `u32`, held as vectors of `(key, value)` pairs in strictly
//! increasing key order. The order is what the wire formats of the library
//! walk; the map is what the contracts speak of.

use vstd::prelude::*;

verus! {

/// Keys strictly increase along `s`.
pub open spec fn sorted_keys<V>(s: Seq<(u32, V)>) -> bool {
    forall|i: int, j: int| 0 <= i < j < s.len() ==> s[i].0 < s[j].0
}

/// Some pair of `s` has key `k`.
pub open spec fn has_key<V>(s: Seq<(u32, V)>, k: u32) -> bool {
    exists|i: int| 0 <= i < s.len() && s[i].0 == k
}

/// A position of `s` holding key `k` (meaningful when `has_key(s, k)`).
pub open spec fn key_index<V>(s: Seq<(u32, V)>, k: u32) -> int {
    choose|i: int| 0 <= i < s.len() && s[i].0 == k
}

/// The map that `s` stands for.
pub open spec fn as_map<V>(s: Seq<(u32, V)>) -> Map<u32, V> {
    Map::new(|k: u32| has_key(s, k), |k: u32| s[key_index(s, k)].1)
}

/// Each value of `s` replaced by its view, keys kept.
pub open spec fn view_pairs<V: View>(s: Seq<(u32, V)>) -> Seq<(u32, V::V)> {
    s.map_values(|e: (u32, V)| (e.0, e.1@))
}

/// The pair at position `i` of a sorted sequence is the one its key finds.
pub proof fn lemma_key_index<V>(s: Seq<(u32, V)>, i: int)
    requires
        sorted_keys(s),
        0 <= i < s.len(),
    ensures
        has_key(s, s[i].0),
        key_index(s, s[i].0) == i,
        as_map(s).contains_key(s[i].0),
        as_map(s)[s[i].0] == s[i].1,
{
    assert(0 <= i < s.len() && s[i].0 == s[i].0);
    let j = key_index(s, s[i].0);
    if j < i {
        assert(s[j].0 < s[i].0);
    } else if j > i {
        assert(s[i].0 < s[j].0);
    }
}

/// Replacing values by their views keeps keys, order and the map.
pub proof fn lemma_view_pairs<V: View>(s: Seq<(u32, V)>)
    requires
        sorted_keys(s),
    ensures
        sorted_keys(view_pairs(s)),
        view_pairs(s).len() == s.len(),
        as_map(view_pairs(s)) == as_map(s).map_values(|v: V| v@),
{
    let t = view_pairs(s);
    assert forall|k: u32| #[trigger] as_map(t).contains_key(k) == as_map(s).contains_key(k) by {
        if has_key(s, k) {
            let i = key_index(s, k);
            assert(t[i].0 == k);
        }
        if has_key(t, k) {
            let i = key_index(t, k);
            assert(s[i].0 == k);
        }
    }
    assert forall|k: u32| #[trigger] as_map(t).contains_key(k) implies as_map(t)[k] == as_map(s)[k]@ by {
        let i = key_index(t, k);
        assert(s[i].0 == k);
        lemma_key_index(s, i);
        assert(sorted_keys(t));
        lemma_key_index(t, i);
    }
    assert(as_map(t) =~= as_map(s).map_values(|v: V| v@));
}

/// The position of key `k` in `v`, if it holds one.
pub fn find_key<V>(v: &Vec<(u32, V)>, k: u32) -> (r: Option<usize>)
    requires
        sorted_keys(v@),
    ensures
        match r {
            Some(i) => i < v@.len() && v@[i as int].0 == k,
            None => !has_key(v@, k),
        },
        r is Some <==> as_map(v@).contains_key(k),
{
    let mut i: usize = 0;
    while i < v.len()
        invariant
            i <= v@.len(),
            sorted_keys(v@),
            forall|j: int| 0 <= j < i ==> v@[j].0 != k,
        decreases v@.len() - i,
    {
        if v[i].0 == k {
            return Some(i);
        }
        i = i + 1;
    }
    None
}

/// The first position whose key is at least `k` (the length if none is).
fn lower_bound<V>(v: &Vec<(u32, V)>, k: u32) -> (r: usize)
    requires
        sorted_keys(v@),
    ensures
        r <= v@.len(),
        forall|j: int| 0 <= j < r ==> v@[j].0 < k,
        r < v@.len() ==> v@[r as int].0 >= k,
{
    let mut i: usize = 0;
    while i < v.len()
        invariant
            i <= v@.len(),
            sorted_keys(v@),
            forall|j: int| 0 <= j < i ==> v@[j].0 < k,
        decreases v@.len() - i,
    {
        if v[i].0 >= k {
            return i;
        }
        i = i + 1;
    }
    i
}

/// A reference to the value under `k`, if any.
pub fn get_value<V>(v: &Vec<(u32, V)>, k: u32) -> (r: Option<&V>)
    requires
        sorted_keys(v@),
    ensures
        match r {
            Some(x) => as_map(v@).contains_key(k) && *x == as_map(v@)[k],
            None => !as_map(v@).contains_key(k),
        },
{
    match find_key(v, k) {
        Some(i) => {
            proof {
                lemma_key_index(v@, i as int);
            }
            Some(&v[i].1)
        },
        None => None,
    }
}

/// Stores `val` under `k`, replacing the value already there.
pub fn insert_value<V>(v: &mut Vec<(u32, V)>, k: u32, val: V)
    requires
        sorted_keys(old(v)@),
    ensures
        sorted_keys(final(v)@),
        as_map(final(v)@) == as_map(old(v)@).insert(k, val),
        final(v)@.len() == old(v)@.len() + if as_map(old(v)@).contains_key(k) { 0int } else { 1int },
{
    let ghost s = v@;
    let i = lower_bound(v, k);
    if i < v.len() && v[i].0 == k {
        proof {
            lemma_key_index(s, i as int);
        }
        v.set(i, (k, val));
        proof {
            let t = v@;
            assert(t == s.update(i as int, (k, val)));
            assert(sorted_keys(t)) by {
                assert forall|a: int, b: int| 0 <= a < b < t.len() implies t[a].0 < t[b].0 by {
                    assert(s[a].0 < s[b].0);
                }
            }
            assert forall|x: u32| #[trigger] as_map(t).contains_key(x) == as_map(s).insert(k, val).contains_key(x) by {
                if has_key(s, x) {
                    let j = key_index(s, x);
                    assert(t[j].0 == x);
                }
                if has_key(t, x) {
                    let j = key_index(t, x);
                    assert(s[j].0 == x);
                }
            }
            assert forall|x: u32| #[trigger] as_map(t).contains_key(x) implies as_map(t)[x] == as_map(s).insert(k, val)[x] by {
                let j = key_index(t, x);
                lemma_key_index(t, j);
                if x != k {
                    assert(s[j].0 == x);
                    lemma_key_index(s, j);
                }
            }
            assert(as_map(t) =~= as_map(s).insert(k, val));
        }
    } else {
        proof {
            assert(!has_key(s, k)) by {
                if has_key(s, k) {
                    let j = key_index(s, k);
                    if j < i {
                    } else if j > i as int {
                        assert(s[i as int].0 < s[j].0);
                    }
                }
            }
        }
        v.insert(i, (k, val));
        proof {
            let t = v@;
            assert(t == s.insert(i as int, (k, val)));
            assert(sorted_keys(t)) by {
                assert forall|a: int, b: int| 0 <= a < b < t.len() implies t[a].0 < t[b].0 by {
                    if b < i {
                        assert(s[a].0 < s[b].0);
                    } else if b == i {
                    } else if a < i {
                        assert(s[b - 1].0 >= k) by {
                            if b - 1 > i {
                                assert(s[i as int].0 < s[b - 1].0);
                            }
                        }
                    } else if a == i {
                        assert(s[b - 1].0 >= k) by {
                            if b - 1 > i {
                                assert(s[i as int].0 < s[b - 1].0);
                            }
                        }
                        assert(s[b - 1].0 != k);
                    } else {
                        assert(s[a - 1].0 < s[b - 1].0);
                    }
                }
            }
            assert forall|x: u32| #[trigger] as_map(t).contains_key(x) == as_map(s).insert(k, val).contains_key(x) by {
                if has_key(s, x) {
                    let j = key_index(s, x);
                    if j < i {
                        assert(t[j].0 == x);
                    } else {
                        assert(t[j + 1].0 == x);
                    }
                }
                if x == k {
                    assert(t[i as int].0 == k);
                }
                if has_key(t, x) {
                    let j = key_index(t, x);
                    if j < i {
                        assert(s[j].0 == x);
                    } else if j > i {
                        assert(s[j - 1].0 == x);
                    }
                }
            }
            assert forall|x: u32| #[trigger] as_map(t).contains_key(x) implies as_map(t)[x] == as_map(s).insert(k, val)[x] by {
                let j = key_index(t, x);
                lemma_key_index(t, j);
                if j < i {
                    assert(s[j].0 == x);
                    lemma_key_index(s, j);
                } else if j > i {
                    assert(s[j - 1].0 == x);
                    lemma_key_index(s, j - 1);
                }
            }
            assert(as_map(t) =~= as_map(s).insert(k, val));
        }
    }
}

/// Takes the pair under `k` out of `v`, returning its value.
pub fn remove_key<V>(v: &mut Vec<(u32, V)>, k: u32) -> (r: Option<V>)
    requires
        sorted_keys(old(v)@),
    ensures
        sorted_keys(final(v)@),
        as_map(final(v)@) == as_map(old(v)@).remove(k),
        match r {
            Some(x) => as_map(old(v)@).contains_key(k) && x == as_map(old(v)@)[k],
            None => !as_map(old(v)@).contains_key(k),
        },
        final(v)@.len() == old(v)@.len() - if as_map(old(v)@).contains_key(k) { 1int } else { 0int },
{
    let ghost s = v@;
    match find_key(v, k) {
        Some(i) => {
            proof {
                lemma_key_index(s, i as int);
            }
            let pair = v.remove(i);
            proof {
                let t = v@;
                assert(t == s.remove(i as int));
                assert(sorted_keys(t)) by {
                    assert forall|a: int, b: int| 0 <= a < b < t.len() implies t[a].0 < t[b].0 by {
                        if b < i {
                            assert(s[a].0 < s[b].0);
                        } else if a < i {
                            assert(s[a].0 < s[b + 1].0);
                        } else {
                            assert(s[a + 1].0 < s[b + 1].0);
                        }
                    }
                }
                assert forall|x: u32| #[trigger] as_map(t).contains_key(x) == as_map(s).remove(k).contains_key(x) by {
                    if has_key(s, x) && x != k {
                        let j = key_index(s, x);
                        if j < i {
                            assert(t[j].0 == x);
                        } else {
                            assert(j != i);
                            assert(t[j - 1].0 == x);
                        }
                    }
                    if has_key(t, x) {
                        let j = key_index(t, x);
                        if j < i {
                            assert(s[j].0 == x);
                            assert(s[j].0 < s[i as int].0);
                        } else {
                            assert(s[j + 1].0 == x);
                            assert(s[i as int].0 < s[j + 1].0);
                        }
                    }
                }
                assert forall|x: u32| #[trigger] as_map(t).contains_key(x) implies as_map(t)[x] == as_map(s).remove(k)[x] by {
                    let j = key_index(t, x);
                    lemma_key_index(t, j);
                    if j < i {
                        assert(s[j].0 == x);
                        lemma_key_index(s, j);
                    } else {
                        assert(s[j + 1].0 == x);
                        lemma_key_index(s, j + 1);
                    }
                }
                assert(as_map(t) =~= as_map(s).remove(k));
            }
            Some(pair.1)
        },
        None => {
            assert(as_map(s) =~= as_map(s).remove(k));
            None
        },
    }
}

/// Storing a value under a key, seen through the values' views.
pub proof fn lemma_view_insert<V: View>(s: Seq<(u32, V)>, t: Seq<(u32, V)>, k: u32, v: V)
    requires
        sorted_keys(s),
        sorted_keys(t),
        as_map(t) == as_map(s).insert(k, v),
    ensures
        as_map(view_pairs(t)) == as_map(view_pairs(s)).insert(k, v@),
{
    lemma_view_pairs(s);
    lemma_view_pairs(t);
    assert(as_map(s).insert(k, v).map_values(|x: V| x@) =~= as_map(s).map_values(|x: V| x@).insert(
        k,
        v@,
    ));
}

/// Removing a key, seen through the values' views.
pub proof fn lemma_view_remove<V: View>(s: Seq<(u32, V)>, t: Seq<(u32, V)>, k: u32)
    requires
        sorted_keys(s),
        sorted_keys(t),
        as_map(t) == as_map(s).remove(k),
    ensures
        as_map(view_pairs(t)) == as_map(view_pairs(s)).remove(k),
{
    lemma_view_pairs(s);
    lemma_view_pairs(t);
    assert(as_map(s).remove(k).map_values(|x: V| x@) =~= as_map(s).map_values(|x: V| x@).remove(k));
}

/// The empty sequence stands for the empty map.
pub proof fn lemma_empty_map<V>(s: Seq<(u32, V)>)
    requires
        s.len() == 0,
    ensures
        sorted_keys(s),
        as_map(s) == Map::<u32, V>::empty(),
{
    assert(as_map(s) =~= Map::<u32, V>::empty());
}

/// Appending a pair whose key exceeds every key of `s` stores it under that
/// key.
pub proof fn lemma_as_map_push<V>(s: Seq<(u32, V)>, k: u32, v: V)
    requires
        sorted_keys(s),
        forall|j: int| 0 <= j < s.len() ==> s[j].0 < k,
    ensures
        sorted_keys(s.push((k, v))),
        !as_map(s).contains_key(k),
        as_map(s.push((k, v))) == as_map(s).insert(k, v),
{
    let t = s.push((k, v));
    assert(sorted_keys(t)) by {
        assert forall|a: int, b: int| 0 <= a < b < t.len() implies t[a].0 < t[b].0 by {
            if b < s.len() {
                assert(s[a].0 < s[b].0);
            }
        }
    }
    assert(!has_key(s, k)) by {
        if has_key(s, k) {
            let j = key_index(s, k);
            assert(s[j].0 < k);
        }
    }
    assert forall|x: u32| #[trigger] as_map(t).contains_key(x) == as_map(s).insert(k, v).contains_key(x) by {
        if has_key(s, x) {
            let j = key_index(s, x);
            assert(t[j].0 == x);
        }
        if x == k {
            assert(t[s.len() as int].0 == k);
        }
        if has_key(t, x) {
            let j = key_index(t, x);
            if j < s.len() {
                assert(s[j].0 == x);
            }
        }
    }
    assert forall|x: u32| #[trigger] as_map(t).contains_key(x) implies as_map(t)[x] == as_map(s).insert(k, v)[x] by {
        let j = key_index(t, x);
        lemma_key_index(t, j);
        if j < s.len() {
            assert(s[j].0 == x);
            lemma_key_index(s, j);
        }
    }
    assert(as_map(t) =~= as_map(s).insert(k, v));
}

/// The keys of `s`, in order.
pub open spec fn keys_of<V>(s: Seq<(u32, V)>) -> Seq<u32> {
    s.map_values(|e: (u32, V)| e.0)
}

/// The keys of a sorted sequence are the domain of its map, without repeats.
pub proof fn lemma_keys_of<V>(s: Seq<(u32, V)>)
    requires
        sorted_keys(s),
    ensures
        keys_of(s).no_duplicates(),
        keys_of(s).len() == s.len(),
        forall|k: u32| keys_of(s).contains(k) <==> #[trigger] as_map(s).contains_key(k),
{
    let ks = keys_of(s);
    assert forall|a: int, b: int| 0 <= a < ks.len() && 0 <= b < ks.len() && a != b implies ks[a] != ks[b] by {
        if a < b {
            assert(s[a].0 < s[b].0);
        } else {
            assert(s[b].0 < s[a].0);
        }
    }
    assert forall|k: u32| ks.contains(k) <==> #[trigger] as_map(s).contains_key(k) by {
        if ks.contains(k) {
            let j = choose|j: int| 0 <= j < ks.len() && ks[j] == k;
            assert(s[j].0 == k);
        }
        if has_key(s, k) {
            let j = key_index(s, k);
            assert(ks[j] == k);
        }
    }
}

/// A sorted sequence stands for a finite map with as many keys as it has
/// pairs.
pub proof fn lemma_map_len<V>(s: Seq<(u32, V)>)
    requires
        sorted_keys(s),
    ensures
        as_map(s).dom().finite(),
        as_map(s).dom().len() == s.len(),
{
    lemma_keys_of(s);
    let ks = keys_of(s);
    ks.unique_seq_to_set();
    assert(ks.to_set() =~= as_map(s).dom());
}

/// Two sorted sequences with the same keys hold them at the same positions.
pub proof fn lemma_sorted_same_keys<V, W>(s: Seq<(u32, V)>, t: Seq<(u32, W)>)
    requires
        sorted_keys(s),
        sorted_keys(t),
        forall|k: u32| #[trigger] has_key(s, k) <==> has_key(t, k),
    ensures
        s.len() == t.len(),
        forall|i: int| 0 <= i < s.len() ==> #[trigger] s[i].0 == t[i].0,
    decreases s.len() + t.len(),
{
    if s.len() == 0 {
        if t.len() > 0 {
            assert(has_key(t, t[0].0));
            assert(!has_key(s, t[0].0));
        }
    } else if t.len() == 0 {
        assert(has_key(s, s[0].0));
        assert(!has_key(t, s[0].0));
    } else {
        let ks = s.last().0;
        let kt = t.last().0;
        assert(has_key(s, ks));
        assert(has_key(t, kt));
        assert(has_key(s, kt));
        assert(has_key(t, ks));
        let j = key_index(t, ks);
        let m = key_index(s, kt);
        assert(ks == kt) by {
            if ks < kt {
                assert(s[m].0 <= ks) by {
                    if m < s.len() - 1 {
                        assert(s[m].0 < s.last().0);
                    }
                }
            } else if kt < ks {
                assert(t[j].0 <= kt) by {
                    if j < t.len() - 1 {
                        assert(t[j].0 < t.last().0);
                    }
                }
            }
        }
        let s1 = s.drop_last();
        let t1 = t.drop_last();
        assert forall|k: u32| #[trigger] has_key(s1, k) <==> has_key(t1, k) by {
            if has_key(s1, k) {
                let a = key_index(s1, k);
                assert(s[a].0 == k);
                assert(k < ks);
                assert(has_key(s, k));
                assert(has_key(t, k));
                let b = key_index(t, k);
                if b == t.len() - 1 {
                    assert(t[b].0 == kt);
                }
                assert(t1[b].0 == k);
            }
            if has_key(t1, k) {
                let a = key_index(t1, k);
                assert(t[a].0 == k);
                assert(k < kt);
                assert(has_key(t, k));
                assert(has_key(s, k));
                let b = key_index(s, k);
                if b == s.len() - 1 {
                    assert(s[b].0 == ks);
                }
                assert(s1[b].0 == k);
            }
        }
        lemma_sorted_same_keys(s1, t1);
        assert forall|i: int| 0 <= i < s.len() implies #[trigger] s[i].0 == t[i].0 by {
            if i < s.len() - 1 {
                assert(s1[i].0 == t1[i].0);
            }
        }
    }
}

/// The map that storing the pairs of `s` one after the other gives (a later
/// pair under a key replaces an earlier one).
pub open spec fn filed<V>(s: Seq<(u32, V)>) -> Map<u32, V>
    decreases s.len(),
{
    if s.len() == 0 {
        Map::empty()
    } else {
        filed(s.drop_last()).insert(s.last().0, s.last().1)
    }
}

/// Storing the pairs of a sorted sequence one after the other gives its map.
pub proof fn lemma_filed_sorted<V>(s: Seq<(u32, V)>)
    requires
        sorted_keys(s),
    ensures
        filed(s) == as_map(s),
    decreases s.len(),
{
    if s.len() == 0 {
        lemma_empty_map(s);
    } else {
        let s1 = s.drop_last();
        assert(sorted_keys(s1));
        lemma_filed_sorted(s1);
        assert(s1.push(s.last()) =~= s);
        lemma_as_map_push(s1, s.last().0, s.last().1);
    }
}

/// Storing pairs, seen through the values' views.
pub proof fn lemma_filed_views<V: View>(s: Seq<(u32, V)>)
    ensures
        filed(view_pairs(s)) == filed(s).map_values(|v: V| v@),
    decreases s.len(),
{
    if s.len() == 0 {
        assert(filed(s).map_values(|v: V| v@) =~= Map::empty());
    } else {
        lemma_filed_views(s.drop_last());
        assert(view_pairs(s).drop_last() =~= view_pairs(s.drop_last()));
        assert(filed(s).map_values(|v: V| v@) =~= filed(s.drop_last()).map_values(|v: V| v@).insert(
            s.last().0,
            s.last().1@,
        ));
    }
}

} // verus!

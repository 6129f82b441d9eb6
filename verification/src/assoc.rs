//! Tables keyed by numbers, held as vectors of pairs with distinct keys, and
//! viewed as maps.
//!
//! The tables of this crate are walked in the order their entries came in
//! (a step's batch, a reactor's links), update values in place, and drop
//! entries by a test while walking; a vector of pairs has all of that with
//! exact contracts, where a hash map would walk in an unspecified order.
use vstd::prelude::*;

verus! {

/// No key occurs twice.
pub open spec fn keys_distinct<K, V>(s: Seq<(K, V)>) -> bool {
    forall|i: int, j: int|
        0 <= i < s.len() && 0 <= j < s.len() && i != j ==> #[trigger] s[i].0 != #[trigger] s[j].0
}

/// Some entry has key `k`.
pub open spec fn has_key<K, V>(s: Seq<(K, V)>, k: K) -> bool {
    exists|i: int| 0 <= i < s.len() && #[trigger] s[i].0 == k
}

/// The map from each key to its value (a later entry wins over an earlier one).
pub open spec fn assoc_map<K, V>(s: Seq<(K, V)>) -> Map<K, V>
    decreases s.len(),
{
    if s.len() == 0 {
        Map::empty()
    } else {
        assoc_map(s.drop_last()).insert(s.last().0, s.last().1)
    }
}

/// The keys of the table, in order.
pub open spec fn keys_of<K, V>(s: Seq<(K, V)>) -> Seq<K> {
    s.map_values(|e: (K, V)| e.0)
}

/// The domain of the map is the set of keys of the table.
pub proof fn lemma_assoc_dom<K, V>(s: Seq<(K, V)>)
    ensures
        forall|k: K| #[trigger] assoc_map(s).dom().contains(k) <==> has_key(s, k),
        assoc_map(s).dom().finite(),
    decreases s.len(),
{
    if s.len() > 0 {
        let t = s.drop_last();
        lemma_assoc_dom(t);
        assert forall|k: K| #[trigger] assoc_map(s).dom().contains(k) <==> has_key(s, k) by {
            if has_key(s, k) {
                let i = choose|i: int| 0 <= i < s.len() && #[trigger] s[i].0 == k;
                if i < s.len() - 1 {
                    assert(t[i].0 == k);
                }
            }
            if has_key(t, k) {
                let i = choose|i: int| 0 <= i < t.len() && #[trigger] t[i].0 == k;
                assert(s[i].0 == k);
            }
        }
    } else {
        assert(assoc_map(s) =~= Map::empty());
    }
}

/// With distinct keys, the map sends the key of each entry to its value.
pub proof fn lemma_assoc_value<K, V>(s: Seq<(K, V)>, i: int)
    requires
        keys_distinct(s),
        0 <= i < s.len(),
    ensures
        assoc_map(s).dom().contains(s[i].0),
        assoc_map(s)[s[i].0] == s[i].1,
    decreases s.len(),
{
    if i < s.len() - 1 {
        let t = s.drop_last();
        assert(t[i] == s[i]);
        assert(keys_distinct(t));
        lemma_assoc_value(t, i);
        assert(s[s.len() - 1].0 != s[i].0);
    }
}

/// Replacing the value of an entry replaces the value of its key.
pub proof fn lemma_assoc_update<K, V>(s: Seq<(K, V)>, i: int, v: V)
    requires
        keys_distinct(s),
        0 <= i < s.len(),
    ensures
        keys_distinct(s.update(i, (s[i].0, v))),
        assoc_map(s.update(i, (s[i].0, v))) == assoc_map(s).insert(s[i].0, v),
    decreases s.len(),
{
    let u = s.update(i, (s[i].0, v));
    assert forall|a: int, b: int| 0 <= a < u.len() && 0 <= b < u.len() && a != b implies #[trigger] u[a].0 != #[trigger] u[b].0 by {
        assert(u[a].0 == s[a].0);
        assert(u[b].0 == s[b].0);
    }
    if i == s.len() - 1 {
        assert(u.drop_last() =~= s.drop_last());
        assert(assoc_map(u) =~= assoc_map(s).insert(s[i].0, v));
    } else {
        let t = s.drop_last();
        assert(keys_distinct(t));
        lemma_assoc_update(t, i, v);
        assert(u.drop_last() =~= t.update(i, (t[i].0, v)));
        assert(u.last() == s.last());
        assert(s.last().0 != s[i].0);
        assert(assoc_map(u) =~= assoc_map(s).insert(s[i].0, v));
    }
}

/// Appending an entry with a new key adds the key to the map.
pub proof fn lemma_assoc_push<K, V>(s: Seq<(K, V)>, k: K, v: V)
    requires
        keys_distinct(s),
        !has_key(s, k),
    ensures
        keys_distinct(s.push((k, v))),
        assoc_map(s.push((k, v))) == assoc_map(s).insert(k, v),
{
    let u = s.push((k, v));
    assert(u.drop_last() =~= s);
    assert forall|a: int, b: int| 0 <= a < u.len() && 0 <= b < u.len() && a != b implies #[trigger] u[a].0 != #[trigger] u[b].0 by {
        if a < s.len() && b < s.len() {
            assert(u[a] == s[a]);
            assert(u[b] == s[b]);
        } else if a < s.len() {
            assert(u[a] == s[a]);
        } else {
            assert(u[b] == s[b]);
        }
    }
}

/// Removing the entry at `i` removes its key from the map.
pub proof fn lemma_assoc_remove<K, V>(s: Seq<(K, V)>, i: int)
    requires
        keys_distinct(s),
        0 <= i < s.len(),
    ensures
        keys_distinct(s.remove(i)),
        assoc_map(s.remove(i)) == assoc_map(s).remove(s[i].0),
    decreases s.len(),
{
    let u = s.remove(i);
    assert forall|a: int, b: int| 0 <= a < u.len() && 0 <= b < u.len() && a != b implies #[trigger] u[a].0 != #[trigger] u[b].0 by {
        let a2 = if a < i { a } else { a + 1 };
        let b2 = if b < i { b } else { b + 1 };
        assert(u[a] == s[a2]);
        assert(u[b] == s[b2]);
    }
    if i == s.len() - 1 {
        assert(u =~= s.drop_last());
        lemma_assoc_dom(u);
        assert(!has_key(u, s[i].0)) by {
            if has_key(u, s[i].0) {
                let j = choose|j: int| 0 <= j < u.len() && #[trigger] u[j].0 == s[i].0;
                assert(u[j] == s[j]);
            }
        }
        assert(assoc_map(s).remove(s[i].0) =~= assoc_map(u));
    } else {
        let t = s.drop_last();
        assert(keys_distinct(t));
        lemma_assoc_remove(t, i);
        assert(u.drop_last() =~= t.remove(i));
        assert(u.last() == s.last());
        assert(s.last().0 != s[i].0);
        assert(assoc_map(u) =~= assoc_map(s).remove(s[i].0));
    }
}

/// Every key of the map belongs to an entry whose value it is mapped to.
pub proof fn lemma_assoc_lookup<K, V>(s: Seq<(K, V)>, k: K) -> (i: int)
    requires
        keys_distinct(s),
        assoc_map(s).dom().contains(k),
    ensures
        0 <= i < s.len(),
        s[i].0 == k,
        assoc_map(s)[k] == s[i].1,
{
    lemma_assoc_dom(s);
    let i = choose|i: int| 0 <= i < s.len() && #[trigger] s[i].0 == k;
    lemma_assoc_value(s, i);
    i
}

/// The position of key `k` in the table, if any.
pub fn find_key<V>(v: &Vec<(u64, V)>, k: u64) -> (r: Option<usize>)
    ensures
        match r {
            Some(i) => i < v@.len() && v@[i as int].0 == k,
            None => !has_key(v@, k),
        },
{
    let mut i: usize = 0;
    while i < v.len()
        invariant
            i <= v@.len(),
            forall|j: int| 0 <= j < i ==> #[trigger] v@[j].0 != k,
        decreases v.len() - i,
    {
        if v[i].0 == k {
            return Some(i);
        }
        i = i + 1;
    }
    None
}

} // verus!

verus! {

/// With distinct keys, the map has one key per entry.
pub proof fn lemma_assoc_len<K, V>(s: Seq<(K, V)>)
    requires
        keys_distinct(s),
    ensures
        assoc_map(s).dom().len() == s.len(),
        assoc_map(s).dom().finite(),
    decreases s.len(),
{
    lemma_assoc_dom(s);
    if s.len() > 0 {
        let t = s.drop_last();
        assert(keys_distinct(t));
        lemma_assoc_len(t);
        lemma_assoc_dom(t);
        assert(!assoc_map(t).dom().contains(s.last().0)) by {
            if has_key(t, s.last().0) {
                let j = choose|j: int| 0 <= j < t.len() && #[trigger] t[j].0 == s.last().0;
                assert(s[j].0 == s[s.len() - 1].0);
            }
        }
        assert(assoc_map(s).dom() =~= assoc_map(t).dom().insert(s.last().0));
    } else {
        assert(assoc_map(s).dom() =~= Set::empty());
    }
}

/// Two tables with the same keys in the same order, the second holding `v`
/// everywhere: its map sends every key of the first to `v`.
pub proof fn lemma_assoc_same_keys_const<K, V, W>(s: Seq<(K, V)>, t: Seq<(K, W)>, v: W)
    requires
        keys_distinct(s),
        t.len() == s.len(),
        forall|j: int| 0 <= j < s.len() ==> #[trigger] t[j] == (s[j].0, v),
    ensures
        keys_distinct(t),
        assoc_map(t) == Map::new(|k: K| assoc_map(s).dom().contains(k), |k: K| v),
{
    assert forall|a: int, b: int| 0 <= a < t.len() && 0 <= b < t.len() && a != b implies #[trigger] t[a].0 != #[trigger] t[b].0 by {
        assert(t[a] == (s[a].0, v));
        assert(t[b] == (s[b].0, v));
    }
    lemma_assoc_dom(s);
    lemma_assoc_dom(t);
    assert forall|k: K| has_key(s, k) <==> has_key(t, k) by {
        if has_key(s, k) {
            let j = choose|j: int| 0 <= j < s.len() && #[trigger] s[j].0 == k;
            assert(t[j] == (s[j].0, v));
            assert(t[j].0 == k);
        }
        if has_key(t, k) {
            let j = choose|j: int| 0 <= j < t.len() && #[trigger] t[j].0 == k;
            assert(t[j] == (s[j].0, v));
            assert(s[j].0 == k);
        }
    }
    assert forall|k: K| assoc_map(t).dom().contains(k) implies assoc_map(t)[k] == v by {
        let j = lemma_assoc_lookup(t, k);
        assert(t[j] == (s[j].0, v));
    }
    assert(assoc_map(t) =~= Map::new(|k: K| assoc_map(s).dom().contains(k), |k: K| v));
}

} // verus!

verus! {

/// `ks` lists every key of `m` once.
pub open spec fn lists_keys<K, V>(ks: Seq<K>, m: Map<K, V>) -> bool {
    &&& ks.no_duplicates()
    &&& forall|i: int| 0 <= i < ks.len() ==> #[trigger] m.dom().contains(ks[i])
    &&& forall|k: K| #[trigger] m.dom().contains(k) ==> ks.contains(k)
}

/// `e` lists every entry of `m` once.
pub open spec fn lists_entries<K, V>(e: Seq<(K, V)>, m: Map<K, V>) -> bool {
    &&& lists_keys(keys_of(e), m)
    &&& forall|i: int| 0 <= i < e.len() ==> m[(#[trigger] e[i]).0] == e[i].1
}

/// `vals` lists the values of `m`, one for each key.
pub open spec fn lists_values<K, V>(vals: Seq<V>, m: Map<K, V>) -> bool {
    exists|e: Seq<(K, V)>| #[trigger] lists_entries(e, m) && vals == e.map_values(|x: (K, V)| x.1)
}

/// A table with distinct keys lists the entries of its map.
pub proof fn lemma_lists_entries<K, V>(s: Seq<(K, V)>)
    requires
        keys_distinct(s),
    ensures
        lists_entries(s, assoc_map(s)),
{
    let m = assoc_map(s);
    let ks = keys_of(s);
    lemma_assoc_dom(s);
    assert forall|a: int, b: int| 0 <= a < ks.len() && 0 <= b < ks.len() && a != b implies ks[a] != ks[b] by {
        assert(ks[a] == s[a].0);
        assert(ks[b] == s[b].0);
    }
    assert forall|i: int| 0 <= i < ks.len() implies #[trigger] m.dom().contains(ks[i]) by {
        lemma_assoc_value(s, i);
    }
    assert forall|k: K| #[trigger] m.dom().contains(k) implies ks.contains(k) by {
        let i = lemma_assoc_lookup(s, k);
        assert(ks[i] == k);
    }
    assert forall|i: int| 0 <= i < s.len() implies m[(#[trigger] s[i]).0] == s[i].1 by {
        lemma_assoc_value(s, i);
    }
}

/// A table with distinct keys lists the values of its map in its order.
pub proof fn lemma_lists_values<K, V>(s: Seq<(K, V)>, vals: Seq<V>)
    requires
        keys_distinct(s),
        vals.len() == s.len(),
        forall|i: int| 0 <= i < s.len() ==> #[trigger] vals[i] == s[i].1,
    ensures
        lists_values(vals, assoc_map(s)),
{
    lemma_lists_entries(s);
    assert(vals =~= s.map_values(|x: (K, V)| x.1));
}

} // verus!

verus! {

/// A table obtained by applying `f` to every value of another has, as its map,
/// `f` applied to every value of the other's map.
pub proof fn lemma_assoc_map_vals<K, V, W>(s: Seq<(K, V)>, t: Seq<(K, W)>, f: spec_fn(V) -> W)
    requires
        keys_distinct(s),
        t.len() == s.len(),
        forall|j: int| 0 <= j < s.len() ==> #[trigger] t[j] == (s[j].0, f(s[j].1)),
    ensures
        keys_distinct(t),
        assoc_map(t) == Map::new(|k: K| assoc_map(s).dom().contains(k), |k: K| f(assoc_map(s)[k])),
{
    assert forall|a: int, b: int| 0 <= a < t.len() && 0 <= b < t.len() && a != b implies #[trigger] t[a].0 != #[trigger] t[b].0 by {
        assert(t[a] == (s[a].0, f(s[a].1)));
        assert(t[b] == (s[b].0, f(s[b].1)));
    }
    lemma_assoc_dom(s);
    lemma_assoc_dom(t);
    assert forall|k: K| has_key(s, k) <==> has_key(t, k) by {
        if has_key(s, k) {
            let j = choose|j: int| 0 <= j < s.len() && #[trigger] s[j].0 == k;
            assert(t[j] == (s[j].0, f(s[j].1)));
            assert(t[j].0 == k);
        }
        if has_key(t, k) {
            let j = choose|j: int| 0 <= j < t.len() && #[trigger] t[j].0 == k;
            assert(t[j] == (s[j].0, f(s[j].1)));
            assert(s[j].0 == k);
        }
    }
    assert forall|k: K| assoc_map(t).dom().contains(k) implies assoc_map(t)[k] == f(assoc_map(s)[k]) by {
        let j = lemma_assoc_lookup(t, k);
        assert(t[j] == (s[j].0, f(s[j].1)));
        lemma_assoc_value(s, j);
    }
    assert(assoc_map(t) =~= Map::new(|k: K| assoc_map(s).dom().contains(k), |k: K| f(assoc_map(s)[k])));
}

/// The table has key `k` exactly when its map does.
pub proof fn lemma_has_key_dom<K, V>(s: Seq<(K, V)>, k: K)
    ensures
        has_key(s, k) <==> assoc_map(s).dom().contains(k),
{
    lemma_assoc_dom(s);
}

/// Inserting key `k` with value `v`: replace the entry with key `k` if there
/// is one, else append one.
pub open spec fn assoc_insert<K, V>(s: Seq<(K, V)>, k: K, v: V, found: Option<usize>) -> Seq<(K, V)> {
    match found {
        Some(i) => s.update(i as int, (k, v)),
        None => s.push((k, v)),
    }
}

/// Inserting by position or by appending gives the map with `k` sent to `v`.
pub proof fn lemma_assoc_insert<K, V>(s: Seq<(K, V)>, k: K, v: V, found: Option<usize>)
    requires
        keys_distinct(s),
        match found {
            Some(i) => i < s.len() && s[i as int].0 == k,
            None => !has_key(s, k),
        },
    ensures
        keys_distinct(assoc_insert(s, k, v, found)),
        assoc_map(assoc_insert(s, k, v, found)) == assoc_map(s).insert(k, v),
{
    match found {
        Some(i) => lemma_assoc_update(s, i as int, v),
        None => lemma_assoc_push(s, k, v),
    }
}

} // verus!

verus! {

/// Growing a prefix of the table by one entry inserts that entry.
pub proof fn lemma_assoc_prefix_step<K, V>(s: Seq<(K, V)>, i: int)
    requires
        0 <= i < s.len(),
    ensures
        assoc_map(s.subrange(0, i + 1)) == assoc_map(s.subrange(0, i)).insert(s[i].0, s[i].1),
{
    assert(s.subrange(0, i + 1).drop_last() =~= s.subrange(0, i));
}

/// Keeps the entries of a table whose key and value satisfy `keep`.
pub open spec fn assoc_keep<K, V>(m: Map<K, V>, keep: spec_fn(K, V) -> bool) -> Map<K, V> {
    Map::new(|k: K| m.dom().contains(k) && keep(k, m[k]), |k: K| m[k])
}

} // verus!

verus! {

/// A sequence with one more element contains what the shorter one does, and
/// that element.
pub proof fn lemma_push_contains<T>(s: Seq<T>, x: T, y: T)
    ensures
        s.push(x).contains(y) <==> (s.contains(y) || x == y),
{
    if s.push(x).contains(y) {
        let j = choose|j: int| 0 <= j < s.push(x).len() && s.push(x)[j] == y;
        if j < s.len() {
            assert(s[j] == y);
        }
    }
    if s.contains(y) {
        let j = choose|j: int| 0 <= j < s.len() && s[j] == y;
        assert(s.push(x)[j] == y);
    }
    if x == y {
        assert(s.push(x)[s.len() as int] == y);
    }
}

} // verus!

verus! {

/// Adds `x` to a vector used as a set.
pub fn vec_set_insert(v: &mut Vec<u64>, x: u64)
    requires
        old(v)@.no_duplicates(),
    ensures
        final(v)@.no_duplicates(),
        final(v)@.to_set() == old(v)@.to_set().insert(x),
{
    let mut i: usize = 0;
    let mut present = false;
    while i < v.len()
        invariant
            i <= v@.len(),
            present <==> v@.subrange(0, i as int).contains(x),
        decreases v.len() - i,
    {
        proof {
            assert(v@.subrange(0, i + 1) =~= v@.subrange(0, i as int).push(v@[i as int]));
            lemma_push_contains(v@.subrange(0, i as int), v@[i as int], x);
        }
        if v[i] == x {
            present = true;
        }
        i = i + 1;
    }
    proof {
        assert(v@.subrange(0, v@.len() as int) =~= v@);
    }
    if !present {
        let ghost before = v@;
        v.push(x);
        proof {
            assert forall|y: u64| v@.contains(y) <==> before.contains(y) || y == x by {
                lemma_push_contains(before, x, y);
                assert(v@ == before.push(x));
            }
            assert(v@.to_set() =~= before.to_set().insert(x));
            assert forall|a: int, b: int| 0 <= a < v@.len() && 0 <= b < v@.len() && a != b implies v@[a] != v@[b] by {
                if a < before.len() && b < before.len() {
                } else if a < before.len() {
                    assert(before.contains(v@[a]));
                } else {
                    assert(before.contains(v@[b]));
                }
            }
        }
    } else {
        proof {
            assert(v@.to_set() =~= v@.to_set().insert(x));
        }
    }
}

/// Removes `x` from a vector used as a set; tells whether it was there.
pub fn vec_set_remove(v: &mut Vec<u64>, x: u64) -> (r: bool)
    requires
        old(v)@.no_duplicates(),
    ensures
        final(v)@.no_duplicates(),
        final(v)@.to_set() == old(v)@.to_set().remove(x),
        r == old(v)@.to_set().contains(x),
{
    let ghost before = v@;
    let mut i: usize = 0;
    let mut found: Option<usize> = None;
    while i < v.len()
        invariant
            i <= v@.len(),
            v@ == before,
            match found {
                Some(j) => j < v@.len() && v@[j as int] == x,
                None => !v@.subrange(0, i as int).contains(x),
            },
        decreases v.len() - i,
    {
        proof {
            assert(v@.subrange(0, i + 1) =~= v@.subrange(0, i as int).push(v@[i as int]));
            lemma_push_contains(v@.subrange(0, i as int), v@[i as int], x);
        }
        if found.is_none() && v[i] == x {
            found = Some(i);
        }
        i = i + 1;
    }
    proof {
        assert(v@.subrange(0, v@.len() as int) =~= v@);
    }
    match found {
        Some(j) => {
            v.remove(j);
            proof {
                assert(v@ == before.remove(j as int));
                assert forall|y: u64| v@.contains(y) <==> before.contains(y) && y != x by {
                    if v@.contains(y) {
                        let k = choose|k: int| 0 <= k < v@.len() && v@[k] == y;
                        let k2 = if k < j { k } else { k + 1 };
                        assert(before[k2] == y);
                        assert(k2 != j as int);
                    }
                    if before.contains(y) && y != x {
                        let k = choose|k: int| 0 <= k < before.len() && before[k] == y;
                        assert(k != j as int);
                        let k2 = if k < j { k } else { k - 1 };
                        assert(v@[k2] == y);
                    }
                }
                assert(v@.to_set() =~= before.to_set().remove(x));
                assert(before.contains(x)) by {
                    assert(before[j as int] == x);
                }
                assert forall|a: int, b: int| 0 <= a < v@.len() && 0 <= b < v@.len() && a != b implies v@[a] != v@[b] by {
                    let a2 = if a < j { a } else { a + 1 };
                    let b2 = if b < j { b } else { b + 1 };
                    assert(v@[a] == before[a2]);
                    assert(v@[b] == before[b2]);
                }
            }
            true
        },
        None => {
            proof {
                assert(before.to_set().remove(x) =~= before.to_set());
            }
            false
        },
    }
}

} // verus!

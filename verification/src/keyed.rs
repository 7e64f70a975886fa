//! Per-cell tables kept as a list of `(cell, value)` entries with no cell
//! listed twice, read as a finite map from cell to value.

use vstd::prelude::*;
use crate::lattice::CellKey;

verus! {

/// The cells of a list of entries, in order.
pub open spec fn keys_of<K, V>(s: Seq<(K, V)>) -> Seq<K> {
    s.map_values(|e: (K, V)| e.0)
}

/// The map a list of entries with distinct cells stands for.
pub open spec fn assoc<K, V>(s: Seq<(K, V)>) -> Map<K, V> {
    Map::new(|k: K| keys_of(s).contains(k), |k: K| s[keys_of(s).index_of(k)].1)
}

/// No cell is listed twice.
pub open spec fn distinct_keys<K, V>(s: Seq<(K, V)>) -> bool {
    keys_of(s).no_duplicates()
}

/// The position of `k` in the entries, if it is listed.
pub fn find_key<K: CellKey + Copy, V>(v: &Vec<(K, V)>, k: &K) -> (r: Option<usize>)
    ensures
        r is Some ==> r->0 < v@.len() && v@[r->0 as int].0 == *k,
        r is None ==> !keys_of(v@).contains(*k),
{
    let mut i: usize = 0;
    while i < v.len()
        invariant
            i <= v@.len(),
            forall|j: int| 0 <= j < i ==> v@[j].0 != *k,
        decreases v@.len() - i,
    {
        if v[i].0.same(k) {
            return Some(i);
        }
        i = i + 1;
    }
    assert(!keys_of(v@).contains(*k)) by {
        if keys_of(v@).contains(*k) {
            let j = choose|j: int| 0 <= j < keys_of(v@).len() && keys_of(v@)[j] == *k;
            assert(v@[j].0 == *k);
        }
    }
    None
}

/// The entry at `i` is what the map holds for its cell.
pub proof fn lemma_assoc_at<K, V>(s: Seq<(K, V)>, i: int)
    requires
        distinct_keys(s),
        0 <= i < s.len(),
    ensures
        assoc(s).contains_key(s[i].0),
        assoc(s)[s[i].0] == s[i].1,
{
    let ks = keys_of(s);
    assert(ks[i] == s[i].0);
    assert(ks.contains(s[i].0));
    let j = ks.index_of(s[i].0);
    assert(ks[j] == s[i].0);
}

/// Listing a new cell adds it to the map.
pub proof fn lemma_assoc_push<K, V>(s: Seq<(K, V)>, k: K, v: V)
    requires
        distinct_keys(s),
        !keys_of(s).contains(k),
    ensures
        distinct_keys(s.push((k, v))),
        assoc(s.push((k, v))) == assoc(s).insert(k, v),
{
    let t = s.push((k, v));
    let ks = keys_of(s);
    let kt = keys_of(t);
    assert(kt =~= ks.push(k));
    assert forall|a: int, b: int| 0 <= a < kt.len() && 0 <= b < kt.len() && a != b implies kt[a]
        != kt[b] by {
        if a == kt.len() - 1 {
            assert(ks[b] == kt[b]);
        } else if b == kt.len() - 1 {
            assert(ks[a] == kt[a]);
        }
    }
    assert forall|x: K| #[trigger] assoc(t).contains_key(x) == assoc(s).insert(k, v).contains_key(
        x,
    ) by {
        if kt.contains(x) {
            let j = choose|j: int| 0 <= j < kt.len() && kt[j] == x;
            if j < ks.len() {
                assert(ks[j] == x);
            }
        }
        if ks.contains(x) {
            let j = choose|j: int| 0 <= j < ks.len() && ks[j] == x;
            assert(kt[j] == x);
        }
        assert(kt[kt.len() - 1] == k);
    }
    assert forall|x: K| #[trigger] assoc(t).contains_key(x) implies assoc(t)[x] == assoc(s).insert(
        k,
        v,
    )[x] by {
        let j = choose|j: int| 0 <= j < kt.len() && kt[j] == x;
        lemma_assoc_at(t, j);
        if j < ks.len() {
            assert(t[j] == s[j]);
            lemma_assoc_at(s, j);
        }
    }
    assert(assoc(t) =~= assoc(s).insert(k, v));
}

/// Replacing the value of a listed cell updates the map.
pub proof fn lemma_assoc_update<K, V>(s: Seq<(K, V)>, i: int, v: V)
    requires
        distinct_keys(s),
        0 <= i < s.len(),
    ensures
        distinct_keys(s.update(i, (s[i].0, v))),
        assoc(s.update(i, (s[i].0, v))) == assoc(s).insert(s[i].0, v),
{
    let k = s[i].0;
    let t = s.update(i, (k, v));
    assert(keys_of(t) =~= keys_of(s));
    assert forall|x: K| #[trigger] assoc(t).contains_key(x) == assoc(s).insert(k, v).contains_key(
        x,
    ) by {
        assert(keys_of(s)[i] == k);
    }
    assert forall|x: K| #[trigger] assoc(t).contains_key(x) implies assoc(t)[x] == assoc(s).insert(
        k,
        v,
    )[x] by {
        let j = choose|j: int| 0 <= j < keys_of(t).len() && keys_of(t)[j] == x;
        lemma_assoc_at(t, j);
        if j != i {
            lemma_assoc_at(s, j);
        }
    }
    assert(assoc(t) =~= assoc(s).insert(k, v));
}

/// Dropping the entry at `i` removes its cell from the map.
pub proof fn lemma_assoc_remove<K, V>(s: Seq<(K, V)>, i: int)
    requires
        distinct_keys(s),
        0 <= i < s.len(),
    ensures
        distinct_keys(s.remove(i)),
        assoc(s.remove(i)) == assoc(s).remove(s[i].0),
{
    let k = s[i].0;
    let t = s.remove(i);
    let ks = keys_of(s);
    let kt = keys_of(t);
    assert(kt =~= ks.remove(i));
    assert forall|a: int, b: int| 0 <= a < kt.len() && 0 <= b < kt.len() && a != b implies kt[a]
        != kt[b] by {
        let a2 = if a < i {
            a
        } else {
            a + 1
        };
        let b2 = if b < i {
            b
        } else {
            b + 1
        };
        assert(kt[a] == ks[a2]);
        assert(kt[b] == ks[b2]);
    }
    assert forall|x: K| #[trigger] assoc(t).contains_key(x) == assoc(s).remove(k).contains_key(x) by {
        if kt.contains(x) {
            let j = choose|j: int| 0 <= j < kt.len() && kt[j] == x;
            let j2 = if j < i {
                j
            } else {
                j + 1
            };
            assert(ks[j2] == x);
            assert(ks[i] == k);
        }
        if ks.contains(x) && x != k {
            let j = choose|j: int| 0 <= j < ks.len() && ks[j] == x;
            assert(j != i);
            let j2 = if j < i {
                j
            } else {
                j - 1
            };
            assert(kt[j2] == x);
        }
    }
    assert forall|x: K| #[trigger] assoc(t).contains_key(x) implies assoc(t)[x] == assoc(s).remove(
        k,
    )[x] by {
        let j = choose|j: int| 0 <= j < kt.len() && kt[j] == x;
        lemma_assoc_at(t, j);
        let j2 = if j < i {
            j
        } else {
            j + 1
        };
        assert(t[j] == s[j2]);
        lemma_assoc_at(s, j2);
    }
    assert(assoc(t) =~= assoc(s).remove(k));
}

/// The map has one cell per entry.
pub proof fn lemma_assoc_len<K, V>(s: Seq<(K, V)>)
    requires
        distinct_keys(s),
    ensures
        assoc(s).dom().finite(),
        assoc(s).dom().len() == s.len(),
{
    let ks = keys_of(s);
    assert(assoc(s).dom() =~= ks.to_set());
    ks.unique_seq_to_set();
    vstd::seq_lib::seq_to_set_is_finite(ks);
}

} // verus!

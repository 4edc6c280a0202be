//! Vectors whose entries are identified by a string key, read as finite maps.
//!
//! The attention graph keeps its windows, workspaces and monitor assignments in
//! vectors with pairwise distinct keys; this module relates such a vector to the
//! map from key to entry view that the graph's contracts speak of.
use vstd::prelude::*;

verus! {

/// An entry that carries its own string key.
pub trait Keyed: View {
    spec fn key(&self) -> Seq<char>;

    /// The entry's key as a string.
    fn key_str(&self) -> (k: &String)
        ensures
            k@ == self.key(),
    ;
}

/// No two entries of `s` share a key.
pub open spec fn unique_keys<T: Keyed>(s: Seq<T>) -> bool {
    forall|i: int, j: int|
        0 <= i < s.len() && 0 <= j < s.len() && i != j ==> #[trigger] s[i].key() != #[trigger] s[j].key()
}

/// Some entry of `s` has key `k`.
pub open spec fn has_key<T: Keyed>(s: Seq<T>, k: Seq<char>) -> bool {
    exists|i: int| 0 <= i < s.len() && #[trigger] s[i].key() == k
}

/// The position of an entry with key `k` (meaningful when `has_key(s, k)`).
pub open spec fn key_index<T: Keyed>(s: Seq<T>, k: Seq<char>) -> int {
    choose|i: int| 0 <= i < s.len() && #[trigger] s[i].key() == k
}

/// The map from each key of `s` to the view of its entry.
pub open spec fn keyed_map<T: Keyed>(s: Seq<T>) -> Map<Seq<char>, T::V> {
    Map::new(|k: Seq<char>| has_key(s, k), |k: Seq<char>| s[key_index(s, k)]@)
}

/// How many entries of `s` have a view satisfying `p`.
pub open spec fn count_where<T: View>(s: Seq<T>, p: spec_fn(T::V) -> bool) -> nat
    decreases s.len(),
{
    if s.len() == 0 {
        0
    } else {
        count_where(s.drop_last(), p) + if p(s.last()@) { 1nat } else { 0nat }
    }
}

/// How many keys of `m` map to a value satisfying `p`.
pub open spec fn map_count<V>(m: Map<Seq<char>, V>, p: spec_fn(V) -> bool) -> nat {
    m.dom().filter(|k: Seq<char>| p(m[k])).len()
}

/// The entry at `i` is the one `keyed_map` reports for its key.
pub proof fn lemma_key_index<T: Keyed>(s: Seq<T>, i: int)
    requires
        unique_keys(s),
        0 <= i < s.len(),
    ensures
        has_key(s, s[i].key()),
        key_index(s, s[i].key()) == i,
        keyed_map(s).contains_key(s[i].key()),
        keyed_map(s)[s[i].key()] == s[i]@,
{
    assert(s[i].key() == s[i].key());
    let j = key_index(s, s[i].key());
    assert(0 <= j < s.len() && s[j].key() == s[i].key());
}

/// Every value of `keyed_map(s)` is the view of an entry carrying that key.
pub proof fn lemma_keyed_map_lookup<T: Keyed>(s: Seq<T>, k: Seq<char>)
    requires
        keyed_map(s).contains_key(k),
    ensures
        0 <= key_index(s, k) < s.len(),
        s[key_index(s, k)].key() == k,
        keyed_map(s)[k] == s[key_index(s, k)]@,
{
}

/// Appending an entry with a fresh key inserts it into the map.
pub proof fn lemma_keyed_map_push<T: Keyed>(s: Seq<T>, x: T)
    requires
        unique_keys(s),
        !has_key(s, x.key()),
    ensures
        unique_keys(s.push(x)),
        keyed_map(s.push(x)) == keyed_map(s).insert(x.key(), x@),
{
    let t = s.push(x);
    assert forall|i: int, j: int|
        0 <= i < t.len() && 0 <= j < t.len() && i != j implies #[trigger] t[i].key() != #[trigger] t[j].key() by {
        if i < s.len() && j < s.len() {
            assert(t[i] == s[i] && t[j] == s[j]);
        } else if i < s.len() {
            assert(t[i] == s[i]);
        } else {
            assert(t[j] == s[j]);
        }
    }
    lemma_key_index(t, s.len() as int);
    assert forall|k: Seq<char>| #[trigger] has_key(t, k) == (has_key(s, k) || k == x.key()) by {
        if has_key(s, k) {
            let i = choose|i: int| 0 <= i < s.len() && #[trigger] s[i].key() == k;
            assert(t[i] == s[i]);
        }
        if has_key(t, k) && k != x.key() {
            let i = choose|i: int| 0 <= i < t.len() && #[trigger] t[i].key() == k;
            assert(t[i] == s[i]);
        }
    }
    assert forall|k: Seq<char>| has_key(s, k) implies #[trigger] keyed_map(t)[k] == keyed_map(s)[k] by {
        let i = choose|i: int| 0 <= i < s.len() && #[trigger] s[i].key() == k;
        lemma_key_index(s, i);
        assert(t[i] == s[i]);
        lemma_key_index(t, i);
    }
    assert(keyed_map(t) =~= keyed_map(s).insert(x.key(), x@));
}

/// A vector with distinct keys has as many keys as entries.
pub proof fn lemma_keyed_map_len<T: Keyed>(s: Seq<T>)
    requires
        unique_keys(s),
    ensures
        keyed_map(s).dom().finite(),
        keyed_map(s).dom().len() == s.len(),
    decreases s.len(),
{
    if s.len() == 0 {
        assert(keyed_map(s).dom() =~= Set::empty());
    } else {
        let p = s.drop_last();
        assert(p.push(s.last()) =~= s);
        assert(unique_keys(p)) by {
            assert forall|i: int, j: int|
                0 <= i < p.len() && 0 <= j < p.len() && i != j implies #[trigger] p[i].key() != #[trigger] p[j].key() by {
                assert(p[i] == s[i] && p[j] == s[j]);
            }
        }
        assert(!has_key(p, s.last().key())) by {
            if has_key(p, s.last().key()) {
                let i = choose|i: int| 0 <= i < p.len() && #[trigger] p[i].key() == s.last().key();
                assert(p[i] == s[i]);
            }
        }
        lemma_keyed_map_len(p);
        lemma_keyed_map_push(p, s.last());
    }
}

/// Replacing an entry by one with the same key overwrites that key's value.
pub proof fn lemma_keyed_map_update<T: Keyed>(s: Seq<T>, i: int, x: T)
    requires
        unique_keys(s),
        0 <= i < s.len(),
        x.key() == s[i].key(),
    ensures
        unique_keys(s.update(i, x)),
        keyed_map(s.update(i, x)) == keyed_map(s).insert(x.key(), x@),
{
    let t = s.update(i, x);
    assert forall|a: int, b: int|
        0 <= a < t.len() && 0 <= b < t.len() && a != b implies #[trigger] t[a].key() != #[trigger] t[b].key() by {
        assert(s[a].key() != s[b].key());
    }
    assert forall|k: Seq<char>| #[trigger] has_key(t, k) == has_key(s, k) by {
        if has_key(s, k) {
            let a = choose|a: int| 0 <= a < s.len() && #[trigger] s[a].key() == k;
            assert(t[a].key() == k);
        }
        if has_key(t, k) {
            let a = choose|a: int| 0 <= a < t.len() && #[trigger] t[a].key() == k;
            assert(s[a].key() == k);
        }
    }
    lemma_key_index(t, i);
    assert forall|k: Seq<char>| has_key(s, k) && k != x.key() implies #[trigger] keyed_map(t)[k] == keyed_map(s)[k] by {
        let a = choose|a: int| 0 <= a < s.len() && #[trigger] s[a].key() == k;
        lemma_key_index(s, a);
        lemma_key_index(t, a);
    }
    lemma_key_index(s, i);
    assert(keyed_map(t) =~= keyed_map(s).insert(x.key(), x@));
}

/// Removing the entry at `i` removes its key from the map.
pub proof fn lemma_keyed_map_remove<T: Keyed>(s: Seq<T>, i: int)
    requires
        unique_keys(s),
        0 <= i < s.len(),
    ensures
        unique_keys(s.remove(i)),
        keyed_map(s.remove(i)) == keyed_map(s).remove(s[i].key()),
{
    let t = s.remove(i);
    assert forall|a: int, b: int|
        0 <= a < t.len() && 0 <= b < t.len() && a != b implies #[trigger] t[a].key() != #[trigger] t[b].key() by {
        let a2 = if a < i { a } else { a + 1 };
        let b2 = if b < i { b } else { b + 1 };
        assert(t[a] == s[a2] && t[b] == s[b2]);
        assert(s[a2].key() != s[b2].key());
    }
    assert forall|k: Seq<char>| #[trigger] has_key(t, k) == (has_key(s, k) && k != s[i].key()) by {
        if has_key(s, k) && k != s[i].key() {
            let a = choose|a: int| 0 <= a < s.len() && #[trigger] s[a].key() == k;
            if a < i {
                assert(t[a] == s[a]);
            } else {
                assert(a != i);
                assert(t[a - 1] == s[a]);
            }
        }
        if has_key(t, k) {
            let a = choose|a: int| 0 <= a < t.len() && #[trigger] t[a].key() == k;
            let a2 = if a < i { a } else { a + 1 };
            assert(t[a] == s[a2]);
            assert(s[a2].key() == k);
            assert(a2 != i);
        }
    }
    assert forall|k: Seq<char>| has_key(t, k) implies #[trigger] keyed_map(t)[k] == keyed_map(s)[k] by {
        let a = choose|a: int| 0 <= a < t.len() && #[trigger] t[a].key() == k;
        let a2 = if a < i { a } else { a + 1 };
        assert(t[a] == s[a2]);
        lemma_key_index(t, a);
        lemma_key_index(s, a2);
    }
    assert(keyed_map(t) =~= keyed_map(s).remove(s[i].key()));
}

/// Rewriting every entry in place, keeping keys, maps every value.
pub proof fn lemma_keyed_map_pointwise<T: Keyed>(s: Seq<T>, t: Seq<T>, f: spec_fn(T::V) -> T::V)
    requires
        unique_keys(s),
        t.len() == s.len(),
        forall|i: int| 0 <= i < s.len() ==> (#[trigger] t[i]).key() == s[i].key() && t[i]@ == f(s[i]@),
    ensures
        unique_keys(t),
        keyed_map(t) == keyed_map(s).map_values(f),
{
    assert forall|a: int, b: int|
        0 <= a < t.len() && 0 <= b < t.len() && a != b implies #[trigger] t[a].key() != #[trigger] t[b].key() by {
        assert(s[a].key() != s[b].key());
    }
    assert forall|k: Seq<char>| #[trigger] has_key(t, k) == has_key(s, k) by {
        if has_key(s, k) {
            let a = choose|a: int| 0 <= a < s.len() && #[trigger] s[a].key() == k;
            assert(t[a].key() == k);
        }
        if has_key(t, k) {
            let a = choose|a: int| 0 <= a < t.len() && #[trigger] t[a].key() == k;
            assert(s[a].key() == k);
        }
    }
    assert forall|k: Seq<char>| has_key(t, k) implies #[trigger] keyed_map(t)[k] == f(keyed_map(s)[k]) by {
        let a = choose|a: int| 0 <= a < t.len() && #[trigger] t[a].key() == k;
        lemma_key_index(t, a);
        lemma_key_index(s, a);
    }
    assert(keyed_map(t) =~= keyed_map(s).map_values(f));
}

/// Counting entries in the vector counts keys in the map.
pub proof fn lemma_count_where_map<T: Keyed>(s: Seq<T>, p: spec_fn(T::V) -> bool)
    requires
        unique_keys(s),
    ensures
        count_where(s, p) == map_count(keyed_map(s), p),
        keyed_map(s).dom().filter(|k: Seq<char>| p(keyed_map(s)[k])).finite(),
    decreases s.len(),
{
    let m = keyed_map(s);
    if s.len() == 0 {
        assert(m.dom().filter(|k: Seq<char>| p(m[k])) =~= Set::empty());
    } else {
        let q = s.drop_last();
        let x = s.last();
        assert(q.push(x) =~= s);
        assert(unique_keys(q)) by {
            assert forall|i: int, j: int|
                0 <= i < q.len() && 0 <= j < q.len() && i != j implies #[trigger] q[i].key() != #[trigger] q[j].key() by {
                assert(q[i] == s[i] && q[j] == s[j]);
            }
        }
        assert(!has_key(q, x.key())) by {
            if has_key(q, x.key()) {
                let i = choose|i: int| 0 <= i < q.len() && #[trigger] q[i].key() == x.key();
                assert(q[i] == s[i]);
            }
        }
        lemma_count_where_map(q, p);
        lemma_keyed_map_push(q, x);
        let mq = keyed_map(q);
        let fq = mq.dom().filter(|k: Seq<char>| p(mq[k]));
        let fs = m.dom().filter(|k: Seq<char>| p(m[k]));
        assert(!fq.contains(x.key()));
        if p(x@) {
            assert(fs =~= fq.insert(x.key()));
        } else {
            assert(fs =~= fq);
        }
    }
}

/// Looks up the position of the entry with key `k`.
pub fn find_key<T: Keyed>(s: &Vec<T>, k: &String) -> (r: Option<usize>)
    ensures
        match r {
            Some(i) => i < s@.len() && s@[i as int].key() == k@,
            None => !has_key(s@, k@),
        },
{
    let mut i: usize = 0;
    while i < s.len()
        invariant
            i <= s@.len(),
            forall|j: int| 0 <= j < i ==> #[trigger] s@[j].key() != k@,
        decreases s@.len() - i,
    {
        if *s[i].key_str() == *k {
            return Some(i);
        }
        i += 1;
    }
    None
}

/// Growing a prefix of a vector with distinct keys by one entry inserts a fresh key.
pub proof fn lemma_keyed_map_take_step<T: Keyed>(s: Seq<T>, i: int)
    requires
        unique_keys(s),
        0 <= i < s.len(),
    ensures
        unique_keys(s.take(i)),
        !has_key(s.take(i), s[i].key()),
        keyed_map(s.take(i + 1)) == keyed_map(s.take(i)).insert(s[i].key(), s[i]@),
{
    let p = s.take(i);
    assert(p.push(s[i]) =~= s.take(i + 1));
    assert forall|a: int, b: int|
        0 <= a < p.len() && 0 <= b < p.len() && a != b implies #[trigger] p[a].key() != #[trigger] p[b].key() by {
        assert(p[a] == s[a] && p[b] == s[b]);
    }
    if has_key(p, s[i].key()) {
        let a = choose|a: int| 0 <= a < p.len() && #[trigger] p[a].key() == s[i].key();
        assert(p[a] == s[a]);
    }
    lemma_keyed_map_push(p, s[i]);
}

/// The entries strictly before position `i` and the entry at `i` make up the first `i + 1`.
pub proof fn lemma_count_where_step<T: View>(s: Seq<T>, i: int, p: spec_fn(T::V) -> bool)
    requires
        0 <= i < s.len(),
    ensures
        count_where(s.take(i + 1), p) == count_where(s.take(i), p) + if p(s[i]@) { 1nat } else { 0nat },
{
    assert(s.take(i + 1).drop_last() =~= s.take(i));
}

} // verus!
